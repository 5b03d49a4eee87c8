//! Go-to-definition and find-references over project text: whole-word
//! search in lines, definition sites of tasks, resources, calendars,
//! profiles and traits, and the word under the cursor. Lines are sequences
//! of characters; the cursor's column counts characters, and the columns
//! found (occurrences, definitions, reference ranges) are byte offsets in
//! the UTF-8 text.
use vstd::prelude::*;
use crate::text::{matches_at, occurs_at, starts_with_seq, ends_with_seq};
use crate::project::{Project, find_task_in};
use crate::display::{utf8_len, utf8_width, is_char_boundary, width_of, lemma_utf8_len_grows};

verus! {

/// What std's `char::is_alphanumeric` says of `c`.
pub uninterp spec fn unicode_alphanumeric(c: char) -> bool;

/// An ASCII letter or digit.
pub open spec fn ascii_alphanumeric(c: char) -> bool {
    (48 <= c as u32 <= 57) || (65 <= c as u32 <= 90) || (97 <= c as u32 <= 122)
}

/// Alphabetic or numeric: among ASCII characters exactly the letters and
/// digits, beyond ASCII what std's `char::is_alphanumeric` says.
pub open spec fn is_alphanumeric_char(c: char) -> bool {
    if (c as u32) < 128 {
        ascii_alphanumeric(c)
    } else {
        unicode_alphanumeric(c)
    }
}

/// White space: the characters with Unicode's White_Space property, tab
/// through carriage return, space, next line, no-break space, the Ogham
/// space mark, the spaces from en quad to hair space, the line and
/// paragraph separators, the narrow no-break space, the medium
/// mathematical space and the ideographic space.
pub open spec fn is_whitespace_char(c: char) -> bool {
    let u = c as u32;
    ||| 9 <= u <= 13
    ||| u == 0x20
    ||| u == 0x85
    ||| u == 0xA0
    ||| u == 0x1680
    ||| 0x2000 <= u <= 0x200A
    ||| u == 0x2028
    ||| u == 0x2029
    ||| u == 0x202F
    ||| u == 0x205F
    ||| u == 0x3000
}

/// std's `char::is_alphanumeric`: alphabetic or numeric; among ASCII
/// characters exactly the letters and digits.
#[verifier::external_body]
fn char_is_alphanumeric(c: char) -> (r: bool)
    ensures
        r == is_alphanumeric_char(c),
        (c as u32) >= 128 ==> r == unicode_alphanumeric(c),
{
    c.is_alphanumeric()
}

/// std's `char::is_whitespace`: the Unicode White_Space property (see
/// `is_whitespace_char`).
#[verifier::external_body]
pub(crate) fn char_is_whitespace(c: char) -> (r: bool)
    ensures
        r == is_whitespace_char(c),
{
    c.is_whitespace()
}

/// Kind of a navigable symbol.
#[derive(Clone, Copy, Debug, PartialEq, Eq, Structural)]
pub enum SymbolKind {
    Task,
    Resource,
    Calendar,
    Profile,
    Trait,
}

/// A symbol definition and where its identifier stands.
#[derive(Clone, Debug)]
pub struct SymbolDefinition {
    pub id: String,
    pub kind: SymbolKind,
    pub line: u32,
    pub column: u32,
}

/// A character that can be part of an identifier.
pub open spec fn is_ident_char(c: char) -> bool {
    is_alphanumeric_char(c) || c == '_' || c == '-'
}

/// `true` for characters that can be part of an identifier: alphanumeric,
/// `_` or `-`.
pub fn is_identifier_char(c: char) -> (r: bool)
    ensures
        r == is_ident_char(c),
{
    char_is_alphanumeric(c) || c == '_' || c == '-'
}

/// Where character `i` of `line` begins, counted in UTF-8 bytes.
pub open spec fn byte_at(line: Seq<char>, i: int) -> int {
    utf8_len(line.take(i)) as int
}

/// The character that begins `b` bytes into `line` (where one does).
pub open spec fn char_at_byte(line: Seq<char>, b: int) -> int {
    choose|k: int| 0 <= k <= line.len() && utf8_len(#[trigger] line.take(k)) == b
}

/// How an occurrence of `word` at character `i` of `line` is judged, as the
/// search does it: the characters checked on either side are looked up by
/// character position at the byte offsets `p - 1` and `p + w` (`p` the byte
/// offset of the occurrence, `w` the byte length of the word). `None` when
/// such a position lies past the last character, which ends the search;
/// otherwise whether neither neighbour is an identifier character.
pub open spec fn word_check(line: Seq<char>, word: Seq<char>, i: int) -> Option<bool> {
    let p = byte_at(line, i);
    let q = p + utf8_len(word);
    let total = utf8_len(line);
    if (p != 0 && p - 1 >= line.len()) || (q < total && q >= line.len()) {
        None
    } else {
        Some((p == 0 || !is_ident_char(line[p - 1])) && (q >= total || !is_ident_char(line[q])))
    }
}

/// The character position of the first occurrence of `word` in `line`,
/// from character `start` on, that the search accepts as a whole
/// identifier (see `word_check`); `None` when there is none or the search
/// ends early.
pub open spec fn first_whole_word(line: Seq<char>, word: Seq<char>, start: int) -> Option<int>
    decreases line.len() + 1 - start,
{
    if start < 0 || start > line.len() {
        None
    } else if occurs_at(line, word, start) {
        match word_check(line, word, start) {
            None => None,
            Some(true) => Some(start),
            Some(false) => first_whole_word(line, word, start + 1),
        }
    } else {
        first_whole_word(line, word, start + 1)
    }
}

/// The search from character `start` on can go on past every occurrence it
/// turns down: the search resumes one byte further on, which must be the
/// start of the next character.
pub open spec fn scan_safe(line: Seq<char>, word: Seq<char>, start: int) -> bool
    decreases line.len() + 1 - start,
{
    if start < 0 || start > line.len() {
        true
    } else if occurs_at(line, word, start) {
        match word_check(line, word, start) {
            Some(false) => start < line.len() && utf8_width(line[start]) == 1 && scan_safe(line, word, start + 1),
            _ => true,
        }
    } else {
        scan_safe(line, word, start + 1)
    }
}

proof fn lemma_no_word_beyond(line: Seq<char>, word: Seq<char>, i: int)
    requires
        0 <= i,
        i + word.len() > line.len(),
    ensures
        first_whole_word(line, word, i) is None,
    decreases line.len() + 1 - i,
{
    if i <= line.len() {
        lemma_no_word_beyond(line, word, i + 1);
    }
}

proof fn lemma_byte_step(line: Seq<char>, i: int)
    requires
        0 <= i < line.len(),
    ensures
        byte_at(line, i + 1) == byte_at(line, i) + utf8_width(line[i]),
{
    assert(line.take(i + 1).drop_last() =~= line.take(i));
}

proof fn lemma_utf8_add(a: Seq<char>, b: Seq<char>)
    ensures
        utf8_len(a + b) == utf8_len(a) + utf8_len(b),
    decreases b.len(),
{
    if b.len() > 0 {
        lemma_utf8_add(a, b.drop_last());
        assert((a + b).drop_last() =~= a + b.drop_last());
        assert((a + b).last() == b.last());
    } else {
        assert(a + b =~= a);
    }
}

proof fn lemma_utf8_at_least(s: Seq<char>)
    ensures
        utf8_len(s) >= s.len(),
    decreases s.len(),
{
    if s.len() > 0 {
        lemma_utf8_at_least(s.drop_last());
    }
}

proof fn lemma_byte_at_within(line: Seq<char>, i: int)
    requires
        0 <= i <= line.len(),
    ensures
        0 <= byte_at(line, i) <= utf8_len(line),
{
    assert(line =~= line.take(i) + line.skip(i));
    lemma_utf8_add(line.take(i), line.skip(i));
}

proof fn lemma_occurrence_bytes(line: Seq<char>, word: Seq<char>, i: int)
    requires
        occurs_at(line, word, i),
    ensures
        byte_at(line, i + word.len()) == byte_at(line, i) + utf8_len(word),
        byte_at(line, i + word.len()) <= utf8_len(line),
{
    assert(line.take(i + word.len()) =~= line.take(i) + line.subrange(i, i + word.len()));
    lemma_utf8_add(line.take(i), word);
    lemma_byte_at_within(line, i + word.len());
}

proof fn lemma_subrange_bytes(line: Seq<char>, a: int, b: int)
    requires
        0 <= a <= b <= line.len(),
    ensures
        utf8_len(line.subrange(a, b)) <= utf8_len(line),
{
    assert(line =~= line.take(a) + line.subrange(a, b) + line.skip(b));
    lemma_utf8_add(line.take(a), line.subrange(a, b));
    lemma_utf8_add(line.take(a) + line.subrange(a, b), line.skip(b));
}

/// The byte offset of each character of `line`, and of its end.
pub(crate) fn byte_offsets(line: &[char]) -> (r: Vec<usize>)
    requires
        utf8_len(line@) <= usize::MAX,
    ensures
        r@.len() == line@.len() + 1,
        forall|i: int| 0 <= i <= line@.len() ==> #[trigger] r@[i] == byte_at(line@, i),
{
    let n = line.len();
    let mut r: Vec<usize> = Vec::new();
    let mut total: usize = 0;
    r.push(0);
    assert(line@.take(0) =~= Seq::<char>::empty());
    let mut i: usize = 0;
    while i < n
        invariant
            n == line@.len(),
            utf8_len(line@) <= usize::MAX,
            i <= n,
            r@.len() == i + 1,
            total == byte_at(line@, i as int),
            forall|j: int| 0 <= j <= i ==> #[trigger] r@[j] == byte_at(line@, j),
        decreases n - i,
    {
        proof {
            lemma_byte_step(line@, i as int);
            assert(line@.take(n as int) =~= line@);
            if i + 1 < n {
                lemma_utf8_len_grows(line@, i + 1, n as int);
            }
        }
        total = total + width_of(line[i]);
        r.push(total);
        i = i + 1;
    }
    r
}

/// The number of UTF-8 bytes of `s`.
pub(crate) fn utf8_length(s: &[char]) -> (r: usize)
    requires
        utf8_len(s@) <= usize::MAX,
    ensures
        r == utf8_len(s@),
{
    let offs = byte_offsets(s);
    assert(s@.take(s@.len() as int) =~= s@);
    offs[s.len()]
}

/// The character that begins at byte offset `b` of a line whose offsets
/// are `offs`.
fn char_index_of(line: &[char], offs: &Vec<usize>, b: usize) -> (k: usize)
    requires
        offs@.len() == line@.len() + 1,
        forall|i: int| 0 <= i <= line@.len() ==> #[trigger] offs@[i] == byte_at(line@, i),
        is_char_boundary(line@, b as int),
    ensures
        k <= line@.len(),
        byte_at(line@, k as int) == b,
        k == char_at_byte(line@, b as int),
{
    let n = line.len();
    let mut k: usize = 0;
    while k < n && offs[k] != b
        invariant
            k <= n == line@.len(),
            offs@.len() == n + 1,
            forall|i: int| 0 <= i <= line@.len() ==> #[trigger] offs@[i] == byte_at(line@, i),
            forall|j: int| 0 <= j < k ==> byte_at(line@, j) != b,
        decreases n - k,
    {
        k = k + 1;
    }
    proof {
        let k0 = char_at_byte(line@, b as int);
        assert(utf8_len(line@.take(k0)) == b);
        if k0 < k {
            assert(byte_at(line@, k0) != b);
        }
        if k == n && offs@[k as int] != b {
            assert(k0 <= n);
            if k0 < n {
                assert(byte_at(line@, k0) != b);
            }
        }
        if k0 > k {
            lemma_utf8_len_grows(line@, k as int, k0);
        }
    }
    k
}

fn search_word(line: &[char], offs: &Vec<usize>, total: usize, word: &[char], wb: usize, k: usize) -> (r: Option<usize>)
    requires
        offs@.len() == line@.len() + 1,
        forall|j: int| 0 <= j <= line@.len() ==> #[trigger] offs@[j] == byte_at(line@, j),
        total == utf8_len(line@),
        wb == utf8_len(word@),
        k <= line@.len(),
        scan_safe(line@, word@, k as int),
    ensures
        match first_whole_word(line@, word@, k as int) {
            Some(i) => r == Some(i as usize),
            None => r is None,
        },
{
    let n = line.len();
    let w = word.len();
    let m = offs.len();
    assert(m == n + 1);
    let mut i = k;
    while i <= n && w <= n - i
        invariant
            n == line@.len(),
            n < usize::MAX,
            w == word@.len(),
            offs@.len() == n + 1,
            forall|j: int| 0 <= j <= line@.len() ==> #[trigger] offs@[j] == byte_at(line@, j),
            total == utf8_len(line@),
            wb == utf8_len(word@),
            k <= i,
            first_whole_word(line@, word@, k as int) == first_whole_word(line@, word@, i as int),
            scan_safe(line@, word@, i as int),
        decreases n + 1 - i,
    {
        if matches_at(line, word, i) {
            let p = offs[i];
            proof {
                lemma_occurrence_bytes(line@, word@, i as int);
            }
            let q = p + wb;
            if (p != 0 && p - 1 >= n) || (q < total && q >= n) {
                return None;
            }
            let before_ok = p == 0 || !is_identifier_char(line[p - 1]);
            let after_ok = q >= total || !is_identifier_char(line[q]);
            if before_ok && after_ok {
                return Some(i);
            }
        }
        i = i + 1;
    }
    proof {
        lemma_no_word_beyond(line@, word@, i as int);
    }
    None
}

/// The byte offset of the first occurrence of `word` in `line`, from byte
/// offset `start` on, that the search accepts as a whole identifier (see
/// `first_whole_word`).
pub fn find_word_in_line(line: &[char], word: &[char], start: usize) -> (r: Option<usize>)
    requires
        utf8_len(line@) <= usize::MAX,
        utf8_len(word@) <= usize::MAX,
        is_char_boundary(line@, start as int),
        scan_safe(line@, word@, char_at_byte(line@, start as int)),
    ensures
        match first_whole_word(line@, word@, char_at_byte(line@, start as int)) {
            Some(i) => r == Some(byte_at(line@, i) as usize),
            None => r is None,
        },
{
    let offs = byte_offsets(line);
    let wb = utf8_length(word);
    let k = char_index_of(line, &offs, start);
    let total = offs[line.len()];
    assert(line@.take(line@.len() as int) =~= line@);
    match search_word(line, &offs, total, word, wb, k) {
        Some(i) => {
            proof {
                lemma_first_word_at_least(line@, word@, k as int);
            }
            Some(offs[i])
        },
        None => None,
    }
}

/// `s` without its leading whitespace.
pub open spec fn trim_start_seq(s: Seq<char>) -> Seq<char>
    decreases s.len(),
{
    if s.len() > 0 && is_whitespace_char(s[0]) {
        trim_start_seq(s.drop_first())
    } else {
        s
    }
}

/// `s` without its trailing whitespace.
pub open spec fn trim_end_seq(s: Seq<char>) -> Seq<char>
    decreases s.len(),
{
    if s.len() > 0 && is_whitespace_char(s.last()) {
        trim_end_seq(s.drop_last())
    } else {
        s
    }
}

proof fn lemma_trim_start_suffix(s: Seq<char>)
    ensures
        trim_start_seq(s).len() <= s.len(),
        trim_start_seq(s) == s.skip(s.len() - trim_start_seq(s).len()),
    decreases s.len(),
{
    if s.len() > 0 && is_whitespace_char(s[0]) {
        lemma_trim_start_suffix(s.drop_first());
        assert(s.drop_first().skip(s.drop_first().len() - trim_start_seq(s).len()) =~= s.skip(
            s.len() - trim_start_seq(s).len(),
        ));
    } else {
        assert(s.skip(0) =~= s);
    }
}

/// Number of leading whitespace characters of `s[from..]`.
pub(crate) fn leading_whitespace(s: &[char], from: usize) -> (r: usize)
    requires
        from <= s@.len(),
    ensures
        from + r <= s@.len(),
        trim_start_seq(s@.skip(from as int)) == s@.skip(from + r),
{
    let mut i = from;
    while i < s.len() && char_is_whitespace(s[i])
        invariant
            from <= i <= s@.len(),
            trim_start_seq(s@.skip(from as int)) == trim_start_seq(s@.skip(i as int)),
        decreases s@.len() - i,
    {
        assert(s@.skip(i as int).drop_first() =~= s@.skip(i + 1));
        i = i + 1;
    }
    proof {
        if i < s@.len() {
            assert(s@.skip(i as int)[0] == s@[i as int]);
        }
    }
    i - from
}

/// Length of `s[..to]` without its trailing whitespace.
pub(crate) fn trimmed_end(s: &[char], to: usize) -> (r: usize)
    requires
        to <= s@.len(),
    ensures
        r <= to,
        trim_end_seq(s@.take(to as int)) == s@.take(r as int),
{
    let mut i = to;
    while i > 0 && char_is_whitespace(s[i - 1])
        invariant
            i <= to <= s@.len(),
            trim_end_seq(s@.take(to as int)) == trim_end_seq(s@.take(i as int)),
        decreases i,
    {
        assert(s@.take(i as int).drop_last() =~= s@.take(i - 1));
        i = i - 1;
    }
    i
}

/// Whether `s[from..]` starts with `prefix`.
fn starts_with_at(s: &[char], from: usize, prefix: &str) -> (r: bool)
    requires
        from <= s@.len(),
    ensures
        r == starts_with_seq(s@.skip(from as int), prefix@),
{
    let p = crate::text::chars_of(prefix);
    let r = matches_at(s, p.as_slice(), from);
    proof {
        if r {
            assert(s@.skip(from as int).subrange(0, p@.len() as int) =~= s@.subrange(
                from as int,
                from + p@.len(),
            ));
        } else if p@.len() <= s@.len() - from {
            assert(s@.skip(from as int).subrange(0, p@.len() as int) =~= s@.subrange(
                from as int,
                from + p@.len(),
            ));
        }
    }
    r
}

/// Whether `s[..to]` ends with `suffix`.
fn ends_with_before(s: &[char], to: usize, suffix: &str) -> (r: bool)
    requires
        to <= s@.len(),
    ensures
        r == ends_with_seq(s@.take(to as int), suffix@),
{
    let p = crate::text::chars_of(suffix);
    if p.len() > to {
        return false;
    }
    let r = matches_at(s, p.as_slice(), to - p.len());
    proof {
        assert(s@.take(to as int).subrange(to - p@.len(), to as int) =~= s@.subrange(to - p@.len(), to as int));
    }
    r
}

/// The keyword that introduces a definition of each kind.
pub open spec fn def_keyword(kind: SymbolKind) -> Seq<char> {
    match kind {
        SymbolKind::Task => "task"@,
        SymbolKind::Resource => "resource"@,
        SymbolKind::Calendar => "calendar"@,
        SymbolKind::Profile => "resource_profile"@,
        SymbolKind::Trait => "trait"@,
    }
}

/// The text before column `col` of `line`, less trailing whitespace, ends
/// with the keyword that defines a symbol of this kind (`task` or
/// `milestone` for tasks; `resource` but not `resource_profile` for
/// resources).
pub open spec fn definition_site(line: Seq<char>, col: int, kind: SymbolKind) -> bool {
    let p = trim_end_seq(line.take(col));
    match kind {
        SymbolKind::Task => ends_with_seq(p, "task"@) || ends_with_seq(p, "milestone"@),
        SymbolKind::Resource => ends_with_seq(p, "resource"@) && !ends_with_seq(p, "resource_profile"@),
        SymbolKind::Calendar => ends_with_seq(p, "calendar"@),
        SymbolKind::Profile => ends_with_seq(p, "resource_profile"@),
        SymbolKind::Trait => ends_with_seq(p, "trait"@),
    }
}

fn definition_site_at(line: &[char], col: usize, kind: &SymbolKind) -> (r: bool)
    requires
        col <= line@.len(),
    ensures
        r == definition_site(line@, col as int, *kind),
{
    let end = trimmed_end(line, col);
    proof {
        assert(line@.take(col as int).take(end as int) =~= line@.take(end as int));
    }
    match kind {
        SymbolKind::Task => ends_with_before(line, end, "task") || ends_with_before(line, end, "milestone"),
        SymbolKind::Resource => ends_with_before(line, end, "resource") && !ends_with_before(
            line,
            end,
            "resource_profile",
        ),
        SymbolKind::Calendar => ends_with_before(line, end, "calendar"),
        SymbolKind::Profile => ends_with_before(line, end, "resource_profile"),
        SymbolKind::Trait => ends_with_before(line, end, "trait"),
    }
}

/// Whether the word at byte offset `col` of `line` is where a symbol of
/// the given kind is defined (it follows the defining keyword).
pub fn is_definition_site(line: &[char], col: usize, word: &[char], kind: &SymbolKind) -> (r: bool)
    requires
        utf8_len(line@) <= usize::MAX,
        is_char_boundary(line@, col as int),
    ensures
        r == definition_site(line@, char_at_byte(line@, col as int), *kind),
{
    let offs = byte_offsets(line);
    let c = char_index_of(line, &offs, col);
    definition_site_at(line, c, kind)
}

/// A character that may follow the identifier in a definition.
pub open spec fn ends_definition_id(c: char) -> bool {
    c == ' ' || c == '\t' || c == '"' || c == '{'
}

/// The byte offset of `id` in a line of the form `keyword <whitespace> id
/// ...` (after optional indentation). The character looked at after `id`
/// is the one at the character position equal to the byte length of `id`,
/// counted from where `id` begins; the match stands when there is no such
/// character or it is a blank, a tab, a quote or a brace.
pub open spec fn definition_pattern(line: Seq<char>, keyword: Seq<char>, id: Seq<char>) -> Option<int> {
    let t = trim_start_seq(line);
    let indent = line.len() - t.len();
    if !starts_with_seq(t, keyword) {
        None
    } else {
        let ak = t.skip(keyword.len() as int);
        if ak.len() == 0 || !is_whitespace_char(ak[0]) {
            None
        } else {
            let a = trim_start_seq(ak);
            if starts_with_seq(a, id) && (a.len() <= utf8_len(id) || ends_definition_id(a[utf8_len(id) as int])) {
                Some(byte_at(line, indent + keyword.len() + (ak.len() - a.len())))
            } else {
                None
            }
        }
    }
}

/// The byte offset where `id` is defined in `line` by `keyword <id>`.
pub fn find_definition_pattern(line: &[char], keyword: &str, id: &str) -> (r: Option<usize>)
    requires
        utf8_len(line@) <= usize::MAX,
        utf8_len(id@) <= usize::MAX,
    ensures
        match r {
            Some(c) => definition_pattern(line@, keyword@, id@) == Some(c as int),
            None => definition_pattern(line@, keyword@, id@) is None,
        },
{
    let n = line.len();
    let indent = leading_whitespace(line, 0);
    assert(line@.skip(0) =~= line@);
    proof {
        lemma_trim_start_suffix(line@);
    }
    if !starts_with_at(line, indent, keyword) {
        return None;
    }
    let kw = crate::text::chars_of(keyword);
    let keyword_end = indent + kw.len();
    assert(line@.skip(indent as int).skip(kw@.len() as int) =~= line@.skip(keyword_end as int));
    if keyword_end >= n || !char_is_whitespace(line[keyword_end]) {
        proof {
            if keyword_end < n {
                assert(line@.skip(keyword_end as int)[0] == line@[keyword_end as int]);
            }
        }
        return None;
    }
    assert(line@.skip(keyword_end as int)[0] == line@[keyword_end as int]);
    let spaces = leading_whitespace(line, keyword_end);
    let id_start = keyword_end + spaces;
    if !starts_with_at(line, id_start, id) {
        return None;
    }
    let idc = crate::text::chars_of(id);
    let idb = utf8_length(idc.as_slice());
    let offs = byte_offsets(line);
    let rest = n - id_start;
    let ok = if rest <= idb {
        true
    } else {
        let c = line[id_start + idb];
        assert(line@.skip(id_start as int)[idb as int] == c);
        c == ' ' || c == '\t' || c == '"' || c == '{'
    };
    if ok {
        Some(offs[id_start])
    } else {
        None
    }
}

/// A line without the carriage return that ended it, if any.
pub open spec fn strip_cr(l: Seq<char>) -> Seq<char> {
    if l.len() > 0 && l.last() == '\r' {
        l.drop_last()
    } else {
        l
    }
}

/// Reading `s` left to right: the finished lines and the line in progress.
pub open spec fn line_state(s: Seq<char>) -> (Seq<Seq<char>>, Seq<char>)
    decreases s.len(),
{
    if s.len() == 0 {
        (Seq::empty(), Seq::empty())
    } else {
        let (done, cur) = line_state(s.drop_last());
        if s.last() == '\n' {
            (done.push(strip_cr(cur)), Seq::empty())
        } else {
            (done, cur.push(s.last()))
        }
    }
}

/// The lines of a text as std's `str::lines` gives them: split at `\n`,
/// a `\r` before the `\n` removed, no empty line after a final `\n`.
pub open spec fn lines_of(s: Seq<char>) -> Seq<Seq<char>> {
    let (done, cur) = line_state(s);
    if cur.len() == 0 {
        done
    } else {
        done.push(cur)
    }
}

/// The lines of a text (see `lines_of`).
pub fn text_lines(text: &[char]) -> (r: Vec<Vec<char>>)
    ensures
        r.deep_view() == lines_of(text@),
{
    let mut done: Vec<Vec<char>> = Vec::new();
    let mut cur: Vec<char> = Vec::new();
    let mut i: usize = 0;
    while i < text.len()
        invariant
            i <= text@.len(),
            line_state(text@.take(i as int)) == (done.deep_view(), cur@),
        decreases text@.len() - i,
    {
        assert(text@.take(i + 1).drop_last() =~= text@.take(i as int));
        let c = text[i];
        if c == '\n' {
            let ghost before = done.deep_view();
            if cur.len() > 0 && cur[cur.len() - 1] == '\r' {
                cur.pop();
            }
            done.push(cur);
            cur = Vec::new();
            assert(done.deep_view() =~~= before.push(strip_cr(line_state(text@.take(i as int)).1)));
        } else {
            cur.push(c);
        }
        i = i + 1;
    }
    assert(text@.take(text@.len() as int) =~= text@);
    if cur.len() > 0 {
        let ghost before = done.deep_view();
        done.push(cur);
        assert(done.deep_view() =~~= before.push(line_state(text@).1));
    }
    done
}

/// Start of the run of identifier characters that ends at `col`.
pub open spec fn ident_run_start(line: Seq<char>, col: int) -> int
    decreases col,
{
    if col > 0 && col <= line.len() && is_ident_char(line[col - 1]) {
        ident_run_start(line, col - 1)
    } else {
        col
    }
}

/// End of the run of identifier characters that starts at `col`.
pub open spec fn ident_run_end(line: Seq<char>, col: int) -> int
    decreases line.len() - col,
{
    if 0 <= col < line.len() && is_ident_char(line[col]) {
        ident_run_end(line, col + 1)
    } else {
        col
    }
}

/// The identifier around column `col` of line `ln` of the text.
pub open spec fn word_at_position(text: Seq<char>, ln: int, col: int) -> Option<Seq<char>> {
    let lines = lines_of(text);
    if ln < 0 || ln >= lines.len() || col < 0 || col > lines[ln].len() {
        None
    } else {
        let l = lines[ln];
        let s = ident_run_start(l, col);
        let e = ident_run_end(l, col);
        if s == e {
            None
        } else {
            Some(l.subrange(s, e))
        }
    }
}

proof fn lemma_run_start(line: Seq<char>, col: int)
    requires
        0 <= col <= line.len(),
    ensures
        0 <= ident_run_start(line, col) <= col,
    decreases col,
{
    if col > 0 && is_ident_char(line[col - 1]) {
        lemma_run_start(line, col - 1);
    }
}

proof fn lemma_run_end(line: Seq<char>, col: int)
    requires
        0 <= col <= line.len(),
    ensures
        col <= ident_run_end(line, col) <= line.len(),
    decreases line.len() - col,
{
    if col < line.len() && is_ident_char(line[col]) {
        lemma_run_end(line, col + 1);
    }
}

/// The identifier at a position (line and character column) of the text.
pub fn get_word_at_position(text: &[char], line: u32, character: u32) -> (r: Option<String>)
    ensures
        match r {
            Some(w) => word_at_position(text@, line as int, character as int) == Some(w@),
            None => word_at_position(text@, line as int, character as int) is None,
        },
{
    let lines = text_lines(text);
    let ln = line as usize;
    if ln >= lines.len() {
        return None;
    }
    let l = &lines[ln];
    let col = character as usize;
    assert(l@ == lines.deep_view()[ln as int]);
    if col > l.len() {
        return None;
    }
    let mut start = col;
    while start > 0 && is_identifier_char(l[start - 1])
        invariant
            start <= col <= l@.len(),
            ident_run_start(l@, col as int) == ident_run_start(l@, start as int),
        decreases start,
    {
        start = start - 1;
    }
    let mut end = col;
    while end < l.len() && is_identifier_char(l[end])
        invariant
            col <= end <= l@.len(),
            ident_run_end(l@, col as int) == ident_run_end(l@, end as int),
        decreases l@.len() - end,
    {
        end = end + 1;
    }
    if start == end {
        return None;
    }
    let mut w = String::new();
    let mut k = start;
    while k < end
        invariant
            start <= k <= end <= l@.len(),
            w@ == l@.subrange(start as int, k as int),
        decreases end - k,
    {
        crate::text::push_char(&mut w, l[k]);
        assert(l@.subrange(start as int, k + 1) =~= l@.subrange(start as int, k as int).push(l@[k as int]));
        k = k + 1;
    }
    Some(w)
}

/// The whole-word occurrences of `word` in line `k`, the search resuming
/// after each one from character `start` on: line, byte offset, and
/// whether it is a definition site of `kind`.
pub open spec fn line_hits(line: Seq<char>, word: Seq<char>, kind: SymbolKind, k: int, start: int) -> Seq<(int, int, bool)>
    decreases line.len() + 1 - start,
{
    match first_whole_word(line, word, start) {
        Some(i) => if start < i + word.len() <= line.len() {
            seq![(k, byte_at(line, i), definition_site(line, i, kind))] + line_hits(line, word, kind, k, i + word.len())
        } else {
            Seq::empty()
        },
        None => Seq::empty(),
    }
}

/// The search of a line for `word` from character `start` on ends: no
/// search panics, and each occurrence found lies past where the search
/// began (an empty word found again where it was would be found forever).
pub open spec fn line_scan_ok(line: Seq<char>, word: Seq<char>, start: int) -> bool
    decreases line.len() + 1 - start,
{
    &&& scan_safe(line, word, start)
    &&& match first_whole_word(line, word, start) {
        Some(i) => if start < i + word.len() <= line.len() {
            line_scan_ok(line, word, i + word.len())
        } else {
            false
        },
        None => true,
    }
}

/// The search for `word` ends on every line.
pub open spec fn lines_scan_ok(lines: Seq<Seq<char>>, word: Seq<char>) -> bool {
    forall|j: int| 0 <= j < lines.len() ==> line_scan_ok(#[trigger] lines[j], word, 0)
}

/// The occurrences in the first `k` lines, line by line.
pub open spec fn hits_until(lines: Seq<Seq<char>>, word: Seq<char>, kind: SymbolKind, k: int) -> Seq<(int, int, bool)>
    decreases k,
{
    if k <= 0 || k > lines.len() {
        Seq::empty()
    } else {
        hits_until(lines, word, kind, k - 1) + line_hits(lines[k - 1], word, kind, k - 1, 0)
    }
}

/// The occurrences as integers.
pub open spec fn hits_view(r: Seq<(u32, u32, bool)>) -> Seq<(int, int, bool)> {
    r.map_values(|t: (u32, u32, bool)| (t.0 as int, t.1 as int, t.2))
}

proof fn lemma_first_word_at_least(line: Seq<char>, word: Seq<char>, start: int)
    ensures
        first_whole_word(line, word, start) matches Some(i) ==> start <= i <= line.len() && occurs_at(line, word, i),
    decreases line.len() + 1 - start,
{
    if 0 <= start <= line.len() {
        if occurs_at(line, word, start) {
            if word_check(line, word, start) == Some(false) {
                lemma_first_word_at_least(line, word, start + 1);
            }
        } else {
            lemma_first_word_at_least(line, word, start + 1);
        }
    }
}

/// Every whole-word occurrence of `word` in the text: line, byte offset,
/// and whether it is where a symbol of `kind` is defined.
pub fn find_all_occurrences(text: &[char], word: &[char], kind: &SymbolKind) -> (r: Vec<(u32, u32, bool)>)
    requires
        utf8_len(text@) <= u32::MAX,
        utf8_len(word@) <= usize::MAX,
        lines_scan_ok(lines_of(text@), word@),
    ensures
        hits_view(r@) == hits_until(lines_of(text@), word@, *kind, lines_of(text@).len() as int),
{
    let lines = text_lines(text);
    proof {
        lemma_lines_fit_bytes(text@);
    }
    let ghost ls = lines.deep_view();
    let wb = utf8_length(word);
    let mut r: Vec<(u32, u32, bool)> = Vec::new();
    let mut k: usize = 0;
    while k < lines.len()
        invariant
            ls == lines.deep_view(),
            ls == lines_of(text@),
            lines_scan_ok(ls, word@),
            wb == utf8_len(word@),
            ls.len() <= u32::MAX,
            forall|j: int| 0 <= j < ls.len() ==> #[trigger] utf8_len(ls[j]) <= u32::MAX,
            k <= ls.len(),
            hits_view(r@) == hits_until(ls, word@, *kind, k as int),
        decreases ls.len() - k,
    {
        let line = &lines[k];
        assert(line@ == ls[k as int]);
        assert(line_scan_ok(ls[k as int], word@, 0));
        let offs = byte_offsets(line.as_slice());
        let total = offs[line.len()];
        assert(line@.take(line@.len() as int) =~= line@);
        let ghost base = hits_view(r@);
        let mut start: usize = 0;
        while start <= line.len()
            invariant
                line@ == ls[k as int],
                utf8_len(line@) <= u32::MAX,
                offs@.len() == line@.len() + 1,
                forall|j: int| 0 <= j <= line@.len() ==> #[trigger] offs@[j] == byte_at(line@, j),
                total == utf8_len(line@),
                wb == utf8_len(word@),
                k < ls.len() <= u32::MAX,
                start <= line@.len() + 1,
                start <= line@.len() ==> line_scan_ok(line@, word@, start as int),
                base + line_hits(line@, word@, *kind, k as int, 0) == hits_view(r@) + line_hits(
                    line@,
                    word@,
                    *kind,
                    k as int,
                    start as int,
                ),
            ensures
                base + line_hits(line@, word@, *kind, k as int, 0) == hits_view(r@),
            decreases line@.len() + 1 - start,
        {
            proof {
                lemma_first_word_at_least(line@, word@, start as int);
            }
            match search_word(line.as_slice(), &offs, total, word, wb, start) {
                Some(i) => {
                    let is_def = definition_site_at(line.as_slice(), i, kind);
                    let col = offs[i];
                    proof {
                        lemma_byte_at_within(line@, i as int);
                    }
                    let ghost old_r = hits_view(r@);
                    r.push((k as u32, col as u32, is_def));
                    assert(hits_view(r@) =~= old_r.push((k as int, col as int, is_def)));
                    assert(line_hits(line@, word@, *kind, k as int, start as int) =~= seq![
                        (k as int, col as int, is_def),
                    ] + line_hits(line@, word@, *kind, k as int, i + word@.len()));
                    assert(old_r.push((k as int, col as int, is_def)) + line_hits(
                        line@,
                        word@,
                        *kind,
                        k as int,
                        i + word@.len(),
                    ) =~= old_r + (seq![(k as int, col as int, is_def)] + line_hits(
                        line@,
                        word@,
                        *kind,
                        k as int,
                        i + word@.len(),
                    )));
                    start = i + word.len();
                },
                None => {
                    assert(line_hits(line@, word@, *kind, k as int, start as int) =~= Seq::<(int, int, bool)>::empty());
                    assert(hits_view(r@) + Seq::<(int, int, bool)>::empty() =~= hits_view(r@));
                    break;
                },
            }
        }
        k = k + 1;
    }
    r
}

proof fn lemma_lines_fit_bytes(text: Seq<char>)
    ensures
        lines_of(text).len() <= utf8_len(text),
        forall|j: int| 0 <= j < lines_of(text).len() ==> #[trigger] utf8_len(lines_of(text)[j]) <= utf8_len(text),
{
    lemma_line_state_fit(text);
    lemma_line_state_fit_bytes(text);
    lemma_utf8_at_least(text);
}

proof fn lemma_line_state_fit_bytes(s: Seq<char>)
    ensures
        forall|j: int| 0 <= j < line_state(s).0.len() ==> #[trigger] utf8_len(line_state(s).0[j]) <= utf8_len(s),
        utf8_len(line_state(s).1) <= utf8_len(s),
    decreases s.len(),
{
    if s.len() > 0 {
        let t = s.drop_last();
        lemma_line_state_fit_bytes(t);
        let (done, cur) = line_state(t);
        if s.last() == '\n' {
            if cur.len() > 0 && cur.last() == '\r' {
                assert(utf8_len(strip_cr(cur)) <= utf8_len(cur));
            }
        } else {
            assert(cur.push(s.last()).drop_last() =~= cur);
        }
    }
}

proof fn lemma_lines_fit(text: Seq<char>)
    requires
        text.len() <= u32::MAX,
    ensures
        lines_of(text).len() <= text.len(),
        forall|j: int| 0 <= j < lines_of(text).len() ==> #[trigger] lines_of(text)[j].len() <= text.len(),
{
    lemma_line_state_fit(text);
}

proof fn lemma_line_state_fit(s: Seq<char>)
    ensures
        line_state(s).0.len() + line_state(s).1.len() <= s.len(),
        forall|j: int| 0 <= j < line_state(s).0.len() ==> #[trigger] line_state(s).0[j].len() <= s.len(),
        line_state(s).1.len() <= s.len(),
        line_state(s).1.len() > 0 ==> line_state(s).0.len() < s.len(),
    decreases s.len(),
{
    if s.len() > 0 {
        lemma_line_state_fit(s.drop_last());
    }
}

/// The column where `line` defines `id` as a symbol of `kind`: after
/// `task` or `milestone` for tasks, after `resource` (on a line that starts
/// with `resource ` and not `resource_profile`) for resources, after
/// `calendar`, `resource_profile` or `trait` for the others.
pub open spec fn line_definition(line: Seq<char>, kind: SymbolKind, id: Seq<char>) -> Option<int> {
    match kind {
        SymbolKind::Task => match definition_pattern(line, "task"@, id) {
            Some(c) => Some(c),
            None => definition_pattern(line, "milestone"@, id),
        },
        SymbolKind::Resource => {
            let t = trim_start_seq(line);
            if starts_with_seq(t, "resource "@) && !starts_with_seq(t, "resource_profile"@) {
                definition_pattern(line, "resource"@, id)
            } else {
                None
            }
        },
        SymbolKind::Calendar => definition_pattern(line, "calendar"@, id),
        SymbolKind::Profile => definition_pattern(line, "resource_profile"@, id),
        SymbolKind::Trait => definition_pattern(line, "trait"@, id),
    }
}

/// The first line, from line `k` on, that defines `id` as a symbol of
/// `kind`, with the column of the identifier.
pub open spec fn first_definition(lines: Seq<Seq<char>>, kind: SymbolKind, id: Seq<char>, k: int) -> Option<(int, int)>
    decreases lines.len() - k,
{
    if k < 0 || k >= lines.len() {
        None
    } else {
        match line_definition(lines[k], kind, id) {
            Some(c) => Some((k, c)),
            None => first_definition(lines, kind, id, k + 1),
        }
    }
}

fn line_definition_exec(line: &[char], kind: &SymbolKind, id: &str) -> (r: Option<usize>)
    requires
        utf8_len(line@) <= usize::MAX,
        utf8_len(id@) <= usize::MAX,
    ensures
        match r {
            Some(c) => line_definition(line@, *kind, id@) == Some(c as int),
            None => line_definition(line@, *kind, id@) is None,
        },
{
    match kind {
        SymbolKind::Task => match find_definition_pattern(line, "task", id) {
            Some(c) => Some(c),
            None => find_definition_pattern(line, "milestone", id),
        },
        SymbolKind::Resource => {
            let indent = leading_whitespace(line, 0);
            assert(line@.skip(0) =~= line@);
            if starts_with_at(line, indent, "resource ") && !starts_with_at(line, indent, "resource_profile") {
                find_definition_pattern(line, "resource", id)
            } else {
                None
            }
        },
        SymbolKind::Calendar => find_definition_pattern(line, "calendar", id),
        SymbolKind::Profile => find_definition_pattern(line, "resource_profile", id),
        SymbolKind::Trait => find_definition_pattern(line, "trait", id),
    }
}

/// Where the text defines `id` as a symbol of `kind`: the first such line
/// and the column of the identifier.
pub fn find_kind_definition(lines: &Vec<Vec<char>>, kind: &SymbolKind, id: &str) -> (r: Option<(u32, u32)>)
    requires
        lines@.len() <= u32::MAX,
        forall|j: int| 0 <= j < lines@.len() ==> #[trigger] utf8_len(lines@[j]@) <= u32::MAX,
        utf8_len(id@) <= usize::MAX,
    ensures
        match r {
            Some((l, c)) => first_definition(lines.deep_view(), *kind, id@, 0) == Some((l as int, c as int)),
            None => first_definition(lines.deep_view(), *kind, id@, 0) is None,
        },
{
    let ghost ls = lines.deep_view();
    let mut k: usize = 0;
    while k < lines.len()
        invariant
            ls == lines.deep_view(),
            lines@.len() <= u32::MAX,
            forall|j: int| 0 <= j < lines@.len() ==> #[trigger] utf8_len(lines@[j]@) <= u32::MAX,
            utf8_len(id@) <= usize::MAX,
            k <= lines@.len(),
            first_definition(ls, *kind, id@, 0) == first_definition(ls, *kind, id@, k as int),
        decreases lines@.len() - k,
    {
        assert(ls[k as int] == lines@[k as int]@);
        match line_definition_exec(lines[k].as_slice(), kind, id) {
            Some(c) => {
                proof {
                    lemma_definition_within(lines@[k as int]@, *kind, id@);
                }
                return Some((k as u32, c as u32));
            },
            None => {},
        }
        k = k + 1;
    }
    None
}

proof fn lemma_pattern_within(line: Seq<char>, keyword: Seq<char>, id: Seq<char>)
    ensures
        definition_pattern(line, keyword, id) matches Some(c) ==> 0 <= c <= utf8_len(line),
{
    lemma_trim_start_suffix(line);
    let t = trim_start_seq(line);
    if starts_with_seq(t, keyword) {
        let ak = t.skip(keyword.len() as int);
        lemma_trim_start_suffix(ak);
        let a = trim_start_seq(ak);
        let indent = line.len() - t.len();
        if ak.len() > 0 && indent + keyword.len() + (ak.len() - a.len()) <= line.len() {
            lemma_byte_at_within(line, indent + keyword.len() + (ak.len() - a.len()));
        }
    }
}

proof fn lemma_definition_within(line: Seq<char>, kind: SymbolKind, id: Seq<char>)
    ensures
        line_definition(line, kind, id) matches Some(c) ==> 0 <= c <= utf8_len(line),
{
    lemma_pattern_within(line, "task"@, id);
    lemma_pattern_within(line, "milestone"@, id);
    lemma_pattern_within(line, "resource"@, id);
    lemma_pattern_within(line, "calendar"@, id);
    lemma_pattern_within(line, "resource_profile"@, id);
    lemma_pattern_within(line, "trait"@, id);
}

/// The project has a resource with id `id`.
pub open spec fn has_resource(p: Project, id: Seq<char>) -> bool {
    exists|i: int| 0 <= i < p.resources@.len() && #[trigger] p.resources@[i].id@ == id
}

/// The project has a calendar with id `id`.
pub open spec fn has_calendar(p: Project, id: Seq<char>) -> bool {
    exists|i: int| 0 <= i < p.calendars@.len() && #[trigger] p.calendars@[i].id@ == id
}

/// The project has a resource profile with id `id`.
pub open spec fn has_profile(p: Project, id: Seq<char>) -> bool {
    exists|i: int| 0 <= i < p.profiles@.len() && #[trigger] p.profiles@[i].id@ == id
}

/// The project has a trait with id `id`.
pub open spec fn has_trait(p: Project, id: Seq<char>) -> bool {
    exists|i: int| 0 <= i < p.traits@.len() && #[trigger] p.traits@[i].id@ == id
}

/// The project defines `id` as a symbol of `kind`.
pub open spec fn defines(p: Project, kind: SymbolKind, id: Seq<char>) -> bool {
    match kind {
        SymbolKind::Task => find_task_in(p.tasks@, id) is Some,
        SymbolKind::Resource => has_resource(p, id),
        SymbolKind::Calendar => has_calendar(p, id),
        SymbolKind::Profile => has_profile(p, id),
        SymbolKind::Trait => has_trait(p, id),
    }
}

/// What a word names in the project, checking tasks, resources, calendars,
/// profiles and traits in that order.
pub open spec fn symbol_kind_of(p: Project, word: Seq<char>) -> Option<SymbolKind> {
    if defines(p, SymbolKind::Task, word) {
        Some(SymbolKind::Task)
    } else if defines(p, SymbolKind::Resource, word) {
        Some(SymbolKind::Resource)
    } else if defines(p, SymbolKind::Calendar, word) {
        Some(SymbolKind::Calendar)
    } else if defines(p, SymbolKind::Profile, word) {
        Some(SymbolKind::Profile)
    } else if defines(p, SymbolKind::Trait, word) {
        Some(SymbolKind::Trait)
    } else {
        None
    }
}

/// The kinds in the order they are tried.
pub open spec fn kind_at(i: int) -> SymbolKind {
    if i == 0 {
        SymbolKind::Task
    } else if i == 1 {
        SymbolKind::Resource
    } else if i == 2 {
        SymbolKind::Calendar
    } else if i == 3 {
        SymbolKind::Profile
    } else {
        SymbolKind::Trait
    }
}

/// The definition of `word`: for the first kind, in the order tasks,
/// resources, calendars, profiles, traits, under which the project knows
/// the word and the text has a definition line for it.
pub open spec fn symbol_definition_from(p: Project, lines: Seq<Seq<char>>, word: Seq<char>, i: int) -> Option<(SymbolKind, int, int)>
    decreases 5 - i,
{
    if i < 0 || i >= 5 {
        None
    } else if defines(p, kind_at(i), word) && first_definition(lines, kind_at(i), word, 0) is Some {
        let d = first_definition(lines, kind_at(i), word, 0)->0;
        Some((kind_at(i), d.0, d.1))
    } else {
        symbol_definition_from(p, lines, word, i + 1)
    }
}

fn kind_exec(i: usize) -> (k: SymbolKind)
    ensures
        k == kind_at(i as int),
{
    if i == 0 {
        SymbolKind::Task
    } else if i == 1 {
        SymbolKind::Resource
    } else if i == 2 {
        SymbolKind::Calendar
    } else if i == 3 {
        SymbolKind::Profile
    } else {
        SymbolKind::Trait
    }
}

/// Whether the project defines `id` as a symbol of `kind`.
pub fn project_defines(project: &Project, kind: &SymbolKind, id: &str) -> (r: bool)
    ensures
        r == defines(*project, *kind, id@),
{
    match kind {
        SymbolKind::Task => project.get_task(id).is_some(),
        SymbolKind::Resource => {
            let mut i: usize = 0;
            while i < project.resources.len()
                invariant
                    *kind == SymbolKind::Resource,
                    i <= project.resources@.len(),
                    forall|j: int| 0 <= j < i ==> #[trigger] project.resources@[j].id@ != id@,
                decreases project.resources@.len() - i,
            {
                if crate::text::str_eq(project.resources[i].id.as_str(), id) {
                    assert(project.resources@[i as int].id@ == id@);
                    assert(has_resource(*project, id@));
                    return true;
                }
                i = i + 1;
            }
            false
        },
        SymbolKind::Calendar => {
            let mut i: usize = 0;
            while i < project.calendars.len()
                invariant
                    *kind == SymbolKind::Calendar,
                    i <= project.calendars@.len(),
                    forall|j: int| 0 <= j < i ==> #[trigger] project.calendars@[j].id@ != id@,
                decreases project.calendars@.len() - i,
            {
                if crate::text::str_eq(project.calendars[i].id.as_str(), id) {
                    assert(project.calendars@[i as int].id@ == id@);
                    assert(has_calendar(*project, id@));
                    return true;
                }
                i = i + 1;
            }
            false
        },
        SymbolKind::Profile => {
            let mut i: usize = 0;
            while i < project.profiles.len()
                invariant
                    *kind == SymbolKind::Profile,
                    i <= project.profiles@.len(),
                    forall|j: int| 0 <= j < i ==> #[trigger] project.profiles@[j].id@ != id@,
                decreases project.profiles@.len() - i,
            {
                if crate::text::str_eq(project.profiles[i].id.as_str(), id) {
                    assert(project.profiles@[i as int].id@ == id@);
                    assert(has_profile(*project, id@));
                    return true;
                }
                i = i + 1;
            }
            false
        },
        SymbolKind::Trait => {
            let mut i: usize = 0;
            while i < project.traits.len()
                invariant
                    *kind == SymbolKind::Trait,
                    i <= project.traits@.len(),
                    forall|j: int| 0 <= j < i ==> #[trigger] project.traits@[j].id@ != id@,
                decreases project.traits@.len() - i,
            {
                if crate::text::str_eq(project.traits[i].id.as_str(), id) {
                    assert(project.traits@[i as int].id@ == id@);
                    assert(has_trait(*project, id@));
                    return true;
                }
                i = i + 1;
            }
            false
        },
    }
}

/// What `word` names in the project (see `symbol_kind_of`).
pub fn determine_symbol_kind(project: &Project, word: &str) -> (r: Option<SymbolKind>)
    ensures
        r == symbol_kind_of(*project, word@),
{
    if project_defines(project, &SymbolKind::Task, word) {
        Some(SymbolKind::Task)
    } else if project_defines(project, &SymbolKind::Resource, word) {
        Some(SymbolKind::Resource)
    } else if project_defines(project, &SymbolKind::Calendar, word) {
        Some(SymbolKind::Calendar)
    } else if project_defines(project, &SymbolKind::Profile, word) {
        Some(SymbolKind::Profile)
    } else if project_defines(project, &SymbolKind::Trait, word) {
        Some(SymbolKind::Trait)
    } else {
        None
    }
}

/// The definition of `word` in the text (see `symbol_definition_from`).
pub fn find_symbol_definition(project: &Project, lines: &Vec<Vec<char>>, word: &str) -> (r: Option<SymbolDefinition>)
    requires
        lines@.len() <= u32::MAX,
        forall|j: int| 0 <= j < lines@.len() ==> #[trigger] utf8_len(lines@[j]@) <= u32::MAX,
        utf8_len(word@) <= usize::MAX,
    ensures
        match r {
            Some(d) => d.id@ == word@ && symbol_definition_from(*project, lines.deep_view(), word@, 0) == Some(
                (d.kind, d.line as int, d.column as int),
            ),
            None => symbol_definition_from(*project, lines.deep_view(), word@, 0) is None,
        },
{
    let mut i: usize = 0;
    while i < 5
        invariant
            i <= 5,
            lines@.len() <= u32::MAX,
            forall|j: int| 0 <= j < lines@.len() ==> #[trigger] utf8_len(lines@[j]@) <= u32::MAX,
            utf8_len(word@) <= usize::MAX,
            symbol_definition_from(*project, lines.deep_view(), word@, 0) == symbol_definition_from(
                *project,
                lines.deep_view(),
                word@,
                i as int,
            ),
        decreases 5 - i,
    {
        let kind = kind_exec(i);
        if project_defines(project, &kind, word) {
            match find_kind_definition(lines, &kind, word) {
                Some((line, column)) => {
                    return Some(SymbolDefinition { id: word.to_owned(), kind, line, column });
                },
                None => {},
            }
        }
        i = i + 1;
    }
    None
}

/// The definition of the symbol under the cursor, at line `line` and
/// character column `character` of the text; the definition's column is a
/// byte offset.
pub fn find_definition(project: &Project, text: &str, line: u32, character: u32) -> (r: Option<SymbolDefinition>)
    requires
        utf8_len(text@) <= u32::MAX,
    ensures
        match r {
            Some(d) => word_at_position(text@, line as int, character as int) == Some(d.id@)
                && symbol_definition_from(*project, lines_of(text@), d.id@, 0) == Some(
                (d.kind, d.line as int, d.column as int),
            ),
            None => match word_at_position(text@, line as int, character as int) {
                Some(w) => symbol_definition_from(*project, lines_of(text@), w, 0) is None,
                None => true,
            },
        },
{
    let chars = crate::text::chars_of(text);
    let word = match get_word_at_position(chars.as_slice(), line, character) {
        Some(w) => w,
        None => {
            return None;
        },
    };
    let lines = text_lines(chars.as_slice());
    proof {
        lemma_lines_fit_bytes(text@);
        lemma_word_fits(text@, line as int, character as int);
        assert forall|j: int| 0 <= j < lines@.len() implies #[trigger] utf8_len(lines@[j]@) <= u32::MAX by {
            assert(lines@[j]@ == lines.deep_view()[j]);
        }
    }
    find_symbol_definition(project, &lines, word.as_str())
}

fn definition_in_text(text: &str, kind: SymbolKind, id: &str) -> (r: Option<(u32, u32)>)
    requires
        utf8_len(text@) <= u32::MAX,
        utf8_len(id@) <= usize::MAX,
    ensures
        match r {
            Some((l, c)) => first_definition(lines_of(text@), kind, id@, 0) == Some((l as int, c as int)),
            None => first_definition(lines_of(text@), kind, id@, 0) is None,
        },
{
    let chars = crate::text::chars_of(text);
    let lines = text_lines(chars.as_slice());
    proof {
        lemma_lines_fit_bytes(text@);
        assert forall|j: int| 0 <= j < lines@.len() implies #[trigger] utf8_len(lines@[j]@) <= u32::MAX by {
            assert(lines@[j]@ == lines.deep_view()[j]);
        }
    }
    find_kind_definition(&lines, &kind, id)
}

/// Where the text defines task `task_id` (`task <id>` or `milestone <id>`):
/// the first such line and the column of the identifier.
pub fn find_task_definition(text: &str, task_id: &str) -> (r: Option<(u32, u32)>)
    requires
        utf8_len(text@) <= u32::MAX,
        utf8_len(task_id@) <= usize::MAX,
    ensures
        match r {
            Some((l, c)) => first_definition(lines_of(text@), SymbolKind::Task, task_id@, 0) == Some((l as int, c as int)),
            None => first_definition(lines_of(text@), SymbolKind::Task, task_id@, 0) is None,
        },
{
    definition_in_text(text, SymbolKind::Task, task_id)
}

/// Where the text defines resource `resource_id` (`resource <id>`, not a
/// profile).
pub fn find_resource_definition(text: &str, resource_id: &str) -> (r: Option<(u32, u32)>)
    requires
        utf8_len(text@) <= u32::MAX,
        utf8_len(resource_id@) <= usize::MAX,
    ensures
        match r {
            Some((l, c)) => first_definition(lines_of(text@), SymbolKind::Resource, resource_id@, 0) == Some(
                (l as int, c as int),
            ),
            None => first_definition(lines_of(text@), SymbolKind::Resource, resource_id@, 0) is None,
        },
{
    definition_in_text(text, SymbolKind::Resource, resource_id)
}

/// Where the text defines calendar `calendar_id`.
pub fn find_calendar_definition(text: &str, calendar_id: &str) -> (r: Option<(u32, u32)>)
    requires
        utf8_len(text@) <= u32::MAX,
        utf8_len(calendar_id@) <= usize::MAX,
    ensures
        match r {
            Some((l, c)) => first_definition(lines_of(text@), SymbolKind::Calendar, calendar_id@, 0) == Some(
                (l as int, c as int),
            ),
            None => first_definition(lines_of(text@), SymbolKind::Calendar, calendar_id@, 0) is None,
        },
{
    definition_in_text(text, SymbolKind::Calendar, calendar_id)
}

/// Where the text defines resource profile `profile_id`.
pub fn find_profile_definition(text: &str, profile_id: &str) -> (r: Option<(u32, u32)>)
    requires
        utf8_len(text@) <= u32::MAX,
        utf8_len(profile_id@) <= usize::MAX,
    ensures
        match r {
            Some((l, c)) => first_definition(lines_of(text@), SymbolKind::Profile, profile_id@, 0) == Some(
                (l as int, c as int),
            ),
            None => first_definition(lines_of(text@), SymbolKind::Profile, profile_id@, 0) is None,
        },
{
    definition_in_text(text, SymbolKind::Profile, profile_id)
}

/// Where the text defines trait `trait_id`.
pub fn find_trait_definition(text: &str, trait_id: &str) -> (r: Option<(u32, u32)>)
    requires
        utf8_len(text@) <= u32::MAX,
        utf8_len(trait_id@) <= usize::MAX,
    ensures
        match r {
            Some((l, c)) => first_definition(lines_of(text@), SymbolKind::Trait, trait_id@, 0) == Some(
                (l as int, c as int),
            ),
            None => first_definition(lines_of(text@), SymbolKind::Trait, trait_id@, 0) is None,
        },
{
    definition_in_text(text, SymbolKind::Trait, trait_id)
}

/// The references kept from the occurrences: definition sites only when
/// asked for, as line, start column and end column.
pub open spec fn references_of(hits: Seq<(int, int, bool)>, include_definition: bool, len: int) -> Seq<(int, int, int)>
    decreases hits.len(),
{
    if hits.len() == 0 {
        Seq::empty()
    } else {
        let h = hits.last();
        let rest = references_of(hits.drop_last(), include_definition, len);
        if !h.2 || include_definition {
            rest.push((h.0, h.1, h.1 + len))
        } else {
            rest
        }
    }
}

/// All references to the symbol under the cursor: each whole-word
/// occurrence of it, as line, start and end byte offsets, leaving out
/// definition sites unless `include_definition`. Empty when there is no
/// word there or the project does not know it.
pub fn find_references(project: &Project, text: &str, line: u32, character: u32, include_definition: bool) -> (r: Vec<(u32, u32, u32)>)
    requires
        utf8_len(text@) <= u32::MAX,
        match word_at_position(text@, line as int, character as int) {
            Some(w) => symbol_kind_of(*project, w) is Some ==> lines_scan_ok(lines_of(text@), w),
            None => true,
        },
    ensures
        match word_at_position(text@, line as int, character as int) {
            Some(w) => match symbol_kind_of(*project, w) {
                Some(kind) => r@.map_values(|t: (u32, u32, u32)| (t.0 as int, t.1 as int, t.2 as int)) == references_of(
                    hits_until(lines_of(text@), w, kind, lines_of(text@).len() as int),
                    include_definition,
                    utf8_len(w) as int,
                ),
                None => r@.len() == 0,
            },
            None => r@.len() == 0,
        },
{
    let chars = crate::text::chars_of(text);
    let word = match get_word_at_position(chars.as_slice(), line, character) {
        Some(w) => w,
        None => {
            return Vec::new();
        },
    };
    let kind = match determine_symbol_kind(project, word.as_str()) {
        Some(k) => k,
        None => {
            return Vec::new();
        },
    };
    let wc = crate::text::chars_of(word.as_str());
    proof {
        lemma_word_fits(text@, line as int, character as int);
    }
    let occurrences = find_all_occurrences(chars.as_slice(), wc.as_slice(), &kind);
    let ghost hits = hits_view(occurrences@);
    proof {
        lemma_lines_fit_bytes(text@);
        lemma_hits_fit(lines_of(text@), wc@, kind, lines_of(text@).len() as int, utf8_len(text@) as int);
    }
    let wlen = utf8_length(wc.as_slice()) as u32;
    let mut r: Vec<(u32, u32, u32)> = Vec::new();
    let mut i: usize = 0;
    while i < occurrences.len()
        invariant
            hits == hits_view(occurrences@),
            wlen == utf8_len(wc@),
            forall|j: int| 0 <= j < hits.len() ==> #[trigger] hits[j].1 + utf8_len(wc@) <= u32::MAX,
            i <= occurrences@.len(),
            r@.map_values(|t: (u32, u32, u32)| (t.0 as int, t.1 as int, t.2 as int)) == references_of(
                hits.take(i as int),
                include_definition,
                utf8_len(wc@) as int,
            ),
        decreases occurrences@.len() - i,
    {
        let (l, c, is_def) = occurrences[i];
        assert(hits.take(i + 1).drop_last() =~= hits.take(i as int));
        assert(hits[i as int] == (l as int, c as int, is_def));
        if !is_def || include_definition {
            let ghost before = r@.map_values(|t: (u32, u32, u32)| (t.0 as int, t.1 as int, t.2 as int));
            r.push((l, c, c + wlen));
            assert(r@.map_values(|t: (u32, u32, u32)| (t.0 as int, t.1 as int, t.2 as int)) =~= before.push(
                (l as int, c as int, c + utf8_len(wc@)),
            ));
        }
        i = i + 1;
    }
    assert(hits.take(occurrences@.len() as int) =~= hits);
    r
}

proof fn lemma_word_fits(text: Seq<char>, ln: int, col: int)
    ensures
        word_at_position(text, ln, col) matches Some(w) ==> 0 < w.len() && utf8_len(w) <= utf8_len(text),
{
    lemma_lines_fit_bytes(text);
    let lines = lines_of(text);
    if 0 <= ln < lines.len() && 0 <= col <= lines[ln].len() {
        lemma_run_start(lines[ln], col);
        lemma_run_end(lines[ln], col);
        let s = ident_run_start(lines[ln], col);
        let e = ident_run_end(lines[ln], col);
        lemma_subrange_bytes(lines[ln], s, e);
    }
}

proof fn lemma_hits_fit(lines: Seq<Seq<char>>, word: Seq<char>, kind: SymbolKind, k: int, bound: int)
    requires
        forall|j: int| 0 <= j < lines.len() ==> #[trigger] utf8_len(lines[j]) <= bound,
    ensures
        forall|j: int| 0 <= j < hits_until(lines, word, kind, k).len() ==> #[trigger] hits_until(lines, word, kind, k)[j].1
            + utf8_len(word) <= bound,
    decreases k,
{
    if 0 < k <= lines.len() {
        lemma_hits_fit(lines, word, kind, k - 1, bound);
        lemma_line_hits_fit(lines[k - 1], word, kind, k - 1, 0);
        let a = hits_until(lines, word, kind, k - 1);
        let b = line_hits(lines[k - 1], word, kind, k - 1, 0);
        assert forall|j: int| 0 <= j < (a + b).len() implies #[trigger] (a + b)[j].1 + utf8_len(word) <= bound by {
            if j < a.len() {
                assert((a + b)[j] == a[j]);
            } else {
                assert((a + b)[j] == b[j - a.len()]);
            }
        }
    }
}

proof fn lemma_line_hits_fit(line: Seq<char>, word: Seq<char>, kind: SymbolKind, k: int, start: int)
    ensures
        forall|j: int| 0 <= j < line_hits(line, word, kind, k, start).len() ==> #[trigger] line_hits(
            line,
            word,
            kind,
            k,
            start,
        )[j].1 + utf8_len(word) <= utf8_len(line),
    decreases line.len() + 1 - start,
{
    lemma_first_word_at_least(line, word, start);
    match first_whole_word(line, word, start) {
        Some(i) => if start < i + word.len() <= line.len() {
            lemma_line_hits_fit(line, word, kind, k, i + word.len());
            lemma_occurrence_bytes(line, word, i);
            let rest = line_hits(line, word, kind, k, i + word.len());
            let all = seq![(k, byte_at(line, i), definition_site(line, i, kind))] + rest;
            assert forall|j: int| 0 <= j < all.len() implies #[trigger] all[j].1 + utf8_len(word) <= utf8_len(line) by {
                if j > 0 {
                    assert(all[j] == rest[j - 1]);
                }
            }
        },
        None => {},
    }
}

/// An occurrence that follows a defining keyword, once blanks are trimmed,
/// is a definition site: `task` or `milestone` for a task, `resource` (not
/// `resource_profile`) for a resource, `calendar`, `resource_profile` and
/// `trait` for the others.
pub proof fn lemma_definition_keywords(line: Seq<char>, col: int)
    ensures
        ends_with_seq(trim_end_seq(line.take(col)), "task"@) ==> definition_site(line, col, SymbolKind::Task),
        ends_with_seq(trim_end_seq(line.take(col)), "milestone"@) ==> definition_site(line, col, SymbolKind::Task),
        ends_with_seq(trim_end_seq(line.take(col)), "resource"@) ==> definition_site(
            line,
            col,
            SymbolKind::Resource,
        ),
        ends_with_seq(trim_end_seq(line.take(col)), "resource_profile"@) ==> definition_site(
            line,
            col,
            SymbolKind::Profile,
        ) && !definition_site(line, col, SymbolKind::Resource),
        ends_with_seq(trim_end_seq(line.take(col)), "calendar"@) ==> definition_site(
            line,
            col,
            SymbolKind::Calendar,
        ),
        ends_with_seq(trim_end_seq(line.take(col)), "trait"@) ==> definition_site(line, col, SymbolKind::Trait),
{
    reveal_strlit("resource");
    reveal_strlit("resource_profile");
    let p = trim_end_seq(line.take(col));
    if ends_with_seq(p, "resource"@) && ends_with_seq(p, "resource_profile"@) {
        let n = p.len();
        assert(p.subrange(n - 8, n as int)[6] == p[n - 2]);
        assert(p.subrange(n - 16, n as int)[14] == p[n - 2]);
        assert("resource"@[6] == 'c');
        assert("resource_profile"@[14] == 'l');
    }
}

/// `h` is the hit for an occurrence of `word` at character `i` of line
/// `li`: that line, the occurrence's byte offset, and whether it is a
/// definition site.
pub open spec fn hit_for(lines: Seq<Seq<char>>, word: Seq<char>, kind: SymbolKind, h: (int, int, bool), li: int, i: int) -> bool {
    &&& 0 <= li < lines.len()
    &&& occurs_at(lines[li], word, i)
    &&& h == (li, byte_at(lines[li], i), definition_site(lines[li], i, kind))
}

/// `h` is the hit for some occurrence of `word` in line `li`.
pub open spec fn hit_in_line(lines: Seq<Seq<char>>, word: Seq<char>, kind: SymbolKind, h: (int, int, bool), li: int) -> bool {
    exists|i: int| #[trigger] hit_for(lines, word, kind, h, li, i)
}

/// `h` is the hit for some occurrence of `word` in the lines.
pub open spec fn hit_somewhere(lines: Seq<Seq<char>>, word: Seq<char>, kind: SymbolKind, h: (int, int, bool)) -> bool {
    exists|li: int, i: int| #[trigger] hit_for(lines, word, kind, h, li, i)
}

/// `r` is a reference range for an occurrence of `word` that is not a
/// definition site: its line, its byte offset, and that offset plus `len`.
pub open spec fn use_reference(lines: Seq<Seq<char>>, word: Seq<char>, kind: SymbolKind, r: (int, int, int), len: int) -> bool {
    exists|li: int, i: int|
        0 <= li < lines.len() && #[trigger] occurs_at(lines[li], word, i) && !definition_site(lines[li], i, kind) && r.0
            == li && r.1 == byte_at(lines[li], i) && r.2 == byte_at(lines[li], i) + len
}

/// `r` is the range of a hit in `hits` that is not a definition site.
pub open spec fn from_use_hit(hits: Seq<(int, int, bool)>, r: (int, int, int), len: int) -> bool {
    exists|j: int| 0 <= j < hits.len() && !(#[trigger] hits[j]).2 && r.0 == hits[j].0 && r.1 == hits[j].1 && r.2 == hits[j].1 + len
}

proof fn lemma_line_hits_shape(lines: Seq<Seq<char>>, word: Seq<char>, kind: SymbolKind, li: int, start: int)
    requires
        0 <= li < lines.len(),
    ensures
        forall|j: int|
            0 <= j < line_hits(lines[li], word, kind, li, start).len() ==> hit_in_line(
                lines,
                word,
                kind,
                #[trigger] line_hits(lines[li], word, kind, li, start)[j],
                li,
            ),
    decreases lines[li].len() + 1 - start,
{
    let line = lines[li];
    lemma_first_word_at_least(line, word, start);
    match first_whole_word(line, word, start) {
        Some(i) => if start < i + word.len() <= line.len() {
            lemma_line_hits_shape(lines, word, kind, li, i + word.len());
            let rest = line_hits(line, word, kind, li, i + word.len());
            let all = line_hits(line, word, kind, li, start);
            assert(all == seq![(li, byte_at(line, i), definition_site(line, i, kind))] + rest);
            assert forall|j: int| 0 <= j < all.len() implies hit_in_line(lines, word, kind, #[trigger] all[j], li) by {
                if j == 0 {
                    assert(hit_for(lines, word, kind, all[0], li, i));
                } else {
                    assert(all[j] == rest[j - 1]);
                    assert(hit_in_line(lines, word, kind, rest[j - 1], li));
                }
            }
        },
        None => {},
    }
}

proof fn lemma_hits_until_shape(lines: Seq<Seq<char>>, word: Seq<char>, kind: SymbolKind, k: int)
    ensures
        forall|j: int|
            0 <= j < hits_until(lines, word, kind, k).len() ==> hit_somewhere(
                lines,
                word,
                kind,
                #[trigger] hits_until(lines, word, kind, k)[j],
            ),
    decreases k,
{
    if 0 < k <= lines.len() {
        lemma_hits_until_shape(lines, word, kind, k - 1);
        lemma_line_hits_shape(lines, word, kind, k - 1, 0);
        let a = hits_until(lines, word, kind, k - 1);
        let b = line_hits(lines[k - 1], word, kind, k - 1, 0);
        assert forall|j: int| 0 <= j < (a + b).len() implies hit_somewhere(lines, word, kind, #[trigger] (a + b)[j]) by {
            if j < a.len() {
                assert((a + b)[j] == a[j]);
                assert(hit_somewhere(lines, word, kind, a[j]));
            } else {
                assert((a + b)[j] == b[j - a.len()]);
                assert(hit_in_line(lines, word, kind, b[j - a.len()], k - 1));
                let i = choose|i: int| #[trigger] hit_for(lines, word, kind, b[j - a.len()], k - 1, i);
                assert(hit_for(lines, word, kind, (a + b)[j], k - 1, i));
            }
        }
    }
}

proof fn lemma_references_from_hits(hits: Seq<(int, int, bool)>, len: int)
    ensures
        forall|x: int|
            0 <= x < references_of(hits, false, len).len() ==> from_use_hit(
                hits,
                #[trigger] references_of(hits, false, len)[x],
                len,
            ),
    decreases hits.len(),
{
    if hits.len() > 0 {
        let front = hits.drop_last();
        lemma_references_from_hits(front, len);
        let rest = references_of(front, false, len);
        let all = references_of(hits, false, len);
        assert forall|x: int| 0 <= x < all.len() implies from_use_hit(hits, #[trigger] all[x], len) by {
            if x < rest.len() {
                assert(all[x] == rest[x]);
                assert(from_use_hit(front, rest[x], len));
                let j = choose|j: int| 0 <= j < front.len() && !(#[trigger] front[j]).2 && rest[x].0 == front[j].0
                    && rest[x].1 == front[j].1 && rest[x].2 == front[j].1 + len;
                assert(front[j] == hits[j]);
            } else {
                assert(hits[hits.len() - 1] == hits.last());
            }
        }
    }
}

/// References asked for without definitions are never definition sites:
/// each one is an occurrence of the word, at its line and byte offset, that
/// does not follow the keyword defining a symbol of that kind.
pub proof fn lemma_references_skip_definitions(lines: Seq<Seq<char>>, word: Seq<char>, kind: SymbolKind, len: int)
    ensures
        forall|x: int|
            0 <= x < references_of(hits_until(lines, word, kind, lines.len() as int), false, len).len()
                ==> use_reference(
                lines,
                word,
                kind,
                #[trigger] references_of(hits_until(lines, word, kind, lines.len() as int), false, len)[x],
                len,
            ),
{
    let hits = hits_until(lines, word, kind, lines.len() as int);
    lemma_hits_until_shape(lines, word, kind, lines.len() as int);
    lemma_references_from_hits(hits, len);
    let refs = references_of(hits, false, len);
    assert forall|x: int| 0 <= x < refs.len() implies use_reference(lines, word, kind, #[trigger] refs[x], len) by {
        assert(from_use_hit(hits, refs[x], len));
        let j = choose|j: int| 0 <= j < hits.len() && !(#[trigger] hits[j]).2 && refs[x].0 == hits[j].0
            && refs[x].1 == hits[j].1 && refs[x].2 == hits[j].1 + len;
        assert(hit_somewhere(lines, word, kind, hits[j]));
        let (li, i) = choose|li: int, i: int| #[trigger] hit_for(lines, word, kind, hits[j], li, i);
        assert(occurs_at(lines[li], word, i));
    }
}

/// `r` is a reference range for an occurrence of `word` that does not
/// follow `task` or `milestone` (blanks before it trimmed).
pub open spec fn task_use_reference(lines: Seq<Seq<char>>, word: Seq<char>, r: (int, int, int), len: int) -> bool {
    exists|li: int, i: int|
        0 <= li < lines.len() && #[trigger] occurs_at(lines[li], word, i) && !ends_with_seq(
            trim_end_seq(lines[li].take(i)),
            "task"@,
        ) && !ends_with_seq(trim_end_seq(lines[li].take(i)), "milestone"@) && r.0 == li && r.1 == byte_at(lines[li], i)
            && r.2 == byte_at(lines[li], i) + len
}

/// References to a task asked for without definitions leave out every
/// occurrence that follows the keyword `task` or `milestone`.
pub proof fn lemma_task_references_skip_declarations(lines: Seq<Seq<char>>, word: Seq<char>, len: int)
    ensures
        forall|x: int|
            0 <= x < references_of(hits_until(lines, word, SymbolKind::Task, lines.len() as int), false, len).len()
                ==> task_use_reference(
                lines,
                word,
                #[trigger] references_of(hits_until(lines, word, SymbolKind::Task, lines.len() as int), false, len)[x],
                len,
            ),
{
    let refs = references_of(hits_until(lines, word, SymbolKind::Task, lines.len() as int), false, len);
    lemma_references_skip_definitions(lines, word, SymbolKind::Task, len);
    assert forall|x: int| 0 <= x < refs.len() implies task_use_reference(lines, word, #[trigger] refs[x], len) by {
        assert(use_reference(lines, word, SymbolKind::Task, refs[x], len));
        let (li, i) = choose|li: int, i: int|
            0 <= li < lines.len() && #[trigger] occurs_at(lines[li], word, i) && !definition_site(
                lines[li],
                i,
                SymbolKind::Task,
            ) && refs[x].0 == li && refs[x].1 == byte_at(lines[li], i) && refs[x].2 == byte_at(lines[li], i) + len;
        lemma_definition_keywords(lines[li], i);
        assert(occurs_at(lines[li], word, i));
    }
}

} // verus!
