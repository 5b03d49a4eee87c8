//! Reading PSPLIB single-mode instances (`.sm` files) and their tables of
//! optimal makespans: the header values, the precedence relations, the
//! durations and resource requests of the jobs, and the resource
//! capacities.
use vstd::prelude::*;
use std::collections::HashMap;
use crate::keyed::{last_wins, lemma_last_wins_update, unique_keys};
use crate::text::{decimal, push_str, u64_to_string};
use crate::text::{chars_of, find_from, matches_at, occurs_at, contains_seq, starts_with_seq};
use crate::navigation::{lines_of, text_lines};
use crate::navigation::{
    char_is_whitespace, leading_whitespace, trimmed_end, trim_end_seq, trim_start_seq, is_whitespace_char,
};

verus! {

/// An ASCII decimal digit.
pub open spec fn is_digit(c: char) -> bool {
    48 <= c as u32 <= 57
}

/// The value of a string of decimal digits (0 for the empty string).
pub open spec fn digits_value(s: Seq<char>) -> nat
    decreases s.len(),
{
    if s.len() == 0 {
        0
    } else {
        digits_value(s.drop_last()) * 10 + (s.last() as u32 - 48) as nat
    }
}

/// The digits of an unsigned number as std's integer parsing reads it: an
/// optional leading `+` is dropped.
pub open spec fn unsigned_digits(s: Seq<char>) -> Seq<char> {
    if s.len() > 0 && s[0] == '+' {
        s.drop_first()
    } else {
        s
    }
}

/// `s` is an optional `+` followed by at least one decimal digit.
pub open spec fn unsigned_text(s: Seq<char>) -> bool {
    let d = unsigned_digits(s);
    d.len() > 0 && forall|i: int| 0 <= i < d.len() ==> is_digit(#[trigger] d[i])
}

/// std's parsing of an unsigned integer whose largest value is `max`:
/// the value where `s` is an unsigned text whose value fits.
pub open spec fn parse_unsigned_spec(s: Seq<char>, max: nat) -> Option<nat> {
    if unsigned_text(s) && digits_value(unsigned_digits(s)) <= max {
        Some(digits_value(unsigned_digits(s)))
    } else {
        None
    }
}

/// std's `str::parse::<u32>`, as an `Option`.
pub open spec fn parse_u32_spec(s: Seq<char>) -> Option<u32> {
    match parse_unsigned_spec(s, u32::MAX as nat) {
        Some(v) => Some(v as u32),
        None => None,
    }
}

/// std's `str::parse::<usize>`, as an `Option`.
pub open spec fn parse_usize_spec(s: Seq<char>) -> Option<usize> {
    match parse_unsigned_spec(s, usize::MAX as nat) {
        Some(v) => Some(v as usize),
        None => None,
    }
}

proof fn lemma_digits_prefix(s: Seq<char>, k: int)
    requires
        0 <= k <= s.len(),
        forall|i: int| 0 <= i < s.len() ==> is_digit(#[trigger] s[i]),
    ensures
        digits_value(s.take(k)) <= digits_value(s),
    decreases s.len() - k,
{
    if k == s.len() {
        assert(s.take(k) =~= s);
    } else {
        lemma_digits_prefix(s.drop_last(), k);
        assert(s.drop_last().take(k) =~= s.take(k));
        assert(is_digit(s.last()));
    }
}

fn parse_unsigned(s: &[char], max: u64) -> (r: Option<u64>)
    requires
        max >= 9,
    ensures
        match r {
            Some(v) => parse_unsigned_spec(s@, max as nat) == Some(v as nat),
            None => parse_unsigned_spec(s@, max as nat) is None,
        },
{
    let ghost d = unsigned_digits(s@);
    let start: usize = if s.len() > 0 && s[0] == '+' { 1 } else { 0 };
    assert(d =~= s@.skip(start as int));
    if start >= s.len() {
        return None;
    }
    let mut v: u64 = 0;
    let mut i: usize = start;
    while i < s.len()
        invariant
            start <= i <= s@.len(),
            d == s@.skip(start as int),
            d == unsigned_digits(s@),
            max >= 9,
            forall|k: int| start <= k < i ==> is_digit(#[trigger] s@[k]),
            v as nat == digits_value(d.take(i - start)),
            v <= max,
        decreases s@.len() - i,
    {
        let c = s[i];
        let cu = c as u32;
        if cu < 48 || cu > 57 {
            proof {
                assert(d[i - start] == c);
                assert(!is_digit(d[i - start]));
            }
            return None;
        }
        let dv: u64 = (cu - 48) as u64;
        proof {
            assert(d.take(i + 1 - start).drop_last() =~= d.take(i - start));
            assert(d.take(i + 1 - start).last() == c);
        }
        if v > (max - dv) / 10 {
            proof {
                assert(v * 10 + dv > max) by (nonlinear_arith)
                    requires
                        v > (max - dv) / 10,
                        dv <= max,
                        dv < 10;
                if unsigned_text(s@) {
                    lemma_digits_prefix(d, i + 1 - start);
                }
            }
            return None;
        }
        proof {
            assert(v * 10 + dv <= max) by (nonlinear_arith)
                requires
                    v <= (max - dv) / 10,
                    dv <= max;
        }
        v = v * 10 + dv;
        i = i + 1;
    }
    proof {
        assert(d.take(d.len() as int) =~= d);
        assert forall|k: int| 0 <= k < d.len() implies is_digit(#[trigger] d[k]) by {
            assert(d[k] == s@[k + start]);
        }
    }
    Some(v)
}

/// std's `str::parse::<u32>` on a run of characters, as an `Option`.
pub fn parse_u32(s: &[char]) -> (r: Option<u32>)
    ensures
        r == parse_u32_spec(s@),
{
    match parse_unsigned(s, 4294967295u64) {
        Some(v) => Some(v as u32),
        None => None,
    }
}

/// std's `str::parse::<usize>` on a run of characters, as an `Option`.
pub fn parse_usize(s: &[char]) -> (r: Option<usize>)
    ensures
        r == parse_usize_spec(s@),
{
    let max: u64 = if usize::MAX as u64 == u64::MAX { u64::MAX } else { usize::MAX as u64 };
    assert(max as nat == usize::MAX as nat);
    match parse_unsigned(s, max) {
        Some(v) => Some(v as usize),
        None => None,
    }
}

/// Reading `s` left to right: the finished whitespace-separated tokens
/// and the token in progress.
pub open spec fn token_state(s: Seq<char>) -> (Seq<Seq<char>>, Seq<char>)
    decreases s.len(),
{
    if s.len() == 0 {
        (Seq::empty(), Seq::empty())
    } else {
        let (done, cur) = token_state(s.drop_last());
        if is_whitespace_char(s.last()) {
            (if cur.len() > 0 { done.push(cur) } else { done }, Seq::empty())
        } else {
            (done, cur.push(s.last()))
        }
    }
}

/// The tokens of `s` as std's `str::split_whitespace` gives them: the
/// maximal runs of non-whitespace characters, in order.
pub open spec fn tokens_of(s: Seq<char>) -> Seq<Seq<char>> {
    let (done, cur) = token_state(s);
    if cur.len() > 0 {
        done.push(cur)
    } else {
        done
    }
}

/// The whitespace-separated tokens of `s` (see `tokens_of`).
pub fn split_tokens(s: &[char]) -> (r: Vec<Vec<char>>)
    ensures
        r.deep_view() == tokens_of(s@),
{
    let mut done: Vec<Vec<char>> = Vec::new();
    let mut cur: Vec<char> = Vec::new();
    let mut i: usize = 0;
    while i < s.len()
        invariant
            i <= s@.len(),
            token_state(s@.take(i as int)) == (done.deep_view(), cur@),
        decreases s@.len() - i,
    {
        assert(s@.take(i + 1).drop_last() =~= s@.take(i as int));
        let c = s[i];
        if char_is_whitespace(c) {
            if cur.len() > 0 {
                let ghost before = done.deep_view();
                done.push(cur);
                assert(done.deep_view() =~~= before.push(token_state(s@.take(i as int)).1));
            }
            cur = Vec::new();
        } else {
            cur.push(c);
        }
        i = i + 1;
    }
    assert(s@.take(s@.len() as int) =~= s@);
    if cur.len() > 0 {
        let ghost before = done.deep_view();
        done.push(cur);
        assert(done.deep_view() =~~= before.push(token_state(s@).1));
    }
    done
}

/// The first position at or after `i` where `c` stands in `s`.
pub open spec fn index_of_from(s: Seq<char>, c: char, i: int) -> Option<int>
    decreases s.len() - i,
{
    if i < 0 || i >= s.len() {
        None
    } else if s[i] == c {
        Some(i)
    } else {
        index_of_from(s, c, i + 1)
    }
}

/// The text between the first `:` of `s` and the next one (or the end):
/// what std's `str::split(':').nth(1)` gives; `None` without a `:`.
pub open spec fn second_field(s: Seq<char>) -> Option<Seq<char>> {
    match index_of_from(s, ':', 0) {
        None => None,
        Some(i) => {
            let rest = s.skip(i + 1);
            match index_of_from(rest, ':', 0) {
                None => Some(rest),
                Some(j) => Some(rest.take(j)),
            }
        },
    }
}

pub(crate) fn index_of(s: &[char], c: char, from: usize) -> (r: Option<usize>)
    requires
        from <= s@.len(),
    ensures
        match r {
            Some(i) => index_of_from(s@, c, from as int) == Some(i as int) && from <= i < s@.len(),
            None => index_of_from(s@, c, from as int) is None,
        },
    decreases s@.len() - from,
{
    if from >= s.len() {
        None
    } else if s[from] == c {
        Some(from)
    } else {
        index_of(s, c, from + 1)
    }
}

pub(crate) fn copy_range(s: &[char], a: usize, b: usize) -> (r: Vec<char>)
    requires
        a <= b <= s@.len(),
    ensures
        r@ == s@.subrange(a as int, b as int),
{
    let mut r: Vec<char> = Vec::new();
    let mut i = a;
    while i < b
        invariant
            a <= i <= b <= s@.len(),
            r@ == s@.subrange(a as int, i as int),
        decreases b - i,
    {
        r.push(s[i]);
        assert(r@ =~= s@.subrange(a as int, i + 1));
        i = i + 1;
    }
    r
}

proof fn lemma_index_of_shift(s: Seq<char>, c: char, i: int, k: int)
    requires
        0 <= k <= i,
        k <= s.len(),
    ensures
        index_of_from(s.skip(k), c, i - k) == (match index_of_from(s, c, i) {
            Some(j) => Some(j - k),
            None => None,
        }),
    decreases s.len() - i,
{
    if 0 <= i < s.len() {
        assert(s.skip(k)[i - k] == s[i]);
        if s[i] != c {
            lemma_index_of_shift(s, c, i + 1, k);
        }
    }
}

/// The text after the first `:` of a line, up to the next `:` (see
/// `second_field`).
pub fn field_after_colon(s: &[char]) -> (r: Option<Vec<char>>)
    ensures
        match r {
            Some(f) => second_field(s@) == Some(f@),
            None => second_field(s@) is None,
        },
{
    match index_of(s, ':', 0) {
        None => None,
        Some(i) => {
            let n = s.len();
            assert(i < n);
            proof {
                lemma_index_of_shift(s@, ':', i + 1, i + 1);
                assert(s@.skip(i + 1).take(0) =~= Seq::<char>::empty());
            }
            match index_of(s, ':', i + 1) {
                None => {
                    let f = copy_range(s, i + 1, s.len());
                    assert(f@ =~= s@.skip(i + 1));
                    Some(f)
                },
                Some(j) => {
                    let f = copy_range(s, i + 1, j);
                    assert(f@ =~= s@.skip(i + 1).take(j - (i + 1)));
                    Some(f)
                },
            }
        },
    }
}

/// std's `str::trim`: `s` without leading and trailing whitespace.
pub open spec fn trim_seq(s: Seq<char>) -> Seq<char> {
    trim_end_seq(trim_start_seq(s))
}

/// `s` without leading and trailing whitespace.
pub fn trim_chars(s: &[char]) -> (r: Vec<char>)
    ensures
        r@ == trim_seq(s@),
{
    let a = leading_whitespace(s, 0);
    assert(s@.skip(0) =~= s@);
    let t = copy_range(s, a, s.len());
    assert(t@ =~= s@.skip(a as int));
    let b = trimmed_end(t.as_slice(), t.len());
    assert(t@.take(t@.len() as int) =~= t@);
    copy_range(t.as_slice(), 0, b)
}

/// `needle` occurs in `hay` at `i` and nowhere before.
pub open spec fn is_first_occurrence(hay: Seq<char>, needle: Seq<char>, i: int) -> bool {
    occurs_at(hay, needle, i) && forall|j: int| 0 <= j < i ==> !occurs_at(hay, needle, j)
}

/// std's `str::find`: where `needle` first occurs in `hay`, if anywhere.
pub open spec fn find_seq(hay: Seq<char>, needle: Seq<char>) -> Option<int> {
    if exists|i: int| occurs_at(hay, needle, i) {
        Some(choose|i: int| is_first_occurrence(hay, needle, i))
    } else {
        None
    }
}

/// Where `needle` first occurs in `hay` (see `find_seq`).
pub fn find_text(hay: &[char], needle: &str) -> (r: Option<usize>)
    ensures
        match r {
            Some(i) => find_seq(hay@, needle@) == Some(i as int) && i + needle@.len() <= hay@.len(),
            None => find_seq(hay@, needle@) is None,
        },
{
    let n = chars_of(needle);
    match find_from(hay, n.as_slice(), 0) {
        Some(i) => {
            proof {
                assert(is_first_occurrence(hay@, needle@, i as int));
                let j = choose|j: int| is_first_occurrence(hay@, needle@, j);
                if j < i {
                    assert(!occurs_at(hay@, needle@, j));
                } else if j > i {
                    assert(!occurs_at(hay@, needle@, i as int));
                }
            }
            Some(i)
        },
        None => {
            proof {
                if exists|i: int| occurs_at(hay@, needle@, i) {
                    let i = choose|i: int| occurs_at(hay@, needle@, i);
                    assert(!occurs_at(hay@, needle@, i));
                }
            }
            None
        },
    }
}

/// Whether `needle` occurs in the run of characters `hay`.
fn has_text(hay: &[char], needle: &str) -> (r: bool)
    ensures
        r == contains_seq(hay@, needle@),
{
    let n = chars_of(needle);
    crate::text::contains(hay, n.as_slice())
}

/// The header values read so far: the number of jobs, of renewable
/// resources, and the horizon.
pub type HeaderValues = (usize, usize, u32);

/// The number that a header field such as `4   R` begins with: its first
/// whitespace-separated token, read as a count; `default` where the field
/// is empty or that token is not a number.
pub open spec fn leading_count(f: Seq<char>, default: usize) -> usize {
    if tokens_of(f).len() > 0 {
        match parse_usize_spec(tokens_of(f)[0]) {
            Some(v) => v,
            None => default,
        }
    } else {
        default
    }
}

/// How one line of the file changes the header values: the jobs line, the
/// renewable resources line and the horizon line each set their value from
/// the text after the colon, with a default where it does not parse; the
/// renewable count is the number the field begins with (the unit letter
/// follows it).
pub open spec fn header_step(h: HeaderValues, line: Seq<char>) -> HeaderValues {
    if contains_seq(line, "jobs (incl. supersource/sink )"@) {
        match second_field(line) {
            Some(f) => (
                match parse_usize_spec(trim_seq(f)) {
                    Some(v) => v,
                    None => 0,
                },
                h.1,
                h.2,
            ),
            None => h,
        }
    } else if starts_with_seq(trim_seq(line), "- renewable"@) {
        match second_field(line) {
            Some(f) => (h.0, leading_count(f, 4), h.2),
            None => h,
        }
    } else if contains_seq(line, "horizon"@) && !contains_seq(line, "****************"@) {
        match second_field(line) {
            Some(f) => (
                h.0,
                h.1,
                match parse_u32_spec(trim_seq(f)) {
                    Some(v) => v,
                    None => 100,
                },
            ),
            None => h,
        }
    } else {
        h
    }
}

/// The header values after reading `lines`, starting from no jobs, four
/// resources and a horizon of 100.
pub open spec fn header_of(lines: Seq<Seq<char>>) -> HeaderValues
    decreases lines.len(),
{
    if lines.len() == 0 {
        (0, 4, 100)
    } else {
        header_step(header_of(lines.drop_last()), lines.last())
    }
}

fn parsed_field_usize(line: &[char], default: usize) -> (r: Option<usize>)
    ensures
        match second_field(line@) {
            Some(f) => r == Some(
                match parse_usize_spec(trim_seq(f)) {
                    Some(v) => v,
                    None => default,
                },
            ),
            None => r is None,
        },
{
    match field_after_colon(line) {
        Some(f) => {
            let t = trim_chars(f.as_slice());
            match parse_usize(t.as_slice()) {
                Some(v) => Some(v),
                None => Some(default),
            }
        },
        None => None,
    }
}

fn leading_count_of(f: &[char], default: usize) -> (r: usize)
    ensures
        r == leading_count(f@, default),
{
    let toks = split_tokens(f);
    if toks.len() > 0 {
        assert(toks@[0]@ == tokens_of(f@)[0]);
        match parse_usize(toks[0].as_slice()) {
            Some(v) => v,
            None => default,
        }
    } else {
        default
    }
}

fn header_line(h: HeaderValues, line: &[char]) -> (r: HeaderValues)
    ensures
        r == header_step(h, line@),
{
    proof {
        reveal_strlit("jobs (incl. supersource/sink )");
        reveal_strlit("- renewable");
        reveal_strlit("horizon");
        reveal_strlit("****************");
    }
    if has_text(line, "jobs (incl. supersource/sink )") {
        match parsed_field_usize(line, 0) {
            Some(v) => (v, h.1, h.2),
            None => h,
        }
    } else if {
        let t = trim_chars(line);
        let p = chars_of("- renewable");
        matches_at(t.as_slice(), p.as_slice(), 0)
    } {
        match field_after_colon(line) {
            Some(f) => (h.0, leading_count_of(f.as_slice(), 4), h.2),
            None => h,
        }
    } else if has_text(line, "horizon") && !has_text(line, "****************") {
        match field_after_colon(line) {
            Some(f) => {
                let t = trim_chars(f.as_slice());
                match parse_u32(t.as_slice()) {
                    Some(v) => (h.0, h.1, v),
                    None => (h.0, h.1, 100),
                }
            },
            None => h,
        }
    } else {
        h
    }
}

/// The header values of a file given by its lines (see `header_of`).
pub fn header_values(lines: &Vec<Vec<char>>) -> (r: HeaderValues)
    ensures
        r == header_of(lines.deep_view()),
{
    let mut h: HeaderValues = (0, 4, 100);
    let mut i: usize = 0;
    while i < lines.len()
        invariant
            i <= lines@.len(),
            h == header_of(lines.deep_view().take(i as int)),
        decreases lines@.len() - i,
    {
        assert(lines.deep_view().take(i + 1).drop_last() =~= lines.deep_view().take(i as int));
        assert(lines.deep_view().take(i + 1).last() == lines@[i as int]@);
        h = header_line(h, lines[i].as_slice());
        i = i + 1;
    }
    assert(lines.deep_view().take(lines@.len() as int) =~= lines.deep_view());
    h
}

/// The lines after the first `n` (none where there are no more).
pub open spec fn lines_after(ls: Seq<Seq<char>>, n: int) -> Seq<Seq<char>> {
    if ls.len() <= n {
        Seq::empty()
    } else {
        ls.skip(n)
    }
}

/// The first `n` of `ts`, or all of them where there are fewer.
pub open spec fn at_most(ts: Seq<Seq<char>>, n: int) -> Seq<Seq<char>> {
    if n < ts.len() {
        ts.take(n)
    } else {
        ts
    }
}

/// The values among `ts` that parse as `u32`, in order.
pub open spec fn parsed_u32s(ts: Seq<Seq<char>>) -> Seq<u32>
    decreases ts.len(),
{
    if ts.len() == 0 {
        Seq::empty()
    } else {
        let p = parsed_u32s(ts.drop_last());
        match parse_u32_spec(ts.last()) {
            Some(v) => p.push(v),
            None => p,
        }
    }
}

/// The name of the `n`-th resource: `R` and the number.
pub open spec fn resource_name(n: nat) -> Seq<char> {
    "R"@ + decimal(n)
}

/// The requests among `ts`, the `k`-th of them for resource `k + 1`: those
/// that parse and are positive.
pub open spec fn demand_entries(ts: Seq<Seq<char>>) -> Seq<(Seq<char>, u32)>
    decreases ts.len(),
{
    if ts.len() == 0 {
        Seq::empty()
    } else {
        let p = demand_entries(ts.drop_last());
        match parse_u32_spec(ts.last()) {
            Some(d) => if d > 0 {
                p.push((resource_name(ts.len()), d))
            } else {
                p
            },
            None => p,
        }
    }
}

/// Only positive requests are kept, each for a resource `R1`, `R2`, ...
/// among the first `ts.len()`.
pub proof fn lemma_demands_positive(ts: Seq<Seq<char>>)
    ensures
        forall|i: int|
            0 <= i < demand_entries(ts).len() ==> (#[trigger] demand_entries(ts)[i]).1 > 0 && exists|k: nat|
                1 <= k <= ts.len() && demand_entries(ts)[i].0 == resource_name(k),
    decreases ts.len(),
{
    if ts.len() > 0 {
        lemma_demands_positive(ts.drop_last());
        let p = demand_entries(ts.drop_last());
        assert forall|i: int| 0 <= i < demand_entries(ts).len() implies (#[trigger] demand_entries(ts)[i]).1 > 0
            && exists|k: nat| 1 <= k <= ts.len() && demand_entries(ts)[i].0 == resource_name(k) by {
            if i < p.len() {
                assert(demand_entries(ts)[i] == p[i]);
                let k = choose|k: nat| 1 <= k <= ts.drop_last().len() && p[i].0 == resource_name(k);
                assert(1 <= k <= ts.len() && demand_entries(ts)[i].0 == resource_name(k));
            } else {
                assert(demand_entries(ts)[i].0 == resource_name(ts.len()));
            }
        }
    }
}

fn parsed_in(ts: &Vec<Vec<char>>, from: usize, to: usize) -> (r: Vec<u32>)
    requires
        from <= to <= ts@.len(),
    ensures
        r@ == parsed_u32s(ts.deep_view().subrange(from as int, to as int)),
{
    let mut r: Vec<u32> = Vec::new();
    let mut i = from;
    assert(ts.deep_view().subrange(from as int, from as int) =~= Seq::<Seq<char>>::empty());
    while i < to
        invariant
            from <= i <= to <= ts@.len(),
            r@ == parsed_u32s(ts.deep_view().subrange(from as int, i as int)),
        decreases to - i,
    {
        let ghost sub = ts.deep_view().subrange(from as int, i + 1);
        assert(sub.drop_last() =~= ts.deep_view().subrange(from as int, i as int));
        assert(sub.last() == ts@[i as int]@);
        match parse_u32(ts[i].as_slice()) {
            Some(v) => r.push(v),
            None => {},
        }
        i = i + 1;
    }
    r
}

/// The name of the `n`-th resource (see `resource_name`).
pub fn resource_name_string(n: u64) -> (r: String)
    ensures
        r@ == resource_name(n as nat),
{
    let mut r = String::new();
    push_str(&mut r, "R");
    let d = u64_to_string(n);
    push_str(&mut r, d.as_str());
    proof {
        reveal_strlit("R");
    }
    r
}

/// The plain values of a list of named amounts.
pub open spec fn named_view(v: Seq<(String, u32)>) -> Seq<(Seq<char>, u32)> {
    v.map_values(|e: (String, u32)| (e.0@, e.1))
}

fn demands_in(ts: &Vec<Vec<char>>, from: usize, to: usize) -> (r: Vec<(String, u32)>)
    requires
        from <= to <= ts@.len(),
    ensures
        named_view(r@) == demand_entries(ts.deep_view().subrange(from as int, to as int)),
{
    let mut r: Vec<(String, u32)> = Vec::new();
    let mut i = from;
    assert(ts.deep_view().subrange(from as int, from as int) =~= Seq::<Seq<char>>::empty());
    assert(named_view(r@) =~= Seq::empty());
    while i < to
        invariant
            from <= i <= to <= ts@.len(),
            named_view(r@) == demand_entries(ts.deep_view().subrange(from as int, i as int)),
        decreases to - i,
    {
        let ghost sub = ts.deep_view().subrange(from as int, i + 1);
        assert(sub.drop_last() =~= ts.deep_view().subrange(from as int, i as int));
        assert(sub.last() == ts@[i as int]@);
        match parse_u32(ts[i].as_slice()) {
            Some(v) => {
                if v > 0 {
                    let name = resource_name_string((i - from + 1) as u64);
                    let ghost before = r@;
                    r.push((name, v));
                    assert(named_view(r@) =~= named_view(before).push((name@, v)));
                }
            },
            None => {},
        }
        i = i + 1;
    }
    r
}

/// A line of the precedence table, by its tokens: the job number, the
/// number of successors, then the successors; as many of them as that
/// number says (or as there are) are read, and those that parse are kept.
pub open spec fn precedence_entry(toks: Seq<Seq<char>>) -> Option<(u32, Seq<u32>)> {
    if toks.len() >= 3 {
        match parse_u32_spec(toks[0]) {
            Some(id) => {
                let n: int = match parse_usize_spec(toks[2]) {
                    Some(n) => n as int,
                    None => 0,
                };
                Some((id, parsed_u32s(at_most(toks.skip(3), n))))
            },
            None => None,
        }
    } else {
        None
    }
}

/// The successors of each job after reading the precedence table
/// `lines`; a job listed twice keeps its last line.
pub open spec fn precedence_of(lines: Seq<Seq<char>>) -> Map<u32, Seq<u32>>
    decreases lines.len(),
{
    if lines.len() == 0 {
        Map::empty()
    } else {
        let m = precedence_of(lines.drop_last());
        match precedence_entry(tokens_of(lines.last())) {
            Some(e) => m.insert(e.0, e.1),
            None => m,
        }
    }
}

/// A line of the requests table, by its tokens: the job number, its mode,
/// its duration (0 where it does not parse), then one request per
/// resource, of which the first `nres` are read.
pub open spec fn request_entry(toks: Seq<Seq<char>>, nres: int) -> Option<(u32, u32, Seq<(Seq<char>, u32)>)> {
    if toks.len() >= 3 {
        match parse_u32_spec(toks[0]) {
            Some(id) => Some(
                (
                    id,
                    match parse_u32_spec(toks[2]) {
                        Some(d) => d,
                        None => 0,
                    },
                    demand_entries(at_most(toks.skip(3), nres)),
                ),
            ),
            None => None,
        }
    } else {
        None
    }
}

/// The duration of each job after reading the requests table `lines`.
pub open spec fn durations_of(lines: Seq<Seq<char>>, nres: int) -> Map<u32, u32>
    decreases lines.len(),
{
    if lines.len() == 0 {
        Map::empty()
    } else {
        let m = durations_of(lines.drop_last(), nres);
        match request_entry(tokens_of(lines.last()), nres) {
            Some(e) => m.insert(e.0, e.1),
            None => m,
        }
    }
}

/// The positive requests of each job after reading the requests table
/// `lines`.
pub open spec fn demands_of(lines: Seq<Seq<char>>, nres: int) -> Map<u32, Seq<(Seq<char>, u32)>>
    decreases lines.len(),
{
    if lines.len() == 0 {
        Map::empty()
    } else {
        let m = demands_of(lines.drop_last(), nres);
        match request_entry(tokens_of(lines.last()), nres) {
            Some(e) => m.insert(e.0, e.2),
            None => m,
        }
    }
}

/// The plain values of the successor lists.
pub open spec fn successors_view(m: Map<u32, Vec<u32>>) -> Map<u32, Seq<u32>> {
    m.map_values(|v: Vec<u32>| v@)
}

/// The plain values of the request lists.
pub open spec fn demands_view(m: Map<u32, Vec<(String, u32)>>) -> Map<u32, Seq<(Seq<char>, u32)>> {
    m.map_values(|v: Vec<(String, u32)>| named_view(v@))
}

fn precedence_entry_of(toks: &Vec<Vec<char>>) -> (r: Option<(u32, Vec<u32>)>)
    ensures
        match r {
            Some(e) => precedence_entry(toks.deep_view()) == Some((e.0, e.1@)),
            None => precedence_entry(toks.deep_view()) is None,
        },
{
    if toks.len() >= 3 {
        assert(toks.deep_view()[0] == toks@[0]@);
        assert(toks.deep_view()[2] == toks@[2]@);
        match parse_u32(toks[0].as_slice()) {
            Some(id) => {
                let n: usize = match parse_usize(toks[2].as_slice()) {
                    Some(n) => n,
                    None => 0,
                };
                let rest = toks.len() - 3;
                let to = if n < rest { 3 + n } else { toks.len() };
                let succ = parsed_in(toks, 3, to);
                assert(at_most(toks.deep_view().skip(3), n as int) =~= toks.deep_view().subrange(3, to as int));
                Some((id, succ))
            },
            None => None,
        }
    } else {
        None
    }
}

fn request_entry_of(toks: &Vec<Vec<char>>, nres: usize) -> (r: Option<(u32, u32, Vec<(String, u32)>)>)
    ensures
        match r {
            Some(e) => request_entry(toks.deep_view(), nres as int) == Some((e.0, e.1, named_view(e.2@))),
            None => request_entry(toks.deep_view(), nres as int) is None,
        },
{
    if toks.len() >= 3 {
        assert(toks.deep_view()[0] == toks@[0]@);
        assert(toks.deep_view()[2] == toks@[2]@);
        match parse_u32(toks[0].as_slice()) {
            Some(id) => {
                let d: u32 = match parse_u32(toks[2].as_slice()) {
                    Some(d) => d,
                    None => 0,
                };
                let rest = toks.len() - 3;
                let to = if nres < rest { 3 + nres } else { toks.len() };
                let dem = demands_in(toks, 3, to);
                assert(at_most(toks.deep_view().skip(3), nres as int) =~= toks.deep_view().subrange(3, to as int));
                Some((id, d, dem))
            },
            None => None,
        }
    } else {
        None
    }
}

/// The precedence table read from the lines of its section, of which the
/// first two are headings.
fn precedence_table(ls: &Vec<Vec<char>>) -> (m: HashMap<u32, Vec<u32>>)
    ensures
        successors_view(m@) == precedence_of(lines_after(ls.deep_view(), 2)),
{
    broadcast use vstd::std_specs::hash::group_hash_axioms;

    let mut m: HashMap<u32, Vec<u32>> = HashMap::new();
    if ls.len() <= 2 {
        assert(successors_view(m@) =~= Map::empty());
        return m;
    }
    let mut i: usize = 2;
    assert(ls.deep_view().subrange(2, 2) =~= Seq::<Seq<char>>::empty());
    assert(successors_view(m@) =~= Map::empty());
    while i < ls.len()
        invariant
            2 <= i <= ls@.len(),
            successors_view(m@) == precedence_of(ls.deep_view().subrange(2, i as int)),
        decreases ls@.len() - i,
    {
        let ghost sub = ls.deep_view().subrange(2, i + 1);
        assert(sub.drop_last() =~= ls.deep_view().subrange(2, i as int));
        assert(sub.last() == ls@[i as int]@);
        let toks = split_tokens(ls[i].as_slice());
        match precedence_entry_of(&toks) {
            Some(e) => {
                let ghost before = m@;
                let (id, succ) = e;
                m.insert(id, succ);
                assert(successors_view(m@) =~= successors_view(before).insert(id, succ@));
            },
            None => {},
        }
        i = i + 1;
    }
    assert(ls.deep_view().subrange(2, ls@.len() as int) =~= ls.deep_view().skip(2));
    m
}

/// The durations and requests read from the lines of the requests
/// section, of which the first three are headings.
fn request_tables(ls: &Vec<Vec<char>>, nres: usize) -> (r: (HashMap<u32, u32>, HashMap<u32, Vec<(String, u32)>>))
    ensures
        r.0@ == durations_of(lines_after(ls.deep_view(), 3), nres as int),
        demands_view(r.1@) == demands_of(lines_after(ls.deep_view(), 3), nres as int),
{
    broadcast use vstd::std_specs::hash::group_hash_axioms;

    let mut durations: HashMap<u32, u32> = HashMap::new();
    let mut demands: HashMap<u32, Vec<(String, u32)>> = HashMap::new();
    if ls.len() <= 3 {
        assert(demands_view(demands@) =~= Map::empty());
        return (durations, demands);
    }
    let mut i: usize = 3;
    assert(ls.deep_view().subrange(3, 3) =~= Seq::<Seq<char>>::empty());
    assert(demands_view(demands@) =~= Map::empty());
    while i < ls.len()
        invariant
            3 <= i <= ls@.len(),
            durations@ == durations_of(ls.deep_view().subrange(3, i as int), nres as int),
            demands_view(demands@) == demands_of(ls.deep_view().subrange(3, i as int), nres as int),
        decreases ls@.len() - i,
    {
        let ghost sub = ls.deep_view().subrange(3, i + 1);
        assert(sub.drop_last() =~= ls.deep_view().subrange(3, i as int));
        assert(sub.last() == ls@[i as int]@);
        let toks = split_tokens(ls[i].as_slice());
        match request_entry_of(&toks, nres) {
            Some(e) => {
                let ghost before = demands@;
                let (id, d, dem) = e;
                durations.insert(id, d);
                demands.insert(id, dem);
                assert(demands_view(demands@) =~= demands_view(before).insert(id, named_view(dem@)));
            },
            None => {},
        }
        i = i + 1;
    }
    assert(ls.deep_view().subrange(3, ls@.len() as int) =~= ls.deep_view().skip(3));
    (durations, demands)
}

/// Where the precedence section starts.
pub open spec fn precedence_mark() -> Seq<char> {
    "PRECEDENCE RELATIONS:"@
}

/// Where the requests section starts (and the precedence section ends).
pub open spec fn requests_mark() -> Seq<char> {
    "REQUESTS/DURATIONS:"@
}

/// Where the capacities section starts (and the requests section ends).
pub open spec fn capacities_mark() -> Seq<char> {
    "RESOURCEAVAILABILITIES:"@
}

/// The text from the first `from` mark up to the first `to` mark, where
/// both occur.
pub open spec fn section_between(content: Seq<char>, from: Seq<char>, to: Seq<char>) -> Option<Seq<char>> {
    match (find_seq(content, from), find_seq(content, to)) {
        (Some(a), Some(b)) => Some(content.subrange(a, b)),
        _ => None,
    }
}

/// Where both marks occur, the first comes first.
pub open spec fn marks_in_order(content: Seq<char>, from: Seq<char>, to: Seq<char>) -> bool {
    match (find_seq(content, from), find_seq(content, to)) {
        (Some(a), Some(b)) => a <= b,
        _ => true,
    }
}

/// The sections of the file stand in their usual order: precedence
/// relations before requests, requests before capacities.
pub open spec fn sections_in_order(content: Seq<char>) -> bool {
    marks_in_order(content, precedence_mark(), requests_mark()) && marks_in_order(
        content,
        requests_mark(),
        capacities_mark(),
    )
}

/// The lines of the precedence table (its two heading lines skipped).
pub open spec fn precedence_lines(content: Seq<char>) -> Seq<Seq<char>> {
    match section_between(content, precedence_mark(), requests_mark()) {
        Some(sec) => lines_after(lines_of(sec), 2),
        None => Seq::empty(),
    }
}

/// The lines of the requests table (its three heading lines skipped).
pub open spec fn request_lines(content: Seq<char>) -> Seq<Seq<char>> {
    match section_between(content, requests_mark(), capacities_mark()) {
        Some(sec) => lines_after(lines_of(sec), 3),
        None => Seq::empty(),
    }
}

/// The capacities written in the file: the values that parse on the
/// third line of the capacities section.
pub open spec fn capacity_values(content: Seq<char>) -> Seq<u32> {
    match find_seq(content, capacities_mark()) {
        Some(i) => {
            let ls = lines_of(content.skip(i));
            if ls.len() >= 3 {
                parsed_u32s(tokens_of(ls[2]))
            } else {
                Seq::empty()
            }
        },
        None => Seq::empty(),
    }
}

/// The capacity of each of the `nres` resources, in order: the value
/// written for it, or 10.
pub open spec fn capacities_of(caps: Seq<u32>, nres: nat) -> Seq<(Seq<char>, u32)> {
    Seq::new(nres, |i: int| (resource_name((i + 1) as nat), if i < caps.len() { caps[i] } else { 10u32 }))
}

/// A PSPLIB instance as read from its file.
#[derive(Debug)]
pub struct PsplibInstance {
    pub name: String,
    pub jobs: usize,
    pub num_resources: usize,
    pub horizon: u32,
    /// job -> its successors
    pub precedence: HashMap<u32, Vec<u32>>,
    /// job -> its duration
    pub durations: HashMap<u32, u32>,
    /// job -> its positive requests, by resource name, in resource order
    pub demands: HashMap<u32, Vec<(String, u32)>>,
    /// resource name -> capacity, for each resource in order
    pub capacities: Vec<(String, u32)>,
}

fn capacity_list(text: &Vec<char>, nres: usize) -> (r: Vec<(String, u32)>)
    ensures
        named_view(r@) == capacities_of(capacity_values(text@), nres as nat),
{
    let caps: Vec<u32> = match find_text(text.as_slice(), "RESOURCEAVAILABILITIES:") {
        Some(i) => {
            let sec = copy_range(text.as_slice(), i, text.len());
            assert(sec@ =~= text@.skip(i as int));
            let ls = text_lines(sec.as_slice());
            if ls.len() >= 3 {
                let toks = split_tokens(ls[2].as_slice());
                assert(ls.deep_view()[2] == ls@[2]@);
                assert(toks.deep_view().subrange(0, toks@.len() as int) =~= toks.deep_view());
                parsed_in(&toks, 0, toks.len())
            } else {
                Vec::new()
            }
        },
        None => Vec::new(),
    };
    assert(caps@ == capacity_values(text@));
    let ghost want = capacities_of(caps@, nres as nat);
    let mut r: Vec<(String, u32)> = Vec::new();
    let mut i: usize = 0;
    while i < nres
        invariant
            i <= nres,
            want == capacities_of(caps@, nres as nat),
            named_view(r@) == want.take(i as int),
        decreases nres - i,
    {
        let v: u32 = if i < caps.len() { caps[i] } else { 10 };
        let name = resource_name_string((i + 1) as u64);
        let ghost before = r@;
        r.push((name, v));
        assert(named_view(r@) =~= named_view(before).push((name@, v)));
        assert(want.take(i + 1) =~= want.take(i as int).push(want[i as int]));
        i = i + 1;
    }
    assert(want.take(nres as int) =~= want);
    r
}

/// Whether the sections of a file stand in their usual order (see
/// `sections_in_order`).
pub fn sections_ordered(content: &str) -> (r: bool)
    ensures
        r == sections_in_order(content@),
{
    let text = chars_of(content);
    proof {
        reveal_strlit("PRECEDENCE RELATIONS:");
        reveal_strlit("REQUESTS/DURATIONS:");
        reveal_strlit("RESOURCEAVAILABILITIES:");
    }
    let p = find_text(text.as_slice(), "PRECEDENCE RELATIONS:");
    let q = find_text(text.as_slice(), "REQUESTS/DURATIONS:");
    let c = find_text(text.as_slice(), "RESOURCEAVAILABILITIES:");
    let first = match (p, q) {
        (Some(a), Some(b)) => a <= b,
        _ => true,
    };
    let second = match (q, c) {
        (Some(a), Some(b)) => a <= b,
        _ => true,
    };
    first && second
}

impl PsplibInstance {
    /// Reads an instance from the text of its `.sm` file. The header gives
    /// the number of jobs (0 where it does not parse), of renewable
    /// resources (the number its field begins with, 4 where there is none)
    /// and the horizon (100 by default); the
    /// precedence table the successors of each job; the requests table the
    /// duration and the positive requests of each job; the capacities
    /// section the capacity of each resource, 10 where none is written.
    pub fn parse(content: &str, name: &str) -> (r: Result<Self, String>)
        requires
            sections_in_order(content@),
        ensures
            match r {
                Ok(inst) => {
                    let h = header_of(lines_of(content@));
                    &&& inst.name@ == name@
                    &&& inst.jobs == h.0
                    &&& inst.num_resources == h.1
                    &&& inst.horizon == h.2
                    &&& successors_view(inst.precedence@) == precedence_of(precedence_lines(content@))
                    &&& inst.durations@ == durations_of(request_lines(content@), h.1 as int)
                    &&& demands_view(inst.demands@) == demands_of(request_lines(content@), h.1 as int)
                    &&& named_view(inst.capacities@) == capacities_of(capacity_values(content@), h.1 as nat)
                },
                Err(_) => false,
            },
    {
        broadcast use vstd::std_specs::hash::group_hash_axioms;

        let text = chars_of(content);
        let lines = text_lines(text.as_slice());
        let (jobs, num_resources, horizon) = header_values(&lines);
        proof {
            reveal_strlit("PRECEDENCE RELATIONS:");
            reveal_strlit("REQUESTS/DURATIONS:");
            reveal_strlit("RESOURCEAVAILABILITIES:");
        }
        let prec_start = find_text(text.as_slice(), "PRECEDENCE RELATIONS:");
        let prec_end = find_text(text.as_slice(), "REQUESTS/DURATIONS:");
        let precedence: HashMap<u32, Vec<u32>> = match (prec_start, prec_end) {
            (Some(a), Some(b)) => {
                let sec = copy_range(text.as_slice(), a, b);
                let ls = text_lines(sec.as_slice());
                precedence_table(&ls)
            },
            _ => {
                let m: HashMap<u32, Vec<u32>> = HashMap::new();
                assert(successors_view(m@) =~= Map::empty());
                m
            },
        };
        let req_start = prec_end;
        let req_end = find_text(text.as_slice(), "RESOURCEAVAILABILITIES:");
        let (durations, demands) = match (req_start, req_end) {
            (Some(a), Some(b)) => {
                let sec = copy_range(text.as_slice(), a, b);
                let ls = text_lines(sec.as_slice());
                request_tables(&ls, num_resources)
            },
            _ => {
                let d: HashMap<u32, u32> = HashMap::new();
                let m: HashMap<u32, Vec<(String, u32)>> = HashMap::new();
                assert(demands_view(m@) =~= Map::empty());
                (d, m)
            },
        };
        let capacities = capacity_list(&text, num_resources);
        Ok(PsplibInstance {
            name: crate::text::string_of(chars_of(name).as_slice()),
            jobs,
            num_resources,
            horizon,
            precedence,
            durations,
            demands,
            capacities,
        })
    }
}

/// A line of a table of optimal makespans, by its tokens: parameter,
/// instance and makespan; the instance is named `j30<parameter>_<instance>`.
pub open spec fn solution_entry(toks: Seq<Seq<char>>) -> Option<(Seq<char>, u32)> {
    if toks.len() >= 3 {
        match (parse_u32_spec(toks[0]), parse_u32_spec(toks[1]), parse_u32_spec(toks[2])) {
            (Some(p), Some(i), Some(m)) => Some(("j30"@ + decimal(p as nat) + "_"@ + decimal(i as nat), m)),
            _ => None,
        }
    } else {
        None
    }
}

/// The entries of a table of optimal makespans, line by line.
pub open spec fn solution_entries(lines: Seq<Seq<char>>) -> Seq<(Seq<char>, u32)>
    decreases lines.len(),
{
    if lines.len() == 0 {
        Seq::empty()
    } else {
        let p = solution_entries(lines.drop_last());
        match solution_entry(tokens_of(lines.last())) {
            Some(e) => p.push(e),
            None => p,
        }
    }
}

fn record_solution(v: &mut Vec<(String, u32)>, name: String, makespan: u32)
    requires
        unique_keys(named_view(old(v)@)),
    ensures
        unique_keys(named_view(final(v)@)),
        last_wins(named_view(final(v)@)) == last_wins(named_view(old(v)@)).insert(name@, makespan),
{
    let ghost old_v = named_view(v@);
    let ghost e = (name@, makespan);
    let mut i: usize = 0;
    while i < v.len()
        invariant
            i <= v@.len(),
            old_v == named_view(v@),
            old_v == named_view(old(v)@),
            unique_keys(old_v),
            e == (name@, makespan),
            forall|k: int| 0 <= k < i ==> #[trigger] old_v[k].0 != name@,
        decreases v@.len() - i,
    {
        proof {
            assert(old_v[i as int].0 == v@[i as int].0@);
        }
        let same = crate::text::str_eq(v[i].0.as_str(), name.as_str());
        if same {
            let ghost before = v@;
            proof {
                assert(old_v[i as int].0 == e.0);
            }
            v.set(i, (name, makespan));
            proof {
                lemma_last_wins_update(old_v, i as int, e);
                assert forall|j: int| 0 <= j < old_v.len() implies #[trigger] named_view(v@)[j] == old_v.update(
                    i as int,
                    e,
                )[j] by {
                    if j != i {
                        assert(v@[j] == before[j]);
                    }
                }
                assert(named_view(v@) =~= old_v.update(i as int, e));
            }
            return;
        }
        i = i + 1;
    }
    v.push((name, makespan));
    proof {
        let w = named_view(v@);
        assert(w =~= old_v.push(e));
        assert(w.drop_last() =~= old_v);
        assert forall|a: int, b: int| 0 <= a < b < w.len() implies #[trigger] w[a].0 != #[trigger] w[b].0 by {
            if b == old_v.len() {
                assert(w[a].0 == old_v[a].0);
            } else {
                assert(w[a].0 == old_v[a].0);
                assert(w[b].0 == old_v[b].0);
            }
        }
    }
}

/// Reads a table of optimal makespans (such as `j30opt.sm`): each line
/// `parameter instance makespan` gives the makespan of instance
/// `j30<parameter>_<instance>`; other lines are skipped, and where an
/// instance is listed twice the later line stands. No name occurs twice in
/// the result.
pub fn parse_optimal_solutions(content: &str) -> (r: Vec<(String, u32)>)
    ensures
        unique_keys(named_view(r@)),
        last_wins(named_view(r@)) == last_wins(solution_entries(lines_of(content@))),
{
    let text = chars_of(content);
    let lines = text_lines(text.as_slice());
    let mut r: Vec<(String, u32)> = Vec::new();
    let mut i: usize = 0;
    assert(named_view(r@) =~= Seq::empty());
    assert(lines.deep_view().take(0) =~= Seq::<Seq<char>>::empty());
    proof {
        reveal_strlit("j30");
        reveal_strlit("_");
    }
    while i < lines.len()
        invariant
            i <= lines@.len(),
            unique_keys(named_view(r@)),
            last_wins(named_view(r@)) == last_wins(solution_entries(lines.deep_view().take(i as int))),
        decreases lines@.len() - i,
    {
        let ghost sub = lines.deep_view().take(i + 1);
        assert(sub.drop_last() =~= lines.deep_view().take(i as int));
        assert(sub.last() == lines@[i as int]@);
        let toks = split_tokens(lines[i].as_slice());
        if toks.len() >= 3 {
            assert(toks.deep_view()[0] == toks@[0]@);
            assert(toks.deep_view()[1] == toks@[1]@);
            assert(toks.deep_view()[2] == toks@[2]@);
            let p = parse_u32(toks[0].as_slice());
            let n = parse_u32(toks[1].as_slice());
            let m = parse_u32(toks[2].as_slice());
            match (p, n, m) {
                (Some(p), Some(n), Some(m)) => {
                    let mut name = String::new();
                    push_str(&mut name, "j30");
                    let ps = u64_to_string(p as u64);
                    push_str(&mut name, ps.as_str());
                    push_str(&mut name, "_");
                    let ns = u64_to_string(n as u64);
                    push_str(&mut name, ns.as_str());
                    proof {
                        let key = "j30"@ + decimal(p as nat) + "_"@ + decimal(n as nat);
                        assert(name@ =~= key);
                        let prev = solution_entries(lines.deep_view().take(i as int));
                        assert(solution_entries(sub) == prev.push((key, m)));
                        assert(prev.push((key, m)).drop_last() =~= prev);
                    }
                    record_solution(&mut r, name, m);
                },
                _ => {},
            }
        }
        i = i + 1;
    }
    assert(lines.deep_view().take(lines@.len() as int) =~= lines.deep_view());
    r
}

/// The optimal makespan listed for an instance, if any.
pub fn optimal_makespan(solutions: &Vec<(String, u32)>, name: &str) -> (r: Option<u32>)
    requires
        unique_keys(named_view(solutions@)),
    ensures
        match r {
            Some(m) => last_wins(named_view(solutions@)).dom().contains(name@)
                && last_wins(named_view(solutions@))[name@] == m,
            None => !last_wins(named_view(solutions@)).dom().contains(name@),
        },
{
    let ghost v = named_view(solutions@);
    let mut i: usize = 0;
    while i < solutions.len()
        invariant
            i <= solutions@.len(),
            v == named_view(solutions@),
            unique_keys(v),
            forall|k: int| 0 <= k < i ==> #[trigger] v[k].0 != name@,
        decreases solutions@.len() - i,
    {
        assert(v[i as int].0 == solutions@[i as int].0@);
        if crate::text::str_eq(solutions[i].0.as_str(), name) {
            proof {
                lemma_last_wins_at(v, i as int);
            }
            return Some(solutions[i].1);
        }
        i = i + 1;
    }
    proof {
        lemma_last_wins_absent(v, name@);
    }
    None
}

proof fn lemma_last_wins_at(v: Seq<(Seq<char>, u32)>, i: int)
    requires
        unique_keys(v),
        0 <= i < v.len(),
    ensures
        last_wins(v).dom().contains(v[i].0),
        last_wins(v)[v[i].0] == v[i].1,
    decreases v.len(),
{
    if i < v.len() - 1 {
        lemma_last_wins_at(v.drop_last(), i);
        assert(v[i].0 != v.last().0);
    }
}

proof fn lemma_last_wins_absent(v: Seq<(Seq<char>, u32)>, k: Seq<char>)
    requires
        forall|j: int| 0 <= j < v.len() ==> #[trigger] v[j].0 != k,
    ensures
        !last_wins(v).dom().contains(k),
    decreases v.len(),
{
    if v.len() > 0 {
        lemma_last_wins_absent(v.drop_last(), k);
        assert(v.last().0 != k);
    }
}

/// The amount given for `name` in a list of named amounts (capacities,
/// or the requests of a job): that of its first entry, if it has one.
pub fn amount_of(list: &Vec<(String, u32)>, name: &str) -> (r: Option<u32>)
    ensures
        match r {
            Some(m) => exists|i: int|
                0 <= i < list@.len() && named_view(list@)[i] == (name@, m) && forall|j: int|
                    0 <= j < i ==> #[trigger] named_view(list@)[j].0 != name@,
            None => forall|j: int| 0 <= j < list@.len() ==> #[trigger] named_view(list@)[j].0 != name@,
        },
{
    let mut i: usize = 0;
    while i < list.len()
        invariant
            i <= list@.len(),
            forall|j: int| 0 <= j < i ==> #[trigger] named_view(list@)[j].0 != name@,
        decreases list@.len() - i,
    {
        assert(named_view(list@)[i as int] == (list@[i as int].0@, list@[i as int].1));
        if crate::text::str_eq(list[i].0.as_str(), name) {
            return Some(list[i].1);
        }
        i = i + 1;
    }
    None
}

} // verus!
