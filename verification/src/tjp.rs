//! Text of TaskJuggler project files: quoted strings with their escapes.
use vstd::prelude::*;
use crate::text::{chars_of, matches_at, occurs_at, string_of};

verus! {

/// `s` without the quote characters at its start and at its end (std's
/// `trim_matches('"')`).
pub open spec fn trim_quotes(s: Seq<char>) -> Seq<char>
    decreases s.len(),
{
    if s.len() > 0 && s[0] == '"' {
        trim_quotes(s.drop_first())
    } else if s.len() > 0 && s.last() == '"' {
        trim_quotes(s.drop_last())
    } else {
        s
    }
}

/// Every occurrence of `pat` in `s` replaced by `rep`, scanning from the
/// left without overlaps (std's `str::replace` for a nonempty pattern).
pub open spec fn replace_all(s: Seq<char>, pat: Seq<char>, rep: Seq<char>) -> Seq<char>
    decreases s.len(),
{
    if s.len() == 0 || pat.len() == 0 {
        s
    } else if occurs_at(s, pat, 0) {
        rep + replace_all(s.skip(pat.len() as int), pat, rep)
    } else {
        seq![s[0]] + replace_all(s.drop_first(), pat, rep)
    }
}

/// The value of a quoted string of a TaskJuggler file: the quotes at
/// either end removed, then `\"`, `\n`, `\t` and `\\` replaced, in that
/// order, each throughout.
pub open spec fn tjp_string(s: Seq<char>) -> Seq<char> {
    let a = replace_all(trim_quotes(s), seq!['\\', '"'], seq!['"']);
    let b = replace_all(a, seq!['\\', 'n'], seq!['\n']);
    let c = replace_all(b, seq!['\\', 't'], seq!['\t']);
    replace_all(c, seq!['\\', '\\'], seq!['\\'])
}

fn trimmed_quotes(s: &[char]) -> (r: Vec<char>)
    ensures
        r@ == trim_quotes(s@),
{
    let mut a: usize = 0;
    let mut b: usize = s.len();
    assert(s@.subrange(0, s@.len() as int) =~= s@);
    while a < b && s[a] == '"'
        invariant
            a <= b <= s@.len(),
            b == s@.len(),
            trim_quotes(s@) == trim_quotes(s@.subrange(a as int, b as int)),
        decreases b - a,
    {
        assert(s@.subrange(a as int, b as int).drop_first() =~= s@.subrange(a + 1, b as int));
        a = a + 1;
    }
    while a < b && s[b - 1] == '"'
        invariant
            a <= b <= s@.len(),
            a == b || s@[a as int] != '"',
            trim_quotes(s@) == trim_quotes(s@.subrange(a as int, b as int)),
        decreases b - a,
    {
        let ghost sub = s@.subrange(a as int, b as int);
        assert(sub[0] == s@[a as int]);
        assert(sub.drop_last() =~= s@.subrange(a as int, b - 1));
        b = b - 1;
    }
    let ghost fin = s@.subrange(a as int, b as int);
    proof {
        if a < b {
            assert(fin[0] == s@[a as int]);
            assert(fin.last() == s@[b - 1]);
        }
    }
    crate::psplib::copy_range(s, a, b)
}

fn replace_chars(s: &[char], pat: &[char], rep: &[char]) -> (r: Vec<char>)
    requires
        pat@.len() > 0,
    ensures
        r@ == replace_all(s@, pat@, rep@),
{
    let mut out: Vec<char> = Vec::new();
    let mut i: usize = 0;
    assert(s@.skip(0) =~= s@);
    while i < s.len()
        invariant
            i <= s@.len(),
            pat@.len() > 0,
            out@ + replace_all(s@.skip(i as int), pat@, rep@) == replace_all(s@, pat@, rep@),
        decreases s@.len() - i,
    {
        let ghost rest = s@.skip(i as int);
        if matches_at(s, pat, i) {
            assert(rest.subrange(0, pat@.len() as int) =~= s@.subrange(i as int, i + pat@.len()));
            assert(occurs_at(rest, pat@, 0));
            assert(rest.skip(pat@.len() as int) =~= s@.skip(i + pat@.len()));
            let ghost before = out@;
            out.extend_from_slice(rep);
            assert(out@ + replace_all(s@.skip(i + pat@.len()), pat@, rep@) =~= before + (rep@ + replace_all(
                rest.skip(pat@.len() as int),
                pat@,
                rep@,
            )));
            i = i + pat.len();
        } else {
            proof {
                if occurs_at(rest, pat@, 0) {
                    assert(rest.subrange(0, pat@.len() as int) =~= s@.subrange(i as int, i + pat@.len()));
                }
            }
            assert(rest.drop_first() =~= s@.skip(i + 1));
            assert(rest[0] == s@[i as int]);
            let ghost before = out@;
            out.push(s[i]);
            assert(out@ + replace_all(s@.skip(i + 1), pat@, rep@) =~= before + (seq![rest[0]] + replace_all(
                rest.drop_first(),
                pat@,
                rep@,
            )));
            i = i + 1;
        }
    }
    assert(s@.skip(i as int) =~= Seq::<char>::empty());
    assert(out@ + Seq::<char>::empty() =~= out@);
    out
}

/// The value of a quoted string of a TaskJuggler file (see `tjp_string`).
pub fn parse_string(s: &str) -> (r: String)
    ensures
        r@ == tjp_string(s@),
{
    let cs = chars_of(s);
    let t = trimmed_quotes(cs.as_slice());
    let quote_pat = vec!['\\', '"'];
    let quote = vec!['"'];
    let newline_pat = vec!['\\', 'n'];
    let newline = vec!['\n'];
    let tab_pat = vec!['\\', 't'];
    let tab = vec!['\t'];
    let backslash_pat = vec!['\\', '\\'];
    let backslash = vec!['\\'];
    assert(quote_pat@ =~= seq!['\\', '"'] && quote@ =~= seq!['"']);
    assert(newline_pat@ =~= seq!['\\', 'n'] && newline@ =~= seq!['\n']);
    assert(tab_pat@ =~= seq!['\\', 't'] && tab@ =~= seq!['\t']);
    assert(backslash_pat@ =~= seq!['\\', '\\'] && backslash@ =~= seq!['\\']);
    let a = replace_chars(t.as_slice(), quote_pat.as_slice(), quote.as_slice());
    let b = replace_chars(a.as_slice(), newline_pat.as_slice(), newline.as_slice());
    let c = replace_chars(b.as_slice(), tab_pat.as_slice(), tab.as_slice());
    let d = replace_chars(c.as_slice(), backslash_pat.as_slice(), backslash.as_slice());
    string_of(d.as_slice())
}

} // verus!
