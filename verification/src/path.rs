//! Slash-separated file paths viewed as sequences of components, with the
//! component order and prefix stripping that file locations are sorted and
//! shortened by.
//!
//! A path splits at `/` into segments.  A leading `/` gives the root
//! component; empty segments and `.` segments vanish, except that a `.` as
//! the very first segment of a relative path is the current-directory
//! component.  Each component is represented by its text: the root by `/`.
use vstd::prelude::*;

verus! {

/// Segments of a path between slashes (the empty path has one empty segment).
pub open spec fn split_slash(s: Seq<char>) -> Seq<Seq<char>>
    decreases s.len(),
{
    if s.len() == 0 {
        seq![Seq::<char>::empty()]
    } else {
        let prev = split_slash(s.drop_last());
        if s.last() == '/' {
            prev.push(Seq::<char>::empty())
        } else {
            prev.update(prev.len() - 1, prev.last().push(s.last()))
        }
    }
}

/// The component contributed by the `k`-th segment.
pub open spec fn segment_component(seg: Seq<char>, k: int, rooted: bool) -> Seq<Seq<char>> {
    if seg.len() == 0 {
        Seq::empty()
    } else if seg == seq!['.'] {
        if k == 0 && !rooted {
            seq![seg]
        } else {
            Seq::empty()
        }
    } else {
        seq![seg]
    }
}

/// Components of the given segments.
pub open spec fn components_of_segments(segs: Seq<Seq<char>>, rooted: bool) -> Seq<Seq<char>>
    decreases segs.len(),
{
    if segs.len() == 0 {
        if rooted {
            seq![seq!['/']]
        } else {
            Seq::empty()
        }
    } else {
        components_of_segments(segs.drop_last(), rooted) + segment_component(
            segs.last(),
            segs.len() - 1,
            rooted,
        )
    }
}

/// Whether a path starts at the root.
pub open spec fn is_rooted(s: Seq<char>) -> bool {
    s.len() > 0 && s[0] == '/'
}

/// The components of a path.
pub open spec fn components(s: Seq<char>) -> Seq<Seq<char>> {
    components_of_segments(split_slash(s), is_rooted(s))
}

proof fn lemma_split_nonempty(s: Seq<char>)
    ensures
        split_slash(s).len() >= 1,
    decreases s.len(),
{
    if s.len() > 0 {
        lemma_split_nonempty(s.drop_last());
    }
}

/// The components of a path, each as its characters (the root as `/`).
pub fn path_components(s: &[char]) -> (r: Vec<Vec<char>>)
    ensures
        r.deep_view() == components(s@),
{
    let rooted = s.len() > 0 && s[0] == '/';
    let mut out: Vec<Vec<char>> = Vec::new();
    if rooted {
        let mut root: Vec<char> = Vec::new();
        root.push('/');
        out.push(root);
        assert(out.deep_view() =~~= seq![seq!['/']]);
    }
    let mut done: Ghost<Seq<Seq<char>>> = Ghost(Seq::empty());
    let mut cur: Vec<char> = Vec::new();
    let mut k: usize = 0;
    let mut i: usize = 0;
    assert(split_slash(s@.take(0)) =~= seq![Seq::<char>::empty()]);
    assert(done@.push(cur@) =~= seq![Seq::<char>::empty()]);
    while i < s.len()
        invariant
            i <= s@.len(),
            rooted == is_rooted(s@),
            k == done@.len(),
            k <= i,
            split_slash(s@.take(i as int)) == done@.push(cur@),
            out.deep_view() == components_of_segments(done@, rooted),
        decreases s@.len() - i,
    {
        let c = s[i];
        assert(s@.take(i + 1).drop_last() =~= s@.take(i as int));
        if c == '/' {
            let ghost old_done = done@;
            let ghost old_out = out.deep_view();
            let seg = cur;
            let is_dot = seg.len() == 1 && seg[0] == '.';
            if seg.len() == 0 {
            } else if is_dot {
                if k == 0 && !rooted {
                    out.push(seg);
                }
            } else {
                out.push(seg);
            }
            proof {
                done@ = old_done.push(seg@);
                assert(done@.drop_last() =~= old_done);
                if seg@.len() == 1 && seg@[0] == '.' {
                    assert(seg@ =~= seq!['.']);
                }
                if seg@ == seq!['.'] {
                    assert(is_dot);
                }
                assert(out.deep_view() =~~= components_of_segments(done@, rooted));
            }
            cur = Vec::new();
            k = k + 1;
            assert(split_slash(s@.take(i + 1)) =~= done@.push(cur@));
        } else {
            cur.push(c);
            assert(split_slash(s@.take(i + 1)) =~= done@.push(cur@));
        }
        i = i + 1;
    }
    assert(s@.take(s@.len() as int) =~= s@);
    let ghost last_done = done@;
    let seg = cur;
    let is_dot = seg.len() == 1 && seg[0] == '.';
    if seg.len() == 0 {
    } else if is_dot {
        if k == 0 && !rooted {
            out.push(seg);
        }
    } else {
        out.push(seg);
    }
    proof {
        let all = last_done.push(seg@);
        assert(all.drop_last() =~= last_done);
        if seg@.len() == 1 && seg@[0] == '.' {
            assert(seg@ =~= seq!['.']);
        }
        if seg@ == seq!['.'] {
            assert(is_dot);
        }
        assert(out.deep_view() =~~= components_of_segments(all, rooted));
    }
    out
}

/// Rank of a component in the component order: root, current directory,
/// parent directory, then named components.
pub open spec fn component_rank(c: Seq<char>) -> int {
    if c == seq!['/'] {
        0
    } else if c == seq!['.'] {
        1
    } else if c == seq!['.', '.'] {
        2
    } else {
        3
    }
}

/// Three-way lexicographic comparison of character sequences by code point.
pub open spec fn order_chars(a: Seq<char>, b: Seq<char>) -> int
    decreases a.len(),
{
    if a.len() == 0 && b.len() == 0 {
        0
    } else if a.len() == 0 {
        -1
    } else if b.len() == 0 {
        1
    } else if (a[0] as u32) < (b[0] as u32) {
        -1
    } else if (a[0] as u32) > (b[0] as u32) {
        1
    } else {
        order_chars(a.drop_first(), b.drop_first())
    }
}

/// Three-way comparison of two components.
pub open spec fn order_component(a: Seq<char>, b: Seq<char>) -> int {
    if component_rank(a) < component_rank(b) {
        -1
    } else if component_rank(a) > component_rank(b) {
        1
    } else if component_rank(a) == 3 {
        order_chars(a, b)
    } else {
        0
    }
}

/// Three-way lexicographic comparison of component sequences.
pub open spec fn order_components(a: Seq<Seq<char>>, b: Seq<Seq<char>>) -> int
    decreases a.len(),
{
    if a.len() == 0 && b.len() == 0 {
        0
    } else if a.len() == 0 {
        -1
    } else if b.len() == 0 {
        1
    } else if order_component(a[0], b[0]) != 0 {
        order_component(a[0], b[0])
    } else {
        order_components(a.drop_first(), b.drop_first())
    }
}

/// Three-way comparison of two paths by their components.
pub open spec fn order_paths(a: Seq<char>, b: Seq<char>) -> int {
    order_components(components(a), components(b))
}

/// Lexicographic comparison of character sequences is a total order.
pub proof fn lemma_order_chars_props(a: Seq<char>, b: Seq<char>, c: Seq<char>)
    ensures
        -1 <= order_chars(a, b) <= 1,
        order_chars(a, b) == -order_chars(b, a),
        order_chars(a, b) == 0 <==> a == b,
        order_chars(a, b) <= 0 && order_chars(b, c) <= 0 ==> order_chars(a, c) <= 0,
        order_chars(a, b) < 0 && order_chars(b, c) <= 0 ==> order_chars(a, c) < 0,
        order_chars(a, b) <= 0 && order_chars(b, c) < 0 ==> order_chars(a, c) < 0,
    decreases a.len(),
{
    if a.len() > 0 && b.len() > 0 && c.len() > 0 {
        lemma_order_chars_props(a.drop_first(), b.drop_first(), c.drop_first());
    } else if a.len() > 0 && b.len() > 0 {
        lemma_order_chars_props(a.drop_first(), b.drop_first(), b.drop_first());
    }
    if a.len() == 0 && b.len() == 0 {
        assert(a =~= b);
    }
    if a.len() > 0 && b.len() > 0 && (a[0] as u32) == (b[0] as u32) {
        vstd::utf8::char_u32_cast(a[0], a[0] as u32);
        vstd::utf8::char_u32_cast(b[0], b[0] as u32);
        assert(a[0] == b[0]);
    }
    if a.len() > 0 && b.len() > 0 && a[0] == b[0] && a.drop_first() == b.drop_first() {
        assert(a =~= seq![a[0]] + a.drop_first());
        assert(b =~= seq![b[0]] + b.drop_first());
    }
}

proof fn lemma_order_component_props(a: Seq<char>, b: Seq<char>, c: Seq<char>)
    ensures
        -1 <= order_component(a, b) <= 1,
        order_component(a, b) == -order_component(b, a),
        order_component(a, b) == 0 <==> a == b,
        order_component(a, b) <= 0 && order_component(b, c) <= 0 ==> order_component(a, c) <= 0,
        order_component(a, b) < 0 && order_component(b, c) <= 0 ==> order_component(a, c) < 0,
        order_component(a, b) <= 0 && order_component(b, c) < 0 ==> order_component(a, c) < 0,
{
    lemma_order_chars_props(a, b, c);
}

/// Comparison of component sequences is a total order.
pub proof fn lemma_order_components_props(a: Seq<Seq<char>>, b: Seq<Seq<char>>, c: Seq<Seq<char>>)
    ensures
        -1 <= order_components(a, b) <= 1,
        order_components(a, b) == -order_components(b, a),
        order_components(a, b) == 0 <==> a == b,
        order_components(a, b) <= 0 && order_components(b, c) <= 0 ==> order_components(a, c) <= 0,
    decreases a.len(),
{
    if a.len() > 0 && b.len() > 0 {
        lemma_order_component_props(a[0], b[0], if c.len() > 0 {
            c[0]
        } else {
            b[0]
        });
        if c.len() > 0 {
            lemma_order_components_props(a.drop_first(), b.drop_first(), c.drop_first());
        } else {
            lemma_order_components_props(a.drop_first(), b.drop_first(), b.drop_first());
        }
        if a[0] == b[0] && a.drop_first() == b.drop_first() {
            assert(a =~= seq![a[0]] + a.drop_first());
            assert(b =~= seq![b[0]] + b.drop_first());
        }
    }
    if a.len() == 0 && b.len() == 0 {
        assert(a =~= b);
    }
}

} // verus!

verus! {

/// The text of a component sequence: the root renders as a leading `/`,
/// the other components are joined by `/`.
pub open spec fn join_components(c: Seq<Seq<char>>) -> Seq<char>
    decreases c.len(),
{
    if c.len() == 0 {
        Seq::empty()
    } else {
        let prev = join_components(c.drop_last());
        if c.len() == 1 {
            c.last()
        } else if c.len() == 2 && c[0] == seq!['/'] {
            prev + c.last()
        } else {
            prev + seq!['/'] + c.last()
        }
    }
}

/// Whether `p` starts with the components `q`.
pub open spec fn has_component_prefix(p: Seq<Seq<char>>, q: Seq<Seq<char>>) -> bool {
    q.len() <= p.len() && p.take(q.len() as int) == q
}

/// `path` with the leading components of `base` removed, when `base` is a
/// component-wise prefix of `path`.
pub open spec fn strip_path_prefix(path: Seq<char>, base: Seq<char>) -> Option<Seq<char>> {
    let p = components(path);
    let q = components(base);
    if has_component_prefix(p, q) {
        Some(join_components(p.skip(q.len() as int)))
    } else {
        None
    }
}

/// Renders a component sequence as text.
pub fn join_path(c: &Vec<Vec<char>>, from: usize) -> (r: String)
    requires
        from <= c@.len(),
    ensures
        r@ == join_components(c.deep_view().skip(from as int)),
{
    let mut r = String::new();
    let ghost cs = c.deep_view().skip(from as int);
    let mut i = from;
    while i < c.len()
        invariant
            from <= i <= c@.len(),
            cs == c.deep_view().skip(from as int),
            r@ == join_components(cs.take(i - from)),
        decreases c@.len() - i,
    {
        let ghost prefix = cs.take(i - from);
        let ghost next = cs.take(i - from + 1);
        let ghost before = r@;
        assert(next.drop_last() =~= prefix);
        assert(next.last() == c@[i as int]@);
        assert(c.deep_view()[i as int] == c@[i as int]@);
        if i == from {
            crate::text::push_chars(&mut r, c[i].as_slice());
            assert(r@ =~= join_components(next));
        } else if i == from + 1 && c[from].len() == 1 && c[from][0] == '/' {
            assert(c.deep_view()[from as int] == c@[from as int]@);
            assert(next[0] =~= seq!['/']);
            crate::text::push_chars(&mut r, c[i].as_slice());
            assert(r@ =~= join_components(next));
        } else {
            proof {
                assert(c.deep_view()[from as int] == c@[from as int]@);
                if next.len() == 2 {
                    assert(next[0] == c@[from as int]@);
                    if next[0] == seq!['/'] {
                        assert(next[0].len() == 1);
                        assert(next[0][0] == '/');
                    }
                }
            }
            crate::text::push_char(&mut r, '/');
            crate::text::push_chars(&mut r, c[i].as_slice());
            assert(r@ =~= before + seq!['/'] + next.last());
            assert(r@ =~= join_components(next));
        }
        i = i + 1;
    }
    assert(cs.take(c@.len() - from) =~= cs);
    r
}

/// Strips the components of `base` from the front of `path`; `None` when
/// `base` is not a component-wise prefix of `path`.
pub fn strip_prefix(path: &str, base: &str) -> (r: Option<String>)
    ensures
        match r {
            Some(s) => strip_path_prefix(path@, base@) == Some(s@),
            None => strip_path_prefix(path@, base@) is None,
        },
{
    let pc = crate::text::chars_of(path);
    let bc = crate::text::chars_of(base);
    let ps = pc.as_slice();
    let bs = bc.as_slice();
    let p = path_components(ps);
    let q = path_components(bs);
    assert(ps@ == path@);
    assert(bs@ == base@);
    assert(p.deep_view() == components(path@));
    assert(q.deep_view() == components(base@));
    if q.len() > p.len() {
        return None;
    }
    let mut i: usize = 0;
    while i < q.len()
        invariant
            q@.len() <= p@.len(),
            i <= q@.len(),
            forall|j: int| 0 <= j < i ==> p.deep_view()[j] == q.deep_view()[j],
            p.deep_view() == components(path@),
            q.deep_view() == components(base@),
        decreases q@.len() - i,
    {
        assert(p.deep_view()[i as int] == p@[i as int]@);
        assert(q.deep_view()[i as int] == q@[i as int]@);
        if !crate::text::seq_eq(p[i].as_slice(), q[i].as_slice()) {
            assert(p.deep_view().take(q@.len() as int)[i as int] != q.deep_view()[i as int]);
            assert(p.deep_view().take(q@.len() as int) != q.deep_view());
            assert(q.deep_view().len() == q@.len());
            assert(!has_component_prefix(p.deep_view(), q.deep_view()));
            assert(!has_component_prefix(components(path@), components(base@)));
            return None;
        }
        i = i + 1;
    }
    assert(p.deep_view().take(q@.len() as int) =~= q.deep_view());
    Some(join_path(&p, q.len()))
}

} // verus!

verus! {

/// Three-way comparison of character sequences (see `order_chars`).
pub fn compare_chars(a: &[char], b: &[char]) -> (r: i8)
    ensures
        r == order_chars(a@, b@),
{
    let mut i: usize = 0;
    assert(a@.skip(0) =~= a@);
    assert(b@.skip(0) =~= b@);
    while i < a.len() && i < b.len()
        invariant
            i <= a@.len(),
            i <= b@.len(),
            order_chars(a@, b@) == order_chars(a@.skip(i as int), b@.skip(i as int)),
        decreases a@.len() - i,
    {
        let x = a[i] as u32;
        let y = b[i] as u32;
        assert(a@.skip(i as int)[0] == a@[i as int]);
        assert(b@.skip(i as int)[0] == b@[i as int]);
        if x < y {
            return -1;
        }
        if x > y {
            return 1;
        }
        assert(a@.skip(i as int).drop_first() =~= a@.skip(i + 1));
        assert(b@.skip(i as int).drop_first() =~= b@.skip(i + 1));
        i = i + 1;
    }
    if i == a.len() && i == b.len() {
        0
    } else if i == a.len() {
        -1
    } else {
        1
    }
}

fn rank_of(c: &[char]) -> (r: u8)
    ensures
        r == component_rank(c@),
{
    if c.len() == 1 && c[0] == '/' {
        assert(c@ =~= seq!['/']);
        0
    } else if c.len() == 1 && c[0] == '.' {
        assert(c@ =~= seq!['.']);
        1
    } else if c.len() == 2 && c[0] == '.' && c[1] == '.' {
        assert(c@ =~= seq!['.', '.']);
        2
    } else {
        assert(c@ != seq!['/'] && c@ != seq!['.'] && c@ != seq!['.', '.']) by {
            if c@ == seq!['/'] {
                assert(c@.len() == 1);
            }
            if c@ == seq!['.'] {
                assert(c@.len() == 1);
            }
            if c@ == seq!['.', '.'] {
                assert(c@.len() == 2);
            }
        }
        3
    }
}

/// Three-way comparison of two components (see `order_component`).
pub fn compare_component(a: &[char], b: &[char]) -> (r: i8)
    ensures
        r == order_component(a@, b@),
{
    let ra = rank_of(a);
    let rb = rank_of(b);
    if ra < rb {
        -1
    } else if ra > rb {
        1
    } else if ra == 3 {
        compare_chars(a, b)
    } else {
        0
    }
}

/// Three-way comparison of component sequences (see `order_components`).
pub fn compare_components(a: &Vec<Vec<char>>, b: &Vec<Vec<char>>) -> (r: i8)
    ensures
        r == order_components(a.deep_view(), b.deep_view()),
{
    let ghost da = a.deep_view();
    let ghost db = b.deep_view();
    let mut i: usize = 0;
    assert(da.skip(0) =~= da);
    assert(db.skip(0) =~= db);
    while i < a.len() && i < b.len()
        invariant
            i <= a@.len(),
            i <= b@.len(),
            da == a.deep_view(),
            db == b.deep_view(),
            order_components(da, db) == order_components(da.skip(i as int), db.skip(i as int)),
        decreases a@.len() - i,
    {
        assert(da.skip(i as int)[0] == a@[i as int]@);
        assert(db.skip(i as int)[0] == b@[i as int]@);
        let c = compare_component(a[i].as_slice(), b[i].as_slice());
        if c != 0 {
            return c;
        }
        assert(da.skip(i as int).drop_first() =~= da.skip(i + 1));
        assert(db.skip(i as int).drop_first() =~= db.skip(i + 1));
        i = i + 1;
    }
    if i == a.len() && i == b.len() {
        0
    } else if i == a.len() {
        -1
    } else {
        1
    }
}

} // verus!
