use vstd::prelude::*;

verus! {

/// Relies on `String::push`: appends one character.
#[verifier::external_body]
pub(crate) fn push_char(s: &mut String, c: char)
    ensures
        final(s)@ == old(s)@.push(c),
{
    s.push(c)
}

/// The characters of `s`, in order.
pub fn chars_of(s: &str) -> (r: Vec<char>)
    ensures
        r@ == s@,
{
    let n = s.unicode_len();
    let mut r: Vec<char> = Vec::new();
    let mut i: usize = 0;
    while i < n
        invariant
            n == s@.len(),
            i <= n,
            r@ == s@.subrange(0, i as int),
        decreases n - i,
    {
        r.push(s.get_char(i));
        i = i + 1;
    }
    assert(r@ =~= s@);
    r
}

/// The string made of the characters `cs[lo..hi]`.
pub fn string_of(cs: &Vec<char>, lo: usize, hi: usize) -> (r: String)
    requires
        lo <= hi <= cs@.len(),
    ensures
        r@ == cs@.subrange(lo as int, hi as int),
{
    let mut r = String::new();
    let mut i: usize = lo;
    while i < hi
        invariant
            lo <= i <= hi,
            hi <= cs@.len(),
            r@ == cs@.subrange(lo as int, i as int),
        decreases hi - i,
    {
        push_char(&mut r, cs[i]);
        assert(cs@.subrange(lo as int, i + 1) =~= cs@.subrange(lo as int, i as int).push(cs@[i as int]));
        i = i + 1;
    }
    r
}

} // verus!

verus! {

/// Whether the characters of `a` are those of `w`.
pub fn text_eq(a: &Vec<char>, w: &str) -> (r: bool)
    ensures
        r == (a@ == w@),
{
    let n = w.unicode_len();
    if a.len() != n {
        return false;
    }
    let mut i: usize = 0;
    while i < n
        invariant
            n == w@.len(),
            a@.len() == n,
            i <= n,
            forall|j: int| 0 <= j < i ==> a@[j] == w@[j],
        decreases n - i,
    {
        if a[i] != w.get_char(i) {
            return false;
        }
        i = i + 1;
    }
    assert(a@ =~= w@);
    true
}

/// Appends the characters of `cs`.
pub fn push_chars(s: &mut String, cs: &Vec<char>)
    ensures
        final(s)@ == old(s)@ + cs@,
{
    let mut i: usize = 0;
    while i < cs.len()
        invariant
            i <= cs@.len(),
            s@ == old(s)@ + cs@.subrange(0, i as int),
        decreases cs@.len() - i,
    {
        push_char(s, cs[i]);
        assert(old(s)@ + cs@.subrange(0, i + 1) =~= old(s)@ + cs@.subrange(0, i as int) + seq![cs@[i as int]]);
        i = i + 1;
    }
    assert(cs@.subrange(0, cs@.len() as int) =~= cs@);
}

/// The views of a sequence of character vectors.
pub open spec fn views(ps: Seq<Vec<char>>) -> Seq<Seq<char>> {
    ps.map_values(|p: Vec<char>| p@)
}

/// The pieces of `s` between its colons, in order: one more piece than colons.
pub open spec fn split_colon(s: Seq<char>) -> Seq<Seq<char>>
    decreases s.len(),
{
    if s.len() == 0 {
        seq![Seq::empty()]
    } else {
        let p = split_colon(s.drop_last());
        if s.last() == ':' {
            p.push(Seq::empty())
        } else {
            p.update(p.len() - 1, p.last().push(s.last()))
        }
    }
}

/// The pieces joined back with a colon between each two.
pub open spec fn join_colon(ps: Seq<Seq<char>>) -> Seq<char>
    decreases ps.len(),
{
    if ps.len() == 0 {
        Seq::empty()
    } else if ps.len() == 1 {
        ps[0]
    } else {
        join_colon(ps.drop_last()) + seq![':'] + ps.last()
    }
}

/// The pieces from the `i`-th on, joined back; none if there are no such pieces.
pub open spec fn rest_from(ps: Seq<Seq<char>>, i: int) -> Option<Seq<char>> {
    if 0 <= i < ps.len() {
        Some(join_colon(ps.subrange(i, ps.len() as int)))
    } else {
        None
    }
}

/// A colon and the remainder, if there is one; nothing otherwise.
pub open spec fn colon_tail(r: Option<Seq<char>>) -> Seq<char> {
    match r {
        Some(x) => seq![':'] + x,
        None => Seq::empty(),
    }
}

pub proof fn lemma_split_nonempty(s: Seq<char>)
    ensures
        split_colon(s).len() >= 1,
    decreases s.len(),
{
    if s.len() > 0 {
        lemma_split_nonempty(s.drop_last());
    }
}

/// Splits `cs` at its colons.
pub fn split_colons(cs: &Vec<char>) -> (r: Vec<Vec<char>>)
    ensures
        views(r@) == split_colon(cs@),
        r@.len() >= 1,
{
    let mut parts: Vec<Vec<char>> = Vec::new();
    let mut cur: Vec<char> = Vec::new();
    let mut i: usize = 0;
    assert(cs@.subrange(0, 0) =~= Seq::<char>::empty());
    assert(views(parts@).push(cur@) =~= split_colon(cs@.subrange(0, 0)));
    while i < cs.len()
        invariant
            i <= cs@.len(),
            views(parts@).push(cur@) == split_colon(cs@.subrange(0, i as int)),
        decreases cs@.len() - i,
    {
        let c = cs[i];
        let ghost pre = cs@.subrange(0, i as int);
        let ghost next = cs@.subrange(0, i + 1);
        assert(next.drop_last() =~= pre);
        assert(next.last() == c);
        if c == ':' {
            let ghost pv = views(parts@);
            parts.push(cur);
            cur = Vec::new();
            assert(views(parts@) =~= pv.push(piece_at(pv, split_colon(pre))));
            assert(views(parts@).push(cur@) =~= split_colon(next));
        } else {
            let ghost pv = views(parts@);
            let ghost before = cur@;
            cur.push(c);
            assert(views(parts@) =~= pv);
            assert(views(parts@).push(cur@) =~= pv.push(before).update(pv.len() as int, before.push(c)));
        }
        i = i + 1;
    }
    let ghost pv = views(parts@);
    let ghost last = cur@;
    parts.push(cur);
    assert(views(parts@) =~= pv.push(last));
    assert(cs@.subrange(0, cs@.len() as int) =~= cs@);
    parts
}

/// The piece of `whole` that comes right after the pieces `pv`.
spec fn piece_at(pv: Seq<Seq<char>>, whole: Seq<Seq<char>>) -> Seq<char> {
    whole[pv.len() as int]
}

/// The pieces of `parts` from the `i`-th on, joined back with colons.
pub fn join_from(parts: &Vec<Vec<char>>, i: usize) -> (r: String)
    requires
        i < parts@.len(),
    ensures
        r@ == join_colon(views(parts@).subrange(i as int, parts@.len() as int)),
{
    let ghost ps = views(parts@);
    let n = parts.len();
    let mut r = String::new();
    push_chars(&mut r, &parts[i]);
    assert(ps.subrange(i as int, i + 1) =~= seq![ps[i as int]]);
    assert(r@ =~= parts@[i as int]@);
    let mut j: usize = i + 1;
    while j < parts.len()
        invariant
            ps == views(parts@),
            i < j <= parts@.len(),
            r@ == join_colon(ps.subrange(i as int, j as int)),
        decreases parts@.len() - j,
    {
        push_char(&mut r, ':');
        push_chars(&mut r, &parts[j]);
        let ghost sub = ps.subrange(i as int, j + 1);
        assert(sub.drop_last() =~= ps.subrange(i as int, j as int));
        assert(sub.last() == parts@[j as int]@);
        assert(r@ =~= join_colon(sub.drop_last()) + seq![':'] + sub.last());
        j = j + 1;
    }
    r
}

/// The pieces from the `i`-th on, joined back, if there are any.
pub fn rest_from_parts(parts: &Vec<Vec<char>>, i: usize) -> (r: Option<String>)
    ensures
        r is Some <==> rest_from(views(parts@), i as int) is Some,
        r matches Some(s) ==> rest_from(views(parts@), i as int) == Some(s@),
{
    if i < parts.len() {
        Some(join_from(parts, i))
    } else {
        None
    }
}

} // verus!

verus! {

/// The string made of all the characters of `cs`.
pub fn string_from(cs: &Vec<char>) -> (r: String)
    ensures
        r@ == cs@,
{
    let r = string_of(cs, 0, cs.len());
    assert(cs@.subrange(0, cs@.len() as int) =~= cs@);
    r
}

} // verus!

verus! {

/// `s` holds no colon.
pub open spec fn no_colon(s: Seq<char>) -> bool {
    forall|i: int| 0 <= i < s.len() ==> #[trigger] s[i] != ':'
}

/// Splitting at a colon splits each side on its own.
pub proof fn lemma_split_at_colon(a: Seq<char>, b: Seq<char>)
    ensures
        split_colon(a + seq![':'] + b) == split_colon(a) + split_colon(b),
    decreases b.len(),
{
    let s = a + seq![':'] + b;
    if b.len() == 0 {
        assert(s.drop_last() =~= a);
        assert(s.last() == ':');
        assert(split_colon(b) == seq![Seq::<char>::empty()]);
        assert(split_colon(a).push(Seq::empty()) =~= split_colon(a) + split_colon(b));
    } else {
        let b1 = b.drop_last();
        let c = b.last();
        assert(s.drop_last() =~= a + seq![':'] + b1);
        assert(s.last() == c);
        lemma_split_at_colon(a, b1);
        lemma_split_nonempty(b1);
        let p = split_colon(a);
        let q = split_colon(b1);
        if c == ':' {
            assert((p + q).push(Seq::empty()) =~= p + q.push(Seq::empty()));
        } else {
            assert((p + q).update((p + q).len() - 1, (p + q).last().push(c)) =~= p + q.update(
                q.len() - 1,
                q.last().push(c),
            ));
        }
    }
}

/// Text without a colon is a single piece.
pub proof fn lemma_split_no_colon(p: Seq<char>)
    requires
        no_colon(p),
    ensures
        split_colon(p) == seq![p],
    decreases p.len(),
{
    if p.len() == 0 {
        assert(p =~= Seq::<char>::empty());
        assert(split_colon(p) =~= seq![p]);
    } else {
        let p1 = p.drop_last();
        assert(no_colon(p1)) by {
            assert forall|i: int| 0 <= i < p1.len() implies #[trigger] p1[i] != ':' by {
                assert(p1[i] == p[i]);
            }
        }
        lemma_split_no_colon(p1);
        assert(p.last() != ':');
        assert(p1.push(p.last()) =~= p);
        assert(seq![p1].update(0, p1.push(p.last())) =~= seq![p]);
    }
}

/// Joining the pieces of a text gives the text back.
pub proof fn lemma_join_split(s: Seq<char>)
    ensures
        join_colon(split_colon(s)) == s,
    decreases s.len(),
{
    if s.len() == 0 {
        assert(split_colon(s) =~= seq![Seq::<char>::empty()]);
        assert(s =~= Seq::<char>::empty());
    } else {
        let s1 = s.drop_last();
        let c = s.last();
        lemma_join_split(s1);
        lemma_split_nonempty(s1);
        let p = split_colon(s1);
        if c == ':' {
            let q = p.push(Seq::empty());
            assert(q.drop_last() =~= p);
            assert(join_colon(q) == join_colon(p) + seq![':'] + Seq::<char>::empty());
            assert(s =~= s1 + seq![':'] + Seq::<char>::empty());
        } else {
            let q = p.update(p.len() - 1, p.last().push(c));
            if p.len() == 1 {
                assert(join_colon(q) == q[0]);
                assert(join_colon(p) == p[0]);
                assert(s =~= s1.push(c));
            } else {
                assert(q.drop_last() =~= p.drop_last());
                assert(join_colon(q) == join_colon(p.drop_last()) + seq![':'] + p.last().push(c));
                assert(join_colon(p) == join_colon(p.drop_last()) + seq![':'] + p.last());
                assert(s =~= s1.push(c));
                assert(join_colon(q) =~= join_colon(p).push(c));
            }
        }
    }
}

} // verus!

verus! {

/// Joining a piece in front of other pieces puts a colon between them.
pub proof fn lemma_join_cons(s: Seq<char>, ps: Seq<Seq<char>>)
    requires
        ps.len() >= 1,
    ensures
        join_colon(seq![s] + ps) == s + seq![':'] + join_colon(ps),
    decreases ps.len(),
{
    let q = seq![s] + ps;
    if ps.len() == 1 {
        assert(q.drop_last() =~= seq![s]);
        assert(join_colon(seq![s]) == s);
        assert(q.last() == ps[0]);
    } else {
        lemma_join_cons(s, ps.drop_last());
        assert(q.drop_last() =~= seq![s] + ps.drop_last());
        assert(q.last() == ps.last());
        assert(join_colon(q) =~= s + seq![':'] + join_colon(ps));
    }
}

} // verus!
