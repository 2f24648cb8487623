use vstd::prelude::*;

verus! {

/// What divides a byte sequence into pieces.
#[derive(Clone, Copy, PartialEq, Eq, Structural)]
pub enum Separator {
    /// One given byte.
    Byte(u8),
    /// Any ASCII white-space byte: tab, line feed, vertical tab, form feed,
    /// carriage return or space.
    Whitespace,
}

pub open spec fn is_space(b: u8) -> bool {
    b == 9 || b == 10 || b == 11 || b == 12 || b == 13 || b == 32
}

pub open spec fn separates(sep: Separator, b: u8) -> bool {
    match sep {
        Separator::Byte(c) => b == c,
        Separator::Whitespace => is_space(b),
    }
}

/// The pieces of `s` between separators, in order and possibly empty:
/// `n` separators give `n + 1` pieces.
pub open spec fn split(s: Seq<u8>, sep: Separator) -> Seq<Seq<u8>>
    decreases s.len(),
{
    if s.len() == 0 {
        seq![Seq::empty()]
    } else {
        let rest = split(s.drop_last(), sep);
        if separates(sep, s.last()) {
            rest.push(Seq::empty())
        } else {
            rest.update(rest.len() - 1, rest.last().push(s.last()))
        }
    }
}

pub open spec fn non_empty() -> spec_fn(Seq<u8>) -> bool {
    |w: Seq<u8>| w.len() > 0
}

/// The non-empty runs of `s` between white-space bytes.
pub open spec fn words(s: Seq<u8>) -> Seq<Seq<u8>> {
    split(s, Separator::Whitespace).filter(non_empty())
}

/// There is always a first piece; it is the part of `s` before the first
/// separator, so it is shorter than `s` whenever a separator occurs.
pub proof fn lemma_split_first(s: Seq<u8>, sep: Separator)
    ensures
        split(s, sep).len() >= 1,
        split(s, sep)[0].len() <= s.len(),
        split(s, sep).len() > 1 ==> split(s, sep)[0].len() < s.len(),
        split(s, sep)[0] == s.subrange(0, split(s, sep)[0].len() as int),
        split(s, sep).len() == 1 ==> split(s, sep)[0] == s,
    decreases s.len(),
{
    if s.len() > 0 {
        lemma_split_first(s.drop_last(), sep);
        let rest = split(s.drop_last(), sep);
        if !separates(sep, s.last()) && rest.len() == 1 {
            assert(s.subrange(0, s.len() as int) == s);
            assert(s.drop_last().push(s.last()) == s);
        } else {
            assert(s.drop_last().subrange(0, rest[0].len() as int) == s.subrange(
                0,
                rest[0].len() as int,
            ));
        }
    }
}

pub fn separates_byte(sep: Separator, b: u8) -> (r: bool)
    ensures
        r == separates(sep, b),
{
    match sep {
        Separator::Byte(c) => b == c,
        Separator::Whitespace => b == 9 || b == 10 || b == 11 || b == 12 || b == 13 || b == 32,
    }
}

/// Splits `s` at every separator.
pub fn split_bytes(s: &[u8], sep: Separator) -> (r: Vec<Vec<u8>>)
    ensures
        r.deep_view() == split(s@, sep),
{
    let mut done: Vec<Vec<u8>> = Vec::new();
    let mut cur: Vec<u8> = Vec::new();
    let mut i: usize = 0;
    assert(s@.subrange(0, 0) == Seq::<u8>::empty());
    assert(done.deep_view().push(cur@) == split(Seq::<u8>::empty(), sep));
    while i < s.len()
        invariant
            i <= s@.len(),
            done.deep_view().push(cur@) == split(s@.subrange(0, i as int), sep),
        decreases s@.len() - i,
    {
        let b = s[i];
        let ghost before = done.deep_view();
        let ghost prev = cur@;
        let ghost p = s@.subrange(0, i + 1);
        assert(p.drop_last() == s@.subrange(0, i as int));
        assert(p.last() == b);
        if separates_byte(sep, b) {
            assert(cur.deep_view() =~= cur@);
            done.push(cur);
            cur = Vec::new();
            assert(done.deep_view() =~= before.push(prev));
            assert(done.deep_view().push(cur@) == before.push(prev).push(Seq::empty()));
        } else {
            cur.push(b);
            assert(done.deep_view() =~= before);
            assert(before.push(prev).update(before.len() as int, prev.push(b)) == before.push(
                prev.push(b),
            ));
        }
        i = i + 1;
    }
    assert(s@.subrange(0, s@.len() as int) == s@);
    let ghost before = done.deep_view();
    let ghost last = cur@;
    assert(cur.deep_view() =~= cur@);
    done.push(cur);
    assert(done.deep_view() =~= before.push(last));
    done
}

/// The white-space separated words of `s`.
pub fn words_of(s: &[u8]) -> (r: Vec<Vec<u8>>)
    ensures
        r.deep_view() == words(s@),
{
    let pieces = split_bytes(s, Separator::Whitespace);
    let ghost all = pieces.deep_view();
    let mut out: Vec<Vec<u8>> = Vec::new();
    let mut i: usize = 0;
    reveal(Seq::filter);
    assert(all.take(0).filter(non_empty()) == Seq::<Seq<u8>>::empty());
    while i < pieces.len()
        invariant
            i <= all.len(),
            all == pieces.deep_view(),
            out.deep_view() == all.take(i as int).filter(non_empty()),
        decreases all.len() - i,
    {
        reveal(Seq::filter);
        assert(all.take(i + 1).drop_last() == all.take(i as int));
        assert(all.take(i + 1).last() == all[i as int]);
        let ghost before = out.deep_view();
        if pieces[i].len() > 0 {
            let w = pieces[i].clone();
            assert(w@ =~= pieces[i as int]@);
            assert(w.deep_view() =~= all[i as int]);
            out.push(w);
            assert(out.deep_view() =~= before.push(all[i as int]));
        } else {
            assert(out.deep_view() =~= before);
        }
        i = i + 1;
    }
    assert(all.take(all.len() as int) == all);
    out
}

} // verus!
