use vstd::prelude::*;
use crate::split::{Separator, split, split_bytes, lemma_split_first};
use crate::wire::{bytes_eq, tail_from};

verus! {

/// The key and the value of one query fragment: what stands before and after
/// its first `=`. A fragment without `=` has none.
pub open spec fn key_value(frag: Seq<u8>) -> Option<(Seq<u8>, Seq<u8>)> {
    let pieces = split(frag, Separator::Byte(61));
    if pieces.len() > 1 {
        Some((pieces[0], frag.subrange(pieces[0].len() as int + 1, frag.len() as int)))
    } else {
        None
    }
}

/// The mapping given by a list of fragments; a later fragment overrides an
/// earlier one with the same key.
pub open spec fn params_of(frags: Seq<Seq<u8>>) -> Map<Seq<u8>, Seq<u8>>
    decreases frags.len(),
{
    if frags.len() == 0 {
        Map::empty()
    } else {
        let m = params_of(frags.drop_last());
        match key_value(frags.last()) {
            Some(kv) => m.insert(kv.0, kv.1),
            None => m,
        }
    }
}

/// The query part of a request target: everything after its first `?`.
pub open spec fn query_of(target: Seq<u8>) -> Option<Seq<u8>> {
    let pieces = split(target, Separator::Byte(63));
    if pieces.len() > 1 {
        Some(target.subrange(pieces[0].len() as int + 1, target.len() as int))
    } else {
        None
    }
}

/// The parameters of a request target: its query split at `&`, each fragment
/// at its first `=`.
pub open spec fn target_params(target: Seq<u8>) -> Map<Seq<u8>, Seq<u8>> {
    match query_of(target) {
        Some(q) => params_of(split(q, Separator::Byte(38))),
        None => Map::empty(),
    }
}

/// The mapping that lists of keys and values stand for, pair by pair.
pub open spec fn map_of(ks: Seq<Seq<u8>>, vs: Seq<Seq<u8>>) -> Map<Seq<u8>, Seq<u8>>
    decreases ks.len(),
{
    if ks.len() == 0 || vs.len() == 0 {
        Map::empty()
    } else {
        map_of(ks.drop_last(), vs.drop_last()).insert(ks.last(), vs.last())
    }
}

proof fn lemma_map_of_lookup(ks: Seq<Seq<u8>>, vs: Seq<Seq<u8>>)
    requires
        ks.len() == vs.len(),
        ks.no_duplicates(),
    ensures
        map_of(ks, vs).dom() == ks.to_set(),
        forall|j: int| 0 <= j < ks.len() ==> #[trigger] map_of(ks, vs)[ks[j]] == vs[j],
    decreases ks.len(),
{
    if ks.len() > 0 {
        lemma_map_of_lookup(ks.drop_last(), vs.drop_last());
        assert(map_of(ks, vs).dom() =~= ks.to_set()) by {
            assert forall|k: Seq<u8>| ks.to_set().contains(k) implies map_of(ks, vs).dom().contains(
                k,
            ) by {
                let j = choose|j: int| 0 <= j < ks.len() && ks[j] == k;
                if j < ks.len() - 1 {
                    assert(ks.drop_last()[j] == k);
                }
            }
            assert forall|k: Seq<u8>| map_of(ks, vs).dom().contains(k) implies ks.to_set().contains(
                k,
            ) by {
                if k != ks.last() {
                    let j = choose|j: int| 0 <= j < ks.len() - 1 && ks.drop_last()[j] == k;
                    assert(ks[j] == k);
                } else {
                    assert(ks[ks.len() - 1] == k);
                }
            }
        }
        assert forall|j: int| 0 <= j < ks.len() implies #[trigger] map_of(ks, vs)[ks[j]] == vs[j] by {
            if j < ks.len() - 1 {
                assert(ks.drop_last()[j] == ks[j]);
                assert(ks[j] != ks.last());
            }
        }
    }
}

proof fn lemma_map_of_update(ks: Seq<Seq<u8>>, vs: Seq<Seq<u8>>, j: int, v: Seq<u8>)
    requires
        ks.len() == vs.len(),
        ks.no_duplicates(),
        0 <= j < ks.len(),
    ensures
        map_of(ks, vs.update(j, v)) == map_of(ks, vs).insert(ks[j], v),
    decreases ks.len(),
{
    let vs2 = vs.update(j, v);
    if j == ks.len() - 1 {
        assert(vs2.drop_last() == vs.drop_last());
        assert(map_of(ks, vs2) =~= map_of(ks, vs).insert(ks[j], v));
    } else {
        assert(vs2.drop_last() == vs.drop_last().update(j, v));
        assert(ks.drop_last()[j] == ks[j]);
        lemma_map_of_update(ks.drop_last(), vs.drop_last(), j, v);
        assert(ks[j] != ks.last());
        assert(map_of(ks, vs2) =~= map_of(ks, vs).insert(ks[j], v));
    }
}

/// Query parameters: a mapping from keys to values, each key at most once.
pub struct QueryParams {
    keys: Vec<Vec<u8>>,
    values: Vec<Vec<u8>>,
}

impl View for QueryParams {
    type V = Map<Seq<u8>, Seq<u8>>;

    closed spec fn view(&self) -> Map<Seq<u8>, Seq<u8>> {
        map_of(self.keys.deep_view(), self.values.deep_view())
    }
}

impl QueryParams {
    /// Keys and values pair up, and no key occurs twice.
    pub closed spec fn wf(&self) -> bool {
        &&& self.keys.len() == self.values.len()
        &&& self.keys.deep_view().no_duplicates()
    }

    pub fn new() -> (r: QueryParams)
        ensures
            r.wf(),
            r@ == Map::<Seq<u8>, Seq<u8>>::empty(),
    {
        QueryParams { keys: Vec::new(), values: Vec::new() }
    }

    fn position(&self, key: &[u8]) -> (r: Option<usize>)
        requires
            self.wf(),
        ensures
            match r {
                Some(j) => j < self.keys.len() && self.keys.deep_view()[j as int] == key@,
                None => !self.keys.deep_view().contains(key@),
            },
    {
        let mut j: usize = 0;
        while j < self.keys.len()
            invariant
                j <= self.keys.len(),
                forall|i: int| 0 <= i < j ==> self.keys.deep_view()[i] != key@,
            decreases self.keys.len() - j,
        {
            assert(self.keys.deep_view()[j as int] =~= self.keys[j as int]@);
            if bytes_eq(self.keys[j].as_slice(), key) {
                return Some(j);
            }
            j = j + 1;
        }
        None
    }

    /// Sets the value of `key`, replacing any earlier one.
    pub fn insert(&mut self, key: Vec<u8>, value: Vec<u8>)
        requires
            old(self).wf(),
        ensures
            final(self).wf(),
            final(self)@ == old(self)@.insert(key@, value@),
    {
        let ghost ks = self.keys.deep_view();
        let ghost vs = self.values.deep_view();
        assert(key.deep_view() =~= key@);
        assert(value.deep_view() =~= value@);
        match self.position(key.as_slice()) {
            Some(j) => {
                self.values.set(j, value);
                assert(self.values.deep_view() =~= vs.update(j as int, value@));
                proof {
                    lemma_map_of_update(ks, vs, j as int, value@);
                }
            },
            None => {
                self.keys.push(key);
                self.values.push(value);
                assert(self.keys.deep_view() =~= ks.push(key@));
                assert(self.values.deep_view() =~= vs.push(value@));
                assert(self.keys.deep_view().drop_last() == ks);
                assert(self.values.deep_view().drop_last() == vs);
                assert forall|a: int, b: int|
                    0 <= a < b < self.keys.deep_view().len() implies self.keys.deep_view()[a]
                    != self.keys.deep_view()[b] by {
                    if b == ks.len() {
                        assert(ks.contains(ks[a]));
                    }
                }
            },
        }
    }

    /// The value of `key`, if it has one.
    pub fn get(&self, key: &[u8]) -> (r: Option<&Vec<u8>>)
        requires
            self.wf(),
        ensures
            r.is_some() == self@.contains_key(key@),
            r.is_some() ==> r.unwrap()@ == self@[key@],
    {
        proof {
            lemma_map_of_lookup(self.keys.deep_view(), self.values.deep_view());
        }
        match self.position(key) {
            Some(j) => {
                assert(self.keys.deep_view().to_set().contains(key@));
                assert(self.values.deep_view()[j as int] =~= self.values[j as int]@);
                Some(&self.values[j])
            },
            None => {
                assert(!self.keys.deep_view().to_set().contains(key@));
                None
            },
        }
    }

    /// The number of keys.
    pub fn len(&self) -> (r: usize)
        requires
            self.wf(),
        ensures
            r == self@.dom().len(),
    {
        proof {
            lemma_map_of_lookup(self.keys.deep_view(), self.values.deep_view());
            self.keys.deep_view().unique_seq_to_set();
        }
        self.keys.len()
    }
}

/// Parses the query of a request target (the part after its first `?`) into
/// parameters. Fragments are separated by `&`; each splits at its first `=`
/// into key and value, and one without `=` is skipped. Where a key occurs
/// again, its last value is kept.
pub fn parse_query_string(target: &[u8]) -> (r: QueryParams)
    ensures
        r.wf(),
        r@ == target_params(target@),
{
    let mut params = QueryParams::new();
    let marks = split_bytes(target, Separator::Byte(63));
    if marks.len() > 1 {
        proof {
            lemma_split_first(target@, Separator::Byte(63));
        }
        assert(marks.deep_view()[0] =~= marks[0]@);
        assert(marks[0]@.len() < target@.len());
        assert(target@.len() == target.len());
        let query = tail_from(target, marks[0].len() + 1);
        let frags = split_bytes(query.as_slice(), Separator::Byte(38));
        let ghost fs = frags.deep_view();
        let mut i: usize = 0;
        while i < frags.len()
            invariant
                i <= fs.len(),
                fs == frags.deep_view(),
                params.wf(),
                params@ == params_of(fs.take(i as int)),
            decreases fs.len() - i,
        {
            assert(fs.take(i + 1).drop_last() == fs.take(i as int));
            assert(fs.take(i + 1).last() == fs[i as int]);
            assert(fs[i as int] =~= frags[i as int]@);
            let kv = split_bytes(frags[i].as_slice(), Separator::Byte(61));
            if kv.len() > 1 {
                proof {
                    lemma_split_first(frags[i as int]@, Separator::Byte(61));
                }
                assert(kv.deep_view()[0] =~= kv[0]@);
                let key = kv[0].clone();
                assert(key@ =~= kv[0]@);
                let value = tail_from(frags[i].as_slice(), kv[0].len() + 1);
                params.insert(key, value);
            }
            i = i + 1;
        }
        assert(fs.take(fs.len() as int) == fs);
    }
    params
}

/// Duplicate keys resolve to the last value: where fragment `j` gives key
/// `k` the value `v` and no later fragment names `k`, the mapping of all
/// fragments gives `k` the value `v`.
pub proof fn lemma_last_value_wins(frags: Seq<Seq<u8>>, j: int, k: Seq<u8>, v: Seq<u8>)
    requires
        0 <= j < frags.len(),
        key_value(frags[j]) == Some((k, v)),
        forall|l: int|
            j < l < frags.len() ==> match #[trigger] key_value(frags[l]) {
                Some(kv) => kv.0 != k,
                None => true,
            },
    ensures
        params_of(frags).contains_key(k),
        params_of(frags)[k] == v,
    decreases frags.len(),
{
    if j < frags.len() - 1 {
        let rest = frags.drop_last();
        assert forall|l: int| j < l < rest.len() implies match #[trigger] key_value(rest[l]) {
            Some(kv) => kv.0 != k,
            None => true,
        } by {
            assert(rest[l] == frags[l]);
        }
        assert(rest[j] == frags[j]);
        lemma_last_value_wins(rest, j, k, v);
        assert(key_value(frags[frags.len() - 1]) == key_value(frags.last()));
    }
}

} // verus!
