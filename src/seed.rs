use vstd::prelude::*;
use vstd::string::StringSliceAdditionalSpecFns;
use crate::wire::{append_decimal, bytes_of, decimal};

verus! {

/// How many users a new store is seeded with.
pub const SEED_ROWS: u32 = 10000;

/// The name of the seeded user at position `i`: `value` and `i` in decimal.
pub open spec fn seed_name(i: nat) -> Seq<u8> {
    "value".spec_bytes() + decimal(i)
}

/// The names to insert at startup: every seed name when the store was just
/// created, none when it already existed.
pub open spec fn seed_plan(created: bool) -> Seq<Seq<u8>> {
    if created {
        Seq::new(SEED_ROWS as nat, |i: int| seed_name(i as nat))
    } else {
        Seq::empty()
    }
}

/// The user names in a store after startup, given the names before it
/// (`None`: there was no store, and startup creates it).
pub open spec fn after_startup(before: Option<Seq<Seq<u8>>>) -> Seq<Seq<u8>> {
    match before {
        None => seed_plan(true),
        Some(rows) => rows + seed_plan(false),
    }
}

/// The names of the users to insert at startup.
pub fn seed_names(created: bool) -> (r: Vec<Vec<u8>>)
    ensures
        r.deep_view() == seed_plan(created),
{
    let mut out: Vec<Vec<u8>> = Vec::new();
    if !created {
        assert(out.deep_view() =~= seed_plan(created));
        return out;
    }
    let mut i: u32 = 0;
    while i < SEED_ROWS
        invariant
            i <= SEED_ROWS,
            out.deep_view() =~= Seq::new(i as nat, |j: int| seed_name(j as nat)),
        decreases SEED_ROWS - i,
    {
        let mut name = bytes_of("value");
        append_decimal(&mut name, i);
        let ghost before = out.deep_view();
        assert(name.deep_view() =~= name@);
        out.push(name);
        assert(out.deep_view() =~= before.push(seed_name(i as nat)));
        i = i + 1;
    }
    out
}

/// A new store ends up with exactly the seeded users, named `value0`,
/// `value1`, ... in order, and starting again on any existing store, the
/// seeded one included, adds nothing.
pub proof fn lemma_seed_once(rows: Seq<Seq<u8>>)
    ensures
        after_startup(None).len() == SEED_ROWS,
        forall|i: int| 0 <= i < SEED_ROWS ==> #[trigger] after_startup(None)[i] == seed_name(i as nat),
        after_startup(Some(rows)) == rows,
        after_startup(Some(after_startup(None))) == after_startup(None),
{
    assert(rows + Seq::<Seq<u8>>::empty() == rows);
    assert(after_startup(None) + Seq::<Seq<u8>>::empty() == after_startup(None));
}

} // verus!
