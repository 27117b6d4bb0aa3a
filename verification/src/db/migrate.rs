//! The versions of the store's schema.
use vstd::prelude::*;

verus! {

/// The version that the schema has by now. Each version up to it is reached
/// from the one before.
pub const LATEST_VERSION: i32 = 6;

/// The versions that lie between a store and the latest, in order.
pub open spec fn pending_from(current: int) -> Seq<int> {
    let first = if current < 0 {
        0
    } else {
        current
    };
    Seq::new(
        (if first < LATEST_VERSION {
            LATEST_VERSION - first
        } else {
            0
        }) as nat,
        |i: int| first + 1 + i,
    )
}

/// The versions that a store at a given version still has to go through, in
/// order.
pub fn pending_migrations(current: i32) -> (r: Vec<i32>)
    ensures
        r@.map_values(|v: i32| v as int) == pending_from(current as int),
{
    let mut out: Vec<i32> = Vec::new();
    let first: i32 = if current < 0 {
        0
    } else {
        current
    };
    let ghost all = pending_from(current as int);
    if first >= LATEST_VERSION {
        assert(out@.map_values(|v: i32| v as int) =~= all);
        return out;
    }
    let mut next: i32 = first + 1;
    assert(out@.map_values(|v: i32| v as int) =~= all.take(0));
    while next <= LATEST_VERSION
        invariant
            0 <= first < LATEST_VERSION,
            first < next <= LATEST_VERSION + 1,
            all == pending_from(first as int),
            out@.map_values(|v: i32| v as int) == all.take(next - first - 1),
        decreases LATEST_VERSION + 1 - next,
    {
        let ghost before = out@;
        out.push(next);
        assert(out@.map_values(|v: i32| v as int) =~= before.map_values(|v: i32| v as int).push(
            next as int,
        ));
        assert(all.take(next - first) =~= all.take(next - first - 1).push(next as int));
        next += 1;
    }
    assert(all.take(all.len() as int) =~= all);
    out
}

/// The version of a store after its pending migrations.
pub open spec fn version_after(current: int) -> int {
    if pending_from(current).len() == 0 {
        current
    } else {
        pending_from(current).last()
    }
}

/// Migrating brings a store to the latest version, and a second time there is
/// nothing left to do.
pub proof fn law_migrating_is_idempotent(current: int)
    ensures
        current <= LATEST_VERSION ==> version_after(current) == LATEST_VERSION,
        pending_from(version_after(current)).len() == 0,
{
}

} // verus!
