//! Counting positions with a property, for statements about lists that keep
//! some of what they are made from.
use vstd::prelude::*;

verus! {

/// How many of the first `n` positions have the property.
pub open spec fn tally(has: spec_fn(int) -> bool, n: nat) -> nat
    decreases n,
{
    if n == 0 {
        0
    } else {
        tally(has, (n - 1) as nat) + if has(n - 1) {
            1nat
        } else {
            0
        }
    }
}

/// `r` lists what `of` gives for the positions below `n` that have the
/// property, in order, and nothing else.
pub open spec fn lists<A>(r: Seq<A>, n: nat, has: spec_fn(int) -> bool, of: spec_fn(int) -> A) -> bool {
    &&& r.len() == tally(has, n)
    &&& forall|i: int| 0 <= i < n && #[trigger] has(i) ==> r[tally(has, i as nat) as int] == of(i)
}

pub proof fn tally_grows(has: spec_fn(int) -> bool, m: nat, n: nat)
    requires
        m <= n,
    ensures
        tally(has, m) <= tally(has, n),
        m < n && has(m as int) ==> tally(has, m) < tally(has, n),
    decreases n,
{
    if m < n {
        tally_grows(has, m, (n - 1) as nat);
    }
}

/// One position more.
pub proof fn lists_one_more<A>(
    before: Seq<A>,
    after: Seq<A>,
    n: nat,
    has: spec_fn(int) -> bool,
    of: spec_fn(int) -> A,
)
    requires
        lists(before, n, has, of),
        after == if has(n as int) {
            before.push(of(n as int))
        } else {
            before
        },
    ensures
        lists(after, n + 1, has, of),
{
    assert forall|i: int| 0 <= i < n + 1 && #[trigger] has(i) implies after[tally(
        has,
        i as nat,
    ) as int] == of(i) by {
        if i < n {
            tally_grows(has, i as nat, n);
        }
    }
}

/// What is listed comes from a position with the property.
pub proof fn listed_from<A>(
    r: Seq<A>,
    n: nat,
    has: spec_fn(int) -> bool,
    of: spec_fn(int) -> A,
    k: int,
) -> (i: int)
    requires
        lists(r, n, has, of),
        0 <= k < r.len(),
    ensures
        0 <= i < n,
        has(i),
        tally(has, i as nat) == k,
        r[k] == of(i),
    decreases n,
{
    if has(n - 1) && tally(has, (n - 1) as nat) == k {
        n - 1
    } else {
        let before = r.subrange(0, tally(has, (n - 1) as nat) as int);
        assert forall|i: int| 0 <= i < n - 1 && #[trigger] has(i) implies before[tally(
            has,
            i as nat,
        ) as int] == of(i) by {
            tally_grows(has, i as nat, (n - 1) as nat);
        }
        listed_from(before, (n - 1) as nat, has, of, k)
    }
}

/// Properties that agree are counted alike.
pub proof fn same_tally(a: spec_fn(int) -> bool, b: spec_fn(int) -> bool, n: nat)
    requires
        forall|i: int| 0 <= i < n ==> #[trigger] a(i) == b(i),
    ensures
        tally(a, n) == tally(b, n),
    decreases n,
{
    if n > 0 {
        same_tally(a, b, (n - 1) as nat);
        assert(a(n - 1) == b(n - 1));
    }
}

/// Where no position has the property, none is counted.
pub proof fn nothing_to_tally(a: spec_fn(int) -> bool, n: nat)
    requires
        forall|i: int| 0 <= i < n ==> !#[trigger] a(i),
    ensures
        tally(a, n) == 0,
    decreases n,
{
    if n > 0 {
        nothing_to_tally(a, (n - 1) as nat);
        assert(!a(n - 1));
    }
}


/// What is listed for one property is listed for one that agrees with it.
pub proof fn lists_alike<A>(
    r: Seq<A>,
    n: nat,
    has: spec_fn(int) -> bool,
    of: spec_fn(int) -> A,
    also: spec_fn(int) -> bool,
    gives: spec_fn(int) -> A,
)
    requires
        lists(r, n, has, of),
        forall|i: int| 0 <= i < n ==> #[trigger] also(i) == has(i),
        forall|i: int| 0 <= i < n && #[trigger] also(i) ==> gives(i) == of(i),
    ensures
        lists(r, n, also, gives),
{
    same_tally(also, has, n);
    assert forall|i: int| 0 <= i < n && #[trigger] also(i) implies r[tally(also, i as nat) as int]
        == gives(i) by {
        same_tally(also, has, i as nat);
        assert(has(i));
    }
}

} // verus!
