//! Cancel flags of background workers.
//!
//! A worker is handed the number of a flag and stops once that flag is
//! raised. Flags are only ever raised, never lowered.
use std::collections::HashMap;
use vstd::prelude::*;

verus! {

broadcast use vstd::std_specs::hash::group_hash_axioms;

/// The flags handed out so far, by number.
pub struct CancelFlags {
    up: Vec<bool>,
}

/// What [`CancelFlags`] stands for: whether each flag handed out is raised.
#[verifier::ext_equal]
pub struct Flags {
    pub up: Seq<bool>,
}

impl View for CancelFlags {
    type V = Flags;

    closed spec fn view(&self) -> Flags {
        Flags { up: self.up@ }
    }
}

impl Flags {
    /// The number of the flag handed out next.
    pub open spec fn next(self) -> u64 {
        self.up.len() as u64
    }

    /// The flag was handed out.
    pub open spec fn known(self, flag: u64) -> bool {
        flag < self.up.len()
    }

    /// The flag was handed out and raised.
    pub open spec fn raised(self, flag: u64) -> bool {
        flag < self.up.len() && self.up[flag as int]
    }

    /// After the next flag was handed out.
    pub open spec fn issued(self) -> Flags {
        Flags { up: self.up.push(false) }
    }

    /// After flag `flag` was raised.
    pub open spec fn raise(self, flag: u64) -> Flags {
        if flag < self.up.len() {
            Flags { up: self.up.update(flag as int, true) }
        } else {
            self
        }
    }

    /// After every flag of `flags` was raised.
    pub open spec fn raise_all(self, flags: Set<u64>) -> Flags {
        Flags { up: Seq::new(self.up.len(), |i: int| self.up[i] || flags.contains(i as u64)) }
    }

    /// After the flag registered for `layer_id`, if any, was raised.
    pub open spec fn raise_of(self, map: Map<u64, u64>, layer_id: u64) -> Flags {
        if map.contains_key(layer_id) {
            self.raise(map[layer_id])
        } else {
            self
        }
    }
}

impl CancelFlags {
    pub fn new() -> (r: CancelFlags)
        ensures
            r@ == (Flags { up: Seq::empty() }),
    {
        CancelFlags { up: Vec::new() }
    }

    /// A flag no worker holds yet.
    pub fn issue(&mut self) -> (flag: u64)
        ensures
            flag == old(self)@.next(),
            final(self)@ == old(self)@.issued(),
    {
        let flag: u64 = self.up.len() as u64;
        self.up.push(false);
        flag
    }

    /// The numbers of flags suffice for all that can be held.
    pub proof fn numbers_suffice(&self)
        ensures
            self@.up.len() <= u64::MAX,
    {
        assert(self.up.len() <= usize::MAX);
    }

    pub fn raise(&mut self, flag: u64)
        ensures
            final(self)@ == old(self)@.raise(flag),
    {
        if flag < self.up.len() as u64 {
            self.up.set(flag as usize, true);
        }
    }

    pub fn is_raised(&self, flag: u64) -> (r: bool)
        ensures
            r == self@.raised(flag),
    {
        flag < self.up.len() as u64 && self.up[flag as usize]
    }

    /// Raise every flag registered in `map`.
    pub fn raise_values(&mut self, map: &HashMap<u64, u64>)
        ensures
            final(self)@ == old(self)@.raise_all(map@.values()),
    {
        let ghost before = self@;
        let ghost all = map@.values();
        for f in it: map.values()
            invariant
                it.seq().unref().to_set() == all,
                self@.up.len() == before.up.len(),
                forall|x: u64| #[trigger] self@.raised(x) ==> before.raised(x) || all.contains(x),
                forall|x: u64| before.raised(x) ==> #[trigger] self@.raised(x),
                forall|k: int|
                    0 <= k < it.index() && before.known(#[trigger] it.seq().unref()[k])
                        ==> self@.raised(it.seq().unref()[k]),
        {
            assert(it.seq().unref()[it.index() as int] == *f);
            assert(it.seq().unref().to_set().contains(*f));
            let ghost pre = self@;
            self.raise(*f);
            assert(forall|x: u64| #[trigger] self@.raised(x) <==> pre.raised(x) || (x == *f
                && pre.known(x)));
        }
        proof {
            self.numbers_suffice();
        }
        assert forall|x: int| 0 <= x < before.up.len() implies #[trigger] self@.up[x]
            == before.raise_all(all).up[x] by {
            assert(self@.raised(x as u64) == (before.raised(x as u64) || all.contains(x as u64)));
        }
        assert(self@.up =~= before.raise_all(all).up);
    }
}

/// Arm a fresh cancel flag for a layer's background worker, raising the one
/// registered for it before, if any.
pub fn fresh_cancel(map: &mut HashMap<u64, u64>, layer_id: u64, flags: &mut CancelFlags) -> (flag:
    u64)
    ensures
        flag == old(flags)@.next(),
        final(map)@ == old(map)@.insert(layer_id, flag),
        final(flags)@ == old(flags)@.raise_of(old(map)@, layer_id).issued(),
{
    if let Some(prev) = map.get(&layer_id) {
        flags.raise(*prev);
    }
    let flag = flags.issue();
    map.insert(layer_id, flag);
    flag
}

// --- laws -----------------------------------------------------------------------------------

impl Flags {
    /// Each layer's registered flag was handed out, and to it alone.
    pub open spec fn registers(self, map: Map<u64, u64>) -> bool {
        &&& forall|id: u64| #[trigger] map.contains_key(id) ==> self.known(map[id])
        &&& forall|a: u64, b: u64|
            #![trigger map.contains_key(a), map.contains_key(b)]
            map.contains_key(a) && map.contains_key(b) && a != b ==> map[a] != map[b]
    }
}

/// Flags and registered flags after a worker was armed for each of `ids`, in
/// order.
pub open spec fn armed(flags: Flags, map: Map<u64, u64>, ids: Seq<u64>) -> (Flags, Map<u64, u64>)
    decreases ids.len(),
{
    if ids.len() == 0 {
        (flags, map)
    } else {
        let (f, m) = armed(flags, map, ids.drop_last());
        (f.raise_of(m, ids.last()).issued(), m.insert(ids.last(), f.next()))
    }
}

/// Layer `id` comes up in `ids` after position `i`.
pub open spec fn comes_again(ids: Seq<u64>, i: int) -> bool {
    exists|j: int| i < j < ids.len() && #[trigger] ids[j] == ids[i]
}

/// What arming a worker for layer `x` does to flags and registered flags.
proof fn arming_one(f: Flags, m: Map<u64, u64>, x: u64)
    requires
        f.registers(m),
        f.up.len() < u64::MAX,
    ensures
        ({
            let g = f.raise_of(m, x).issued();
            let p = m.insert(x, f.next());
            &&& g.registers(p)
            &&& g.up.len() == f.up.len() + 1
            &&& !g.raised(f.next())
            &&& forall|flag: u64|
                f.known(flag) ==> #[trigger] g.raised(flag) == (f.raised(flag) || m.contains_pair(
                    x,
                    flag,
                ))
        }),
{
}

proof fn arming_registers(flags: Flags, map: Map<u64, u64>, ids: Seq<u64>)
    requires
        flags.registers(map),
        flags.up.len() + ids.len() <= u64::MAX,
    ensures
        armed(flags, map, ids).0.registers(armed(flags, map, ids).1),
        armed(flags, map, ids).0.up.len() == flags.up.len() + ids.len(),
    decreases ids.len(),
{
    if ids.len() > 0 {
        arming_registers(flags, map, ids.drop_last());
        let (f, m) = armed(flags, map, ids.drop_last());
        arming_one(f, m, ids.last());
    }
}

/// The `i`th worker armed runs on exactly as long as none is armed for its
/// layer after it.
proof fn each_runs_until_superseded(flags: Flags, map: Map<u64, u64>, ids: Seq<u64>, i: int)
    requires
        flags.registers(map),
        flags.up.len() + ids.len() <= u64::MAX,
        0 <= i < ids.len(),
    ensures
        ({
            let (f, m) = armed(flags, map, ids);
            let flag = (flags.up.len() + i) as u64;
            &&& f.raised(flag) == comes_again(ids, i)
            &&& !comes_again(ids, i) ==> m.contains_pair(ids[i], flag)
        }),
    decreases ids.len(),
{
    let rest = ids.drop_last();
    let x = ids.last();
    let (f, m) = armed(flags, map, rest);
    arming_registers(flags, map, rest);
    arming_one(f, m, x);
    if i == ids.len() - 1 {
        assert(!comes_again(ids, i));
    } else {
        each_runs_until_superseded(flags, map, rest, i);
        if comes_again(rest, i) {
            let j = choose|j: int| i < j < rest.len() && #[trigger] rest[j] == rest[i];
            assert(ids[j] == ids[i]);
        } else if ids[i] == x {
            assert(ids[ids.len() - 1] == ids[i]);
        } else {
            assert forall|j: int| i < j < ids.len() implies #[trigger] ids[j] != ids[i] by {
                if j < rest.len() {
                    assert(rest[j] == ids[j]);
                }
            }
            if m.contains_key(x) {
                assert(m.contains_key(ids[i]));
            }
        }
    }
}

/// The worker a layer had before runs on exactly as long as none is armed for
/// it.
proof fn the_earlier_one_runs_until_superseded(
    flags: Flags,
    map: Map<u64, u64>,
    ids: Seq<u64>,
    id: u64,
)
    requires
        flags.registers(map),
        flags.up.len() + ids.len() <= u64::MAX,
    ensures
        ({
            let (f, m) = armed(flags, map, ids);
            &&& map.contains_key(id) ==> f.raised(map[id]) == (flags.raised(map[id])
                || ids.contains(id))
            &&& !ids.contains(id) ==> m.contains_key(id) == map.contains_key(id) && (
            map.contains_key(id) ==> m[id] == map[id])
        }),
    decreases ids.len(),
{
    if ids.len() > 0 {
        let rest = ids.drop_last();
        let x = ids.last();
        let (f, m) = armed(flags, map, rest);
        arming_registers(flags, map, rest);
        arming_one(f, m, x);
        the_earlier_one_runs_until_superseded(flags, map, rest, id);
        assert(ids.contains(id) == (rest.contains(id) || id == x)) by {
            if ids.contains(id) {
                let k = ids.index_of(id);
                if k < rest.len() {
                    assert(rest[k] == id);
                }
            }
            if rest.contains(id) {
                let k = rest.index_of(id);
                assert(ids[k] == id);
            }
            assert(ids[ids.len() - 1] == x);
        }
        if map.contains_key(id) && m.contains_key(x) && id != x {
            if rest.contains(id) {
                assert(f.raised(map[id]));
            } else {
                assert(m.contains_key(id));
                assert(m[id] != m[x]);
            }
        }
        if id == x && rest.contains(id) && map.contains_key(id) {
            assert(f.raised(map[id]));
        }
    }
}

/// However often workers are armed, and for whichever layers: the latest one
/// of a layer runs, under the flag registered for it, its earlier ones are
/// told to stop, and a layer none was armed for is left alone.
pub proof fn one_worker_per_layer_runs(flags: Flags, map: Map<u64, u64>, ids: Seq<u64>)
    requires
        flags.registers(map),
        flags.up.len() + ids.len() <= u64::MAX,
    ensures
        ({
            let (f, m) = armed(flags, map, ids);
            &&& f.registers(m)
            &&& forall|i: int|
                0 <= i < ids.len() ==> {
                    let flag = (flags.up.len() + i) as u64;
                    &&& f.raised(flag) == #[trigger] comes_again(ids, i)
                    &&& !comes_again(ids, i) ==> m.contains_pair(ids[i], flag)
                }
            &&& forall|id: u64| #[trigger]
                map.contains_key(id) ==> {
                    &&& f.raised(map[id]) == (flags.raised(map[id]) || ids.contains(id))
                    &&& !ids.contains(id) ==> m.contains_pair(id, map[id])
                }
        }),
{
    arming_registers(flags, map, ids);
    let (f, m) = armed(flags, map, ids);
    assert forall|i: int| 0 <= i < ids.len() implies {
        let flag = (flags.up.len() + i) as u64;
        &&& f.raised(flag) == #[trigger] comes_again(ids, i)
        &&& !comes_again(ids, i) ==> m.contains_pair(ids[i], flag)
    } by {
        each_runs_until_superseded(flags, map, ids, i);
    }
    assert forall|id: u64| #[trigger] map.contains_key(id) implies {
        &&& f.raised(map[id]) == (flags.raised(map[id]) || ids.contains(id))
        &&& !ids.contains(id) ==> m.contains_pair(id, map[id])
    } by {
        the_earlier_one_runs_until_superseded(flags, map, ids, id);
    }
}

/// Of two workers armed for one layer, the earlier is told to stop and the
/// later is not; nor is one armed for another layer after that, and arming it
/// stops neither.
pub proof fn superseded_worker_is_cancelled(flags: Flags, map: Map<u64, u64>, id: u64, other: u64)
    requires
        flags.registers(map),
        flags.up.len() + 3 <= u64::MAX,
        id != other,
    ensures
        ({
            let (f, m) = armed(flags, map, seq![id, id, other]);
            let a = flags.next();
            let b = (a + 1) as u64;
            let c = (a + 2) as u64;
            &&& f.raised(a)
            &&& f.known(b) && !f.raised(b)
            &&& f.known(c) && !f.raised(c)
            &&& a != b
            &&& m.contains_pair(id, b)
            &&& m.contains_pair(other, c)
        }),
{
    let ids = seq![id, id, other];
    one_worker_per_layer_runs(flags, map, ids);
    arming_registers(flags, map, ids);
    assert(ids[0] == id && ids[1] == id && ids[2] == other);
    assert(comes_again(ids, 0)) by {
        assert(ids[1] == ids[0]);
    }
    assert(!comes_again(ids, 1));
    assert(!comes_again(ids, 2));
}

} // verus!
