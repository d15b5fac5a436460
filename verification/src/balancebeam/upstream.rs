//! The pool of upstream servers: which of them are believed dead, and which
//! one to try next for a request.

use crate::random::{entropy_rng, roll_below};
use rand::rngs::StdRng;
use std::collections::HashSet;
use vstd::prelude::*;
use vstd::set_lib::*;

verus! {

broadcast use vstd::std_specs::hash::group_hash_axioms;

/// No upstream is left to try: each one is dead or was tried for this
/// request.
#[derive(Clone, Copy, Debug, PartialEq, Eq, Structural)]
pub struct NoUpstreamAvailable;

/// Upstream `i` of `total` may be tried next: it is neither believed dead
/// nor was it tried for this request.
pub open spec fn is_available(total: nat, dead: Set<usize>, tried: Set<usize>, i: usize) -> bool {
    i < total && !dead.contains(i) && !tried.contains(i)
}

/// The upstreams below `k` that may be tried next, in rising order.
pub open spec fn available_below(k: nat, dead: Set<usize>, tried: Set<usize>) -> Seq<usize>
    decreases k,
{
    if k == 0 {
        Seq::empty()
    } else if !dead.contains((k - 1) as usize) && !tried.contains((k - 1) as usize) {
        available_below((k - 1) as nat, dead, tried).push((k - 1) as usize)
    } else {
        available_below((k - 1) as nat, dead, tried)
    }
}

/// `available_below` lists the available upstreams, and nothing else.
pub proof fn lemma_available_below(k: nat, dead: Set<usize>, tried: Set<usize>)
    requires
        k <= usize::MAX,
    ensures
        forall|i: usize|
            available_below(k, dead, tried).contains(i) <==> is_available(k, dead, tried, i),
        forall|j: int|
            0 <= j < available_below(k, dead, tried).len() ==> (#[trigger] available_below(
                k,
                dead,
                tried,
            )[j]) < k,
    decreases k,
{
    if k > 0 {
        let rest = available_below((k - 1) as nat, dead, tried);
        let all = available_below(k, dead, tried);
        let last = (k - 1) as usize;
        lemma_available_below((k - 1) as nat, dead, tried);
        assert forall|i: usize| all.contains(i) <==> is_available(k, dead, tried, i) by {
            let before = (k - 1) as nat;
            assert(rest.contains(i) <==> is_available(before, dead, tried, i));
            if all.contains(i) {
                let j = choose|j: int| 0 <= j < all.len() && all[j] == i;
                if j < rest.len() {
                    assert(rest[j] == i);
                    assert(rest.contains(i));
                } else {
                    assert(i == last);
                }
            }
            if is_available(k, dead, tried, i) {
                if i == last {
                    assert(all[all.len() - 1] == i);
                } else {
                    assert(is_available(before, dead, tried, i));
                    let j = choose|j: int| 0 <= j < rest.len() && rest[j] == i;
                    assert(all[j] == i);
                }
            }
        }
        assert forall|j: int| 0 <= j < all.len() implies (#[trigger] all[j]) < k by {
            if j < rest.len() {
                assert(rest[j] < k - 1);
            }
        }
    }
}

/// The state of one search for an upstream, which lasts as long as one
/// attempt to forward a request: the upstreams that it has tried.
pub struct Selection {
    tried: HashSet<usize>,
    rng: StdRng,
}

impl Selection {
    /// The upstreams that were tried.
    pub closed spec fn tried(&self) -> Set<usize> {
        self.tried@
    }

    /// A search that has tried nothing yet.
    pub fn new() -> (selection: Selection)
        ensures
            selection.tried() == Set::<usize>::empty(),
    {
        Selection { tried: HashSet::new(), rng: entropy_rng() }
    }

    /// Tells whether upstream `index` was tried.
    pub fn was_tried(&self, index: usize) -> (r: bool)
        ensures
            r == self.tried().contains(index),
    {
        self.tried.contains(&index)
    }
}

/// The upstream servers, by index, and the set of those believed dead.
pub struct UpstreamPool {
    addresses: Vec<String>,
    dead: HashSet<usize>,
}

/// What `select_with` returns and leaves as the set of tried upstreams:
/// the candidate at place `roll`, counted round the list of candidates,
/// which is then tried; or nothing, if there is no candidate.
pub open spec fn selected(total: nat, dead: Set<usize>, tried: Set<usize>, roll: usize) -> (
    Result<usize, NoUpstreamAvailable>,
    Set<usize>,
) {
    let candidates = available_below(total, dead, tried);
    if candidates.len() == 0 {
        (Err(NoUpstreamAvailable), tried)
    } else {
        let index = candidates[roll as int % candidates.len() as int];
        (Ok(index), tried.insert(index))
    }
}

impl UpstreamPool {
    /// The number of upstreams.
    pub closed spec fn total(&self) -> nat {
        self.addresses@.len()
    }

    /// The upstreams believed dead.
    pub closed spec fn dead(&self) -> Set<usize> {
        self.dead@
    }

    /// The addresses, by index.
    pub closed spec fn addresses(&self) -> Seq<String> {
        self.addresses@
    }

    /// A pool of the given upstreams, all of them alive.
    pub fn new(addresses: Vec<String>) -> (pool: UpstreamPool)
        ensures
            pool.addresses() == addresses@,
            pool.total() == addresses@.len(),
            pool.dead() == Set::<usize>::empty(),
    {
        UpstreamPool { addresses, dead: HashSet::new() }
    }

    /// The number of upstreams.
    pub fn len(&self) -> (n: usize)
        ensures
            n == self.total(),
    {
        self.addresses.len()
    }

    /// The address of upstream `index`, if there is one.
    pub fn address(&self, index: usize) -> (r: Option<&String>)
        ensures
            self.total() == self.addresses().len(),
            match r {
                Some(address) => index < self.total() && *address == self.addresses()[index as int],
                None => index >= self.total(),
            },
    {
        if index < self.addresses.len() {
            Some(&self.addresses[index])
        } else {
            None
        }
    }

    /// Tells whether upstream `index` is believed dead.
    pub fn is_dead(&self, index: usize) -> (r: bool)
        ensures
            r == self.dead().contains(index),
    {
        self.dead.contains(&index)
    }

    /// Marks upstream `index` dead. Nothing here brings one back to life.
    pub fn mark_dead(&mut self, index: usize)
        ensures
            final(self).dead() == old(self).dead().insert(index),
            final(self).addresses() == old(self).addresses(),
            final(self).total() == old(self).total(),
    {
        self.dead.insert(index);
    }

    /// The upstreams that `selection` may try next, in rising order.
    pub fn available(&self, selection: &Selection) -> (candidates: Vec<usize>)
        ensures
            candidates@ == available_below(self.total(), self.dead(), selection.tried()),
            forall|i: usize|
                candidates@.contains(i) <==> is_available(
                    self.total(),
                    self.dead(),
                    selection.tried(),
                    i,
                ),
    {
        let total: usize = self.addresses.len();
        let mut candidates: Vec<usize> = Vec::new();
        let mut i: usize = 0;
        while i < total
            invariant
                i <= total,
                total == self.addresses@.len(),
                candidates@ == available_below(i as nat, self.dead@, selection.tried@),
            decreases total - i,
        {
            if !self.dead.contains(&i) && !selection.tried.contains(&i) {
                candidates.push(i);
            }
            i += 1;
        }
        proof {
            lemma_available_below(total as nat, self.dead@, selection.tried@);
        }
        candidates
    }

    /// Picks the upstream to try next, given the number `roll` to pick by:
    /// of the candidates in rising order the one at place `roll`, counted
    /// round the list. The one picked counts as tried from now on. Without
    /// a candidate the result is `NoUpstreamAvailable`, and nothing changes.
    pub fn select_with(&self, selection: &mut Selection, roll: usize) -> (r: Result<
        usize,
        NoUpstreamAvailable,
    >)
        ensures
            (r, final(selection).tried()) == selected(
                self.total(),
                self.dead(),
                old(selection).tried(),
                roll,
            ),
            r matches Ok(index) ==> is_available(
                self.total(),
                self.dead(),
                old(selection).tried(),
                index,
            ),
            r is Err ==> forall|i: usize|
                !is_available(self.total(), self.dead(), old(selection).tried(), i),
    {
        let candidates = self.available(selection);
        if candidates.len() == 0 {
            assert forall|i: usize|
                !is_available(self.total(), self.dead(), old(selection).tried(), i) by {
                assert(!candidates@.contains(i));
            }
            return Err(NoUpstreamAvailable);
        }
        let index: usize = candidates[roll % candidates.len()];
        assert(candidates@.contains(index));
        selection.tried.insert(index);
        Ok(index)
    }

    /// Picks at random, among the upstreams that are neither dead nor tried
    /// by `selection`, the one to try next, which counts as tried from now
    /// on. Without such an upstream the result is `NoUpstreamAvailable`,
    /// and nothing changes.
    pub fn select(&self, selection: &mut Selection) -> (r: Result<usize, NoUpstreamAvailable>)
        ensures
            match r {
                Ok(index) => {
                    &&& is_available(self.total(), self.dead(), old(selection).tried(), index)
                    &&& final(selection).tried() == old(selection).tried().insert(index)
                },
                Err(_) => {
                    &&& forall|i: usize|
                        !is_available(self.total(), self.dead(), old(selection).tried(), i)
                    &&& final(selection).tried() == old(selection).tried()
                },
            },
    {
        let count: usize = self.available(selection).len();
        let roll: usize = if count > 0 {
            roll_below(&mut selection.rng, count)
        } else {
            0
        };
        self.select_with(selection, roll)
    }

    /// Takes note of what came of the connect to upstream `index`, which
    /// `selection` picked: an upstream that did not take the connection,
    /// or not in time, is marked dead. Tells whether the search is done,
    /// which it is when the upstream took the connection.
    pub fn after_connect(&mut self, selection: &Selection, index: usize, connected: bool) -> (done:
        bool)
        requires
            selection.tried().contains(index),
        ensures
            done == connected,
            connected ==> final(self).dead() == old(self).dead(),
            !connected ==> final(self).dead() == old(self).dead().insert(index),
            final(self).addresses() == old(self).addresses(),
            final(self).total() == old(self).total(),
    {
        if !connected {
            self.dead.insert(index);
        }
        connected
    }

    /// Searches for an upstream that takes a connection, given for each
    /// upstream whether it does: `reachable` holds that at the place of the
    /// upstream. Live upstreams are picked at random, none of them twice;
    /// one that does not take the connection is marked dead, and the search
    /// goes on. The result is the first one picked that takes the
    /// connection, together with the upstreams that were tried, in the
    /// order in which they were tried.
    ///
    /// The search fails exactly when no live upstream takes a connection,
    /// and then every live upstream was tried, once.
    pub fn connect_to_upstream(&mut self, reachable: &Vec<bool>) -> (r: (
        Result<usize, NoUpstreamAvailable>,
        Vec<usize>,
    ))
        requires
            reachable@.len() == old(self).total(),
        ensures
            searched(old(self).total(), old(self).dead(), reachable@, r.0, r.1@),
            r.0 is Err <==> forall|i: usize|
                i < old(self).total() ==> old(self).dead().contains(i) || !reachable@[i as int],
            forall|i: usize|
                final(self).dead().contains(i) <==> old(self).dead().contains(i) || (
                r.1@.contains(i) && !reachable@[i as int]),
            final(self).addresses() == old(self).addresses(),
            final(self).total() == old(self).total(),
    {
        let ghost total = self.total();
        let ghost dead = self.dead();
        let count: usize = self.len();
        let mut selection = Selection::new();
        let mut attempts: Vec<usize> = Vec::new();
        assert(attempts@.to_set() =~= Set::<usize>::empty());
        loop
            invariant
                total == self.total(),
                count == total,
                reachable@.len() == total,
                dead == old(self).dead(),
                self.addresses() == old(self).addresses(),
                selection.tried() == attempts@.to_set(),
                attempts@.no_duplicates(),
                attempts@.len() <= total,
                forall|k: int|
                    0 <= k < attempts@.len() ==> (#[trigger] attempts@[k]) < total
                        && !dead.contains(attempts@[k]) && !reachable@[attempts@[k] as int],
                forall|i: usize|
                    self.dead().contains(i) <==> dead.contains(i) || attempts@.contains(i),
            decreases total - attempts@.len(),
        {
            let ghost tried = selection.tried();
            let ghost before = attempts@;
            match self.select(&mut selection) {
                Err(none) => {
                    proof {
                        assert forall|i: usize| i < total && !dead.contains(i) implies before.contains(
                            i,
                        ) by {
                            assert(!is_available(total, self.dead(), tried, i));
                        }
                        assert forall|i: usize| i < total implies dead.contains(i)
                            || !reachable@[i as int] by {
                            if !dead.contains(i) {
                                assert(before.contains(i));
                                let k = choose|k: int| 0 <= k < before.len() && before[k] == i;
                                assert(!reachable@[before[k] as int]);
                            }
                        }
                        assert forall|i: usize| self.dead().contains(i) <==> dead.contains(i) || (
                        before.contains(i) && !reachable@[i as int]) by {
                            if before.contains(i) {
                                let k = choose|k: int| 0 <= k < before.len() && before[k] == i;
                                assert(!reachable@[before[k] as int]);
                            }
                        }
                    }
                    return (Err(none), attempts);
                },
                Ok(index) => {
                    attempts.push(index);
                    proof {
                        assert(!before.contains(index)) by {
                            assert(!tried.contains(index));
                        }
                        assert(attempts@.no_duplicates());
                        assert(attempts@.to_set() =~= tried.insert(index)) by {
                            assert forall|i: usize| attempts@.to_set().contains(i) <==> tried.insert(
                                index,
                            ).contains(i) by {
                                if attempts@.contains(i) {
                                    let k = choose|k: int| 0 <= k < attempts@.len() && attempts@[k] == i;
                                    if k < before.len() {
                                        assert(before[k] == i);
                                        assert(before.contains(i));
                                    }
                                }
                                if before.contains(i) {
                                    let k = choose|k: int| 0 <= k < before.len() && before[k] == i;
                                    assert(attempts@[k] == i);
                                }
                                if i == index {
                                    assert(attempts@[before.len() as int] == i);
                                }
                            }
                        }
                        lemma_distinct_below(attempts@, total);
                    }
                    let connected: bool = reachable[index];
                    let done: bool = self.after_connect(&selection, index, connected);
                    if done {
                        proof {
                            assert(attempts@.last() == index);
                            assert forall|i: usize| self.dead().contains(i) <==> dead.contains(i)
                                || (attempts@.contains(i) && !reachable@[i as int]) by {
                                if attempts@.contains(i) && i != index {
                                    let k = choose|k: int| 0 <= k < attempts@.len() && attempts@[k] == i;
                                    assert(before[k] == i);
                                    assert(before.contains(i));
                                }
                                if before.contains(i) {
                                    let k = choose|k: int| 0 <= k < before.len() && before[k] == i;
                                    assert(attempts@[k] == i);
                                    assert(!reachable@[before[k] as int]);
                                }
                            }
                            assert forall|k: int| 0 <= k < attempts@.len() - 1 implies !reachable@[(
                            #[trigger] attempts@[k]) as int] by {
                                assert(attempts@[k] == before[k]);
                            }
                            assert forall|k: int| 0 <= k < attempts@.len() implies (
                            #[trigger] attempts@[k]) < total && !dead.contains(attempts@[k]) by {
                                if k < before.len() {
                                    assert(attempts@[k] == before[k]);
                                }
                            }
                            assert(!(forall|i: usize|
                                i < total ==> dead.contains(i) || !reachable@[i as int])) by {
                                assert(index < total && !dead.contains(index)
                                    && reachable@[index as int]);
                            }
                        }
                        return (Ok(index), attempts);
                    }
                    proof {
                        assert forall|k: int| 0 <= k < attempts@.len() implies (
                        #[trigger] attempts@[k]) < total && !dead.contains(attempts@[k])
                            && !reachable@[attempts@[k] as int] by {
                            if k < before.len() {
                                assert(attempts@[k] == before[k]);
                            }
                        }
                        assert forall|i: usize| self.dead().contains(i) <==> dead.contains(i)
                            || attempts@.contains(i) by {
                            if attempts@.contains(i) && i != index {
                                let k = choose|k: int| 0 <= k < attempts@.len() && attempts@[k] == i;
                                assert(before[k] == i);
                                assert(before.contains(i));
                            }
                            if before.contains(i) {
                                let k = choose|k: int| 0 <= k < before.len() && before[k] == i;
                                assert(attempts@[k] == i);
                            }
                            if i == index {
                                assert(attempts@[before.len() as int] == i);
                            }
                        }
                    }
                },
            }
        }
    }
}

/// What a search for an upstream may give: `attempts` are the upstreams
/// that were tried, in order, each of them alive at the start and none of
/// them twice. A search that succeeds ends with the upstream that took the
/// connection, after upstreams that did not. A search that fails has tried
/// every live upstream, and none took the connection.
pub open spec fn searched(
    total: nat,
    dead: Set<usize>,
    reachable: Seq<bool>,
    result: Result<usize, NoUpstreamAvailable>,
    attempts: Seq<usize>,
) -> bool {
    &&& attempts.no_duplicates()
    &&& forall|k: int|
        0 <= k < attempts.len() ==> (#[trigger] attempts[k]) < total && !dead.contains(attempts[k])
    &&& match result {
        Ok(index) => {
            &&& attempts.len() > 0
            &&& attempts.last() == index
            &&& reachable[index as int]
            &&& forall|k: int|
                0 <= k < attempts.len() - 1 ==> !reachable[(#[trigger] attempts[k]) as int]
        },
        Err(_) => {
            &&& forall|k: int| 0 <= k < attempts.len() ==> !reachable[(#[trigger] attempts[k]) as int]
            &&& forall|i: usize| i < total && !dead.contains(i) ==> attempts.contains(i)
        },
    }
}

/// Different indices below `total` are no more than `total`.
pub proof fn lemma_distinct_below(indices: Seq<usize>, total: nat)
    requires
        total <= usize::MAX,
        indices.no_duplicates(),
        forall|k: int| 0 <= k < indices.len() ==> (#[trigger] indices[k]) < total,
    ensures
        indices.len() <= total,
{
    broadcast use vstd::seq_lib::seq_to_set_is_finite;

    indices.unique_seq_to_set();
    lemma_indices_below(total);
    assert(indices.to_set().subset_of(indices_below(total))) by {
        assert forall|i: usize| indices.to_set().contains(i) implies indices_below(total).contains(
            i,
        ) by {
            let k = choose|k: int| 0 <= k < indices.len() && indices[k] == i;
            assert(indices[k] < total);
        }
    }
    lemma_len_subset(indices.to_set(), indices_below(total));
}

/// The upstreams tried before attempt `k` of a request whose attempts went
/// to `picks`, in that order.
pub open spec fn tried_before(picks: Seq<usize>, k: int) -> Set<usize> {
    picks.take(k).to_set()
}

/// `picks` are the upstreams that `select` can return, one after the other,
/// while one request is forwarded: none of them connects, so each is marked
/// dead before the next is picked, and `dead` holds those that were dead
/// before.
pub open spec fn failover_run(total: nat, dead: Set<usize>, picks: Seq<usize>) -> bool {
    forall|k: int|
        0 <= k < picks.len() ==> is_available(
            total,
            dead.union(tried_before(picks, k)),
            tried_before(picks, k),
            #[trigger] picks[k],
        )
}

/// The indices below `total`.
pub open spec fn indices_below(total: nat) -> Set<usize> {
    Set::new(|i: usize| i < total)
}

/// There are `total` indices below `total`.
pub proof fn lemma_indices_below(total: nat)
    requires
        total <= usize::MAX,
    ensures
        indices_below(total).finite(),
        indices_below(total).len() == total,
    decreases total,
{
    if total == 0 {
        assert(indices_below(total) =~= Set::<usize>::empty());
    } else {
        lemma_indices_below((total - 1) as nat);
        assert(indices_below(total) =~= indices_below((total - 1) as nat).insert(
            (total - 1) as usize,
        ));
    }
}

/// Failover tries every live upstream before it gives up. Of `total`
/// upstreams let those in `dead` be dead when a request comes, and let
/// `select` return `picks`, none of which connects, and then
/// `NoUpstreamAvailable`. Then no pick was dead or tried when it was picked,
/// no upstream was picked twice, every upstream that was alive was picked,
/// and there were as many picks as upstreams alive.
pub proof fn lemma_failover_tries_every_live_upstream(
    total: nat,
    dead: Set<usize>,
    picks: Seq<usize>,
)
    requires
        total <= usize::MAX,
        dead.finite(),
        forall|i: usize| dead.contains(i) ==> i < total,
        failover_run(total, dead, picks),
        forall|i: usize| !is_available(total, dead.union(picks.to_set()), picks.to_set(), i),
    ensures
        picks.no_duplicates(),
        forall|k: int|
            0 <= k < picks.len() ==> !dead.contains(#[trigger] picks[k]) && picks[k] < total,
        forall|i: usize| i < total && !dead.contains(i) ==> picks.contains(i),
        picks.len() + dead.len() == total,
{
    broadcast use vstd::seq_lib::seq_to_set_is_finite;

    assert forall|i: int, j: int| 0 <= i < picks.len() && 0 <= j < picks.len() && i != j implies picks[i]
        != picks[j] by {
        let (lo, hi) = if i < j {
            (i, j)
        } else {
            (j, i)
        };
        assert(picks.take(hi)[lo] == picks[lo]);
        assert(picks.take(hi).contains(picks[lo]));
        assert(tried_before(picks, hi).contains(picks[lo]));
        assert(is_available(
            total,
            dead.union(tried_before(picks, hi)),
            tried_before(picks, hi),
            picks[hi],
        ));
    }
    assert forall|k: int| 0 <= k < picks.len() implies !dead.contains(#[trigger] picks[k])
        && picks[k] < total by {
        assert(is_available(
            total,
            dead.union(tried_before(picks, k)),
            tried_before(picks, k),
            picks[k],
        ));
    }
    assert forall|i: usize| i < total && !dead.contains(i) implies picks.contains(i) by {
        assert(!is_available(total, dead.union(picks.to_set()), picks.to_set(), i));
    }
    let tried = picks.to_set();
    assert(tried.disjoint(dead)) by {
        assert forall|i: usize| tried.contains(i) implies !dead.contains(i) by {
            let k = choose|k: int| 0 <= k < picks.len() && picks[k] == i;
            assert(!dead.contains(picks[k]));
        }
    }
    assert(tried + dead =~= indices_below(total)) by {
        assert forall|i: usize| (tried + dead).contains(i) <==> indices_below(total).contains(
            i,
        ) by {
            if tried.contains(i) {
                let k = choose|k: int| 0 <= k < picks.len() && picks[k] == i;
                assert(picks[k] < total);
            }
        }
    }
    picks.unique_seq_to_set();
    lemma_set_disjoint_lens(tried, dead);
    lemma_indices_below(total);
}

} // verus!
