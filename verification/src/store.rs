//! The counter store: a bounded mapping from tracked address to
//! per-protocol counters, with one overflow bucket for addresses beyond
//! the tracking cap.

use vstd::prelude::*;

use crate::counters::{Direction, Protocol, ProtocolCounters};

verus! {

/// Per-address traffic counters.
///
/// Concrete addresses live in `entries`, in the order they were first
/// seen; the overflow bucket, absorbing traffic of local-role addresses
/// beyond the tracking cap, is present once such traffic has occurred.
#[derive(Debug)]
pub struct CounterStore {
    pub entries: Vec<(u32, ProtocolCounters)>,
    pub overflow: Option<ProtocolCounters>,
}

impl CounterStore {
    /// The tracked addresses, in the order they were first seen.
    pub open spec fn spec_keys(self) -> Seq<u32> {
        self.entries@.map_values(|e: (u32, ProtocolCounters)| e.0)
    }

    /// Whether `ip` has an individual entry.
    pub open spec fn spec_has(self, ip: u32) -> bool {
        self.spec_keys().contains(ip)
    }

    /// Well-formedness: each address has at most one entry.
    pub open spec fn wf(self) -> bool {
        self.spec_keys().no_duplicates()
    }

    /// How many entries exist, the overflow bucket included. This is the
    /// count the tracking cap is compared against.
    pub open spec fn spec_total(self) -> nat {
        self.entries@.len() + if self.overflow is Some {
            1nat
        } else {
            0nat
        }
    }

    /// The position of `ip`'s entry.
    pub open spec fn spec_index_of(self, ip: u32) -> int
        recommends
            self.spec_has(ip),
    {
        self.spec_keys().index_of(ip)
    }

    /// The counters of `ip`'s individual entry.
    pub open spec fn spec_entry(self, ip: u32) -> ProtocolCounters
        recommends
            self.spec_has(ip),
    {
        self.entries@[self.spec_index_of(ip)].1
    }

    /// The counters of the overflow bucket, zero while it is absent.
    pub open spec fn spec_overflow(self) -> ProtocolCounters {
        match self.overflow {
            Some(c) => c,
            None => ProtocolCounters::spec_zero(),
        }
    }

    pub fn new() -> (r: CounterStore)
        ensures
            r.wf(),
            r.entries@ =~= Seq::<(u32, ProtocolCounters)>::empty(),
            r.overflow is None,
    {
        CounterStore { entries: Vec::new(), overflow: None }
    }

    /// Position of `ip`'s entry, if it has one.
    fn find(&self, ip: u32) -> (r: Option<usize>)
        requires
            self.wf(),
        ensures
            match r {
                Some(i) => self.spec_has(ip) && i == self.spec_index_of(ip)
                    && i < self.entries@.len() && self.entries@[i as int].0 == ip,
                None => !self.spec_has(ip),
            },
    {
        let ghost keys = self.spec_keys();
        let n = self.entries.len();
        for i in 0..n
            invariant
                n == self.entries@.len(),
                forall|j: int| 0 <= j < i ==> self.entries@[j].0 != ip,
                keys == self.spec_keys(),
                self.wf(),
        {
            if self.entries[i].0 == ip {
                proof {
                    assert(keys[i as int] == ip);
                    assert(keys.contains(ip));
                    let w = keys.index_of(ip);
                    assert(keys[w] == ip);
                    assert(w == i);  // keys are pairwise distinct
                }
                return Some(i);
            }
        }
        proof {
            if self.spec_has(ip) {
                let w = keys.index_of(ip);
                assert(self.entries@[w].0 == ip);
            }
        }
        None
    }
}

/// Whether two stores hold exactly the same counters.
pub open spec fn store_same(a: CounterStore, b: CounterStore) -> bool {
    a.entries@ == b.entries@ && a.overflow == b.overflow
}

/// The key a frame with local-role address `ip` is counted under, given
/// the tracking cap `max`: the existing entry if there is one, else a
/// fresh entry while the cap leaves room, else the overflow bucket
/// (`None`).
pub open spec fn spec_target(s: CounterStore, ip: u32, max: nat) -> Option<u32> {
    if s.spec_has(ip) {
        Some(ip)
    } else if s.spec_total() >= max {
        None
    } else {
        Some(ip)
    }
}

/// How one counted frame changes the store: exactly the chosen entry's
/// chosen leaf is bumped by one packet and `len` bytes; every other
/// entry, and every other leaf of the chosen entry, is unchanged.
pub open spec fn store_record_rel(
    pre: CounterStore,
    post: CounterStore,
    ip: u32,
    proto: Protocol,
    dir: Direction,
    len: u32,
    max: nat,
) -> bool {
    match spec_target(pre, ip, max) {
        None => post.entries@ == pre.entries@ && post.overflow == Some(
            pre.spec_overflow().spec_bumped(proto, dir, len as u64),
        ),
        Some(_) => if pre.spec_has(ip) {
            let i = pre.spec_index_of(ip);
            post.entries@ == pre.entries@.update(
                i,
                (ip, pre.entries@[i].1.spec_bumped(proto, dir, len as u64)),
            ) && post.overflow == pre.overflow
        } else {
            post.entries@ == pre.entries@.push(
                (ip, ProtocolCounters::spec_zero().spec_bumped(proto, dir, len as u64)),
            ) && post.overflow == pre.overflow
        },
    }
}

impl CounterStore {
    /// Count one frame of `wire_len` wire bytes whose local-role address
    /// is `ip`, under protocol `proto` and direction `dir`, creating a
    /// new entry only while fewer than `max_tracking` entries exist.
    ///
    /// Existing entries are never evicted: once an address has an entry,
    /// all of its future traffic accrues there even after the cap is
    /// reached.
    pub fn record(&mut self, ip: u32, proto: Protocol, dir: Direction, wire_len: u32, max_tracking: usize)
        requires
            old(self).wf(),
        ensures
            final(self).wf(),
            store_record_rel(*old(self), *final(self), ip, proto, dir, wire_len, max_tracking as nat),
            final(self).spec_keys() == (if old(self).spec_has(ip)
                || spec_target(*old(self), ip, max_tracking as nat) is None {
                old(self).spec_keys()
            } else {
                old(self).spec_keys().push(ip)
            }),
    {
        let len64: u64 = wire_len as u64;
        let found = self.find(ip);
        match found {
            Some(i) => {
                let (k, mut c) = self.entries[i];
                c.bump(proto, dir, len64);
                self.entries[i] = (k, c);
                proof {
                    assert(self.spec_keys() =~= old(self).spec_keys());
                }
            },
            None => {
                let total: usize = if self.overflow.is_some() {
                    self.entries.len().saturating_add(1)
                } else {
                    self.entries.len()
                };
                if total >= max_tracking {
                    let mut c = match self.overflow {
                        Some(c0) => c0,
                        None => ProtocolCounters::new(),
                    };
                    c.bump(proto, dir, len64);
                    self.overflow = Some(c);
                    proof {
                        assert(old(self).spec_total() >= max_tracking as nat);
                    }
                } else {
                    let mut c = ProtocolCounters::new();
                    c.bump(proto, dir, len64);
                    self.entries.push((ip, c));
                    proof {
                        assert(self.spec_keys() =~= old(self).spec_keys().push(ip));
                        assert forall|a: int, b: int|
                            0 <= a < b < self.spec_keys().len() implies self.spec_keys()[a]
                            != self.spec_keys()[b] by {
                            if b < old(self).spec_keys().len() {
                            } else {
                                assert(!old(self).spec_keys().contains(ip));
                            }
                        }
                    }
                }
            },
        }
    }

    /// The counters recorded under a key: an individually tracked
    /// address, or the overflow bucket (`None`).
    pub fn get(&self, key: Option<u32>) -> (r: Option<ProtocolCounters>)
        requires
            self.wf(),
        ensures
            match key {
                Some(ip) => r == (if self.spec_has(ip) {
                    Some(self.spec_entry(ip))
                } else {
                    Option::<ProtocolCounters>::None
                }),
                None => r == self.overflow,
            },
    {
        match key {
            Some(ip) => {
                match self.find(ip) {
                    Some(i) => Some(self.entries[i].1),
                    None => None,
                }
            },
            None => self.overflow,
        }
    }

    /// A deep copy of the store, for publishing as a snapshot: the copy
    /// holds exactly the same entries and overflow bucket.
    pub fn snapshot(&self) -> (r: CounterStore)
        ensures
            r.entries@ == self.entries@,
            r.overflow == self.overflow,
            r.wf() == self.wf(),
    {
        let mut v: Vec<(u32, ProtocolCounters)> = Vec::new();
        let n: usize = self.entries.len();
        for i in 0..n
            invariant
                n == self.entries@.len(),
                v@ =~= self.entries@.subrange(0, i as int),
        {
            v.push(self.entries[i]);
            proof {
                assert(v@ =~= self.entries@.subrange(0, i + 1 as int));
            }
        }
        proof {
            assert(v@ =~= self.entries@);
        }
        CounterStore { entries: v, overflow: self.overflow }
    }
}

impl CounterStore {
    /// The entries ordered by address ascending, for export: the same
    /// entries the store holds, nothing added or dropped.
    pub fn sorted_entries(&self) -> (r: Vec<(u32, ProtocolCounters)>)
        ensures
            r@.to_multiset() == self.entries@.to_multiset(),
            forall|a: int, b: int| 0 <= a < b < r@.len() ==> r@[a].0 <= r@[b].0,
    {
        let mut r: Vec<(u32, ProtocolCounters)> = Vec::new();
        let n: usize = self.entries.len();
        proof {
            assert(r@ =~= self.entries@.take(0));
        }
        for i in 0..n
            invariant
                n == self.entries@.len(),
                r@.len() == i,
                r@.to_multiset() == self.entries@.take(i as int).to_multiset(),
                forall|a: int, b: int| 0 <= a < b < r@.len() ==> r@[a].0 <= r@[b].0,
        {
            let e = self.entries[i];
            let mut pos: usize = 0;
            while pos < r.len() && r[pos].0 <= e.0
                invariant
                    pos <= r@.len(),
                    forall|j: int| 0 <= j < pos ==> r@[j].0 <= e.0,
                decreases r@.len() - pos,
            {
                pos = pos + 1;
            }
            let ghost s_old = r@;
            r.insert(pos, e);
            proof {
                r@.to_multiset_ensures();
                self.entries@.take(i as int).to_multiset_ensures();
                assert(r@.remove(pos as int) =~= s_old);
                assert(r@[pos as int] == e);
                assert(r@.remove(pos as int).to_multiset() =~= r@.to_multiset().remove(e));
                assert(s_old.to_multiset() =~= r@.to_multiset().remove(e));
                assert(r@.contains(e));
                assert(r@.to_multiset().count(e) > 0);
                assert(r@.to_multiset() =~= s_old.to_multiset().insert(e));
                assert(self.entries@.take(i + 1 as int) =~= self.entries@.take(i as int).push(e));
                assert(self.entries@.take(i + 1 as int).to_multiset() =~= self.entries@.take(
                    i as int,
                ).to_multiset().insert(e));
            }
        }
        proof {
            assert(self.entries@.take(n as int) =~= self.entries@);
        }
        r
    }
}

/// Law: tracked addresses persist. One recorded frame never removes or
/// reorders entries — the old keys stay, in place — and a key is added
/// only for a new address seen while the store still has room under
/// the cap. The first addresses seen are thus the ones with individual
/// entries, however much traffic later addresses generate.
pub proof fn lemma_keys_persist(
    pre: CounterStore,
    post: CounterStore,
    ip: u32,
    proto: Protocol,
    dir: Direction,
    len: u32,
    max: nat,
)
    requires
        pre.wf(),
        store_record_rel(pre, post, ip, proto, dir, len, max),
    ensures
        pre.spec_keys().len() <= post.spec_keys().len() <= pre.spec_keys().len() + 1,
        forall|j: int|
            0 <= j < pre.spec_keys().len() ==> post.spec_keys()[j] == pre.spec_keys()[j],
        (post.spec_keys().len() == pre.spec_keys().len() + 1) <==> (!pre.spec_has(ip)
            && pre.spec_total() < max),
{
    let ks_pre = pre.spec_keys();
    let ks_post = post.spec_keys();
    if spec_target(pre, ip, max) is None {
        assert(ks_post =~= ks_pre);
    } else if pre.spec_has(ip) {
        let i = pre.spec_index_of(ip);
        assert(ks_pre[i] == ip);
        assert(ks_post =~= ks_pre);
    } else {
        assert(ks_post =~= ks_pre.push(ip));
    }
}

/// Law: one recorded frame changes exactly one entry. Every tracked
/// address other than the frame's local endpoint keeps its counters
/// unchanged; the overflow bucket is untouched unless it is the
/// target; and the target's counters are bumped exactly once.
pub proof fn lemma_record_exact(
    pre: CounterStore,
    post: CounterStore,
    ip: u32,
    proto: Protocol,
    dir: Direction,
    len: u32,
    max: nat,
)
    requires
        pre.wf(),
        store_record_rel(pre, post, ip, proto, dir, len, max),
    ensures
        forall|k: u32|
            k != ip && pre.spec_has(k) ==> post.spec_has(k) && post.spec_entry(k)
                == pre.spec_entry(k),
        spec_target(pre, ip, max) is Some ==> post.overflow == pre.overflow,
        spec_target(pre, ip, max) is None ==> post.spec_overflow()
            == pre.spec_overflow().spec_bumped(proto, dir, len as u64) && post.entries@
            == pre.entries@,
        spec_target(pre, ip, max) is Some ==> post.spec_has(ip) && post.spec_entry(ip) == (
        if pre.spec_has(ip) {
            pre.spec_entry(ip)
        } else {
            ProtocolCounters::spec_zero()
        }).spec_bumped(proto, dir, len as u64),
{
    lemma_keys_persist(pre, post, ip, proto, dir, len, max);
    let ks_pre = pre.spec_keys();
    let ks_post = post.spec_keys();
    assert forall|k: u32| k != ip && pre.spec_has(k) implies post.spec_has(k) && post.spec_entry(k)
        == pre.spec_entry(k) by {
        let j = pre.spec_index_of(k);
        assert(ks_pre[j] == k);
        assert(ks_post[j] == k);
        assert(ks_post.contains(k));
        let j2 = post.spec_index_of(k);
        assert(ks_post[j2] == k);
        if j2 != j {
            if j2 < ks_pre.len() {
                assert(ks_pre[j2] == k);
                assert(false);
            } else {
                // the appended key, if any, is ip != k
                assert(ks_post =~= ks_pre.push(ip));
                assert(false);
            }
        }
        if spec_target(pre, ip, max) is Some && pre.spec_has(ip) {
            let i = pre.spec_index_of(ip);
            assert(ks_pre[i] == ip);
            assert(i != j);
        }
    }
    if spec_target(pre, ip, max) is Some {
        if pre.spec_has(ip) {
            let i = pre.spec_index_of(ip);
            assert(ks_pre[i] == ip);
            assert(ks_post[i] == ip);
            assert(ks_post.contains(ip));
            let i2 = post.spec_index_of(ip);
            assert(ks_post[i2] == ip);
            if i2 != i {
                assert(ks_pre[i2] == ip);
                assert(false);
            }
        } else {
            let n = ks_pre.len() as int;
            assert(ks_post =~= ks_pre.push(ip));
            assert(ks_post[n] == ip);
            assert(ks_post.contains(ip));
            let i2 = post.spec_index_of(ip);
            assert(ks_post[i2] == ip);
            if i2 != n {
                assert(ks_pre[i2] == ip);
                assert(false);
            }
        }
    }
}

} // verus!
