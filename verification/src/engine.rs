//! The aggregation engine: the per-iteration decision logic of the
//! capture loop. Each iteration may publish a snapshot of the working
//! counters and then processes at most one captured frame.

use vstd::prelude::*;

use crate::counters::{Direction, Protocol};
use crate::frame::{classify_frame, spec_classify, FrameInfo};
use crate::store::{spec_target, store_record_rel, store_same, CounterStore};
use crate::subnet::{in_subnets, SubnetSet};

verus! {

/// How many iterations lie between two published snapshots.
pub const PUBLISH_INTERVAL: usize = 64;

/// The state of the aggregation loop: the private working counters,
/// the countdown to the next publish, and the configuration the
/// per-frame policy is applied with.
#[derive(Debug)]
pub struct Engine {
    /// Working counter store, mutated only through `step`.
    pub stats: CounterStore,
    /// Iterations left before the next publish; a snapshot is published
    /// by the iteration that sees zero, the first iteration included.
    pub sync_remaining: usize,
    /// Cap on the number of store entries, the overflow bucket included.
    pub max_tracking: usize,
    /// Subnets whose addresses count as local.
    pub locals: SubnetSet,
    /// Subnets whose traffic is discarded entirely, if configured.
    pub excluded: Option<SubnetSet>,
}

impl Engine {
    /// The working store never holds more than `max_tracking` entries
    /// beyond the overflow bucket, and the overflow bucket exists only
    /// once the cap has been reached.
    pub open spec fn wf(self) -> bool {
        &&& self.stats.wf()
        &&& self.stats.entries@.len() <= self.max_tracking
        &&& (self.stats.overflow is Some ==> self.stats.entries@.len() == self.max_tracking)
        &&& self.sync_remaining < PUBLISH_INTERVAL
    }

    pub open spec fn spec_is_local(self, ip: u32) -> bool {
        in_subnets(self.locals.nets@, ip)
    }

    pub open spec fn spec_is_excluded(self, ip: u32) -> bool {
        match self.excluded {
            Some(e) => in_subnets(e.nets@, ip),
            None => false,
        }
    }

    /// The per-frame decision: `None` discards the frame silently — it
    /// is unparseable, touches an excluded address, or has both
    /// endpoints local or both remote. Otherwise the frame is counted
    /// under its local endpoint, outbound when the source is the local
    /// one, inbound when the destination is.
    pub open spec fn spec_decision(self, data: Seq<u8>) -> Option<(u32, Protocol, Direction)> {
        match spec_classify(data) {
            None => None,
            Some(f) => if self.spec_is_excluded(f.source) || self.spec_is_excluded(f.dest) {
                None
            } else {
                let from_local = self.spec_is_local(f.source);
                let to_local = self.spec_is_local(f.dest);
                if from_local == to_local {
                    None
                } else if from_local {
                    Some((f.source, f.protocol, Direction::Outbound))
                } else {
                    Some((f.dest, f.protocol, Direction::Inbound))
                }
            },
        }
    }

    /// A fresh engine: empty working store, and a countdown of zero so
    /// that the very first iteration publishes a (still empty) snapshot.
    pub fn new(locals: SubnetSet, excluded: Option<SubnetSet>, max_tracking: usize) -> (r: Engine)
        ensures
            r.wf(),
            r.stats.entries@.len() == 0,
            r.stats.overflow is None,
            r.sync_remaining == 0,
            r.max_tracking == max_tracking,
            r.locals == locals,
            r.excluded == excluded,
    {
        Engine {
            stats: CounterStore::new(),
            sync_remaining: 0,
            max_tracking,
            locals,
            excluded,
        }
    }

    /// One iteration of the aggregation loop, fed the frame the capture
    /// source produced — `None` when the read failed or timed out, else
    /// the captured bytes and the frame's original wire length.
    ///
    /// Publishes first: exactly the iterations whose countdown is zero
    /// return a snapshot, a deep copy of the working store as it stood
    /// before this frame. Then the frame, if any, is classified,
    /// checked against the exclusion set and the local subnets, and
    /// either discarded without touching any counter or counted under
    /// exactly one entry and one protocol/direction leaf.
    pub fn step(&mut self, frame: Option<(&[u8], u32)>) -> (r: Option<CounterStore>)
        requires
            old(self).wf(),
        ensures
            final(self).wf(),
            final(self).max_tracking == old(self).max_tracking,
            final(self).locals == old(self).locals,
            final(self).excluded == old(self).excluded,
            (r is Some) == (old(self).sync_remaining == 0),
            match r {
                Some(snap) => store_same(snap, old(self).stats),
                None => true,
            },
            final(self).sync_remaining == (if old(self).sync_remaining == 0 {
                (PUBLISH_INTERVAL - 1) as usize
            } else {
                (old(self).sync_remaining - 1) as usize
            }),
            match frame {
                None => store_same(final(self).stats, old(self).stats),
                Some(f) => match old(self).spec_decision(f.0@) {
                    None => store_same(final(self).stats, old(self).stats),
                    Some(d) => store_record_rel(
                        old(self).stats,
                        final(self).stats,
                        d.0,
                        d.1,
                        d.2,
                        f.1,
                        old(self).max_tracking as nat,
                    ),
                },
            },
    {
        let r: Option<CounterStore> = if self.sync_remaining == 0 {
            self.sync_remaining = PUBLISH_INTERVAL;
            Some(self.stats.snapshot())
        } else {
            None
        };
        self.sync_remaining = self.sync_remaining - 1;
        match frame {
            None => r,
            Some((data, wire_len)) => {
                match classify_frame(data) {
                    None => r,
                    Some(f) => {
                        let hits_excluded = match &self.excluded {
                            Some(e) => e.matches(f.source) || e.matches(f.dest),
                            None => false,
                        };
                        if hits_excluded {
                            return r;
                        }
                        let from_local = self.locals.matches(f.source);
                        let to_local = self.locals.matches(f.dest);
                        if from_local != to_local {
                            let ip = if from_local {
                                f.source
                            } else {
                                f.dest
                            };
                            let dir = if from_local {
                                Direction::Outbound
                            } else {
                                Direction::Inbound
                            };
                            let ghost pre = self.stats;
                            self.stats.record(ip, f.protocol, dir, wire_len, self.max_tracking);
                            proof {
                                if spec_target(pre, ip, self.max_tracking as nat) is None {
                                    assert(pre.spec_total() >= self.max_tracking as nat);
                                } else if !pre.spec_has(ip) {
                                    assert(pre.spec_total() < self.max_tracking as nat);
                                }
                            }
                        }
                        r
                    },
                }
            },
        }
    }
}

/// Law: the discard conditions leave no trace. A frame whose endpoints
/// are both local, both remote, or of which either endpoint is
/// excluded, is discarded: the per-frame decision is `None`, and by
/// `step`'s contract such a frame changes no counter.
pub proof fn lemma_discard_conditions(e: Engine, data: Seq<u8>, f: FrameInfo)
    requires
        spec_classify(data) == Some(f),
        (e.spec_is_local(f.source) == e.spec_is_local(f.dest)) || e.spec_is_excluded(f.source)
            || e.spec_is_excluded(f.dest),
    ensures
        e.spec_decision(data) is None,
{
}

/// Law: direction correctness. A counted frame is counted under its
/// local endpoint and under the frame's own protocol: outbound exactly
/// when the source is the local endpoint, inbound exactly when the
/// destination is.
pub proof fn lemma_direction_correct(e: Engine, data: Seq<u8>, f: FrameInfo)
    requires
        spec_classify(data) == Some(f),
        e.spec_decision(data) is Some,
    ensures
        ({
            let (ip, p, dir) = e.spec_decision(data)->Some_0;
            &&& p == f.protocol
            &&& (dir == Direction::Outbound <==> e.spec_is_local(f.source) && !e.spec_is_local(
                f.dest,
            ) && ip == f.source)
            &&& (dir == Direction::Inbound <==> !e.spec_is_local(f.source) && e.spec_is_local(
                f.dest,
            ) && ip == f.dest)
        }),
{
}

} // verus!
