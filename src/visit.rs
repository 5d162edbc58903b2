//! Visit records and the append-only log that keeps them in time order.
use vstd::prelude::*;

use crate::clock::{fresh_id, now_utc, Timestamp};

verus! {

/// A visitor's network address: four octets for IPv4, sixteen for IPv6.
#[derive(Clone, Copy, Debug, PartialEq, Eq)]
pub enum IpAddress {
    V4([u8; 4]),
    V6([u8; 16]),
}

/// One successful resolve of a code: which entry was hit, by whom, and when.
#[derive(Clone, Copy, Debug, PartialEq, Eq)]
pub struct Visit {
    pub id: u128,
    pub entry_id: u128,
    pub ip: IpAddress,
    pub timestamp: Timestamp,
}

impl Visit {
    /// A visit of entry `entry_id` from `ip`, under a fresh id and stamped
    /// with the current time.
    pub fn new(entry_id: u128, ip: IpAddress) -> (r: Visit)
        ensures
            r.entry_id == entry_id,
            r.ip == ip,
            r.timestamp.nanos < 2_000_000_000,
    {
        Visit { id: fresh_id(), entry_id, ip, timestamp: now_utc() }
    }
}

/// Every visit is stamped no earlier than the visits before it.
pub open spec fn in_time_order(visits: Seq<Visit>) -> bool {
    forall|i: int, j: int|
        0 <= i < j < visits.len() ==> (#[trigger] visits[i]).timestamp.le(
            (#[trigger] visits[j]).timestamp,
        )
}

/// The visits of entry `entry_id`, in the order they were recorded.
pub open spec fn visits_of(visits: Seq<Visit>, entry_id: u128) -> Seq<Visit> {
    visits.filter(|v: Visit| v.entry_id == entry_id)
}

/// The log of visits, in the order they were appended.
pub struct VisitLog {
    visits: Vec<Visit>,
}

impl View for VisitLog {
    type V = Seq<Visit>;

    closed spec fn view(&self) -> Seq<Visit> {
        self.visits@
    }
}

impl VisitLog {
    /// The log's invariant: timestamps never go backwards.
    pub open spec fn wf(&self) -> bool {
        in_time_order(self@)
    }

    /// An empty log.
    pub fn new() -> (r: VisitLog)
        ensures
            r.wf(),
            r@ == Seq::<Visit>::empty(),
    {
        VisitLog { visits: Vec::new() }
    }

    /// Appends `v`, moving its timestamp up to that of the last visit in the
    /// log should the clock have gone backwards, and hands back what was stored.
    pub fn push_ordered(&mut self, v: Visit) -> (r: Visit)
        requires
            old(self).wf(),
        ensures
            final(self).wf(),
            final(self)@ == old(self)@.push(r),
            r.id == v.id,
            r.entry_id == v.entry_id,
            r.ip == v.ip,
            old(self)@.len() == 0 ==> r.timestamp == v.timestamp,
            old(self)@.len() > 0 ==> r.timestamp == old(self)@.last().timestamp.later(
                v.timestamp,
            ),
    {
        let n = self.visits.len();
        let stamp = if n == 0 {
            v.timestamp
        } else {
            self.visits[n - 1].timestamp.later_of(v.timestamp)
        };
        let r = Visit { id: v.id, entry_id: v.entry_id, ip: v.ip, timestamp: stamp };
        self.visits.push(r);
        assert forall|i: int, j: int|
            0 <= i < j < final(self)@.len() implies (#[trigger] final(self)@[i]).timestamp.le(
            (#[trigger] final(self)@[j]).timestamp,
        ) by {
            if j == n as int && i < n as int - 1 {
                assert(old(self)@[i].timestamp.le(old(self)@[n as int - 1].timestamp));
            }
        }
        r
    }

    /// Records a visit of entry `entry_id` from `ip` at the current time.
    pub fn append(&mut self, entry_id: u128, ip: IpAddress) -> (r: Visit)
        requires
            old(self).wf(),
        ensures
            final(self).wf(),
            final(self)@ == old(self)@.push(r),
            r.entry_id == entry_id,
            r.ip == ip,
    {
        self.push_ordered(Visit::new(entry_id, ip))
    }

    /// A copy of every visit, in the order recorded.
    pub fn list_all(&self) -> (r: Vec<Visit>)
        ensures
            r@ == self@,
    {
        self.visits.clone()
    }

    /// The visits of entry `entry_id`, in the order recorded.
    pub fn list_by_entry(&self, entry_id: u128) -> (r: Vec<Visit>)
        ensures
            r@ == visits_of(self@, entry_id),
    {
        let mut r: Vec<Visit> = Vec::new();
        let mut i: usize = 0;
        while i < self.visits.len()
            invariant
                i <= self.visits.len(),
                r@ == visits_of(self@.take(i as int), entry_id),
            decreases self.visits.len() - i,
        {
            let v = self.visits[i];
            assert(self@.take(i as int + 1).drop_last() =~= self@.take(i as int));
            assert(self@.take(i as int + 1).last() == v);
            reveal_with_fuel(Seq::filter, 1);
            if v.entry_id == entry_id {
                r.push(v);
            }
            i = i + 1;
        }
        assert(self@.take(i as int) =~= self@);
        r
    }
}

} // verus!
