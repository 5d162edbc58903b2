//! The shared store: registration, the resolve-and-record step, and the
//! read-only queries over entries and visits.
use vstd::prelude::*;

use crate::entry::{
    first_with_code, first_with_id, lemma_first_with_code_none, lemma_first_with_id_none, Entry,
    EntryStore, EntryView,
};
use crate::visit::{in_time_order, visits_of, IpAddress, Visit, VisitLog};

verus! {

/// Why a request could not be served.
#[derive(Clone, Copy, Debug, PartialEq, Eq)]
pub enum StoreError {
    /// No entry has the requested code or id.
    NotFound,
}

/// The store's contents: entries and visits, each in insertion order.
pub struct StoreView {
    pub entries: Seq<EntryView>,
    pub visits: Seq<Visit>,
}

/// Some entry carries id `id`.
pub open spec fn has_entry(entries: Seq<EntryView>, id: u128) -> bool {
    exists|j: int| 0 <= j < entries.len() && (#[trigger] entries[j]).id == id
}

/// The store's invariant: every visit refers to a registered entry, and
/// visits are recorded in time order.
pub open spec fn valid(s: StoreView) -> bool {
    &&& forall|i: int| 0 <= i < s.visits.len() ==> has_entry(s.entries, (#[trigger] s.visits[i]).entry_id)
    &&& in_time_order(s.visits)
}

/// How one resolve of `code` from `ip` takes the store from `pre` to `post`
/// with outcome `out` (the destination URL, or `None` for not found).
/// Unknown codes change nothing; a known code appends one visit of its first
/// entry, from `ip`, stamped no earlier than the last visit before it.
pub open spec fn resolve_step(
    pre: StoreView,
    post: StoreView,
    code: Seq<char>,
    ip: IpAddress,
    out: Option<Seq<char>>,
) -> bool {
    match first_with_code(pre.entries, code) {
        None => out is None && post == pre,
        Some(e) => {
            &&& out == Some(e.url)
            &&& post.entries == pre.entries
            &&& post.visits.len() == pre.visits.len() + 1
            &&& post.visits.drop_last() == pre.visits
            &&& post.visits.last().entry_id == e.id
            &&& post.visits.last().ip == ip
            &&& pre.visits.len() > 0 ==> pre.visits.last().timestamp.le(post.visits.last().timestamp)
        },
    }
}

/// Registered entries and the log of visits to them.
pub struct Store {
    entries: EntryStore,
    visits: VisitLog,
}

impl View for Store {
    type V = StoreView;

    closed spec fn view(&self) -> StoreView {
        StoreView { entries: self.entries@, visits: self.visits@ }
    }
}

impl Store {
    /// The store's invariant holds.
    pub open spec fn wf(&self) -> bool {
        valid(self@)
    }

    /// An empty store.
    pub fn new() -> (r: Store)
        ensures
            r.wf(),
            r@.entries == Seq::<EntryView>::empty(),
            r@.visits == Seq::<Visit>::empty(),
    {
        Store { entries: EntryStore::new(), visits: VisitLog::new() }
    }

    /// Registers `code` for `url` under a fresh id and returns the new entry.
    /// Always succeeds: empty strings and codes already present are accepted.
    pub fn create_entry(&mut self, code: String, url: String) -> (r: Entry)
        requires
            old(self).wf(),
        ensures
            final(self).wf(),
            r.code@ == code@,
            r.url@ == url@,
            final(self)@.entries == old(self)@.entries.push(r@),
            final(self)@.visits == old(self)@.visits,
    {
        let r = self.entries.insert(code, url);
        proof {
            let pre = old(self)@;
            let post = self@;
            assert forall|i: int| 0 <= i < post.visits.len() implies has_entry(
                post.entries,
                (#[trigger] post.visits[i]).entry_id,
            ) by {
                let j = choose|j: int|
                    0 <= j < pre.entries.len() && (#[trigger] pre.entries[j]).id
                        == pre.visits[i].entry_id;
                assert(post.entries[j] == pre.entries[j]);
            }
        }
        r
    }

    /// Every entry, in registration order.
    pub fn list_entries(&self) -> (r: Vec<Entry>)
        ensures
            r@.map_values(|e: Entry| e@) == self@.entries,
    {
        self.entries.list_all()
    }

    /// Resolves `code` for a visitor at `ip`: the destination URL of the first
    /// entry registered under `code`, after recording one visit of it; or
    /// `NotFound`, recording nothing, when no entry has that code.
    pub fn visit(&mut self, code: &str, ip: IpAddress) -> (r: Result<String, StoreError>)
        requires
            old(self).wf(),
        ensures
            final(self).wf(),
            r is Err <==> first_with_code(old(self)@.entries, code@) is None,
            resolve_step(
                old(self)@,
                final(self)@,
                code@,
                ip,
                match r {
                    Ok(u) => Some(u@),
                    Err(_) => None,
                },
            ),
    {
        match self.entries.lookup_by_code(code) {
            None => Err(StoreError::NotFound),
            Some(e) => {
                let ghost pre = self@;
                let v = self.visits.append(e.id, ip);
                proof {
                    let post = self@;
                    let found = first_with_code(pre.entries, code@)->Some_0;
                    assert(post.visits.drop_last() =~= pre.visits);
                    assert(has_entry(pre.entries, found.id)) by {
                        assert(first_with_code(pre.entries, code@) is Some);
                        lemma_found_by_code_in(pre.entries, code@);
                    }
                    assert forall|i: int| 0 <= i < post.visits.len() implies has_entry(
                        post.entries,
                        (#[trigger] post.visits[i]).entry_id,
                    ) by {
                        if i < pre.visits.len() {
                            assert(post.visits[i] == pre.visits[i]);
                        }
                    }
                    if pre.visits.len() > 0 {
                        assert(in_time_order(post.visits));
                        assert(post.visits[pre.visits.len() - 1] == pre.visits.last());
                    }
                }
                Ok(e.url)
            },
        }
    }

    /// Every visit, in the order recorded.
    pub fn list_visits(&self) -> (r: Vec<Visit>)
        ensures
            r@ == self@.visits,
    {
        self.visits.list_all()
    }

    /// The visits of entry `entry_id`, in the order recorded; `NotFound` when
    /// no entry has that id (an entry without visits gives an empty list).
    pub fn list_entry_visits(&self, entry_id: u128) -> (r: Result<Vec<Visit>, StoreError>)
        ensures
            r is Err <==> !has_entry(self@.entries, entry_id),
            r matches Ok(vs) ==> vs@ == visits_of(self@.visits, entry_id),
    {
        proof {
            lemma_first_with_id_none(self@.entries, entry_id);
        }
        match self.entries.lookup_by_id(entry_id) {
            None => Err(StoreError::NotFound),
            Some(_) => Ok(self.visits.list_by_entry(entry_id)),
        }
    }
}

/// The first entry found by code is one of the entries.
pub proof fn lemma_found_by_code_in(entries: Seq<EntryView>, code: Seq<char>)
    requires
        first_with_code(entries, code) is Some,
    ensures
        exists|j: int|
            0 <= j < entries.len() && #[trigger] entries[j] == first_with_code(entries, code)->Some_0,
    decreases entries.len(),
{
    let prefix = entries.drop_last();
    if first_with_code(prefix, code) is Some {
        lemma_found_by_code_in(prefix, code);
        let j = choose|j: int|
            0 <= j < prefix.len() && #[trigger] prefix[j] == first_with_code(prefix, code)->Some_0;
        assert(entries[j] == prefix[j]);
    } else {
        assert(entries[entries.len() - 1] == entries.last());
    }
}

/// Registering `e` under a code that no entry had, and then resolving that
/// code, gives back `e`'s URL.
pub proof fn lemma_register_then_resolve(
    s0: StoreView,
    s1: StoreView,
    s2: StoreView,
    e: EntryView,
    ip: IpAddress,
    out: Option<Seq<char>>,
)
    requires
        first_with_code(s0.entries, e.code) is None,
        s1.entries == s0.entries.push(e),
        resolve_step(s1, s2, e.code, ip, out),
    ensures
        out == Some(e.url),
{
    assert(s1.entries.drop_last() =~= s0.entries);
}

/// Resolving a code that no entry carries is not found and records no visit.
pub proof fn lemma_unknown_code(
    s0: StoreView,
    s1: StoreView,
    code: Seq<char>,
    ip: IpAddress,
    out: Option<Seq<char>>,
)
    requires
        forall|i: int| 0 <= i < s0.entries.len() ==> #[trigger] s0.entries[i].code != code,
        resolve_step(s0, s1, code, ip, out),
    ensures
        out is None,
        s1.visits == s0.visits,
{
    lemma_first_with_code_none(s0.entries, code);
}

/// When a code is registered twice in a row, resolving it gives the URL of
/// the first registration.
pub proof fn lemma_first_registration_wins(
    s0: StoreView,
    s2: StoreView,
    s3: StoreView,
    e1: EntryView,
    e2: EntryView,
    ip: IpAddress,
    out: Option<Seq<char>>,
)
    requires
        first_with_code(s0.entries, e1.code) is None,
        e2.code == e1.code,
        s2.entries == s0.entries.push(e1).push(e2),
        resolve_step(s2, s3, e1.code, ip, out),
    ensures
        out == Some(e1.url),
{
    assert(s2.entries.drop_last() =~= s0.entries.push(e1));
    assert(s0.entries.push(e1).drop_last() =~= s0.entries);
    assert(first_with_code(s0.entries.push(e1), e1.code) == Some(e1));
}

/// Resolving a registered code over and over, through the store states
/// `states[0]`, `states[1]`, ..., appends exactly one visit per resolve, each
/// of the code's first entry and from `ip`, with timestamps that never go
/// backwards; every resolve returns that entry's URL.
pub proof fn lemma_visits_accumulate(
    states: Seq<StoreView>,
    outs: Seq<Option<Seq<char>>>,
    code: Seq<char>,
    ip: IpAddress,
    e: EntryView,
)
    requires
        states.len() == outs.len() + 1,
        valid(states[0]),
        first_with_code(states[0].entries, code) == Some(e),
        forall|k: int|
            0 <= k < outs.len() ==> resolve_step(
                #[trigger] states[k],
                states[k + 1],
                code,
                ip,
                outs[k],
            ),
    ensures
        ({
            let first = states[0].visits;
            let last = states[outs.len() as int].visits;
            &&& states[outs.len() as int].entries == states[0].entries
            &&& last.len() == first.len() + outs.len()
            &&& last.take(first.len() as int) == first
            &&& forall|i: int|
                first.len() <= i < last.len() ==> (#[trigger] last[i]).entry_id == e.id
                    && last[i].ip == ip
            &&& in_time_order(last)
            &&& forall|k: int| 0 <= k < outs.len() ==> #[trigger] outs[k] == Some(e.url)
        }),
    decreases outs.len(),
{
    if outs.len() > 0 {
        let n = outs.len() - 1;
        lemma_visits_accumulate(states.take(n + 1), outs.take(n), code, ip, e);
        let first = states[0].visits;
        let mid = states[n].visits;
        let last = states[n + 1].visits;
        assert(states.take(n + 1)[n] == states[n]);
        assert(states.take(n + 1)[0] == states[0]);
        assert forall|k: int| 0 <= k < n implies #[trigger] outs[k] == Some(e.url) by {
            assert(outs.take(n)[k] == outs[k]);
        }
        assert(resolve_step(states[n], states[n + 1], code, ip, outs[n]));
        assert(last.drop_last() == mid);
        assert forall|i: int| 0 <= i < mid.len() implies last[i] == mid[i] by {
            assert(last.drop_last()[i] == last[i]);
        }
        assert(last.take(first.len() as int) =~= first) by {
            assert(mid.take(first.len() as int) == first);
        }
        assert(in_time_order(last)) by {
            assert forall|i: int, j: int| 0 <= i < j < last.len() implies (
            #[trigger] last[i]).timestamp.le((#[trigger] last[j]).timestamp) by {
                if j == last.len() - 1 && i < j {
                    if i < mid.len() - 1 {
                        assert(mid[i].timestamp.le(mid[mid.len() - 1].timestamp));
                    }
                } else {
                    assert(mid[i] == last[i]);
                    assert(mid[j] == last[j]);
                }
            }
        }
    }
}

} // verus!
