//! Registered short codes and the store that holds them in insertion order.
use vstd::prelude::*;

use crate::clock::fresh_id;

verus! {

/// A short code mapped to the URL it redirects to, under a randomly generated id.
pub struct Entry {
    pub id: u128,
    pub code: String,
    pub url: String,
}

/// What an [`Entry`] holds, as mathematical values.
pub struct EntryView {
    pub id: u128,
    pub code: Seq<char>,
    pub url: Seq<char>,
}

impl View for Entry {
    type V = EntryView;

    open spec fn view(&self) -> EntryView {
        EntryView { id: self.id, code: self.code@, url: self.url@ }
    }
}

impl Clone for Entry {
    fn clone(&self) -> (r: Entry)
        ensures
            r@ == self@,
    {
        Entry { id: self.id, code: self.code.clone(), url: self.url.clone() }
    }
}

impl Entry {
    /// A new entry for `code` and `url` under a freshly generated id.
    pub fn new(code: String, url: String) -> (r: Entry)
        ensures
            r.code@ == code@,
            r.url@ == url@,
    {
        Entry { id: fresh_id(), code, url }
    }
}

/// The first entry, in insertion order, whose code is `code`.
pub open spec fn first_with_code(entries: Seq<EntryView>, code: Seq<char>) -> Option<EntryView>
    decreases entries.len(),
{
    if entries.len() == 0 {
        None
    } else {
        match first_with_code(entries.drop_last(), code) {
            Some(e) => Some(e),
            None => if entries.last().code == code {
                Some(entries.last())
            } else {
                None
            },
        }
    }
}

/// The first entry, in insertion order, whose id is `id`.
pub open spec fn first_with_id(entries: Seq<EntryView>, id: u128) -> Option<EntryView>
    decreases entries.len(),
{
    if entries.len() == 0 {
        None
    } else {
        match first_with_id(entries.drop_last(), id) {
            Some(e) => Some(e),
            None => if entries.last().id == id {
                Some(entries.last())
            } else {
                None
            },
        }
    }
}

/// A first match is absent exactly when no entry has the code.
pub proof fn lemma_first_with_code_none(entries: Seq<EntryView>, code: Seq<char>)
    ensures
        first_with_code(entries, code) is None <==> forall|i: int|
            0 <= i < entries.len() ==> #[trigger] entries[i].code != code,
    decreases entries.len(),
{
    if entries.len() > 0 {
        lemma_first_with_code_none(entries.drop_last(), code);
        assert(forall|i: int| 0 <= i < entries.len() - 1 ==> entries.drop_last()[i] == entries[i]);
    }
}

/// An entry is found by id exactly when some entry has that id.
pub proof fn lemma_first_with_id_none(entries: Seq<EntryView>, id: u128)
    ensures
        first_with_id(entries, id) is None <==> forall|i: int|
            0 <= i < entries.len() ==> #[trigger] entries[i].id != id,
    decreases entries.len(),
{
    if entries.len() > 0 {
        lemma_first_with_id_none(entries.drop_last(), id);
        assert(forall|i: int| 0 <= i < entries.len() - 1 ==> entries.drop_last()[i] == entries[i]);
    }
}

/// A first match by code in a prefix stays the first match in the whole sequence.
pub proof fn lemma_first_with_code_prefix(entries: Seq<EntryView>, n: int, code: Seq<char>)
    requires
        0 <= n <= entries.len(),
        first_with_code(entries.take(n), code) is Some,
    ensures
        first_with_code(entries, code) == first_with_code(entries.take(n), code),
    decreases entries.len() - n,
{
    if n < entries.len() {
        assert(entries.take(n + 1).drop_last() =~= entries.take(n));
        lemma_first_with_code_prefix(entries, n + 1, code);
    } else {
        assert(entries.take(n) =~= entries);
    }
}

/// A first match by id in a prefix stays the first match in the whole sequence.
pub proof fn lemma_first_with_id_prefix(entries: Seq<EntryView>, n: int, id: u128)
    requires
        0 <= n <= entries.len(),
        first_with_id(entries.take(n), id) is Some,
    ensures
        first_with_id(entries, id) == first_with_id(entries.take(n), id),
    decreases entries.len() - n,
{
    if n < entries.len() {
        assert(entries.take(n + 1).drop_last() =~= entries.take(n));
        lemma_first_with_id_prefix(entries, n + 1, id);
    } else {
        assert(entries.take(n) =~= entries);
    }
}

/// The registered entries, in the order they were inserted. Entries are
/// never changed or removed.
pub struct EntryStore {
    entries: Vec<Entry>,
}

impl View for EntryStore {
    type V = Seq<EntryView>;

    closed spec fn view(&self) -> Seq<EntryView> {
        self.entries@.map_values(|e: Entry| e@)
    }
}

impl EntryStore {
    /// An empty store.
    pub fn new() -> (r: EntryStore)
        ensures
            r@ == Seq::<EntryView>::empty(),
    {
        let r = EntryStore { entries: Vec::new() };
        assert(r@ =~= Seq::<EntryView>::empty());
        r
    }

    /// Appends `e` and hands back a copy of it.
    pub fn insert_entry(&mut self, e: Entry) -> (r: Entry)
        ensures
            r@ == e@,
            final(self)@ == old(self)@.push(e@),
    {
        let r = e.clone();
        self.entries.push(e);
        assert(final(self)@ =~= old(self)@.push(r@));
        r
    }

    /// Registers `code` for `url` under a fresh id. Any strings are accepted,
    /// empty ones and codes already present included.
    pub fn insert(&mut self, code: String, url: String) -> (r: Entry)
        ensures
            r.code@ == code@,
            r.url@ == url@,
            final(self)@ == old(self)@.push(r@),
    {
        self.insert_entry(Entry::new(code, url))
    }

    /// The first entry in insertion order whose code is `code`.
    pub fn lookup_by_code(&self, code: &str) -> (r: Option<Entry>)
        ensures
            r matches Some(e) ==> first_with_code(self@, code@) == Some(e@),
            r is None ==> first_with_code(self@, code@) is None,
    {
        let wanted = String::from_str(code);
        let mut i: usize = 0;
        while i < self.entries.len()
            invariant
                i <= self.entries.len(),
                wanted@ == code@,
                first_with_code(self@.take(i as int), code@) is None,
            decreases self.entries.len() - i,
        {
            assert(self@.take(i as int + 1).drop_last() =~= self@.take(i as int));
            assert(self@[i as int] == self.entries@[i as int]@);
            if self.entries[i].code == wanted {
                assert(self@.take(i as int + 1).last() == self@[i as int]);
                let found = self.entries[i].clone();
                assert(first_with_code(self@.take(i as int + 1), code@) == Some(found@));
                assert(first_with_code(self@, code@) == Some(found@)) by {
                    lemma_first_with_code_prefix(self@, i as int + 1, code@);
                }
                return Some(found);
            }
            i = i + 1;
        }
        assert(self@.take(i as int) =~= self@);
        None
    }

    /// The first entry in insertion order whose id is `id`.
    pub fn lookup_by_id(&self, id: u128) -> (r: Option<Entry>)
        ensures
            r matches Some(e) ==> first_with_id(self@, id) == Some(e@),
            r is None ==> first_with_id(self@, id) is None,
    {
        let mut i: usize = 0;
        while i < self.entries.len()
            invariant
                i <= self.entries.len(),
                first_with_id(self@.take(i as int), id) is None,
            decreases self.entries.len() - i,
        {
            assert(self@.take(i as int + 1).drop_last() =~= self@.take(i as int));
            assert(self@[i as int] == self.entries@[i as int]@);
            if self.entries[i].id == id {
                assert(self@.take(i as int + 1).last() == self@[i as int]);
                let found = self.entries[i].clone();
                assert(first_with_id(self@.take(i as int + 1), id) == Some(found@));
                assert(first_with_id(self@, id) == Some(found@)) by {
                    lemma_first_with_id_prefix(self@, i as int + 1, id);
                }
                return Some(found);
            }
            i = i + 1;
        }
        assert(self@.take(i as int) =~= self@);
        None
    }

    /// A copy of every entry, in insertion order.
    pub fn list_all(&self) -> (r: Vec<Entry>)
        ensures
            r@.map_values(|e: Entry| e@) == self@,
    {
        let mut r: Vec<Entry> = Vec::new();
        let mut i: usize = 0;
        while i < self.entries.len()
            invariant
                i <= self.entries.len(),
                r@.map_values(|e: Entry| e@) =~= self@.take(i as int),
            decreases self.entries.len() - i,
        {
            let e = self.entries[i].clone();
            assert(e@ == self@[i as int]);
            r.push(e);
            assert(self@.take(i as int + 1) =~= self@.take(i as int).push(e@));
            i = i + 1;
            assert(r@.map_values(|e: Entry| e@) =~= self@.take(i as int));
        }
        assert(self@.take(i as int) =~= self@);
        r
    }
}

} // verus!
