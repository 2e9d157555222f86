//! The calendar store: entries with a store-assigned identifier, a host,
//! a description and an epoch timestamp. Identifiers are handed out by a
//! monotonically increasing counter, so they are unique; deletion matches
//! on the (host, identifier) pair, as the interpreter's removal rule asks.

use vstd::prelude::*;

verus! {

/// One stored calendar entry.
pub struct CalendarEntry {
    pub id: u64,
    pub host: String,
    pub description: String,
    pub timestamp: i64,
}

pub ghost struct EntryS {
    pub id: u64,
    pub host: Seq<char>,
    pub description: Seq<char>,
    pub timestamp: i64,
}

impl View for CalendarEntry {
    type V = EntryS;

    open spec fn view(&self) -> EntryS {
        EntryS {
            id: self.id,
            host: self.host@,
            description: self.description@,
            timestamp: self.timestamp,
        }
    }
}

impl DeepView for CalendarEntry {
    type V = EntryS;

    open spec fn deep_view(&self) -> EntryS {
        self@
    }
}

/// Index of the first entry owned by `host` with identifier value `idv`,
/// or the length when none matches.
pub open spec fn find_match(entries: Seq<EntryS>, host: Seq<char>, idv: nat, from: int) -> int
    decreases entries.len() - from,
    when 0 <= from <= entries.len()
{
    if from >= entries.len() {
        entries.len() as int
    } else if entries[from].host == host && entries[from].id as nat == idv {
        from
    } else {
        find_match(entries, host, idv, from + 1)
    }
}

pub proof fn lemma_find_match(entries: Seq<EntryS>, host: Seq<char>, idv: nat, from: int)
    requires
        0 <= from <= entries.len(),
    ensures
        from <= find_match(entries, host, idv, from) <= entries.len(),
        forall|k: int|
            from <= k < find_match(entries, host, idv, from) ==> !(entries[k].host == host
                && entries[k].id as nat == idv),
        find_match(entries, host, idv, from) < entries.len() ==> {
            let k = find_match(entries, host, idv, from);
            entries[k].host == host && entries[k].id as nat == idv
        },
    decreases entries.len() - from,
{
    if from < entries.len() && !(entries[from].host == host && entries[from].id as nat == idv) {
        lemma_find_match(entries, host, idv, from + 1);
    }
}

/// The persisted collection of calendar entries.
pub struct EventStore {
    entries: Vec<CalendarEntry>,
    next_id: u64,
}

impl EventStore {
    /// The stored entries, oldest first.
    pub closed spec fn entries_view(&self) -> Seq<EntryS> {
        self.entries.deep_view()
    }

    /// The identifier the next insertion will receive.
    pub closed spec fn next_id_view(&self) -> u64 {
        self.next_id
    }

    /// Identifiers are strictly increasing along the sequence and all
    /// below the insertion counter.
    pub open spec fn wf(&self) -> bool {
        &&& forall|i: int, j: int|
            0 <= i < j < self.entries_view().len() ==> self.entries_view()[i].id
                < self.entries_view()[j].id
        &&& forall|i: int|
            0 <= i < self.entries_view().len() ==> self.entries_view()[i].id
                < self.next_id_view()
    }

    /// An empty store; identifiers start at 1, as row identifiers do.
    pub fn new() -> (r: EventStore)
        ensures
            r.wf(),
            r.entries_view() =~= Seq::<EntryS>::empty(),
            r.next_id_view() == 1,
    {
        EventStore { entries: Vec::new(), next_id: 1 }
    }

    pub fn count(&self) -> (r: usize)
        ensures
            r == self.entries_view().len(),
    {
        self.entries.len()
    }

    pub fn next_id(&self) -> (r: u64)
        ensures
            r == self.next_id_view(),
    {
        self.next_id
    }

    pub fn entry_at(&self, i: usize) -> (r: &CalendarEntry)
        requires
            i < self.entries_view().len(),
        ensures
            r@ == self.entries_view()[i as int],
    {
        &self.entries[i]
    }

    /// Inserts a new entry and returns its identifier.
    pub fn insert(&mut self, host: String, description: String, timestamp: i64) -> (id: u64)
        requires
            old(self).wf(),
            old(self).next_id_view() < u64::MAX,
        ensures
            final(self).wf(),
            id == old(self).next_id_view(),
            final(self).next_id_view() == old(self).next_id_view() + 1,
            final(self).entries_view() =~= old(self).entries_view().push(
                EntryS { id, host: host@, description: description@, timestamp },
            ),
    {
        let ghost h = host@;
        let ghost d = description@;
        let id = self.next_id;
        self.entries.push(CalendarEntry { id, host, description, timestamp });
        self.next_id = self.next_id + 1;
        proof {
            let e = EntryS { id, host: h, description: d, timestamp };
            let v0 = old(self).entries_view();
            let v1 = self.entries_view();
            assert(v1 =~= v0.push(e));
            assert forall|i: int, j: int| 0 <= i < j < v1.len() implies v1[i].id < v1[j].id by {
                if j < v1.len() - 1 {
                    assert(v1[i] == v0[i]);
                    assert(v1[j] == v0[j]);
                } else {
                    assert(v1[i] == v0[i]);
                    assert(v1[j] == e);
                }
            }
            assert forall|i: int| 0 <= i < v1.len() implies v1[i].id < self.next_id_view() by {
                if i < v1.len() - 1 {
                    assert(v1[i] == v0[i]);
                }
            }
        }
        id
    }

    /// Deletes the entry owned by `host` with identifier value `idv`, if
    /// one exists; reports whether a row went away.
    pub fn delete(&mut self, host: &str, idv: u64) -> (deleted: bool)
        requires
            old(self).wf(),
        ensures
            final(self).wf(),
            final(self).next_id_view() == old(self).next_id_view(),
            deleted == (find_match(old(self).entries_view(), host@, idv as nat, 0) < old(
                self,
            ).entries_view().len()),
            deleted ==> final(self).entries_view() =~= old(self).entries_view().remove(
                find_match(old(self).entries_view(), host@, idv as nat, 0),
            ),
            !deleted ==> final(self).entries_view() =~= old(self).entries_view(),
    {
        proof {
            lemma_find_match(old(self).entries_view(), host@, idv as nat, 0);
        }
        let n = self.entries.len();
        let mut i: usize = 0;
        while i < n
            invariant
                0 <= i <= n,
                n == self.entries_view().len(),
                *self == *old(self),
                old(self).wf(),
                forall|k: int|
                    0 <= k < i ==> !(self.entries_view()[k].host == host@
                        && self.entries_view()[k].id as nat == idv as nat),
                find_match(self.entries_view(), host@, idv as nat, 0) == find_match(
                    self.entries_view(),
                    host@,
                    idv as nat,
                    i as int,
                ),
            decreases n - i,
        {
            let e = &self.entries[i];
            if e.id == idv && crate::text::str_eq(e.host.as_str(), host) {
                self.entries.remove(i);
                proof {
                    let v0 = old(self).entries_view();
                    assert(find_match(v0, host@, idv as nat, 0) == i as int);
                    assert(self.entries_view() =~= v0.remove(i as int));
                    lemma_remove_keeps_order(v0, i as int, old(self).next_id);
                }
                return true;
            }
            i = i + 1;
        }
        false
    }
}

proof fn lemma_remove_keeps_order(entries: Seq<EntryS>, at: int, bound: u64)
    requires
        0 <= at < entries.len(),
        forall|i: int, j: int| 0 <= i < j < entries.len() ==> entries[i].id < entries[j].id,
        forall|i: int| 0 <= i < entries.len() ==> entries[i].id < bound,
    ensures
        forall|i: int, j: int|
            0 <= i < j < entries.remove(at).len() ==> entries.remove(at)[i].id < entries.remove(
                at,
            )[j].id,
        forall|i: int| 0 <= i < entries.remove(at).len() ==> entries.remove(at)[i].id < bound,
{
    assert forall|i: int, j: int| 0 <= i < j < entries.remove(at).len() implies entries.remove(
        at,
    )[i].id < entries.remove(at)[j].id by {
        let i0 = if i < at { i } else { i + 1 };
        let j0 = if j < at { j } else { j + 1 };
        assert(entries.remove(at)[i] == entries[i0]);
        assert(entries.remove(at)[j] == entries[j0]);
    }
    assert forall|i: int| 0 <= i < entries.remove(at).len() implies entries.remove(at)[i].id
        < bound by {
        let i0 = if i < at { i } else { i + 1 };
        assert(entries.remove(at)[i] == entries[i0]);
    }
}

} // verus!
