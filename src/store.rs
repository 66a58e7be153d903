//! The cache of classified video records, with its persistence state.

use vstd::prelude::*;
use crate::video::VideoRecord;

verus! {

/// The map that a list of `(id, record)` pairs describes; of two pairs with one
/// id the later one counts.
pub open spec fn records_map(s: Seq<(String, VideoRecord)>) -> Map<Seq<char>, VideoRecord>
    decreases s.len(),
{
    if s.len() == 0 {
        Map::empty()
    } else {
        records_map(s.drop_last()).insert(s.last().0@, s.last().1)
    }
}

/// No two pairs of `s` have the same id.
pub open spec fn unique_ids(s: Seq<(String, VideoRecord)>) -> bool {
    forall|i: int, j: int| 0 <= i < j < s.len() ==> s[i].0@ != s[j].0@
}

/// An id that occurs in no pair is not a key of the map.
proof fn lemma_records_map_absent(s: Seq<(String, VideoRecord)>, k: Seq<char>)
    requires
        forall|i: int| 0 <= i < s.len() ==> s[i].0@ != k,
    ensures
        !records_map(s).contains_key(k),
    decreases s.len(),
{
    if s.len() > 0 {
        lemma_records_map_absent(s.drop_last(), k);
    }
}

/// With unique ids, each pair gives the map's value at its id.
proof fn lemma_records_map_at(s: Seq<(String, VideoRecord)>, i: int)
    requires
        unique_ids(s),
        0 <= i < s.len(),
    ensures
        records_map(s).contains_key(s[i].0@),
        records_map(s)[s[i].0@] == s[i].1,
    decreases s.len(),
{
    if i < s.len() - 1 {
        lemma_records_map_at(s.drop_last(), i);
    }
}

/// With unique ids, replacing the pair at `i` by one with the same id updates the map there.
proof fn lemma_records_map_update(s: Seq<(String, VideoRecord)>, i: int, p: (String, VideoRecord))
    requires
        unique_ids(s),
        0 <= i < s.len(),
        p.0@ == s[i].0@,
    ensures
        records_map(s.update(i, p)) == records_map(s).insert(p.0@, p.1),
    decreases s.len(),
{
    let t = s.update(i, p);
    if i == s.len() - 1 {
        assert(t.drop_last() == s.drop_last());
        assert(records_map(t) =~= records_map(s).insert(p.0@, p.1));
    } else {
        assert(t.drop_last() == s.drop_last().update(i, p));
        lemma_records_map_update(s.drop_last(), i, p);
        assert(records_map(t) =~= records_map(s).insert(p.0@, p.1));
    }
}

/// The cache of video records, keyed by video id.
pub struct VideoStore {
    records: Vec<(String, VideoRecord)>,
    dirty: bool,
    file: String,
}

impl View for VideoStore {
    type V = Map<Seq<char>, VideoRecord>;

    closed spec fn view(&self) -> Map<Seq<char>, VideoRecord> {
        records_map(self.records@)
    }
}

impl VideoStore {
    /// Ids are unique in the stored list.
    pub closed spec fn wf(&self) -> bool {
        unique_ids(self.records@)
    }

    /// Whether the store holds changes not yet written out.
    pub closed spec fn is_dirty(&self) -> bool {
        self.dirty
    }

    /// Where the store is persisted.
    pub closed spec fn location(&self) -> Seq<char> {
        self.file@
    }

    /// An empty store persisted at `file`.
    pub fn new(file: String) -> (r: VideoStore)
        ensures
            r.wf(),
            r@ == Map::<Seq<char>, VideoRecord>::empty(),
            !r.is_dirty(),
            r.location() == file@,
    {
        VideoStore { records: Vec::new(), dirty: false, file }
    }

    /// A clean store persisted at `file` holding the given pairs; of two pairs
    /// with one id the later one counts.
    pub fn from_records(file: String, records: Vec<(String, VideoRecord)>) -> (r: VideoStore)
        ensures
            r.wf(),
            r@ == records_map(records@),
            !r.is_dirty(),
            r.location() == file@,
    {
        let mut store = VideoStore::new(file);
        let mut i: usize = 0;
        while i < records.len()
            invariant
                i <= records@.len(),
                store.wf(),
                store@ == records_map(records@.subrange(0, i as int)),
                store.location() == file@,
            decreases records@.len() - i,
        {
            let id = records[i].0.clone();
            store.insert(id, records[i].1);
            assert(records@.subrange(0, i + 1).drop_last() == records@.subrange(0, i as int));
            i = i + 1;
        }
        assert(records@.subrange(0, i as int) == records@);
        store.mark_persisted();
        store
    }

    /// The cached pairs, each id once.
    pub fn records(&self) -> (r: Vec<(String, VideoRecord)>)
        requires
            self.wf(),
        ensures
            unique_ids(r@),
            records_map(r@) == self@,
    {
        let mut r: Vec<(String, VideoRecord)> = Vec::new();
        let mut i: usize = 0;
        while i < self.records.len()
            invariant
                i <= self.records@.len(),
                r@ == self.records@.subrange(0, i as int),
            decreases self.records@.len() - i,
        {
            let id = self.records[i].0.clone();
            r.push((id, self.records[i].1));
            i = i + 1;
        }
        assert(self.records@.subrange(0, i as int) == self.records@);
        r
    }

    /// Whether a record for `id` is cached.
    pub fn contains(&self, id: &str) -> (r: bool)
        requires
            self.wf(),
        ensures
            r == self@.contains_key(id@),
    {
        self.lookup(id).is_some()
    }

    /// The cached record for `id`, if any.
    pub fn lookup(&self, id: &str) -> (r: Option<VideoRecord>)
        requires
            self.wf(),
        ensures
            r == (if self@.contains_key(id@) { Some(self@[id@]) } else { None::<VideoRecord> }),
    {
        match self.index_of(id) {
            Some(i) => {
                proof {
                    lemma_records_map_at(self.records@, i as int);
                }
                Some(self.records[i].1)
            },
            None => {
                proof {
                    lemma_records_map_absent(self.records@, id@);
                }
                None
            },
        }
    }

    /// The position of the pair for `id`, if any.
    fn index_of(&self, id: &str) -> (r: Option<usize>)
        ensures
            match r {
                Some(i) => i < self.records@.len() && self.records@[i as int].0@ == id@,
                None => forall|j: int| 0 <= j < self.records@.len() ==> self.records@[j].0@ != id@,
            },
    {
        let mut i: usize = 0;
        while i < self.records.len()
            invariant
                i <= self.records@.len(),
                forall|j: int| 0 <= j < i ==> self.records@[j].0@ != id@,
            decreases self.records@.len() - i,
        {
            if crate::text::str_eq(self.records[i].0.as_str(), id) {
                return Some(i);
            }
            i = i + 1;
        }
        None
    }

    /// Caches `record` under `id`, replacing any record there, and marks the
    /// store dirty.
    pub fn insert(&mut self, id: String, record: VideoRecord)
        requires
            old(self).wf(),
        ensures
            final(self).wf(),
            final(self)@ == old(self)@.insert(id@, record),
            final(self).is_dirty(),
            final(self).location() == old(self).location(),
    {
        match self.index_of(id.as_str()) {
            Some(i) => {
                proof {
                    lemma_records_map_update(self.records@, i as int, (id, record));
                }
                self.records.set(i, (id, record));
            },
            None => {
                let ghost s = self.records@;
                self.records.push((id, record));
                assert(self.records@.drop_last() == s);
            },
        }
        self.dirty = true;
    }

    /// Whether the store must be written out.
    pub fn needs_persist(&self) -> (r: bool)
        ensures
            r == self.is_dirty(),
    {
        self.dirty
    }

    /// Records that the store has been written out.
    pub fn mark_persisted(&mut self)
        ensures
            final(self)@ == old(self)@,
            final(self).wf() == old(self).wf(),
            !final(self).is_dirty(),
            final(self).location() == old(self).location(),
    {
        self.dirty = false;
    }

    /// Where the store is persisted.
    pub fn file(&self) -> (r: String)
        ensures
            r@ == self.location(),
    {
        self.file.clone()
    }

    /// Number of cached records.
    pub fn len(&self) -> (r: usize)
        requires
            self.wf(),
        ensures
            r == self@.len(),
    {
        proof {
            lemma_unique_len(self.records@);
        }
        self.records.len()
    }
}

/// The pairs that [`VideoStore::records`] writes out are exactly the store's
/// records, one pair per record, so loading them back with
/// [`VideoStore::from_records`] gives the same record set.
pub proof fn persist_round_trip(store: VideoStore, saved: Seq<(String, VideoRecord)>)
    requires
        store.wf(),
        unique_ids(saved),
        records_map(saved) == store@,
    ensures
        saved.len() == store@.len(),
        forall|i: int| 0 <= i < saved.len() ==> #[trigger] store@.contains_key(saved[i].0@) && store@[saved[i].0@] == saved[i].1,
        forall|k: Seq<char>| #[trigger] store@.contains_key(k) ==> exists|i: int| 0 <= i < saved.len() && saved[i].0@ == k,
{
    lemma_unique_len(saved);
    assert forall|i: int| 0 <= i < saved.len() implies #[trigger] store@.contains_key(saved[i].0@) && store@[saved[i].0@] == saved[i].1 by {
        lemma_records_map_at(saved, i);
    }
    assert forall|k: Seq<char>| #[trigger] store@.contains_key(k) implies exists|i: int| 0 <= i < saved.len() && saved[i].0@ == k by {
        if !(exists|i: int| 0 <= i < saved.len() && saved[i].0@ == k) {
            lemma_records_map_absent(saved, k);
        }
    }
}

/// With unique ids the map has one key per pair.
proof fn lemma_unique_len(s: Seq<(String, VideoRecord)>)
    requires
        unique_ids(s),
    ensures
        records_map(s).len() == s.len(),
        records_map(s).dom().finite(),
    decreases s.len(),
{
    if s.len() > 0 {
        let p = s.drop_last();
        lemma_unique_len(p);
        lemma_records_map_absent(p, s.last().0@);
    }
}

} // verus!
