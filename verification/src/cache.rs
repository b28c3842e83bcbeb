//! Derived per-file and dataset-wide summaries, and a small bounded cache
//! for the per-file ones.  The cache is an optimization only: a miss never
//! changes what callers observe.

use vstd::prelude::*;

use vstd::string::StringExecFns;

verus! {

/// A summary of one container file, as served to callers.
#[derive(Debug, Clone)]
pub struct FileInfo {
    pub file_name: String,
    pub file_size: u64,
    pub packet_count: u64,
    pub start_timestamp: Option<u64>,
    pub end_timestamp: Option<u64>,
    pub file_hash: Option<String>,
    pub created_time: String,
    pub modified_time: String,
    pub is_valid: bool,
}

/// A summary of the whole dataset, as served to callers.
#[derive(Debug, Clone)]
pub struct DatasetInfo {
    pub name: String,
    pub file_count: usize,
    pub total_packets: u64,
    pub total_size: u64,
    pub start_timestamp: Option<u64>,
    pub end_timestamp: Option<u64>,
    pub created_time: String,
    pub modified_time: String,
    pub has_index: bool,
}

/// Hit and miss counters, and the cache's fill level.
#[derive(Debug, Clone, Copy, PartialEq, Eq, Structural)]
pub struct CacheStats {
    pub hits: u64,
    pub misses: u64,
    pub entries: usize,
    pub capacity: usize,
}

/// Two summaries carry the same information, compared by content.
pub open spec fn same_info(a: FileInfo, b: FileInfo) -> bool {
    &&& a.file_name@ == b.file_name@
    &&& a.file_size == b.file_size
    &&& a.packet_count == b.packet_count
    &&& a.start_timestamp == b.start_timestamp
    &&& a.end_timestamp == b.end_timestamp
    &&& (a.file_hash is Some <==> b.file_hash is Some)
    &&& (a.file_hash matches Some(h) ==> (b.file_hash matches Some(h2) && h@ == h2@))
    &&& a.created_time@ == b.created_time@
    &&& a.modified_time@ == b.modified_time@
    &&& a.is_valid == b.is_valid
}

/// Whether the cache holds an entry under this name.
pub open spec fn cache_has(entries: Seq<(String, FileInfo)>, name: Seq<char>) -> bool {
    exists|i: int| 0 <= i < entries.len() && (#[trigger] entries[i]).0@ == name
}

/// A bounded cache of per-file summaries, keyed by file name.  When full,
/// inserting evicts the entry that has sat in the cache longest.
pub struct FileInfoCache {
    entries: Vec<(String, FileInfo)>,
    capacity: usize,
    hits: u64,
    misses: u64,
}

impl FileInfoCache {
    /// The cached entries, oldest first.
    pub closed spec fn entries_spec(self) -> Seq<(String, FileInfo)> {
        self.entries@
    }

    /// The capacity the cache was created with.
    pub closed spec fn capacity_spec(self) -> usize {
        self.capacity
    }

    /// The cache never outgrows its capacity.
    pub closed spec fn inv(self) -> bool {
        self.entries@.len() <= self.capacity
    }

    /// An empty cache holding at most `capacity` entries.
    pub fn new(capacity: usize) -> (r: FileInfoCache)
        ensures
            r.inv(),
            r.entries_spec().len() == 0,
            r.capacity_spec() == capacity,
    {
        FileInfoCache { entries: Vec::new(), capacity, hits: 0, misses: 0 }
    }

    /// The cached summary under this name, if present.
    pub fn get(&mut self, name: &String) -> (r: Option<FileInfo>)
        requires
            old(self).inv(),
        ensures
            final(self).inv(),
            final(self).entries_spec() == old(self).entries_spec(),
            final(self).capacity_spec() == old(self).capacity_spec(),
            r is Some <==> cache_has(old(self).entries_spec(), name@),
            r matches Some(info) ==> exists|i: int|
                0 <= i < old(self).entries_spec().len() && (#[trigger] old(self).entries_spec()[
                    i
                ]).0@ == name@ && same_info(old(self).entries_spec()[i].1, info),
    {
        let n = self.entries.len();
        let mut i: usize = 0;
        while i < n
            invariant
                i <= n,
                n == self.entries@.len(),
                forall|q: int| 0 <= q < i ==> (#[trigger] self.entries@[q]).0@ != name@,
                self.inv(),
                self.entries@ == old(self).entries_spec(),
                self.capacity == old(self).capacity_spec(),
            decreases n - i,
        {
            if self.entries[i].0 == *name {
                self.hits = self.hits.saturating_add(1);
                let info = self.entry_at(i);
                return Some(info);
            }
            i = i + 1;
        }
        self.misses = self.misses.saturating_add(1);
        None
    }

    /// A copy of the summary at slot `i`, field by field.
    fn entry_at(&self, i: usize) -> (r: FileInfo)
        requires
            i < self.entries_spec().len(),
        ensures
            same_info(r, self.entries_spec()[i as int].1),
    {
        let e = &self.entries[i].1;
        FileInfo {
            file_name: e.file_name.clone(),
            file_size: e.file_size,
            packet_count: e.packet_count,
            start_timestamp: e.start_timestamp,
            end_timestamp: e.end_timestamp,
            file_hash: match &e.file_hash {
                Some(h) => Some(h.clone()),
                None => None,
            },
            created_time: e.created_time.clone(),
            modified_time: e.modified_time.clone(),
            is_valid: e.is_valid,
        }
    }

    /// Stores a summary under a name: the pair goes to the back of the
    /// cache, and when the cache is full the entry that has sat there
    /// longest — the front — is evicted first.
    pub fn insert(&mut self, name: &str, info: FileInfo)
        requires
            old(self).inv(),
        ensures
            final(self).inv(),
            final(self).capacity_spec() == old(self).capacity_spec(),
            old(self).capacity_spec() == 0 ==> final(self).entries_spec() == old(
                self,
            ).entries_spec(),
            old(self).capacity_spec() > 0 ==> {
                let kept = if old(self).entries_spec().len() >= old(self).capacity_spec() {
                    old(self).entries_spec().skip(1)
                } else {
                    old(self).entries_spec()
                };
                &&& final(self).entries_spec().len() == kept.len() + 1
                &&& final(self).entries_spec().drop_last() == kept
                &&& final(self).entries_spec().last().0@ == name@
                &&& final(self).entries_spec().last().1 == info
            },
            old(self).capacity_spec() > 0 ==> cache_has(final(self).entries_spec(), name@),
    {
        if self.capacity == 0 {
            return ;
        }
        let ghost before = self.entries@;
        if self.entries.len() >= self.capacity {
            self.entries.remove(0);
            proof {
                assert(self.entries@ =~= before.skip(1));
            }
        }
        let ghost kept = self.entries@;
        self.entries.push((String::from_str(name), info));
        proof {
            let es = self.entries@;
            assert(es[es.len() - 1].0@ == name@);
            assert(es.drop_last() =~= kept);
        }
    }

    /// Empties the cache; the counters keep running.
    pub fn clear(&mut self)
        ensures
            final(self).inv(),
            final(self).entries_spec().len() == 0,
            final(self).capacity_spec() == old(self).capacity_spec(),
    {
        self.entries.clear();
    }

    /// The hit and miss counters and fill level.
    pub fn get_cache_stats(&self) -> (r: CacheStats)
        ensures
            r.entries == self.entries_spec().len(),
            r.capacity == self.capacity_spec(),
    {
        CacheStats {
            hits: self.hits,
            misses: self.misses,
            entries: self.entries.len(),
            capacity: self.capacity,
        }
    }
}

} // verus!
