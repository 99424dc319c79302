use vstd::prelude::*;

verus! {

/// Name of a job on one CI server.
#[derive(Debug)]
pub struct Name(pub String);

impl View for Name {
    type V = Seq<char>;

    open spec fn view(&self) -> Seq<char> {
        self.0@
    }
}

impl Name {
    /// A new `Name` holding the same text.
    pub fn copy_of(&self) -> (r: Name)
        ensures
            r@ == self@,
    {
        Name(self.0.clone())
    }
}

impl PartialEq for Name {
    fn eq(&self, other: &Name) -> (r: bool)
        ensures
            r == (self@ == other@),
    {
        self.0 == other.0
    }
}

impl vstd::std_specs::cmp::PartialEqSpecImpl for Name {
    open spec fn obeys_eq_spec() -> bool {
        true
    }

    open spec fn eq_spec(&self, other: &Name) -> bool {
        self@ == other@
    }
}

/// Completion time of a build, as assigned by the CI server.
#[derive(Debug, Clone, Copy, PartialEq, Eq, Structural, PartialOrd, Ord, Hash)]
pub struct Timestamp(pub u64);

/// Key of a cache entry: the server, then the job name.
pub type CacheKey = (Seq<char>, Seq<char>);

/// Abstract contents of a cache: the last completed-build timestamp of each
/// `(server, job)` pair observed so far.
pub type CacheModel = Map<CacheKey, u64>;

/// The timestamp stored for `(server, name)`, if any.
pub open spec fn previous(m: CacheModel, server: Seq<char>, name: Seq<char>) -> Option<u64> {
    if m.contains_key((server, name)) {
        Some(m[(server, name)])
    } else {
        None
    }
}

/// The sub-map of one server: job name to timestamp.
pub open spec fn server_jobs(m: CacheModel, server: Seq<char>) -> Map<Seq<char>, u64> {
    Map::new(|n: Seq<char>| m.contains_key((server, n)), |n: Seq<char>| m[(server, n)])
}

/// `m` after keeping, under `server`, only the names in `keep`.
pub open spec fn pruned(m: CacheModel, server: Seq<char>, keep: Set<Seq<char>>) -> CacheModel {
    Map::new(
        |k: CacheKey| m.contains_key(k) && (k.0 != server || keep.contains(k.1)),
        |k: CacheKey| m[k],
    )
}

/// After pruning a server to `keep`, every name left under that server is in
/// `keep`, and every other server's jobs are as before.
pub proof fn lemma_prune_keeps_only(m: CacheModel, server: Seq<char>, keep: Set<Seq<char>>)
    ensures
        forall|n: Seq<char>|
            #[trigger] server_jobs(pruned(m, server, keep), server).contains_key(n) ==> keep.contains(n),
        forall|other: Seq<char>|
            other != server ==> #[trigger] server_jobs(pruned(m, server, keep), other) == server_jobs(m, other),
{
    assert forall|other: Seq<char>| other != server implies #[trigger] server_jobs(
        pruned(m, server, keep),
        other,
    ) == server_jobs(m, other) by {
        assert(server_jobs(pruned(m, server, keep), other) =~= server_jobs(m, other));
    }
}

/// An insertion is seen by the next one: after `(server, name)` is given `t`,
/// the value stored for it is `t`.
pub proof fn lemma_insert_then_previous(m: CacheModel, server: Seq<char>, name: Seq<char>, t: u64)
    ensures
        previous(m.insert((server, name), t), server, name) == Some(t),
{
}

/// Pruning a server twice keeps what both sets keep.
pub proof fn lemma_prune_twice(m: CacheModel, server: Seq<char>, k1: Set<Seq<char>>, k2: Set<Seq<char>>)
    ensures
        pruned(pruned(m, server, k1), server, k2) == pruned(m, server, k1.intersect(k2)),
{
    assert(pruned(pruned(m, server, k1), server, k2) =~= pruned(m, server, k1.intersect(k2)));
}

/// The names held by a list of name references.
pub open spec fn name_set(names: Seq<&Name>) -> Set<Seq<char>> {
    Set::new(|n: Seq<char>| exists|i: int| 0 <= i < names.len() && names[i]@ == n)
}

#[derive(Debug)]
struct CacheEntry {
    server: String,
    name: String,
    timestamp: u64,
}

impl CacheEntry {
    spec fn key(&self) -> CacheKey {
        (self.server@, self.name@)
    }

    fn copy_of(&self) -> (r: CacheEntry)
        ensures
            r.key() == self.key(),
            r.timestamp == self.timestamp,
    {
        CacheEntry { server: self.server.clone(), name: self.name.clone(), timestamp: self.timestamp }
    }
}

/// Last completed-build timestamp per server and job.
pub struct Cache {
    entries: Vec<CacheEntry>,
    model: Ghost<CacheModel>,
}

impl View for Cache {
    type V = CacheModel;

    closed spec fn view(&self) -> CacheModel {
        self.model@
    }
}

spec fn entries_match(entries: Seq<CacheEntry>, m: CacheModel) -> bool {
    &&& forall|i: int, j: int|
        0 <= i < j < entries.len() ==> #[trigger] entries[i].key() != #[trigger] entries[j].key()
    &&& forall|i: int|
        0 <= i < entries.len() ==> m.contains_key(#[trigger] entries[i].key()) && m[entries[i].key()]
            == entries[i].timestamp
    &&& forall|k: CacheKey|
        #[trigger] m.contains_key(k) ==> exists|i: int| 0 <= i < entries.len() && entries[i].key() == k
}

impl Cache {
    /// Each `(server, job)` pair has one entry, and the entries hold exactly the model.
    pub closed spec fn wf(&self) -> bool {
        entries_match(self.entries@, self.model@)
    }

    /// An empty cache.
    pub fn new() -> (r: Cache)
        ensures
            r.wf(),
            r@ == CacheModel::empty(),
    {
        Cache { entries: Vec::new(), model: Ghost(Map::empty()) }
    }

    /// Records `timestamp` for `(server, name)` and returns the value stored before.
    pub fn insert(&mut self, server: &String, name: &Name, timestamp: &Timestamp) -> (r: Option<
        Timestamp,
    >)
        requires
            old(self).wf(),
        ensures
            final(self).wf(),
            final(self)@ == old(self)@.insert((server@, name@), timestamp.0),
            r == (match previous(old(self)@, server@, name@) {
                Some(t) => Some(Timestamp(t)),
                None => None,
            }),
    {
        let ghost key = (server@, name@);
        let mut i: usize = 0;
        while i < self.entries.len()
            invariant
                self.wf(),
                self@ == old(self)@,
                key == (server@, name@),
                0 <= i <= self.entries@.len(),
                forall|j: int| 0 <= j < i ==> #[trigger] self.entries@[j].key() != key,
            decreases self.entries@.len() - i,
        {
            if self.entries[i].server == *server && self.entries[i].name == name.0 {
                let before = self.entries[i].timestamp;
                let entry = CacheEntry {
                    server: server.clone(),
                    name: name.0.clone(),
                    timestamp: timestamp.0,
                };
                let ghost old_entries = self.entries@;
                self.entries.set(i, entry);
                self.model = Ghost(self.model@.insert(key, timestamp.0));
                proof {
                    assert(old_entries[i as int].key() == key);
                    assert forall|k: CacheKey| #[trigger] self.model@.contains_key(k) implies exists|
                        j: int,
                    | 0 <= j < self.entries@.len() && self.entries@[j].key() == k by {
                        if k != key {
                            let j = choose|j: int|
                                0 <= j < old_entries.len() && old_entries[j].key() == k;
                            assert(self.entries@[j].key() == k);
                        } else {
                            assert(self.entries@[i as int].key() == k);
                        }
                    }
                }
                return Some(Timestamp(before));
            }
            i += 1;
        }
        let ghost old_entries = self.entries@;
        let entry = CacheEntry { server: server.clone(), name: name.0.clone(), timestamp: timestamp.0 };
        self.entries.push(entry);
        self.model = Ghost(self.model@.insert(key, timestamp.0));
        proof {
            assert(!old(self)@.contains_key(key)) by {
                if old(self)@.contains_key(key) {
                    let j = choose|j: int| 0 <= j < old_entries.len() && old_entries[j].key() == key;
                    assert(old_entries[j].key() != key);
                }
            }
            let n = old_entries.len() as int;
            assert(self.entries@[n].key() == key);
            assert forall|k: CacheKey| #[trigger] self.model@.contains_key(k) implies exists|j: int|
                0 <= j < self.entries@.len() && self.entries@[j].key() == k by {
                if k != key {
                    let j = choose|j: int| 0 <= j < old_entries.len() && old_entries[j].key() == k;
                    assert(self.entries@[j].key() == k);
                }
            }
        }
        None
    }

    /// Keeps, under `server`, only the entries whose name is in `build_names`;
    /// entries of other servers are untouched.
    pub fn prune_except(&mut self, server: &String, build_names: &Vec<&Name>)
        requires
            old(self).wf(),
        ensures
            final(self).wf(),
            final(self)@ == pruned(old(self)@, server@, name_set(build_names@)),
    {
        let ghost keep = name_set(build_names@);
        let ghost target = pruned(self@, server@, keep);
        let ghost es = self.entries@;
        let mut kept: Vec<CacheEntry> = Vec::new();
        let ghost mut km: CacheModel = Map::empty();
        proof {
            assert(km =~= kept_prefix(target, es, 0));
        }
        let mut i: usize = 0;
        while i < self.entries.len()
            invariant
                self.wf(),
                self.entries@ == es,
                target == pruned(self@, server@, keep),
                keep == name_set(build_names@),
                0 <= i <= es.len(),
                entries_match(kept@, km),
                km == kept_prefix(target, es, i as int),
            decreases es.len() - i,
        {
            let entry = &self.entries[i];
            let ghost e = es[i as int];
            proof {
                assert(self@.contains_key(e.key()));
                lemma_prefix_fresh(target, es, i as int);
            }
            if entry.server != *server || in_build_names(&entry.name, build_names) {
                let ghost old_kept = kept@;
                let copy = entry.copy_of();
                proof {
                    lemma_push(old_kept, km, copy);
                }
                kept.push(copy);
                proof {
                    km = km.insert(e.key(), e.timestamp);
                    assert(km =~= kept_prefix(target, es, i + 1));
                }
            } else {
                proof {
                    assert(km =~= kept_prefix(target, es, i + 1));
                }
            }
            i += 1;
        }
        proof {
            assert forall|k: CacheKey| #[trigger] target.contains_key(k) implies km.contains_key(k) by {
                let j = choose|j: int| 0 <= j < es.len() && es[j].key() == k;
            }
            assert(km =~= target);
        }
        self.entries = kept;
        self.model = Ghost(target);
    }
}

/// The entries of `target` whose key is held by one of the first `i` entries.
spec fn kept_prefix(target: CacheModel, es: Seq<CacheEntry>, i: int) -> CacheModel {
    Map::new(
        |k: CacheKey| target.contains_key(k) && exists|j: int| 0 <= j < i && es[j].key() == k,
        |k: CacheKey| target[k],
    )
}

proof fn lemma_prefix_fresh(target: CacheModel, es: Seq<CacheEntry>, i: int)
    requires
        0 <= i < es.len(),
        forall|a: int, b: int| 0 <= a < b < es.len() ==> #[trigger] es[a].key() != #[trigger] es[b].key(),
    ensures
        !kept_prefix(target, es, i).contains_key(es[i].key()),
{
    if kept_prefix(target, es, i).contains_key(es[i].key()) {
        let j = choose|j: int| 0 <= j < i && es[j].key() == es[i].key();
        assert(es[j].key() != es[i].key());
    }
}

/// Appending an entry whose key is new keeps entries and model in step.
proof fn lemma_push(entries: Seq<CacheEntry>, m: CacheModel, e: CacheEntry)
    requires
        entries_match(entries, m),
        !m.contains_key(e.key()),
    ensures
        entries_match(entries.push(e), m.insert(e.key(), e.timestamp)),
{
    let es = entries.push(e);
    let m2 = m.insert(e.key(), e.timestamp);
    assert forall|i: int| 0 <= i < entries.len() implies #[trigger] entries[i].key() != e.key() by {
        assert(m.contains_key(entries[i].key()));
    }
    assert forall|i: int, j: int| 0 <= i < j < es.len() implies #[trigger] es[i].key() != #[trigger] es[j].key() by {
        if j == entries.len() {
            assert(entries[i].key() != e.key());
        } else {
            assert(es[i] == entries[i] && es[j] == entries[j]);
        }
    }
    assert forall|i: int| 0 <= i < es.len() implies m2.contains_key(#[trigger] es[i].key()) && m2[es[i].key()]
        == es[i].timestamp by {
        if i < entries.len() {
            assert(es[i] == entries[i]);
            assert(m.contains_key(entries[i].key()));
        }
    }
    assert forall|k: CacheKey| #[trigger] m2.contains_key(k) implies exists|i: int| 0 <= i < es.len() && es[i].key() == k by {
        if k == e.key() {
            assert(es[entries.len() as int] == e);
        } else {
            let i = choose|i: int| 0 <= i < entries.len() && entries[i].key() == k;
            assert(es[i] == entries[i]);
        }
    }
}

/// Whether `name` is among `build_names`.
fn in_build_names(name: &String, build_names: &Vec<&Name>) -> (r: bool)
    ensures
        r == name_set(build_names@).contains(name@),
{
    let mut i: usize = 0;
    while i < build_names.len()
        invariant
            0 <= i <= build_names@.len(),
            forall|j: int| 0 <= j < i ==> #[trigger] build_names@[j]@ != name@,
        decreases build_names@.len() - i,
    {
        if build_names[i].0 == *name {
            return true;
        }
        i += 1;
    }
    false
}

} // verus!
