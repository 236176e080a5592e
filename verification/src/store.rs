//! The persistent store, modeled at its interface: scanned files, cached
//! file vectors, reference identifiers, and matches.
//!
//! Matches and reference identifiers are written through import sessions
//! that buffer their operations and apply them atomically on `commit`;
//! dropping a session discards its operations, so no partial write is ever
//! visible. A cached vector is keyed by file id and guarded by a
//! fingerprint; a lookup with a different fingerprint misses, which forces
//! re-encoding when a file's identity changes.

use vstd::prelude::*;
use std::collections::HashMap;
use crate::text::str_eq;

verus! {

broadcast use vstd::std_specs::hash::group_hash_axioms;

/// One scanned file: its store id, full path, and bare name.
#[derive(Debug, Clone)]
pub struct FileRecord {
    pub id: i64,
    pub file_path: String,
    pub file_name: String,
}

/// One stored match: a reference identifier, a file id, and a similarity in
/// parts per million.
#[derive(Debug, Clone)]
pub struct MatchRow {
    pub hh_id: String,
    pub file_id: i64,
    pub similarity: u32,
}

/// One cached search hit, as handed back to a caller.
#[derive(Debug, Clone)]
pub struct SearchResult {
    pub file_name: String,
    pub file_path: String,
    pub similarity_score: u32,
}

/// Whether a match row carries the given identifier and file id.
pub open spec fn row_matches(r: MatchRow, hh: Seq<char>, file_id: i64) -> bool {
    r.hh_id@ == hh && r.file_id == file_id
}

/// The first index of a row with the given key, or -1 when there is none.
pub open spec fn match_index_of(rows: Seq<MatchRow>, hh: Seq<char>, file_id: i64) -> int
    decreases rows.len(),
{
    if rows.len() == 0 {
        -1
    } else if row_matches(rows[0], hh, file_id) {
        0
    } else {
        let r = match_index_of(rows.drop_first(), hh, file_id);
        if r < 0 {
            -1
        } else {
            r + 1
        }
    }
}

/// Whether some string in the sequence has the given characters.
pub open spec fn contains_str(strs: Seq<String>, s: Seq<char>) -> bool {
    exists|i: int| 0 <= i < strs.len() && strs[i]@ == s
}

/// Whether some file in the sequence has the given id.
pub open spec fn has_file_id(files: Seq<FileRecord>, id: i64) -> bool {
    exists|i: int| 0 <= i < files.len() && files[i].id == id
}

/// The first index of a file with the given path, or -1 when there is
/// none.
pub open spec fn path_index_of(files: Seq<FileRecord>, path: Seq<char>) -> int
    decreases files.len(),
{
    if files.len() == 0 {
        -1
    } else if files[0].file_path@ == path {
        0
    } else {
        let r = path_index_of(files.drop_first(), path);
        if r < 0 {
            -1
        } else {
            r + 1
        }
    }
}

/// The id of the first file with the given path; meaningful only when one
/// exists.
pub open spec fn spec_file_id_of(files: Seq<FileRecord>, path: Seq<char>) -> i64 {
    files[path_index_of(files, path)].id
}

/// A first-match scan pins down `path_index_of`.
pub proof fn lemma_path_index_found(files: Seq<FileRecord>, path: Seq<char>, i: int)
    requires
        0 <= i < files.len(),
        files[i].file_path@ == path,
        forall|k: int| 0 <= k < i ==> files[k].file_path@ != path,
    ensures
        path_index_of(files, path) == i,
    decreases i,
{
    if i == 0 {
    } else {
        let rest = files.drop_first();
        assert(forall|k: int| 0 <= k < i - 1 ==> rest[k] == files[k + 1]);
        assert(rest[i - 1] == files[i]);
        lemma_path_index_found(rest, path, i - 1);
    }
}

/// A scan that finds no such path pins `path_index_of` to -1.
pub proof fn lemma_path_index_none(files: Seq<FileRecord>, path: Seq<char>)
    requires
        forall|k: int| 0 <= k < files.len() ==> files[k].file_path@ != path,
    ensures
        path_index_of(files, path) == -1,
    decreases files.len(),
{
    if files.len() == 0 {
    } else {
        let rest = files.drop_first();
        assert(forall|k: int| 0 <= k < rest.len() ==> rest[k] == files[k + 1]);
        lemma_path_index_none(rest, path);
    }
}

/// The rows with one identifier's matches removed.
pub open spec fn without_id(rows: Seq<MatchRow>, hh: Seq<char>) -> Seq<MatchRow> {
    rows.filter(|r: MatchRow| r.hh_id@ != hh)
}

/// The rows with the matches of every listed identifier removed.
pub open spec fn without_ids(rows: Seq<MatchRow>, ids: Seq<String>) -> Seq<MatchRow> {
    rows.filter(|r: MatchRow| !contains_str(ids, r.hh_id@))
}

/// The rows after upserting one match: the first row with the same key gets
/// the new similarity, or a new row is appended.
pub open spec fn upsert_row(rows: Seq<MatchRow>, add: MatchRow) -> Seq<MatchRow> {
    let j = match_index_of(rows, add.hh_id@, add.file_id);
    if j >= 0 {
        rows.update(j, add)
    } else {
        rows.push(add)
    }
}

/// The rows after upserting a sequence of matches in order.
pub open spec fn apply_upserts(rows: Seq<MatchRow>, adds: Seq<MatchRow>) -> Seq<MatchRow>
    decreases adds.len(),
{
    if adds.len() == 0 {
        rows
    } else {
        apply_upserts(upsert_row(rows, adds[0]), adds.drop_first())
    }
}

/// The in-memory store. One engine instance owns it for the duration of a
/// matching run; a surrounding application mirrors it to durable storage.
pub struct Store {
    files: Vec<FileRecord>,
    vectors: HashMap<i64, (u64, Vec<u64>)>,
    matches: Vec<MatchRow>,
    reference_ids: Vec<String>,
}

impl Store {
    /// The live file records, in insertion order.
    pub closed spec fn spec_files(&self) -> Seq<FileRecord> {
        self.files@
    }

    /// The cached vector entry for a file id: its fingerprint and counts.
    pub closed spec fn spec_vector(&self, id: i64) -> Option<(u64, Seq<u64>)> {
        if self.vectors@.contains_key(id) {
            Some((self.vectors@[id].0, self.vectors@[id].1@))
        } else {
            None
        }
    }

    /// The stored match rows.
    pub closed spec fn spec_matches(&self) -> Seq<MatchRow> {
        self.matches@
    }

    /// The stored reference identifiers.
    pub closed spec fn spec_reference_ids(&self) -> Seq<String> {
        self.reference_ids@
    }

    /// An empty store.
    pub fn new() -> (r: Store)
        ensures
            r.spec_files() == Seq::<FileRecord>::empty(),
            r.spec_matches() == Seq::<MatchRow>::empty(),
            r.spec_reference_ids() == Seq::<String>::empty(),
            forall|id: i64| r.spec_vector(id) is None,
    {
        let r = Store {
            files: Vec::new(),
            vectors: HashMap::new(),
            matches: Vec::new(),
            reference_ids: Vec::new(),
        };
        proof {
            assert(forall|id: i64| !r.vectors@.contains_key(id));
        }
        r
    }

    /// Upsert a file record by id: an existing record with this id gets the
    /// new path and name, otherwise a record is appended. Returns the index
    /// of the record.
    pub fn add_file(&mut self, id: i64, path: &str, name: &str) -> (j: usize)
        ensures
            final(self).spec_matches() == old(self).spec_matches(),
            final(self).spec_reference_ids() == old(self).spec_reference_ids(),
            forall|x: i64| final(self).spec_vector(x) == old(self).spec_vector(x),
            has_file_id(old(self).spec_files(), id)
                ==> final(self).spec_files().len() == old(self).spec_files().len(),
            !has_file_id(old(self).spec_files(), id)
                ==> final(self).spec_files().len() == old(self).spec_files().len() + 1,
            j < final(self).spec_files().len(),
            final(self).spec_files()[j as int].id == id,
            final(self).spec_files()[j as int].file_path@ == path@,
            final(self).spec_files()[j as int].file_name@ == name@,
            forall|k: int|
                0 <= k < old(self).spec_files().len() && k != j
                    ==> final(self).spec_files()[k] == old(self).spec_files()[k],
            has_file_id(final(self).spec_files(), id),
    {
        let n = self.files.len();
        let mut i: usize = 0;
        while i < n
            invariant
                n == self.files@.len(),
                0 <= i <= n,
                forall|k: int| 0 <= k < i ==> self.files@[k].id != id,
                *self == *old(self),
            decreases n - i,
        {
            if self.files[i].id == id {
                let rec = FileRecord {
                    id,
                    file_path: path.to_owned(),
                    file_name: name.to_owned(),
                };
                assert(old(self).spec_files()[i as int].id == id);
                assert(has_file_id(old(self).spec_files(), id));
                self.files.set(i, rec);
                assert(self.files@[i as int].id == id);
                assert(has_file_id(self.files@, id));
                return i;
            }
            i = i + 1;
        }
        assert(!has_file_id(self.files@, id));
        let rec = FileRecord { id, file_path: path.to_owned(), file_name: name.to_owned() };
        self.files.push(rec);
        assert(self.files@[n as int].id == id);
        assert(has_file_id(self.files@, id));
        n
    }

    /// All live files, in the store's own order — the order records were
    /// first added. A durable mirror that loads its rows name-ordered
    /// therefore hands them back name-ordered; nothing here depends on
    /// either order.
    pub fn get_all_files(&self) -> (r: &Vec<FileRecord>)
        ensures
            r@ == self.spec_files(),
    {
        &self.files
    }

    /// How many files are live.
    pub fn get_file_count(&self) -> (r: usize)
        ensures
            r == self.spec_files().len(),
    {
        self.files.len()
    }

    /// The id of the first file with the given path, if any.
    pub fn get_file_id(&self, file_path: &str) -> (r: Option<i64>)
        ensures
            match r {
                Some(id) => {
                    &&& exists|i: int|
                        0 <= i < self.spec_files().len() && self.spec_files()[i].file_path@
                            == file_path@ && self.spec_files()[i].id == id
                    &&& path_index_of(self.spec_files(), file_path@) >= 0
                    &&& id == spec_file_id_of(self.spec_files(), file_path@)
                },
                None => {
                    &&& forall|i: int|
                        0 <= i < self.spec_files().len() ==> self.spec_files()[i].file_path@
                            != file_path@
                    &&& path_index_of(self.spec_files(), file_path@) == -1
                },
            },
    {
        let n = self.files.len();
        let mut i: usize = 0;
        while i < n
            invariant
                n == self.files@.len(),
                0 <= i <= n,
                forall|k: int| 0 <= k < i ==> self.files@[k].file_path@ != file_path@,
            decreases n - i,
        {
            if str_eq(self.files[i].file_path.as_str(), file_path) {
                proof {
                    assert(self.spec_files()[i as int].file_path@ == file_path@);
                    lemma_path_index_found(self.spec_files(), file_path@, i as int);
                }
                return Some(self.files[i].id);
            }
            i = i + 1;
        }
        proof {
            lemma_path_index_none(self.spec_files(), file_path@);
        }
        None
    }

    /// Remove every file and every match.
    pub fn clear_files(&mut self)
        ensures
            final(self).spec_files() == Seq::<FileRecord>::empty(),
            final(self).spec_matches() == Seq::<MatchRow>::empty(),
            final(self).spec_reference_ids() == old(self).spec_reference_ids(),
            forall|x: i64| final(self).spec_vector(x) == old(self).spec_vector(x),
    {
        self.files = Vec::new();
        self.matches = Vec::new();
    }

    /// The cached counts for a file, provided the stored fingerprint equals
    /// the given one; a changed fingerprint misses, forcing re-encoding.
    pub fn get_file_vector(&self, file_id: i64, fingerprint: u64) -> (r: Option<Vec<u64>>)
        ensures
            match r {
                Some(v) => self.spec_vector(file_id) == Some((fingerprint, v@)),
                None => match self.spec_vector(file_id) {
                    Some(e) => e.0 != fingerprint,
                    None => true,
                },
            },
    {
        match self.vectors.get(&file_id) {
            Some(entry) => {
                if entry.0 == fingerprint {
                    Some(copy_counts(&entry.1))
                } else {
                    None
                }
            },
            None => None,
        }
    }

    /// Store (or replace) the cached counts for a file under a fingerprint.
    pub fn upsert_file_vector(&mut self, file_id: i64, fingerprint: u64, counts: &Vec<u64>)
        ensures
            final(self).spec_vector(file_id) == Some((fingerprint, counts@)),
            forall|x: i64| x != file_id ==> final(self).spec_vector(x) == old(self).spec_vector(x),
            final(self).spec_files() == old(self).spec_files(),
            final(self).spec_matches() == old(self).spec_matches(),
            final(self).spec_reference_ids() == old(self).spec_reference_ids(),
    {
        let c = copy_counts(counts);
        self.vectors.insert(file_id, (fingerprint, c));
    }

    /// Drop every cached vector whose file id is no longer live.
    pub fn cleanup_orphan_vectors(&mut self)
        ensures
            forall|x: i64|
                final(self).spec_vector(x) == if has_file_id(old(self).spec_files(), x) {
                    old(self).spec_vector(x)
                } else {
                    None::<(u64, Seq<u64>)>
                },
            final(self).spec_files() == old(self).spec_files(),
            final(self).spec_matches() == old(self).spec_matches(),
            final(self).spec_reference_ids() == old(self).spec_reference_ids(),
    {
        let mut kept: HashMap<i64, (u64, Vec<u64>)> = HashMap::new();
        let n = self.files.len();
        let mut i: usize = 0;
        while i < n
            invariant
                n == self.files@.len(),
                0 <= i <= n,
                *self == *old(self),
                forall|x: i64|
                    (exists|k: int| 0 <= k < i && self.files@[k].id == x) ==> #[trigger] kept@.contains_key(
                        x,
                    ) == self.vectors@.contains_key(x),
                forall|x: i64| #[trigger]
                    kept@.contains_key(x) ==> (exists|k: int| 0 <= k < i && self.files@[k].id == x)
                        && self.vectors@.contains_key(x) && kept@[x].0 == self.vectors@[x].0
                        && kept@[x].1@ == self.vectors@[x].1@,
            decreases n - i,
        {
            let id = self.files[i].id;
            if !kept.contains_key(&id) {
                match self.vectors.get(&id) {
                    Some(entry) => {
                        let e = (entry.0, copy_counts(&entry.1));
                        proof {
                            assert(e.1@ == self.vectors@[id].1@);
                        }
                        kept.insert(id, e);
                    },
                    None => {},
                }
            }
            i = i + 1;
        }
        self.vectors = kept;
    }

    /// Begin a buffered match import. Nothing is visible in the store until
    /// `commit`.
    pub fn start_match_import(&self) -> (r: MatchImportSession)
        ensures
            !r.spec_wipe_all(),
            r.spec_wipe_ids() == Seq::<String>::empty(),
            r.spec_additions() == Seq::<MatchRow>::empty(),
    {
        MatchImportSession { wipe_all: false, wipe_ids: Vec::new(), additions: Vec::new() }
    }

    /// Begin a buffered reference-identifier import. The session sees the
    /// identifiers already stored, so it can tell a fresh identifier from a
    /// repeated one; nothing is visible in the store until `commit`.
    pub fn start_reference_import(&self) -> (r: ReferenceImportSession)
        ensures
            r.spec_existing() == self.spec_reference_ids(),
            r.spec_pending() == Seq::<String>::empty(),
    {
        let mut existing: Vec<String> = Vec::new();
        let n = self.reference_ids.len();
        let mut i: usize = 0;
        while i < n
            invariant
                n == self.reference_ids@.len(),
                0 <= i <= n,
                existing@ =~= self.reference_ids@.take(i as int),
            decreases n - i,
        {
            existing.push(self.reference_ids[i].clone());
            proof {
                assert(existing@ =~= self.reference_ids@.take(i + 1));
            }
            i = i + 1;
        }
        proof {
            assert(self.reference_ids@.take(n as int) =~= self.reference_ids@);
        }
        ReferenceImportSession { existing, pending: Vec::new() }
    }

    /// All stored reference identifiers.
    pub fn get_all_reference_ids(&self) -> (r: &Vec<String>)
        ensures
            r@ == self.spec_reference_ids(),
    {
        &self.reference_ids
    }

    /// How many reference identifiers are stored.
    pub fn get_reference_id_count(&self) -> (r: usize)
        ensures
            r == self.spec_reference_ids().len(),
    {
        self.reference_ids.len()
    }

    /// Upsert one match directly, outside any session.
    pub fn insert_match(&mut self, hh_id: &str, file_id: i64, similarity: u32)
        ensures
            final(self).spec_matches().len() >= old(self).spec_matches().len(),
            ({
                let j = match_index_of(old(self).spec_matches(), hh_id@, file_id);
                if j >= 0 {
                    &&& final(self).spec_matches().len() == old(self).spec_matches().len()
                    &&& forall|k: int|
                        0 <= k < old(self).spec_matches().len() && k != j
                            ==> final(self).spec_matches()[k] == old(self).spec_matches()[k]
                    &&& row_matches(final(self).spec_matches()[j], hh_id@, file_id)
                    &&& final(self).spec_matches()[j].similarity == similarity
                } else {
                    &&& final(self).spec_matches().len() == old(self).spec_matches().len() + 1
                    &&& forall|k: int|
                        0 <= k < old(self).spec_matches().len() ==> final(self).spec_matches()[k]
                            == old(self).spec_matches()[k]
                    &&& row_matches(
                        final(self).spec_matches().last(),
                        hh_id@,
                        file_id,
                    )
                    &&& final(self).spec_matches().last().similarity == similarity
                }
            }),
            final(self).spec_files() == old(self).spec_files(),
            final(self).spec_reference_ids() == old(self).spec_reference_ids(),
            forall|x: i64| final(self).spec_vector(x) == old(self).spec_vector(x),
    {
        let row = MatchRow { hh_id: hh_id.to_owned(), file_id, similarity };
        let found = find_match_index(&self.matches, hh_id, file_id);
        match found {
            Some(i) => {
                proof {
                    lemma_match_index_found(self.matches@, hh_id@, file_id, i as int);
                }
                self.matches.set(i, row);
            },
            None => {
                proof {
                    lemma_match_index_none(self.matches@, hh_id@, file_id);
                }
                self.matches.push(row);
            },
        }
    }

    /// Remove every match belonging to one identifier.
    pub fn clear_matches_for_id(&mut self, hh_id: &str)
        ensures
            final(self).spec_matches() == without_id(old(self).spec_matches(), hh_id@),
            final(self).spec_files() == old(self).spec_files(),
            final(self).spec_reference_ids() == old(self).spec_reference_ids(),
            forall|x: i64| final(self).spec_vector(x) == old(self).spec_vector(x),
    {
        let n = self.matches.len();
        let mut kept: Vec<MatchRow> = Vec::new();
        let mut i: usize = 0;
        while i < n
            invariant
                n == self.matches@.len(),
                0 <= i <= n,
                *self == *old(self),
                kept@ == self.matches@.take(i as int).filter(|r: MatchRow| r.hh_id@ != hh_id@),
            decreases n - i,
        {
            let r = &self.matches[i];
            proof {
                assert(self.matches@.take(i + 1).drop_last() =~= self.matches@.take(i as int));
                assert(self.matches@.take(i + 1).last() == self.matches@[i as int]);
                reveal(Seq::filter);
            }
            if !str_eq(r.hh_id.as_str(), hh_id) {
                kept.push(clone_row(r));
            }
            i = i + 1;
        }
        proof {
            assert(self.matches@.take(n as int) =~= self.matches@);
        }
        self.matches = kept;
    }

    /// The stored matches, as rows.
    pub fn get_matches(&self) -> (r: &Vec<MatchRow>)
        ensures
            r@ == self.spec_matches(),
    {
        &self.matches
    }
}

/// A buffered match import: wipes and upserts are recorded here and applied
/// to the store only on `commit`; dropping the session discards them.
pub struct MatchImportSession {
    wipe_all: bool,
    wipe_ids: Vec<String>,
    additions: Vec<MatchRow>,
}

impl MatchImportSession {
    /// Whether every prior match will be cleared on commit.
    pub closed spec fn spec_wipe_all(&self) -> bool {
        self.wipe_all
    }

    /// The identifiers whose prior matches will be cleared on commit.
    pub closed spec fn spec_wipe_ids(&self) -> Seq<String> {
        self.wipe_ids@
    }

    /// The matches that will be upserted, in order, on commit.
    pub closed spec fn spec_additions(&self) -> Seq<MatchRow> {
        self.additions@
    }

    /// What the store's match rows become when this session commits over
    /// `rows`.
    pub open spec fn spec_apply(&self, rows: Seq<MatchRow>) -> Seq<MatchRow> {
        let base = if self.spec_wipe_all() {
            Seq::<MatchRow>::empty()
        } else {
            without_ids(rows, self.spec_wipe_ids())
        };
        apply_upserts(base, self.spec_additions())
    }

    /// Record that every prior match is to be cleared.
    pub fn clear_all(&mut self)
        ensures
            final(self).spec_wipe_all(),
            final(self).spec_wipe_ids() == old(self).spec_wipe_ids(),
            final(self).spec_additions() == old(self).spec_additions(),
    {
        self.wipe_all = true;
    }

    /// Record that the prior matches of the given identifiers are to be
    /// cleared, leaving every other identifier's matches untouched.
    pub fn clear_for_ids(&mut self, hh_ids: &Vec<String>)
        ensures
            final(self).spec_wipe_all() == old(self).spec_wipe_all(),
            final(self).spec_wipe_ids() == old(self).spec_wipe_ids() + hh_ids@,
            final(self).spec_additions() == old(self).spec_additions(),
    {
        let n = hh_ids.len();
        let mut i: usize = 0;
        while i < n
            invariant
                n == hh_ids@.len(),
                0 <= i <= n,
                self.wipe_all == old(self).wipe_all,
                self.additions@ == old(self).additions@,
                self.wipe_ids@ =~= old(self).wipe_ids@ + hh_ids@.take(i as int),
            decreases n - i,
        {
            self.wipe_ids.push(hh_ids[i].clone());
            proof {
                assert(self.wipe_ids@ =~= old(self).wipe_ids@ + hh_ids@.take(i + 1));
            }
            i = i + 1;
        }
        proof {
            assert(hh_ids@.take(n as int) =~= hh_ids@);
            assert(self.wipe_ids@ =~= old(self).wipe_ids@ + hh_ids@);
        }
    }

    /// Record one match row to upsert on commit.
    pub fn insert_row(&mut self, row: MatchRow)
        ensures
            final(self).spec_wipe_all() == old(self).spec_wipe_all(),
            final(self).spec_wipe_ids() == old(self).spec_wipe_ids(),
            final(self).spec_additions() == old(self).spec_additions().push(row),
    {
        self.additions.push(row);
    }

    /// Record one match to upsert on commit.
    pub fn insert_match(&mut self, hh_id: &str, file_id: i64, similarity: u32)
        ensures
            final(self).spec_wipe_all() == old(self).spec_wipe_all(),
            final(self).spec_wipe_ids() == old(self).spec_wipe_ids(),
            final(self).spec_additions().len() == old(self).spec_additions().len() + 1,
            final(self).spec_additions().drop_last() == old(self).spec_additions(),
            row_matches(final(self).spec_additions().last(), hh_id@, file_id),
            final(self).spec_additions().last().similarity == similarity,
    {
        let row = MatchRow { hh_id: hh_id.to_owned(), file_id, similarity };
        self.additions.push(row);
        proof {
            assert(self.additions@.drop_last() =~= old(self).additions@);
        }
    }

    /// Apply the recorded wipes and upserts to the store, atomically.
    pub fn commit(self, store: &mut Store)
        ensures
            final(store).spec_matches() == self.spec_apply(old(store).spec_matches()),
            final(store).spec_files() == old(store).spec_files(),
            final(store).spec_reference_ids() == old(store).spec_reference_ids(),
            forall|x: i64| final(store).spec_vector(x) == old(store).spec_vector(x),
    {
        let mut work: Vec<MatchRow>;
        if self.wipe_all {
            work = Vec::new();
        } else {
            work = Vec::new();
            let n = store.matches.len();
            let mut i: usize = 0;
            while i < n
                invariant
                    n == store.matches@.len(),
                    0 <= i <= n,
                    *store == *old(store),
                    work@ == store.matches@.take(i as int).filter(
                        |r: MatchRow| !contains_str(self.wipe_ids@, r.hh_id@),
                    ),
                decreases n - i,
            {
                let r = &store.matches[i];
                proof {
                    assert(store.matches@.take(i + 1).drop_last() =~= store.matches@.take(
                        i as int,
                    ));
                    assert(store.matches@.take(i + 1).last() == store.matches@[i as int]);
                    reveal(Seq::filter);
                }
                if !contains_string(&self.wipe_ids, r.hh_id.as_str()) {
                    work.push(clone_row(r));
                }
                i = i + 1;
            }
            proof {
                assert(store.matches@.take(n as int) =~= store.matches@);
            }
        }
        let base = Ghost(work@);
        let m = self.additions.len();
        let mut j: usize = 0;
        while j < m
            invariant
                m == self.additions@.len(),
                0 <= j <= m,
                work@ == apply_upserts(base@, self.additions@.take(j as int)),
            decreases m - j,
        {
            let add = clone_row(&self.additions[j]);
            let found = find_match_index(&work, add.hh_id.as_str(), add.file_id);
            proof {
                lemma_apply_upserts_step(base@, self.additions@, j as int);
            }
            match found {
                Some(i) => {
                    proof {
                        lemma_match_index_found(work@, add.hh_id@, add.file_id, i as int);
                    }
                    work.set(i, add);
                },
                None => {
                    proof {
                        lemma_match_index_none(work@, add.hh_id@, add.file_id);
                    }
                    work.push(add);
                },
            }
            j = j + 1;
        }
        proof {
            assert(self.additions@.take(m as int) =~= self.additions@);
        }
        store.matches = work;
    }
}

/// A buffered reference-identifier import. It knows the identifiers already
/// stored when it began, so `insert` reports whether an identifier is new;
/// nothing reaches the store until `commit`.
pub struct ReferenceImportSession {
    existing: Vec<String>,
    pending: Vec<String>,
}

impl ReferenceImportSession {
    /// The identifiers the store held when the session began.
    pub closed spec fn spec_existing(&self) -> Seq<String> {
        self.existing@
    }

    /// The fresh identifiers recorded so far, in order.
    pub closed spec fn spec_pending(&self) -> Seq<String> {
        self.pending@
    }

    /// Whether the session already knows an identifier, stored or pending.
    pub open spec fn spec_knows(&self, s: Seq<char>) -> bool {
        contains_str(self.spec_existing(), s) || contains_str(self.spec_pending(), s)
    }

    /// Record an identifier; returns whether it was new. A repeated
    /// identifier is ignored, mirroring insert-or-ignore semantics.
    pub fn insert(&mut self, hh_id: &str) -> (r: bool)
        ensures
            r == !old(self).spec_knows(hh_id@),
            final(self).spec_existing() == old(self).spec_existing(),
            r ==> {
                &&& final(self).spec_pending().len() == old(self).spec_pending().len() + 1
                &&& final(self).spec_pending().drop_last() == old(self).spec_pending()
                &&& final(self).spec_pending().last()@ == hh_id@
            },
            !r ==> final(self).spec_pending() == old(self).spec_pending(),
    {
        if contains_string(&self.existing, hh_id) || contains_string(&self.pending, hh_id) {
            return false;
        }
        self.pending.push(hh_id.to_owned());
        proof {
            assert(self.pending@.drop_last() =~= old(self).pending@);
        }
        true
    }

    /// Append the recorded identifiers to the store, atomically.
    pub fn commit(self, store: &mut Store)
        ensures
            final(store).spec_reference_ids() == old(store).spec_reference_ids()
                + self.spec_pending(),
            final(store).spec_files() == old(store).spec_files(),
            final(store).spec_matches() == old(store).spec_matches(),
            forall|x: i64| final(store).spec_vector(x) == old(store).spec_vector(x),
    {
        let n = self.pending.len();
        let mut i: usize = 0;
        while i < n
            invariant
                n == self.pending@.len(),
                0 <= i <= n,
                store.files@ == old(store).files@,
                store.matches@ == old(store).matches@,
                store.vectors@ == old(store).vectors@,
                store.reference_ids@ =~= old(store).reference_ids@ + self.pending@.take(i as int),
            decreases n - i,
        {
            store.reference_ids.push(self.pending[i].clone());
            proof {
                assert(store.reference_ids@ =~= old(store).reference_ids@ + self.pending@.take(
                    i + 1,
                ));
            }
            i = i + 1;
        }
        proof {
            assert(self.pending@.take(n as int) =~= self.pending@);
        }
    }
}

/// A fresh copy of a counts vector.
pub(crate) fn copy_counts(v: &Vec<u64>) -> (r: Vec<u64>)
    ensures
        r@ == v@,
{
    let mut r: Vec<u64> = Vec::new();
    let n = v.len();
    let mut i: usize = 0;
    while i < n
        invariant
            n == v@.len(),
            0 <= i <= n,
            r@ =~= v@.take(i as int),
        decreases n - i,
    {
        r.push(v[i]);
        proof {
            assert(r@ =~= v@.take(i + 1));
        }
        i = i + 1;
    }
    proof {
        assert(v@.take(n as int) =~= v@);
    }
    r
}

/// A fresh copy of a match row.
pub(crate) fn clone_row(r: &MatchRow) -> (c: MatchRow)
    ensures
        c == *r,
{
    MatchRow { hh_id: r.hh_id.clone(), file_id: r.file_id, similarity: r.similarity }
}

/// Whether the vector holds a string with the given characters.
pub fn contains_string(v: &Vec<String>, s: &str) -> (r: bool)
    ensures
        r == contains_str(v@, s@),
{
    let n = v.len();
    let mut i: usize = 0;
    while i < n
        invariant
            n == v@.len(),
            0 <= i <= n,
            forall|k: int| 0 <= k < i ==> v@[k]@ != s@,
        decreases n - i,
    {
        if str_eq(v[i].as_str(), s) {
            return true;
        }
        i = i + 1;
    }
    false
}

/// The index of the first row with the given key, if any.
fn find_match_index(rows: &Vec<MatchRow>, hh_id: &str, file_id: i64) -> (r: Option<usize>)
    ensures
        match r {
            Some(i) => 0 <= i < rows@.len() && row_matches(rows@[i as int], hh_id@, file_id)
                && forall|k: int| 0 <= k < i ==> !row_matches(rows@[k], hh_id@, file_id),
            None => forall|k: int| 0 <= k < rows@.len() ==> !row_matches(rows@[k], hh_id@, file_id),
        },
{
    let n = rows.len();
    let mut i: usize = 0;
    while i < n
        invariant
            n == rows@.len(),
            0 <= i <= n,
            forall|k: int| 0 <= k < i ==> !row_matches(rows@[k], hh_id@, file_id),
        decreases n - i,
    {
        let r = &rows[i];
        if r.file_id == file_id && str_eq(r.hh_id.as_str(), hh_id) {
            return Some(i);
        }
        i = i + 1;
    }
    None
}

/// A first-match scan pins down `match_index_of`.
proof fn lemma_match_index_found(rows: Seq<MatchRow>, hh: Seq<char>, file_id: i64, i: int)
    requires
        0 <= i < rows.len(),
        row_matches(rows[i], hh, file_id),
        forall|k: int| 0 <= k < i ==> !row_matches(rows[k], hh, file_id),
    ensures
        match_index_of(rows, hh, file_id) == i,
    decreases i,
{
    if i == 0 {
    } else {
        assert(!row_matches(rows[0], hh, file_id));
        let rest = rows.drop_first();
        assert(rest[i - 1] == rows[i]);
        assert(forall|k: int| 0 <= k < i - 1 ==> rest[k] == rows[k + 1]);
        lemma_match_index_found(rest, hh, file_id, i - 1);
    }
}

/// A scan that finds nothing pins `match_index_of` to -1.
proof fn lemma_match_index_none(rows: Seq<MatchRow>, hh: Seq<char>, file_id: i64)
    requires
        forall|k: int| 0 <= k < rows.len() ==> !row_matches(rows[k], hh, file_id),
    ensures
        match_index_of(rows, hh, file_id) == -1,
    decreases rows.len(),
{
    if rows.len() == 0 {
    } else {
        let rest = rows.drop_first();
        assert(forall|k: int| 0 <= k < rest.len() ==> rest[k] == rows[k + 1]);
        lemma_match_index_none(rest, hh, file_id);
    }
}

/// Unrolling `apply_upserts` one step at position `j`.
proof fn lemma_apply_upserts_step(base: Seq<MatchRow>, adds: Seq<MatchRow>, j: int)
    requires
        0 <= j < adds.len(),
    ensures
        apply_upserts(base, adds.take(j + 1)) == upsert_row(
            apply_upserts(base, adds.take(j)),
            adds[j],
        ),
    decreases j,
{
    let pre = adds.take(j + 1);
    if j == 0 {
        assert(pre.len() == 1);
        assert(pre[0] == adds[0]);
        assert(pre.drop_first() =~= Seq::<MatchRow>::empty());
        assert(adds.take(0) =~= Seq::<MatchRow>::empty());
        assert(apply_upserts(base, pre) == apply_upserts(
            upsert_row(base, adds[0]),
            pre.drop_first(),
        ));
        assert(apply_upserts(upsert_row(base, adds[0]), pre.drop_first()) == upsert_row(
            base,
            adds[0],
        ));
        assert(apply_upserts(base, adds.take(0)) == base);
    } else {
        assert(pre[0] == adds[0]);
        assert(pre.drop_first() =~= adds.drop_first().take(j));
        assert(adds.take(j)[0] == adds[0]);
        assert(adds.take(j).drop_first() =~= adds.drop_first().take(j - 1));
        assert(adds.drop_first()[j - 1] == adds[j]);
        lemma_apply_upserts_step(upsert_row(base, adds[0]), adds.drop_first(), j - 1);
        assert(apply_upserts(base, pre) == apply_upserts(upsert_row(base, adds[0]), pre.drop_first()));
        assert(apply_upserts(base, adds.take(j)) == apply_upserts(
            upsert_row(base, adds[0]),
            adds.take(j).drop_first(),
        ));
    }
}

} // verus!
