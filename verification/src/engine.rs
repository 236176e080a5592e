//! The two match engines behind one interface, and the device engine's
//! caching, tiling and backpressure orchestration.
//!
//! The CPU engine delegates to the fuzzy matcher core. The device engine
//! validates its per-file vector cache against fingerprints, re-encoding
//! only what changed, keeps a tag for the device-resident file matrix so a
//! stale matrix is never reused, plans tiles over the identifier × file
//! cross product, and retires them in submission order under a bounded
//! inflight limit. Whatever scores a device hands back, the matches kept
//! are exactly the pairs whose score reaches the threshold.

use vstd::prelude::*;
use std::collections::HashMap;
use vstd::arithmetic::div_mod::{
    lemma_div_is_ordered,
    lemma_fundamental_div_mod,
    lemma_fundamental_div_mod_converse,
    lemma_mod_bound,
};
use vstd::arithmetic::mul::lemma_mul_inequality;
use vstd::string::StrSliceExecFns;
use vstd::utf8::encode_utf8;
use crate::matcher::{rows_are_hits, spec_all_hits, Matcher};
use crate::progress::ProgressSink;
use crate::store::{apply_upserts, has_file_id, FileRecord, MatchRow, Store};
use crate::vectorizer::{spec_encode, Vectorizer};
use crate::tiling::{
    plan_covers,
    plan_disjoint,
    plan_tiles,
    tile_in_bounds,
    SchedulerStep,
    Tile,
    TileScheduler,
};

verus! {

broadcast use vstd::std_specs::hash::group_hash_axioms;

/// Which engine does the matching.
#[derive(Debug, Clone, Copy, PartialEq, Eq, Structural)]
pub enum MatchEngineKind {
    Cpu,
    Gpu,
}

/// The engine interface a caller selects and retries against: both engines
/// match identifiers against the stored files and persist the results.
pub trait MatchEngine {
    fn kind(&self) -> MatchEngineKind;

    fn match_and_store<P: ProgressSink>(
        &mut self,
        hh_ids: &Vec<String>,
        store: &mut Store,
        min_similarity: u32,
        progress: &mut P,
    ) -> Result<usize, String>;
}

/// The CPU engine: parallel-friendly fuzzy scoring with a full reset of
/// stored matches per run.
pub struct CpuMatchEngine {
    matcher: Matcher,
}

impl CpuMatchEngine {
    pub fn new() -> (r: CpuMatchEngine) {
        CpuMatchEngine { matcher: Matcher::new() }
    }
}

impl MatchEngine for CpuMatchEngine {
    fn kind(&self) -> (r: MatchEngineKind)
        ensures
            r == MatchEngineKind::Cpu,
    {
        MatchEngineKind::Cpu
    }

    fn match_and_store<P: ProgressSink>(
        &mut self,
        hh_ids: &Vec<String>,
        store: &mut Store,
        min_similarity: u32,
        progress: &mut P,
    ) -> (r: Result<usize, String>)
        ensures
            hh_ids@.len() == 0 ==> r == Ok::<usize, String>(0) && *final(store) == *old(store),
            hh_ids@.len() > 0 ==> {
                &&& (r is Err <==> old(store).spec_files().len() == 0)
                &&& (r is Err ==> final(store).spec_matches() == old(store).spec_matches())
                &&& (r matches Ok(n) ==> {
                    let hits = spec_all_hits(
                        hh_ids@,
                        old(store).spec_files(),
                        min_similarity as int,
                    );
                    &&& n == hits.len()
                    &&& exists|rows: Seq<MatchRow>|
                        rows_are_hits(rows, hits) && final(store).spec_matches() == apply_upserts(
                            Seq::<MatchRow>::empty(),
                            rows,
                        )
                })
                &&& final(store).spec_files() == old(store).spec_files()
                &&& final(store).spec_reference_ids() == old(store).spec_reference_ids()
                &&& forall|x: i64| final(store).spec_vector(x) == old(store).spec_vector(x)
            },
    {
        let total_ids = hh_ids.len();
        progress.report(0, total_ids);
        if total_ids == 0 {
            return Ok(0);
        }
        self.matcher.match_and_store(hh_ids, store, min_similarity, progress)
    }
}

/// One step of the 64-bit byte hash behind fingerprints.
pub open spec fn fnv_step(h: u64, b: u8) -> u64 {
    (h ^ b as u64).wrapping_mul(0x100000001b3u64)
}

/// The byte hash folded over a sequence from the left.
pub open spec fn spec_fnv(s: Seq<u8>, h: u64) -> u64
    decreases s.len(),
{
    if s.len() == 0 {
        h
    } else {
        spec_fnv(s.drop_first(), fnv_step(h, s.first()))
    }
}

/// The eight little-endian bytes of a file id.
pub open spec fn spec_id_bytes(id: i64) -> Seq<u8> {
    let x = id as u64;
    seq![
        (x & 0xff) as u8,
        ((x >> 8) & 0xff) as u8,
        ((x >> 16) & 0xff) as u8,
        ((x >> 24) & 0xff) as u8,
        ((x >> 32) & 0xff) as u8,
        ((x >> 40) & 0xff) as u8,
        ((x >> 48) & 0xff) as u8,
        ((x >> 56) & 0xff) as u8,
    ]
}

/// The fingerprint of a file's identity: a 64-bit hash over its id bytes
/// and its name's UTF-8 bytes. A changed name changes the fingerprint and
/// so invalidates any cached vector stored under the old one.
pub open spec fn spec_fingerprint(id: i64, name: Seq<char>) -> u64 {
    spec_fnv(encode_utf8(name), spec_fnv(spec_id_bytes(id), 0xcbf29ce484222325u64))
}

/// Fold the byte hash over a byte vector.
fn fnv_bytes(bytes: &Vec<u8>, h0: u64) -> (r: u64)
    ensures
        r == spec_fnv(bytes@, h0),
{
    let mut h = h0;
    let n = bytes.len();
    let mut i: usize = 0;
    proof {
        assert(bytes@.skip(0) =~= bytes@);
    }
    while i < n
        invariant
            n == bytes@.len(),
            0 <= i <= n,
            spec_fnv(bytes@.skip(i as int), h) == spec_fnv(bytes@, h0),
        decreases n - i,
    {
        proof {
            assert(bytes@.skip(i as int).first() == bytes@[i as int]);
            assert(bytes@.skip(i as int).drop_first() =~= bytes@.skip(i + 1));
        }
        h = (h ^ bytes[i] as u64).wrapping_mul(0x100000001b3u64);
        i = i + 1;
    }
    proof {
        assert(bytes@.skip(n as int) =~= Seq::<u8>::empty());
    }
    h
}

/// The fingerprint of a (file id, file name) pair.
pub fn fingerprint_entry(id: i64, name: &str) -> (r: u64)
    ensures
        r == spec_fingerprint(id, name@),
{
    let x = id as u64;
    let mut idb: Vec<u8> = Vec::new();
    idb.push((x & 0xff) as u8);
    idb.push(((x >> 8) & 0xff) as u8);
    idb.push(((x >> 16) & 0xff) as u8);
    idb.push(((x >> 24) & 0xff) as u8);
    idb.push(((x >> 32) & 0xff) as u8);
    idb.push(((x >> 40) & 0xff) as u8);
    idb.push(((x >> 48) & 0xff) as u8);
    idb.push(((x >> 56) & 0xff) as u8);
    proof {
        assert(idb@ =~= spec_id_bytes(id));
    }
    let h1 = fnv_bytes(&idb, 0xcbf29ce484222325u64);
    let nb = name.as_bytes_vec();
    fnv_bytes(&nb, h1)
}

/// The tag of a device file matrix: the file count and an
/// order-independent combination of every file's fingerprint. The matrix
/// is reusable only while this tag matches the live file set.
pub open spec fn spec_buffer_tag(files: Seq<FileRecord>) -> u64
    decreases files.len(),
{
    if files.len() == 0 {
        0u64
    } else {
        spec_buffer_tag(files.drop_last()) ^ spec_fingerprint(
            files.last().id,
            files.last().file_name@,
        )
    }
}

/// Saturating addition on machine sizes.
pub open spec fn spec_sat_add(a: int, b: int) -> int {
    if a + b > usize::MAX {
        usize::MAX as int
    } else {
        a + b
    }
}

/// Saturating multiplication on machine sizes.
pub open spec fn spec_sat_mul(a: int, b: int) -> int {
    if a * b > usize::MAX {
        usize::MAX as int
    } else {
        a * b
    }
}

fn sat_add(a: usize, b: usize) -> (r: usize)
    ensures
        r as int == spec_sat_add(a as int, b as int),
{
    if a > usize::MAX - b {
        usize::MAX
    } else {
        a + b
    }
}

fn sat_mul(a: usize, b: usize) -> (r: usize)
    ensures
        r as int == spec_sat_mul(a as int, b as int),
{
    if b == 0 {
        return 0;
    }
    let q = usize::MAX / b;
    proof {
        lemma_fundamental_div_mod(usize::MAX as int, b as int);
        lemma_mod_bound(usize::MAX as int, b as int);
        if a as int <= q as int {
            lemma_mul_inequality(a as int, q as int, b as int);
        } else {
            lemma_mul_inequality(q as int + 1, a as int, b as int);
            assert((q as int + 1) * b as int == q as int * b as int + b as int)
                by (nonlinear_arith);
        }
    }
    if a > q {
        usize::MAX
    } else {
        a * b
    }
}

/// How far a run has progressed, measured in completed (identifier × file)
/// cells and re-projected onto identifier granularity for the caller.
pub struct ProgressTracker {
    total_queries: usize,
    total_work: usize,
    completed_work: usize,
    total_tiles: usize,
    completed_tiles: usize,
}

/// The identifier count a tracker reports for a given amount of completed
/// work: the ceiling of the completed fraction of identifiers, capped at
/// the total; everything counts as done when there is no work at all.
pub open spec fn spec_mapped_progress(completed_work: int, total_work: int, total_queries: int) -> int {
    if total_work == 0 {
        total_queries
    } else {
        let m = (completed_work * total_queries + total_work - 1) / total_work;
        if m > total_queries {
            total_queries
        } else {
            m
        }
    }
}

impl ProgressTracker {
    pub closed spec fn spec_total_queries(&self) -> int {
        self.total_queries as int
    }

    pub closed spec fn spec_total_work(&self) -> int {
        self.total_work as int
    }

    pub closed spec fn spec_completed_work(&self) -> int {
        self.completed_work as int
    }

    pub closed spec fn spec_total_tiles(&self) -> int {
        self.total_tiles as int
    }

    pub closed spec fn spec_completed_tiles(&self) -> int {
        self.completed_tiles as int
    }

    /// A tracker for a run over the whole cross product.
    pub fn new(total_queries: usize, total_files: usize) -> (r: ProgressTracker)
        ensures
            r.spec_total_queries() == total_queries as int,
            r.spec_total_work() == spec_sat_mul(total_queries as int, total_files as int),
            r.spec_completed_work() == 0,
            r.spec_total_tiles() == 0,
            r.spec_completed_tiles() == 0,
    {
        ProgressTracker {
            total_queries,
            total_work: sat_mul(total_queries, total_files),
            completed_work: 0,
            total_tiles: 0,
            completed_tiles: 0,
        }
    }

    /// Count one planned tile.
    pub fn register_tile(&mut self)
        ensures
            final(self).spec_total_tiles() == spec_sat_add(old(self).spec_total_tiles(), 1),
            final(self).spec_completed_tiles() == old(self).spec_completed_tiles(),
            final(self).spec_completed_work() == old(self).spec_completed_work(),
            final(self).spec_total_work() == old(self).spec_total_work(),
            final(self).spec_total_queries() == old(self).spec_total_queries(),
    {
        self.total_tiles = sat_add(self.total_tiles, 1);
    }

    /// Count one completed tile of the given extent.
    pub fn tile_complete(&mut self, query_count: usize, file_count: usize)
        ensures
            final(self).spec_completed_tiles() == spec_sat_add(
                old(self).spec_completed_tiles(),
                1,
            ),
            final(self).spec_completed_work() == spec_sat_add(
                old(self).spec_completed_work(),
                spec_sat_mul(query_count as int, file_count as int),
            ),
            final(self).spec_total_tiles() == old(self).spec_total_tiles(),
            final(self).spec_total_work() == old(self).spec_total_work(),
            final(self).spec_total_queries() == old(self).spec_total_queries(),
    {
        self.completed_tiles = sat_add(self.completed_tiles, 1);
        self.completed_work = sat_add(self.completed_work, sat_mul(query_count, file_count));
    }

    /// Mark the run complete: all work counts as done.
    pub fn finish(&mut self)
        ensures
            final(self).spec_completed_work() == old(self).spec_total_work(),
            final(self).spec_total_work() == old(self).spec_total_work(),
            final(self).spec_total_queries() == old(self).spec_total_queries(),
            final(self).spec_total_tiles() == old(self).spec_total_tiles(),
            final(self).spec_completed_tiles() == old(self).spec_completed_tiles(),
    {
        self.completed_work = self.total_work;
    }

    /// Every counter is a machine size; with these bounds in hand, any two
    /// of a tracker's states can be related through
    /// `lemma_progress_monotonic`.
    pub proof fn lemma_counter_bounds(&self)
        ensures
            0 <= self.spec_completed_work() <= usize::MAX,
            0 <= self.spec_total_work() <= usize::MAX,
            0 <= self.spec_total_queries() <= usize::MAX,
            0 <= self.spec_total_tiles() <= usize::MAX,
            0 <= self.spec_completed_tiles() <= usize::MAX,
    {
    }

    /// The (completed, total) pair to hand a progress sink, in identifier
    /// units.
    pub fn emit(&self) -> (r: (usize, usize))
        ensures
            r.0 as int == spec_mapped_progress(
                self.spec_completed_work(),
                self.spec_total_work(),
                self.spec_total_queries(),
            ),
            r.1 as int == self.spec_total_queries(),
            r.0 <= r.1,
    {
        if self.total_work == 0 {
            return (self.total_queries, self.total_queries);
        }
        proof {
            assert(0 <= self.completed_work as int * self.total_queries as int <= u128::MAX
                - 0xffff_ffff_ffff_ffffu64 as int) by (nonlinear_arith)
                requires
                    0 <= self.completed_work as int <= 0xffff_ffff_ffff_ffffu64 as int,
                    0 <= self.total_queries as int <= 0xffff_ffff_ffff_ffffu64 as int,
            ;
        }
        let num: u128 = self.completed_work as u128 * self.total_queries as u128
            + self.total_work as u128 - 1;
        let m: u128 = num / (self.total_work as u128);
        if m > self.total_queries as u128 {
            (self.total_queries, self.total_queries)
        } else {
            (m as usize, self.total_queries)
        }
    }
}

/// Whether a counts vector is the encoding of a name.
pub open spec fn counts_match(v: Seq<u64>, name: Seq<char>) -> bool {
    v.len() == 512 && forall|j: int| 0 <= j < 512 ==> v[j] as int == spec_encode(name)[j]
}

/// The name of the first file carrying an id.
pub open spec fn first_name_of(files: Seq<FileRecord>, id: i64) -> Seq<char>
    decreases files.len(),
{
    if files.len() == 0 {
        Seq::empty()
    } else if files.first().id == id {
        files.first().file_name@
    } else {
        first_name_of(files.drop_first(), id)
    }
}

/// Whether a cached entry — in memory or in the store — carries the given
/// fingerprint, and so may be reused.
pub open spec fn entry_valid(e: Option<(u64, Seq<u64>)>, fp: u64) -> bool {
    e matches Some(x) && x.0 == fp
}

/// What the engine cache holds for a live file after validation: the old
/// in-memory entry when its fingerprint still matches, else the store's
/// entry when its fingerprint matches, else a fresh encoding of the file's
/// name — a stale fingerprint is recomputed, never reused.
pub open spec fn cache_entry_ok(
    old_cache: Option<(u64, Seq<u64>)>,
    old_store: Option<(u64, Seq<u64>)>,
    fp: u64,
    name: Seq<char>,
    v: Seq<u64>,
) -> bool {
    if entry_valid(old_cache, fp) {
        v == old_cache.unwrap().1
    } else if entry_valid(old_store, fp) {
        v == old_store.unwrap().1
    } else {
        counts_match(v, name)
    }
}

/// What the store holds for a live file after validation: untouched when
/// the in-memory cache or the store itself held a fingerprint-valid entry,
/// else upserted with the fresh encoding under the current fingerprint.
pub open spec fn store_entry_ok(
    old_cache: Option<(u64, Seq<u64>)>,
    old_store: Option<(u64, Seq<u64>)>,
    fp: u64,
    name: Seq<char>,
    se: Option<(u64, Seq<u64>)>,
) -> bool {
    if entry_valid(old_cache, fp) || entry_valid(old_store, fp) {
        se == old_store
    } else {
        se matches Some(n) && n.0 == fp && counts_match(n.1, name)
    }
}

/// A first-occurrence scan pins down `first_name_of`.
proof fn lemma_first_name(files: Seq<FileRecord>, id: i64, k: int)
    requires
        0 <= k < files.len(),
        files[k].id == id,
        forall|q: int| 0 <= q < k ==> files[q].id != id,
    ensures
        first_name_of(files, id) == files[k].file_name@,
    decreases k,
{
    if k == 0 {
    } else {
        let rest = files.drop_first();
        assert(forall|q: int| 0 <= q < k - 1 ==> rest[q] == files[q + 1]);
        assert(rest[k - 1] == files[k]);
        lemma_first_name(rest, id, k - 1);
    }
}

/// A fresh copy of a counts vector.
fn clone_counts(v: &Vec<u64>) -> (r: Vec<u64>)
    ensures
        r@ == v@,
{
    let mut r: Vec<u64> = Vec::new();
    let n = v.len();
    let mut i: usize = 0;
    while i < n
        invariant
            n == v@.len(),
            0 <= i <= n,
            r@ =~= v@.take(i as int),
        decreases n - i,
    {
        r.push(v[i]);
        proof {
            assert(r@ =~= v@.take(i + 1));
        }
        i = i + 1;
    }
    proof {
        assert(v@.take(n as int) =~= v@);
    }
    r
}

/// Append the values of `src` to `dst`.
fn append_counts(dst: &mut Vec<u64>, src: &Vec<u64>)
    ensures
        final(dst)@ == old(dst)@ + src@,
{
    let n = src.len();
    let mut i: usize = 0;
    while i < n
        invariant
            n == src@.len(),
            0 <= i <= n,
            dst@ =~= old(dst)@ + src@.take(i as int),
        decreases n - i,
    {
        dst.push(src[i]);
        proof {
            assert(dst@ =~= old(dst)@ + src@.take(i + 1));
        }
        i = i + 1;
    }
    proof {
        assert(src@.take(n as int) =~= src@);
    }
}

/// Whether one row of a gathered matrix holds a file's cached counts — or
/// a fresh encoding of its name where the cache entry is missing or
/// malformed.
pub open spec fn row_value_ok(cached: Option<Seq<u64>>, name: Seq<char>, row: Seq<u64>) -> bool {
    match cached {
        Some(v) => if v.len() == 512 {
            row == v
        } else {
            counts_match(row, name)
        },
        None => counts_match(row, name),
    }
}

/// The device match engine's host side: configuration, the per-file vector
/// cache, and the device matrix tag.
pub struct GpuMatchEngine {
    vectorizer: Vectorizer,
    chunk_size: usize,
    file_chunk_size: usize,
    inflight_limit: usize,
    file_vectors: HashMap<i64, (u64, Vec<u64>)>,
    buffer_tag: Option<(usize, u64)>,
}

impl GpuMatchEngine {
    /// The cached entry for a file id: its fingerprint and counts.
    pub closed spec fn spec_cache_entry(&self, id: i64) -> Option<(u64, Seq<u64>)> {
        if self.file_vectors@.contains_key(id) {
            Some((self.file_vectors@[id].0, self.file_vectors@[id].1@))
        } else {
            None
        }
    }

    /// The cached counts for a file id.
    pub open spec fn spec_cached(&self, id: i64) -> Option<Seq<u64>> {
        match self.spec_cache_entry(id) {
            Some(e) => Some(e.1),
            None => None,
        }
    }

    /// The tag of the currently uploaded device matrix, if any.
    pub closed spec fn spec_tag(&self) -> Option<(usize, u64)> {
        self.buffer_tag
    }

    pub closed spec fn spec_chunk_size(&self) -> int {
        self.chunk_size as int
    }

    pub closed spec fn spec_file_chunk_size(&self) -> int {
        self.file_chunk_size as int
    }

    pub closed spec fn spec_inflight_limit(&self) -> int {
        self.inflight_limit as int
    }

    /// An engine with the given chunking configuration; the inflight limit
    /// is floored at one, and no vectors are cached yet.
    pub fn new(chunk_size: usize, file_chunk_size: usize, inflight_limit: usize) -> (r:
        GpuMatchEngine)
        ensures
            r.spec_chunk_size() == chunk_size as int,
            r.spec_file_chunk_size() == file_chunk_size as int,
            r.spec_inflight_limit() == if inflight_limit < 1 {
                1int
            } else {
                inflight_limit as int
            },
            forall|x: i64| r.spec_cache_entry(x) is None,
            r.spec_tag() is None,
    {
        let limit: usize = if inflight_limit < 1 {
            1
        } else {
            inflight_limit
        };
        let r = GpuMatchEngine {
            vectorizer: Vectorizer::new(),
            chunk_size,
            file_chunk_size,
            inflight_limit: limit,
            file_vectors: HashMap::new(),
            buffer_tag: None,
        };
        proof {
            assert(forall|x: i64| !r.file_vectors@.contains_key(x));
        }
        r
    }

    /// Validate the vector cache against the live files: for every live
    /// file its fingerprint is computed; entries for gone files are
    /// dropped; an in-memory entry is reused only when its fingerprint
    /// matches, else a fingerprint-valid store entry is adopted, and only
    /// otherwise is the name re-encoded and the new pair persisted. Every
    /// entry left in the cache carries the file's current fingerprint.
    pub fn prepare_cache(&mut self, files: &Vec<FileRecord>, store: &mut Store)
        ensures
            forall|x: i64|
                !has_file_id(files@, x) ==> final(self).spec_cache_entry(x) is None
                    && final(store).spec_vector(x) == old(store).spec_vector(x),
            forall|x: i64| #[trigger]
                has_file_id(files@, x) ==> {
                    let name = first_name_of(files@, x);
                    let fp = spec_fingerprint(x, name);
                    &&& final(self).spec_cache_entry(x) matches Some(e) && e.0 == fp
                        && cache_entry_ok(
                        old(self).spec_cache_entry(x),
                        old(store).spec_vector(x),
                        fp,
                        name,
                        e.1,
                    )
                    &&& store_entry_ok(
                        old(self).spec_cache_entry(x),
                        old(store).spec_vector(x),
                        fp,
                        name,
                        final(store).spec_vector(x),
                    )
                },
            final(store).spec_files() == old(store).spec_files(),
            final(store).spec_matches() == old(store).spec_matches(),
            final(store).spec_reference_ids() == old(store).spec_reference_ids(),
            final(self).spec_tag() == old(self).spec_tag(),
            final(self).spec_chunk_size() == old(self).spec_chunk_size(),
            final(self).spec_file_chunk_size() == old(self).spec_file_chunk_size(),
            final(self).spec_inflight_limit() == old(self).spec_inflight_limit(),
    {
        let mut fresh: HashMap<i64, (u64, Vec<u64>)> = HashMap::new();
        let n = files.len();
        let mut i: usize = 0;
        proof {
            assert(forall|x: i64| !fresh@.contains_key(x));
        }
        while i < n
            invariant
                n == files@.len(),
                0 <= i <= n,
                self.file_vectors@ == old(self).file_vectors@,
                self.buffer_tag == old(self).buffer_tag,
                self.chunk_size == old(self).chunk_size,
                self.file_chunk_size == old(self).file_chunk_size,
                self.inflight_limit == old(self).inflight_limit,
                self.vectorizer == old(self).vectorizer,
                store.spec_files() == old(store).spec_files(),
                store.spec_matches() == old(store).spec_matches(),
                store.spec_reference_ids() == old(store).spec_reference_ids(),
                forall|x: i64| #[trigger]
                    fresh@.contains_key(x) == exists|k: int|
                        0 <= k < i && files@[k].id == x,
                forall|x: i64| #[trigger]
                    fresh@.contains_key(x) ==> {
                        let name = first_name_of(files@, x);
                        let fp = spec_fingerprint(x, name);
                        &&& fresh@[x].0 == fp
                        &&& cache_entry_ok(
                            old(self).spec_cache_entry(x),
                            old(store).spec_vector(x),
                            fp,
                            name,
                            fresh@[x].1@,
                        )
                        &&& store_entry_ok(
                            old(self).spec_cache_entry(x),
                            old(store).spec_vector(x),
                            fp,
                            name,
                            store.spec_vector(x),
                        )
                    },
                forall|x: i64|
                    !(#[trigger] fresh@.contains_key(x)) ==> store.spec_vector(x)
                        == old(store).spec_vector(x),
            decreases n - i,
        {
            let id = files[i].id;
            if !fresh.contains_key(&id) {
                proof {
                    assert(forall|q: int| 0 <= q < i ==> files@[q].id != id);
                    lemma_first_name(files@, id, i as int);
                }
                let name = &files[i].file_name;
                let fp = fingerprint_entry(id, name.as_str());
                let cached = match self.file_vectors.get(&id) {
                    Some(e) => if e.0 == fp {
                        Some(clone_counts(&e.1))
                    } else {
                        None
                    },
                    None => None,
                };
                match cached {
                    Some(v) => {
                        fresh.insert(id, (fp, v));
                    },
                    None => {
                        match store.get_file_vector(id, fp) {
                            Some(v) => {
                                fresh.insert(id, (fp, v));
                            },
                            None => {
                                let encoded = self.vectorizer.encode(name.as_str());
                                store.upsert_file_vector(id, fp, &encoded);
                                fresh.insert(id, (fp, encoded));
                            },
                        }
                    },
                }
            }
            i = i + 1;
        }
        self.file_vectors = fresh;
        proof {
            assert forall|x: i64| has_file_id(files@, x) implies #[trigger] self.file_vectors@.contains_key(
                x,
            ) by {
                let k = choose|k: int| 0 <= k < files@.len() && files@[k].id == x;
                assert(0 <= k < n && files@[k].id == x);
            }
        }
    }

    /// The host-side matrix of all live files' counts, in file order: one
    /// row of 512 counts per file, from the cache where present.
    pub fn gather_cached_vectors(&self, files: &Vec<FileRecord>) -> (r: Vec<u64>)
        ensures
            r@.len() == files@.len() * 512,
            forall|k: int|
                0 <= k < files@.len() ==> row_value_ok(
                    self.spec_cached((#[trigger] files@[k]).id),
                    files@[k].file_name@,
                    r@.subrange(k * 512, k * 512 + 512),
                ),
    {
        let mut data: Vec<u64> = Vec::new();
        let n = files.len();
        let mut i: usize = 0;
        while i < n
            invariant
                n == files@.len(),
                0 <= i <= n,
                data@.len() == i * 512,
                forall|k: int|
                    0 <= k < i ==> row_value_ok(
                        self.spec_cached((#[trigger] files@[k]).id),
                        files@[k].file_name@,
                        data@.subrange(k * 512, k * 512 + 512),
                    ),
            decreases n - i,
        {
            let ghost before = data@;
            let id = files[i].id;
            let entry = self.file_vectors.get(&id);
            let ghost cached = self.spec_cached(id);
            let mut row: Vec<u64>;
            match entry {
                Some(e) => {
                    if e.1.len() == 512 {
                        row = clone_counts(&e.1);
                    } else {
                        row = self.vectorizer.encode(files[i].file_name.as_str());
                    }
                },
                None => {
                    row = self.vectorizer.encode(files[i].file_name.as_str());
                },
            }
            proof {
                assert(row_value_ok(cached, files@[i as int].file_name@, row@));
            }
            let ghost rv = row@;
            append_counts(&mut data, &row);
            proof {
                assert(data@.len() == i * 512 + 512);
                assert forall|k: int|
                    0 <= k < i + 1 implies row_value_ok(
                    self.spec_cached((#[trigger] files@[k]).id),
                    files@[k].file_name@,
                    data@.subrange(k * 512, k * 512 + 512),
                ) by {
                    if k < i {
                        assert(data@.subrange(k * 512, k * 512 + 512) =~= before.subrange(
                            k * 512,
                            k * 512 + 512,
                        ));
                    } else {
                        assert(data@.subrange(k * 512, k * 512 + 512) =~= rv);
                    }
                }
            }
            i = i + 1;
        }
        data
    }

    /// The encoded block of a run of identifiers, in order: one row of 512
    /// counts per identifier.
    pub fn encode_ids(&self, ids: &Vec<String>) -> (r: Vec<u64>)
        ensures
            r@.len() == ids@.len() * 512,
            forall|k: int|
                0 <= k < ids@.len() ==> counts_match(
                    r@.subrange(k * 512, k * 512 + 512),
                    (#[trigger] ids@[k])@,
                ),
    {
        let mut data: Vec<u64> = Vec::new();
        let n = ids.len();
        let mut i: usize = 0;
        while i < n
            invariant
                n == ids@.len(),
                0 <= i <= n,
                data@.len() == i * 512,
                forall|k: int|
                    0 <= k < i ==> counts_match(
                        data@.subrange(k * 512, k * 512 + 512),
                        (#[trigger] ids@[k])@,
                    ),
            decreases n - i,
        {
            let ghost before = data@;
            let encoded = self.vectorizer.encode(ids[i].as_str());
            let ghost rv = encoded@;
            append_counts(&mut data, &encoded);
            proof {
                assert forall|k: int|
                    0 <= k < i + 1 implies counts_match(
                    data@.subrange(k * 512, k * 512 + 512),
                    (#[trigger] ids@[k])@,
                ) by {
                    if k < i {
                        assert(data@.subrange(k * 512, k * 512 + 512) =~= before.subrange(
                            k * 512,
                            k * 512 + 512,
                        ));
                    } else {
                        assert(data@.subrange(k * 512, k * 512 + 512) =~= rv);
                    }
                }
            }
            i = i + 1;
        }
        data
    }

    /// Decide whether the uploaded device matrix can be reused: only when
    /// its tag equals the live file set's count and fingerprint. The tag is
    /// set to the live set's in any case, so a caller that rebuilds on
    /// `false` keeps the matrix tag truthful.
    pub fn buffer_decision(&mut self, files: &Vec<FileRecord>) -> (reuse: bool)
        ensures
            reuse == (old(self).spec_tag() matches Some(t) && t.0 == files@.len() && t.1
                == spec_buffer_tag(files@)),
            final(self).spec_tag() matches Some(t) && t.0 == files@.len() && t.1
                == spec_buffer_tag(files@),
            forall|x: i64| final(self).spec_cache_entry(x) == old(self).spec_cache_entry(x),
            final(self).spec_chunk_size() == old(self).spec_chunk_size(),
            final(self).spec_file_chunk_size() == old(self).spec_file_chunk_size(),
            final(self).spec_inflight_limit() == old(self).spec_inflight_limit(),
    {
        let n = files.len();
        let mut h: u64 = 0;
        let mut i: usize = 0;
        while i < n
            invariant
                n == files@.len(),
                0 <= i <= n,
                h == spec_buffer_tag(files@.take(i as int)),
            decreases n - i,
        {
            let fp = fingerprint_entry(files[i].id, files[i].file_name.as_str());
            proof {
                assert(files@.take(i + 1).drop_last() =~= files@.take(i as int));
                assert(files@.take(i + 1).last() == files@[i as int]);
            }
            h = h ^ fp;
            i = i + 1;
        }
        proof {
            assert(files@.take(n as int) =~= files@);
        }
        let reuse = match self.buffer_tag {
            Some(t) => t.0 == n && t.1 == h,
            None => false,
        };
        self.buffer_tag = Some((n, h));
        reuse
    }
}

/// The rows one tile contributes after its first `n` cells, walked in
/// row-major order, have been filtered against the threshold: each cell is
/// one (identifier, file) pair, kept exactly when its score reaches the
/// threshold.
pub open spec fn spec_tile_rows(
    ids: Seq<String>,
    files: Seq<FileRecord>,
    t: Tile,
    scores: Seq<u32>,
    threshold: int,
    n: int,
) -> Seq<MatchRow>
    decreases n,
{
    if n <= 0 {
        Seq::empty()
    } else {
        let prev = spec_tile_rows(ids, files, t, scores, threshold, n - 1);
        let k = n - 1;
        let q = k / (t.file_len as int);
        let f = k % (t.file_len as int);
        if scores[k] as int >= threshold {
            prev.push(
                MatchRow {
                    hh_id: ids[t.id_start + q],
                    file_id: files[t.file_start + f].id,
                    similarity: scores[k],
                },
            )
        } else {
            prev
        }
    }
}

/// One matching run of the device engine, driven from outside: the driver
/// asks `next_step` what to do, dispatches submitted tiles to a device,
/// hands each tile's scores back through `drain_tile` in submission order,
/// and commits with `finish`. Whatever scores come back, the rows kept are
/// exactly the cells at or above the threshold.
pub struct GpuRun {
    hh_ids: Vec<String>,
    files: Vec<FileRecord>,
    min_similarity: u32,
    scheduler: TileScheduler,
    tracker: ProgressTracker,
    collected: Vec<MatchRow>,
}

impl GpuRun {
    /// The identifiers of this run.
    pub closed spec fn spec_ids(&self) -> Seq<String> {
        self.hh_ids@
    }

    /// The files of this run, as they stood when the run began.
    pub closed spec fn spec_files(&self) -> Seq<FileRecord> {
        self.files@
    }

    /// The similarity threshold, in parts per million.
    pub closed spec fn spec_threshold(&self) -> int {
        self.min_similarity as int
    }

    /// The scheduler state.
    pub closed spec fn spec_sched(&self) -> TileScheduler {
        self.scheduler
    }

    /// The tile plan.
    pub open spec fn spec_plan(&self) -> Seq<Tile> {
        self.spec_sched().spec_tiles()
    }

    /// The tracker state.
    pub closed spec fn spec_tracker(&self) -> ProgressTracker {
        self.tracker
    }

    /// The rows collected from drained tiles so far.
    pub closed spec fn spec_collected(&self) -> Seq<MatchRow> {
        self.collected@
    }

    /// The run's invariant: the scheduler is sound and every planned tile
    /// stays within the identifier and file counts.
    pub open spec fn wf(&self) -> bool {
        &&& self.spec_sched().wf()
        &&& forall|k: int|
            0 <= k < self.spec_plan().len() ==> tile_in_bounds(
                #[trigger] self.spec_plan()[k],
                self.spec_ids().len() as int,
                self.spec_files().len() as int,
            )
    }

    /// The tile the next drain resolves.
    pub open spec fn spec_next_drain_tile(&self) -> Tile {
        self.spec_plan()[self.spec_sched().spec_drained()]
    }

    /// What to do next: submit, drain, or stop.
    pub fn next_step(&self) -> (r: SchedulerStep)
        requires
            self.wf(),
        ensures
            r == if self.spec_sched().spec_submitted() < self.spec_plan().len()
                && self.spec_sched().spec_pending() < self.spec_sched().spec_limit() {
                SchedulerStep::Submit(self.spec_plan()[self.spec_sched().spec_submitted()])
            } else if self.spec_sched().spec_drained() < self.spec_sched().spec_submitted() {
                SchedulerStep::Drain
            } else {
                SchedulerStep::Done
            },
            r is Done ==> self.spec_sched().spec_submitted() == self.spec_plan().len()
                && self.spec_sched().spec_pending() == 0,
    {
        self.scheduler.next_step()
    }

    /// Record that the driver dispatched the next planned tile.
    pub fn note_submitted(&mut self)
        requires
            old(self).wf(),
            old(self).spec_sched().spec_submitted() < old(self).spec_plan().len(),
            old(self).spec_sched().spec_pending() < old(self).spec_sched().spec_limit(),
        ensures
            final(self).wf(),
            final(self).spec_ids() == old(self).spec_ids(),
            final(self).spec_files() == old(self).spec_files(),
            final(self).spec_threshold() == old(self).spec_threshold(),
            final(self).spec_collected() == old(self).spec_collected(),
            final(self).spec_plan() == old(self).spec_plan(),
            final(self).spec_sched().spec_submitted() == old(self).spec_sched().spec_submitted()
                + 1,
            final(self).spec_sched().spec_drained() == old(self).spec_sched().spec_drained(),
            final(self).spec_sched().spec_limit() == old(self).spec_sched().spec_limit(),
    {
        self.scheduler.note_submitted();
        self.tracker.register_tile();
    }

    /// The progress pair to hand a sink, in identifier units.
    pub fn progress(&self) -> (r: (usize, usize))
        ensures
            r.0 <= r.1,
            r.1 as int == self.spec_tracker().spec_total_queries(),
    {
        self.tracker.emit()
    }

    /// Resolve the oldest pending tile with the scores a device handed
    /// back: keep exactly the cells at or above the threshold, in row-major
    /// order, and report progress.
    pub fn drain_tile(&mut self, scores: &Vec<u32>) -> (prog: (usize, usize))
        requires
            old(self).wf(),
            old(self).spec_sched().spec_drained() < old(self).spec_sched().spec_submitted(),
            scores@.len() == old(self).spec_next_drain_tile().id_len * old(
                self,
            ).spec_next_drain_tile().file_len,
        ensures
            final(self).wf(),
            final(self).spec_ids() == old(self).spec_ids(),
            final(self).spec_files() == old(self).spec_files(),
            final(self).spec_threshold() == old(self).spec_threshold(),
            final(self).spec_plan() == old(self).spec_plan(),
            final(self).spec_sched().spec_submitted() == old(self).spec_sched().spec_submitted(),
            final(self).spec_sched().spec_drained() == old(self).spec_sched().spec_drained() + 1,
            final(self).spec_sched().spec_limit() == old(self).spec_sched().spec_limit(),
            final(self).spec_sched().spec_pending() < final(self).spec_sched().spec_limit(),
            final(self).spec_collected() == old(self).spec_collected() + spec_tile_rows(
                old(self).spec_ids(),
                old(self).spec_files(),
                old(self).spec_next_drain_tile(),
                scores@,
                old(self).spec_threshold(),
                old(self).spec_next_drain_tile().id_len * old(self).spec_next_drain_tile().file_len,
            ),
            prog.0 <= prog.1,
            prog.1 as int == final(self).spec_tracker().spec_total_queries(),
    {
        let di = self.scheduler.next_drain_index();
        let t = self.scheduler.tile_at(di);
        let ghost ids = self.hh_ids@;
        let ghost fls = self.files@;
        let ghost thr = self.min_similarity as int;
        let ghost base = self.collected@;
        let fl = t.file_len;
        let il = t.id_len;
        let sl = scores.len();
        let nids = self.hh_ids.len();
        let nf = self.files.len();
        proof {
            assert(tile_in_bounds(t, ids.len() as int, fls.len() as int));
        }
        let mut q: usize = 0;
        while q < il
            invariant
                il == t.id_len,
                fl == t.file_len,
                fl >= 1,
                t.id_start + il <= self.hh_ids@.len(),
                t.file_start + fl <= self.files@.len(),
                nids == self.hh_ids@.len(),
                nf == self.files@.len(),
                0 <= q <= il,
                ids == self.hh_ids@,
                fls == self.files@,
                thr == self.min_similarity as int,
                scores@.len() == il * fl,
                sl == scores@.len(),
                self.scheduler == old(self).scheduler,
                self.tracker == old(self).tracker,
                self.collected@ == base + spec_tile_rows(ids, fls, t, scores@, thr, q * fl),
            decreases il - q,
        {
            let mut f: usize = 0;
            while f < fl
                invariant
                    il == t.id_len,
                    fl == t.file_len,
                    fl >= 1,
                    q < il,
                    t.id_start + il <= self.hh_ids@.len(),
                    t.file_start + fl <= self.files@.len(),
                    nids == self.hh_ids@.len(),
                    nf == self.files@.len(),
                    0 <= f <= fl,
                    ids == self.hh_ids@,
                    fls == self.files@,
                    thr == self.min_similarity as int,
                    scores@.len() == il * fl,
                    sl == scores@.len(),
                    self.scheduler == old(self).scheduler,
                    self.tracker == old(self).tracker,
                    self.collected@ == base + spec_tile_rows(
                        ids,
                        fls,
                        t,
                        scores@,
                        thr,
                        q * fl + f,
                    ),
                decreases fl - f,
            {
                proof {
                    assert(q * fl + f < il * fl) by (nonlinear_arith)
                        requires
                            0 <= q < il,
                            0 <= f < fl,
                    ;
                    assert(q * fl + fl <= il * fl) by (nonlinear_arith)
                        requires
                            0 <= q < il,
                            0 < fl,
                    ;
                }
                let sc = scores[q * fl + f];
                let ghost k = q * fl + f;
                proof {
                    lemma_fundamental_div_mod_converse(
                        k as int,
                        fl as int,
                        q as int,
                        f as int,
                    );
                }
                if sc >= self.min_similarity {
                    let gq = t.id_start + q;
                    let gf = t.file_start + f;
                    let row = MatchRow {
                        hh_id: self.hh_ids[gq].clone(),
                        file_id: self.files[gf].id,
                        similarity: sc,
                    };
                    proof {
                        assert(row == MatchRow {
                            hh_id: ids[t.id_start + q as int],
                            file_id: fls[t.file_start + f as int].id,
                            similarity: sc,
                        });
                    }
                    self.collected.push(row);
                }
                f = f + 1;
            }
            proof {
                assert((q + 1) as int * fl as int == q as int * fl as int + fl as int)
                    by (nonlinear_arith);
            }
            q = q + 1;
        }
        proof {
            assert(self.collected@ == base + spec_tile_rows(
                ids,
                fls,
                t,
                scores@,
                thr,
                il as int * fl as int,
            ));
        }
        self.scheduler.note_drained();
        self.tracker.tile_complete(il, fl);
        self.tracker.emit()
    }

    /// Commit the run: clear the prior matches of exactly this run's
    /// identifiers, upsert every collected row in order, and report how
    /// many rows were stored. Matches of other identifiers are untouched.
    pub fn finish(self, store: &mut Store) -> (r: Result<usize, String>)
        requires
            self.wf(),
            self.spec_sched().spec_submitted() == self.spec_plan().len(),
            self.spec_sched().spec_pending() == 0,
        ensures
            r is Ok,
            r matches Ok(n) ==> n == self.spec_collected().len(),
            final(store).spec_matches() == crate::store::apply_upserts(
                crate::store::without_ids(old(store).spec_matches(), self.spec_ids()),
                self.spec_collected(),
            ),
            final(store).spec_files() == old(store).spec_files(),
            final(store).spec_reference_ids() == old(store).spec_reference_ids(),
            forall|x: i64| final(store).spec_vector(x) == old(store).spec_vector(x),
    {
        let mut session = store.start_match_import();
        session.clear_for_ids(&self.hh_ids);
        let n = self.collected.len();
        let mut k: usize = 0;
        while k < n
            invariant
                n == self.collected@.len(),
                0 <= k <= n,
                !session.spec_wipe_all(),
                session.spec_wipe_ids() == self.hh_ids@,
                session.spec_additions() =~= self.collected@.take(k as int),
            decreases n - k,
        {
            let row = crate::store::clone_row(&self.collected[k]);
            session.insert_row(row);
            proof {
                assert(session.spec_additions() =~= self.collected@.take(k + 1));
            }
            k = k + 1;
        }
        proof {
            assert(self.collected@.take(n as int) =~= self.collected@);
        }
        session.commit(store);
        Ok(n)
    }
}

/// A fresh copy of a string vector, value for value.
fn copy_strings(v: &Vec<String>) -> (r: Vec<String>)
    ensures
        r@ == v@,
{
    let mut r: Vec<String> = Vec::new();
    let n = v.len();
    let mut i: usize = 0;
    while i < n
        invariant
            n == v@.len(),
            0 <= i <= n,
            r@ =~= v@.take(i as int),
        decreases n - i,
    {
        r.push(v[i].clone());
        proof {
            assert(r@ =~= v@.take(i + 1));
        }
        i = i + 1;
    }
    proof {
        assert(v@.take(n as int) =~= v@);
    }
    r
}

impl GpuMatchEngine {
    /// Begin a matching run: load the live files, refuse an empty file set,
    /// validate the vector cache, and plan the tiles for the identifier ×
    /// file cross product. The plan covers every pair exactly once. With no
    /// identifiers the run is trivially complete and the cache is left
    /// untouched.
    pub fn begin_run(
        &mut self,
        hh_ids: &Vec<String>,
        store: &mut Store,
        min_similarity: u32,
        max_storage: u64,
    ) -> (r: Result<GpuRun, String>)
        ensures
            r is Err <==> old(store).spec_files().len() == 0,
            final(store).spec_files() == old(store).spec_files(),
            final(store).spec_matches() == old(store).spec_matches(),
            final(store).spec_reference_ids() == old(store).spec_reference_ids(),
            r matches Ok(run) ==> {
                &&& run.wf()
                &&& run.spec_ids() == hh_ids@
                &&& run.spec_files() == old(store).spec_files()
                &&& run.spec_threshold() == min_similarity as int
                &&& run.spec_collected() == Seq::<MatchRow>::empty()
                &&& run.spec_sched().spec_submitted() == 0
                &&& run.spec_sched().spec_drained() == 0
                &&& plan_covers(
                    run.spec_plan(),
                    hh_ids@.len() as int,
                    old(store).spec_files().len() as int,
                )
                &&& plan_disjoint(run.spec_plan())
            },
            (r is Err || hh_ids@.len() == 0) ==> forall|x: i64|
                final(store).spec_vector(x) == old(store).spec_vector(x),
            (r is Ok && hh_ids@.len() > 0) ==> forall|x: i64|
                !has_file_id(old(store).spec_files(), x) ==> final(store).spec_vector(x)
                    is None,
            (r is Ok && hh_ids@.len() > 0) ==> forall|x: i64| #[trigger]
                has_file_id(old(store).spec_files(), x) ==> {
                    let name = first_name_of(old(store).spec_files(), x);
                    let fp = spec_fingerprint(x, name);
                    &&& final(self).spec_cache_entry(x) matches Some(e) && e.0 == fp
                        && cache_entry_ok(
                        old(self).spec_cache_entry(x),
                        old(store).spec_vector(x),
                        fp,
                        name,
                        e.1,
                    )
                    &&& store_entry_ok(
                        old(self).spec_cache_entry(x),
                        old(store).spec_vector(x),
                        fp,
                        name,
                        final(store).spec_vector(x),
                    )
                },
            final(self).spec_tag() == old(self).spec_tag(),
            final(self).spec_chunk_size() == old(self).spec_chunk_size(),
            final(self).spec_file_chunk_size() == old(self).spec_file_chunk_size(),
            final(self).spec_inflight_limit() == old(self).spec_inflight_limit(),
    {
        let files = crate::matcher::copy_records(store.get_all_files());
        if files.len() == 0 {
            return Err(String::from_str(
                "No files found in database. Please scan a directory first.",
            ));
        }
        if hh_ids.len() == 0 {
            let tiles: Vec<Tile> = Vec::new();
            let scheduler = TileScheduler::new(tiles, self.inflight_limit);
            let tracker = ProgressTracker::new(0, files.len());
            let run = GpuRun {
                hh_ids: Vec::new(),
                files,
                min_similarity,
                scheduler,
                tracker,
                collected: Vec::new(),
            };
            return Ok(run);
        }
        store.cleanup_orphan_vectors();
        let ghost cleaned = *store;
        self.prepare_cache(&files, store);
        proof {
            assert forall|x: i64| #[trigger]
                has_file_id(old(store).spec_files(), x) implies cleaned.spec_vector(x) == old(
                store,
            ).spec_vector(x) by {}
        }
        let tiles = plan_tiles(
            hh_ids.len(),
            files.len(),
            self.chunk_size,
            self.file_chunk_size,
            max_storage,
        );
        let scheduler = TileScheduler::new(tiles, self.inflight_limit);
        let tracker = ProgressTracker::new(hh_ids.len(), files.len());
        let run = GpuRun {
            hh_ids: copy_strings(hh_ids),
            files,
            min_similarity,
            scheduler,
            tracker,
            collected: Vec::new(),
        };
        Ok(run)
    }
}

/// Reported progress never decreases as completed work grows.
pub proof fn lemma_progress_monotonic(w1: int, w2: int, total_work: int, total_queries: int)
    requires
        0 <= w1 <= w2,
        total_work >= 0,
        total_queries >= 0,
    ensures
        spec_mapped_progress(w1, total_work, total_queries) <= spec_mapped_progress(
            w2,
            total_work,
            total_queries,
        ),
{
    if total_work != 0 {
        lemma_mul_inequality(w1, w2, total_queries);
        lemma_div_is_ordered(
            w1 * total_queries + total_work - 1,
            w2 * total_queries + total_work - 1,
            total_work,
        );
    }
}

} // verus!
