//! Tiling of the identifier × file cross product for device dispatch, and
//! the size checks a tile must pass before it may touch a device buffer.
//!
//! Identifiers are cut into fixed-size chunks; for each chunk an adaptive
//! file-chunk size is derived from the device's storage ceiling, and one
//! tile is planned per (identifier-chunk, file-chunk) pair. The plan covers
//! every (identifier, file) pair exactly once: coverage and pairwise
//! disjointness are both proved. A tile request is validated against the
//! file buffer's bounds and the device's output ceiling before anything is
//! dispatched, so no request ever addresses bytes outside the buffer.

use vstd::prelude::*;

verus! {

/// Bytes one encoded vector occupies on the device: 512 four-byte values.
pub const BYTES_PER_VECTOR: u64 = 2048;

/// One unit of dispatch work: a block of identifiers against a block of
/// files.
#[derive(Debug, Clone, Copy, PartialEq, Eq, Structural)]
pub struct Tile {
    pub id_start: usize,
    pub id_len: usize,
    pub file_start: usize,
    pub file_len: usize,
}

/// Whether a tile covers the (identifier, file) pair.
pub open spec fn tile_contains(t: Tile, q: int, f: int) -> bool {
    t.id_start <= q < t.id_start + t.id_len && t.file_start <= f < t.file_start + t.file_len
}

/// Whether two tiles share no (identifier, file) pair: their identifier
/// ranges or their file ranges are disjoint.
pub open spec fn tiles_disjoint(a: Tile, b: Tile) -> bool {
    a.id_start + a.id_len <= b.id_start || b.id_start + b.id_len <= a.id_start || a.file_start
        + a.file_len <= b.file_start || b.file_start + b.file_len <= a.file_start
}

/// Whether a tile stays within the given identifier and file counts and is
/// non-degenerate.
pub open spec fn tile_in_bounds(t: Tile, n_ids: int, n_files: int) -> bool {
    t.id_len >= 1 && t.file_len >= 1 && t.id_start + t.id_len <= n_ids && t.file_start
        + t.file_len <= n_files
}

/// Whether some tile of the plan covers the pair.
pub open spec fn pair_covered(tiles: Seq<Tile>, q: int, f: int) -> bool {
    exists|k: int| 0 <= k < tiles.len() && tile_contains(#[trigger] tiles[k], q, f)
}

/// Whether some tile at or after index `p` covers the pair.
pub open spec fn band_covered(tiles: Seq<Tile>, p: int, q: int, f: int) -> bool {
    exists|k: int| p <= k < tiles.len() && tile_contains(#[trigger] tiles[k], q, f)
}

/// Whether a plan covers every pair of the cross product at least once.
pub open spec fn plan_covers(tiles: Seq<Tile>, n_ids: int, n_files: int) -> bool {
    forall|q: int, f: int|
        0 <= q < n_ids && 0 <= f < n_files ==> #[trigger] pair_covered(tiles, q, f)
}

/// Whether no pair is covered twice.
pub open spec fn plan_disjoint(tiles: Seq<Tile>) -> bool {
    forall|i: int, j: int|
        0 <= i < j < tiles.len() ==> tiles_disjoint(#[trigger] tiles[i], #[trigger] tiles[j])
}

/// The adaptive file-chunk size for one identifier chunk: the configured
/// size, but no more files than fit the storage ceiling per vector, and no
/// more than keep the output block under the ceiling; at least one.
pub open spec fn spec_file_chunk_size_for(
    configured: int,
    query_count: int,
    max_storage: int,
) -> int {
    let base = if configured < 1 {
        1int
    } else {
        configured
    };
    if query_count == 0 {
        base
    } else {
        let ms = if max_storage < BYTES_PER_VECTOR as int {
            BYTES_PER_VECTOR as int
        } else {
            max_storage
        };
        let file_limit = ms / (BYTES_PER_VECTOR as int);
        let output_limit = ms / (query_count * 4);
        let smaller = if file_limit < output_limit {
            file_limit
        } else {
            output_limit
        };
        let adaptive = if smaller < 1 {
            1int
        } else {
            smaller
        };
        if adaptive < base {
            adaptive
        } else {
            base
        }
    }
}

/// Compute the adaptive file-chunk size for one identifier chunk.
pub fn file_chunk_size_for(configured: usize, query_count: usize, max_storage: u64) -> (r: usize)
    ensures
        r as int == spec_file_chunk_size_for(
            configured as int,
            query_count as int,
            max_storage as int,
        ),
        r >= 1,
{
    let base: usize = if configured < 1 {
        1
    } else {
        configured
    };
    if query_count == 0 {
        return base;
    }
    let ms: u128 = if max_storage < BYTES_PER_VECTOR {
        BYTES_PER_VECTOR as u128
    } else {
        max_storage as u128
    };
    let file_limit: u128 = ms / (BYTES_PER_VECTOR as u128);
    let output_limit: u128 = ms / (query_count as u128 * 4);
    let smaller: u128 = if file_limit < output_limit {
        file_limit
    } else {
        output_limit
    };
    let adaptive: u128 = if smaller < 1 {
        1
    } else {
        smaller
    };
    if adaptive < base as u128 {
        adaptive as usize
    } else {
        base
    }
}

/// Plan the tiles of one identifier chunk across all files, in file order.
/// Each tile spans the whole chunk and at most `file_chunk` files.
fn plan_band(
    tiles: &mut Vec<Tile>,
    id_start: usize,
    id_len: usize,
    n_files: usize,
    file_chunk: usize,
)
    requires
        id_len >= 1,
        file_chunk >= 1,
        id_start + id_len <= usize::MAX,
    ensures
        final(tiles)@.len() >= old(tiles)@.len(),
        final(tiles)@.take(old(tiles)@.len() as int) == old(tiles)@,
        forall|k: int|
            old(tiles)@.len() <= k < final(tiles)@.len() ==> {
                let t = #[trigger] final(tiles)@[k];
                &&& t.id_start == id_start
                &&& t.id_len == id_len
                &&& t.file_len >= 1
                &&& t.file_start + t.file_len <= n_files
            },
        forall|k1: int, k2: int|
            old(tiles)@.len() <= k1 < k2 < final(tiles)@.len() ==> final(tiles)@[k1].file_start
                + final(tiles)@[k1].file_len <= final(tiles)@[k2].file_start,
        forall|q: int, f: int|
            id_start <= q < id_start + id_len && 0 <= f < n_files ==> #[trigger] band_covered(
                final(tiles)@,
                old(tiles)@.len() as int,
                q,
                f,
            ),
{
    let ghost p = tiles@.len();
    let mut fs: usize = 0;
    while fs < n_files
        invariant
            id_len >= 1,
            file_chunk >= 1,
            0 <= fs <= n_files,
            tiles@.len() >= p,
            tiles@.take(p as int) == old(tiles)@,
            p == old(tiles)@.len(),
            forall|k: int|
                p <= k < tiles@.len() ==> {
                    let t = #[trigger] tiles@[k];
                    &&& t.id_start == id_start
                    &&& t.id_len == id_len
                    &&& t.file_len >= 1
                    &&& t.file_start + t.file_len <= fs
                },
            forall|k1: int, k2: int|
                p <= k1 < k2 < tiles@.len() ==> tiles@[k1].file_start + tiles@[k1].file_len
                    <= tiles@[k2].file_start,
            forall|q: int, f: int|
                id_start <= q < id_start + id_len && 0 <= f < fs ==> #[trigger] band_covered(
                    tiles@,
                    p as int,
                    q,
                    f,
                ),
        decreases n_files - fs,
    {
        let len: usize = if n_files - fs < file_chunk {
            n_files - fs
        } else {
            file_chunk
        };
        let t = Tile { id_start, id_len, file_start: fs, file_len: len };
        let ghost before = tiles@;
        tiles.push(t);
        proof {
            assert(tiles@.take(p as int) =~= before.take(p as int));
            let newk = before.len() as int;
            assert(tiles@[newk] == t);
            assert forall|q: int, f: int|
                id_start <= q < id_start + id_len && 0 <= f < fs + len implies #[trigger] band_covered(
                tiles@,
                p as int,
                q,
                f,
            ) by {
                if f < fs {
                    assert(band_covered(before, p as int, q, f));
                    let k0 = choose|k: int|
                        p <= k < before.len() && tile_contains(#[trigger] before[k], q, f);
                    assert(tiles@[k0] == before[k0]);
                    assert(tile_contains(tiles@[k0], q, f));
                } else {
                    assert(tile_contains(tiles@[newk], q, f));
                }
            }
        }
        fs = fs + len;
    }
}

/// Plan the tiles of a whole run: identifiers in chunks of `id_chunk`, each
/// chunk's files in blocks of its adaptive file-chunk size. The plan covers
/// the whole cross product exactly once: every pair lies in some tile, and
/// no two tiles overlap.
pub fn plan_tiles(
    n_ids: usize,
    n_files: usize,
    id_chunk: usize,
    configured_file_chunk: usize,
    max_storage: u64,
) -> (tiles: Vec<Tile>)
    ensures
        plan_covers(tiles@, n_ids as int, n_files as int),
        plan_disjoint(tiles@),
        forall|k: int|
            0 <= k < tiles@.len() ==> tile_in_bounds(
                #[trigger] tiles@[k],
                n_ids as int,
                n_files as int,
            ),
{
    let chunk: usize = if id_chunk < 1 {
        1
    } else {
        id_chunk
    };
    let mut tiles: Vec<Tile> = Vec::new();
    let mut s: usize = 0;
    while s < n_ids
        invariant
            chunk >= 1,
            0 <= s <= n_ids,
            forall|k: int|
                0 <= k < tiles@.len() ==> {
                    let t = #[trigger] tiles@[k];
                    &&& t.id_len >= 1
                    &&& t.file_len >= 1
                    &&& t.id_start + t.id_len <= s
                    &&& t.file_start + t.file_len <= n_files
                },
            plan_disjoint(tiles@),
            forall|q: int, f: int|
                0 <= q < s && 0 <= f < n_files ==> #[trigger] pair_covered(tiles@, q, f),
        decreases n_ids - s,
    {
        let c: usize = if n_ids - s < chunk {
            n_ids - s
        } else {
            chunk
        };
        let fc = file_chunk_size_for(configured_file_chunk, c, max_storage);
        let ghost before = tiles@;
        plan_band(&mut tiles, s, c, n_files, fc);
        proof {
            let p = before.len() as int;
            assert(tiles@.take(p) == before);
            assert forall|k: int| 0 <= k < p implies tiles@[k] == before[k] by {
                assert(tiles@.take(p)[k] == tiles@[k]);
            }
            assert forall|q: int, f: int|
                0 <= q < s + c && 0 <= f < n_files implies #[trigger] pair_covered(
                tiles@,
                q,
                f,
            ) by {
                if q < s {
                    assert(pair_covered(before, q, f));
                    let k0 = choose|k: int|
                        0 <= k < before.len() && tile_contains(#[trigger] before[k], q, f);
                    assert(tiles@[k0] == before[k0]);
                    assert(tile_contains(tiles@[k0], q, f));
                } else {
                    assert(band_covered(tiles@, p, q, f));
                    let k0 = choose|k: int|
                        p <= k < tiles@.len() && tile_contains(#[trigger] tiles@[k], q, f);
                    assert(tile_contains(tiles@[k0], q, f));
                }
            }
            assert forall|k: int| 0 <= k < tiles@.len() implies {
                let t = #[trigger] tiles@[k];
                &&& t.id_len >= 1
                &&& t.file_len >= 1
                &&& t.id_start + t.id_len <= s + c
                &&& t.file_start + t.file_len <= n_files
            } by {
                if k < p {
                    assert(tiles@[k] == before[k]);
                } else {
                    assert(tiles@[k].id_start == s && tiles@[k].id_len == c);
                }
            }
            assert forall|i: int, j: int| 0 <= i < j < tiles@.len() implies tiles_disjoint(
                #[trigger] tiles@[i],
                #[trigger] tiles@[j],
            ) by {
                if j < p {
                    assert(tiles@[i] == before[i] && tiles@[j] == before[j]);
                } else if i < p {
                    assert(tiles@[i] == before[i]);
                    assert(tiles@[i].id_start + tiles@[i].id_len <= s);
                    assert(tiles@[j].id_start == s);
                } else {
                    assert(tiles@[i].file_start + tiles@[i].file_len <= tiles@[j].file_start);
                }
            }
        }
        s = s + c;
    }
    tiles
}

/// The outcome of validating a tile request: nothing to dispatch, or a
/// dispatch whose output block occupies the given number of bytes.
#[derive(Debug, Clone, Copy, PartialEq, Eq, Structural)]
pub enum TileCheck {
    Empty,
    Ready { output_bytes: u64 },
}

/// Why a tile request is refused: it would address bytes outside the file
/// buffer, its output size does not fit the machine, or its output block
/// exceeds the device's storage ceiling.
#[derive(Debug, Clone, Copy, PartialEq, Eq, Structural)]
pub enum TileError {
    BufferOverrun,
    OutputOverflow,
    OutputTooLarge,
}

/// Exactly when a tile request is accepted, and with what output size:
/// empty work short-circuits; a request reading outside the buffer is
/// refused; the output block must fit in a machine size and under the
/// device ceiling.
pub open spec fn spec_validate_tile(
    query_elems: int,
    query_len: int,
    file_len: int,
    file_offset: int,
    dim: int,
    buffer_size: int,
    max_storage: int,
) -> Result<TileCheck, TileError> {
    if query_len == 0 || file_len == 0 {
        Ok(TileCheck::Empty)
    } else {
        let stride = dim * 4;
        let chunk_bytes = file_len * stride;
        let offset_bytes = file_offset * stride;
        if chunk_bytes == 0 {
            Ok(TileCheck::Empty)
        } else if offset_bytes + chunk_bytes > buffer_size {
            Err(TileError::BufferOverrun)
        } else if query_elems == 0 {
            Ok(TileCheck::Empty)
        } else if query_len * file_len * 4 > usize::MAX as int {
            Err(TileError::OutputOverflow)
        } else if query_len * file_len * 4 > max_storage {
            Err(TileError::OutputTooLarge)
        } else {
            Ok(TileCheck::Ready { output_bytes: (query_len * file_len * 4) as u64 })
        }
    }
}

/// Validate one tile request against the file buffer's size and the
/// device's storage ceiling. An accepted request never addresses bytes
/// outside `[file_offset, file_offset + file_len)` vectors of the buffer.
pub fn validate_tile(
    query_elems: usize,
    query_len: usize,
    file_len: usize,
    file_offset: usize,
    dim: usize,
    buffer_size: u64,
    max_storage: u64,
) -> (r: Result<TileCheck, TileError>)
    ensures
        r == spec_validate_tile(
            query_elems as int,
            query_len as int,
            file_len as int,
            file_offset as int,
            dim as int,
            buffer_size as int,
            max_storage as int,
        ),
        (r matches Ok(TileCheck::Ready { output_bytes }) ==> {
            &&& file_offset * dim * 4 + file_len * dim * 4 <= buffer_size
            &&& output_bytes <= max_storage
            &&& output_bytes == query_len * file_len * 4
        }),
{
    if query_len == 0 || file_len == 0 {
        return Ok(TileCheck::Empty);
    }
    let stride: u128 = dim as u128 * 4;
    let chunk_bytes: u128 = match (file_len as u128).checked_mul(stride) {
        Some(v) => v,
        None => {
            proof {
                lemma_mul_ge_one_factor(file_len as int, stride as int, u128::MAX as int);
            }
            return Err(TileError::BufferOverrun);
        },
    };
    if chunk_bytes == 0 {
        return Ok(TileCheck::Empty);
    }
    let offset_bytes: u128 = match (file_offset as u128).checked_mul(stride) {
        Some(v) => v,
        None => {
            return Err(TileError::BufferOverrun);
        },
    };
    let total: u128 = match offset_bytes.checked_add(chunk_bytes) {
        Some(v) => v,
        None => {
            return Err(TileError::BufferOverrun);
        },
    };
    if total > buffer_size as u128 {
        return Err(TileError::BufferOverrun);
    }
    if query_elems == 0 {
        return Ok(TileCheck::Empty);
    }
    proof {
        assert(query_len as int * file_len as int <= u128::MAX) by (nonlinear_arith)
            requires
                0 <= query_len as int <= 0xffff_ffff_ffff_ffffu64 as int,
                0 <= file_len as int <= 0xffff_ffff_ffff_ffffu64 as int,
        ;
    }
    let of: u128 = query_len as u128 * file_len as u128;
    let output_bytes: u128 = match of.checked_mul(4) {
        Some(v) => v,
        None => {
            return Err(TileError::OutputOverflow);
        },
    };
    if output_bytes > usize::MAX as u128 {
        return Err(TileError::OutputOverflow);
    }
    if output_bytes > max_storage as u128 {
        return Err(TileError::OutputTooLarge);
    }
    proof {
        assert(file_offset as int * (dim as int * 4) == file_offset as int * dim as int * 4)
            by (nonlinear_arith);
        assert(file_len as int * (dim as int * 4) == file_len as int * dim as int * 4)
            by (nonlinear_arith);
    }
    Ok(TileCheck::Ready { output_bytes: output_bytes as u64 })
}

/// When a product of non-negative factors exceeds a bound, it is positive
/// and larger than the bound; used to justify refusing oversized requests.
proof fn lemma_mul_ge_one_factor(a: int, b: int, bound: int)
    requires
        a >= 0,
        b >= 0,
        a * b > bound,
        bound >= 0,
    ensures
        a * b > 0,
        a >= 1,
        b >= 1,
{
    if a == 0 || b == 0 {
        assert(a * b == 0);
    }
}

/// An accepted non-empty tile request stays inside the file buffer and
/// under the storage ceiling: the checks cannot be passed otherwise.
pub proof fn lemma_validated_tile_in_bounds(
    query_elems: int,
    query_len: int,
    file_len: int,
    file_offset: int,
    dim: int,
    buffer_size: int,
    max_storage: int,
)
    requires
        query_elems >= 0,
        query_len >= 0,
        file_len >= 0,
        file_offset >= 0,
        dim >= 0,
        spec_validate_tile(
            query_elems,
            query_len,
            file_len,
            file_offset,
            dim,
            buffer_size,
            max_storage,
        ) matches Ok(TileCheck::Ready { output_bytes }),
    ensures
        (file_offset + file_len) * (dim * 4) <= buffer_size,
        query_len * file_len * 4 <= max_storage,
{
    assert((file_offset + file_len) * (dim * 4) == file_offset * (dim * 4) + file_len * (dim * 4))
        by (nonlinear_arith);
}

/// The bounded backpressure scheduler of one run: tiles are submitted in
/// plan order and drained in submission order, and the number of submitted
/// but undrained tiles never exceeds the inflight limit.
pub struct TileScheduler {
    tiles: Vec<Tile>,
    submitted: usize,
    drained: usize,
    inflight_limit: usize,
}

/// What the scheduler asks its driver to do next.
#[derive(Debug, Clone, Copy, PartialEq, Eq, Structural)]
pub enum SchedulerStep {
    Submit(Tile),
    Drain,
    Done,
}

impl TileScheduler {
    /// The planned tiles.
    pub closed spec fn spec_tiles(&self) -> Seq<Tile> {
        self.tiles@
    }

    /// How many tiles have been submitted.
    pub closed spec fn spec_submitted(&self) -> int {
        self.submitted as int
    }

    /// How many tiles have been drained.
    pub closed spec fn spec_drained(&self) -> int {
        self.drained as int
    }

    /// How many tiles are submitted and not yet drained.
    pub open spec fn spec_pending(&self) -> int {
        self.spec_submitted() - self.spec_drained()
    }

    /// The configured inflight limit.
    pub closed spec fn spec_limit(&self) -> int {
        self.inflight_limit as int
    }

    /// The scheduler's invariant: drains trail submissions, submissions
    /// trail the plan, and the pending count never exceeds the limit.
    pub open spec fn wf(&self) -> bool {
        &&& 0 <= self.spec_drained() <= self.spec_submitted() <= self.spec_tiles().len()
        &&& self.spec_tiles().len() <= usize::MAX
        &&& self.spec_limit() >= 1
        &&& self.spec_pending() <= self.spec_limit()
    }

    /// A scheduler over a plan, with the limit floored at one.
    pub fn new(tiles: Vec<Tile>, inflight_limit: usize) -> (r: TileScheduler)
        ensures
            r.wf(),
            r.spec_tiles() == tiles@,
            r.spec_submitted() == 0,
            r.spec_drained() == 0,
            r.spec_limit() == if inflight_limit < 1 {
                1int
            } else {
                inflight_limit as int
            },
    {
        let limit: usize = if inflight_limit < 1 {
            1
        } else {
            inflight_limit
        };
        let n = tiles.len();
        assert(tiles@.len() <= usize::MAX);
        TileScheduler { tiles, submitted: 0, drained: 0, inflight_limit: limit }
    }

    /// What to do next: submit the next planned tile while the pending
    /// count is under the limit, otherwise drain the oldest pending tile;
    /// done when everything is submitted and drained.
    pub fn next_step(&self) -> (r: SchedulerStep)
        requires
            self.wf(),
        ensures
            r == if self.spec_submitted() < self.spec_tiles().len() && self.spec_pending()
                < self.spec_limit() {
                SchedulerStep::Submit(self.spec_tiles()[self.spec_submitted()])
            } else if self.spec_drained() < self.spec_submitted() {
                SchedulerStep::Drain
            } else {
                SchedulerStep::Done
            },
            r is Done ==> self.spec_submitted() == self.spec_tiles().len() && self.spec_pending()
                == 0,
    {
        if self.submitted < self.tiles.len() && self.submitted - self.drained
            < self.inflight_limit {
            SchedulerStep::Submit(self.tiles[self.submitted])
        } else if self.drained < self.submitted {
            SchedulerStep::Drain
        } else {
            SchedulerStep::Done
        }
    }

    /// Record that the next planned tile was submitted.
    pub fn note_submitted(&mut self)
        requires
            old(self).wf(),
            old(self).spec_submitted() < old(self).spec_tiles().len(),
            old(self).spec_pending() < old(self).spec_limit(),
        ensures
            final(self).wf(),
            final(self).spec_tiles() == old(self).spec_tiles(),
            final(self).spec_submitted() == old(self).spec_submitted() + 1,
            final(self).spec_drained() == old(self).spec_drained(),
            final(self).spec_limit() == old(self).spec_limit(),
    {
        self.submitted = self.submitted + 1;
    }

    /// Record that the oldest pending tile was drained.
    pub fn note_drained(&mut self)
        requires
            old(self).wf(),
            old(self).spec_drained() < old(self).spec_submitted(),
        ensures
            final(self).wf(),
            final(self).spec_tiles() == old(self).spec_tiles(),
            final(self).spec_submitted() == old(self).spec_submitted(),
            final(self).spec_drained() == old(self).spec_drained() + 1,
            final(self).spec_limit() == old(self).spec_limit(),
            final(self).spec_pending() < final(self).spec_limit(),
    {
        self.drained = self.drained + 1;
    }

    /// The index of the tile the next drain resolves: drains happen in
    /// submission order.
    pub fn next_drain_index(&self) -> (r: usize)
        requires
            self.wf(),
        ensures
            r == self.spec_drained(),
    {
        self.drained
    }

    /// The tile at a plan index.
    pub fn tile_at(&self, k: usize) -> (r: Tile)
        requires
            k < self.spec_tiles().len(),
        ensures
            r == self.spec_tiles()[k as int],
    {
        self.tiles[k]
    }

    /// How many tiles the plan holds.
    pub fn tile_count(&self) -> (r: usize)
        ensures
            r == self.spec_tiles().len(),
    {
        self.tiles.len()
    }
}

} // verus!
