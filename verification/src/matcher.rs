//! The CPU matching core: fuzzy-scores reference identifiers against every
//! file's name and derived candidate forms, keeps the best score per file,
//! and stores the matches at or above a threshold.
//!
//! A file contributes up to three candidates: its raw name, its name with a
//! TIFF suffix stripped, and its name with separators removed — all
//! lowercased, as is the identifier. The raw alignment score of the fuzzy
//! matcher is normalized to parts per million of the identifier's self-match
//! score and damped by the length ratio of identifier and candidate, so a
//! candidate much longer or shorter than the identifier is penalized even
//! when the identifier aligns perfectly inside it.

use vstd::prelude::*;
use vstd::arithmetic::div_mod::{lemma_div_is_ordered, lemma_div_multiples_vanish};
use vstd::arithmetic::mul::lemma_mul_inequality;
use vstd::string::StrSliceExecFns;
use vstd::utf8::encode_utf8;
use crate::fuzzy::{fuzzy_raw, FuzzyScorer};
use crate::store::{apply_upserts, FileRecord, MatchRow, Store};
use crate::text::{chars_to_string, lower_of, lowercase, trim, trim_of};
use crate::progress::ProgressSink;

verus! {

/// Scores are integers in parts per million: this value stands for a
/// similarity of one.
pub const SIMILARITY_SCALE: u32 = 1000000;

/// Whether `s` ends with `suffix`.
pub open spec fn ends_with(s: Seq<char>, suffix: Seq<char>) -> bool {
    s.len() >= suffix.len() && s.subrange(s.len() - suffix.len(), s.len() as int) == suffix
}

/// `s` with every trailing repetition of `suffix` removed.
pub open spec fn strip_all_suffix(s: Seq<char>, suffix: Seq<char>) -> Seq<char>
    decreases s.len(),
{
    if suffix.len() > 0 && ends_with(s, suffix) {
        strip_all_suffix(s.take(s.len() - suffix.len()), suffix)
    } else {
        s
    }
}

/// The name with one TIFF extension stripped, trying the same spellings in
/// the same order as the matching is done.
pub open spec fn spec_strip_tiff(s: Seq<char>) -> Option<Seq<char>> {
    if ends_with(s, seq!['.', 't', 'i', 'f']) {
        Some(s.take(s.len() - 4))
    } else if ends_with(s, seq!['.', 't', 'i', 'f', 'f']) {
        Some(s.take(s.len() - 5))
    } else if ends_with(s, seq!['.', 'T', 'I', 'F']) {
        Some(s.take(s.len() - 4))
    } else if ends_with(s, seq!['.', 'T', 'I', 'F', 'F']) {
        Some(s.take(s.len() - 5))
    } else {
        None
    }
}

/// The characters dropped when deriving the separator-free candidate.
pub open spec fn is_separator(c: char) -> bool {
    c == '_' || c == '-' || c == ' ' || c == '.'
}

/// The identifier-like token of a file name: every spelling of a TIFF
/// extension repeatedly removed from the end, then every separator removed.
pub open spec fn spec_extract_id(s: Seq<char>) -> Seq<char> {
    strip_all_suffix(
        strip_all_suffix(
            strip_all_suffix(strip_all_suffix(s, seq!['.', 't', 'i', 'f']), seq!['.', 't', 'i', 'f', 'f']),
            seq!['.', 'T', 'I', 'F'],
        ),
        seq!['.', 'T', 'I', 'F', 'F'],
    ).filter(|c: char| !is_separator(c))
}

/// The candidate strings a file name is matched under: the lowercased name,
/// the lowercased stem when a TIFF extension is present, and the lowercased
/// extracted token when it is non-empty.
pub open spec fn spec_candidates(name: Seq<char>) -> Seq<Seq<char>> {
    let base = seq![lower_of(name)];
    let with_stem = match spec_strip_tiff(name) {
        Some(stem) => base.push(lower_of(stem)),
        None => base,
    };
    if spec_extract_id(name).len() > 0 {
        with_stem.push(lower_of(spec_extract_id(name)))
    } else {
        with_stem
    }
}

/// A raw fuzzy score, with a failed match counting as zero.
pub open spec fn spec_opt_score(r: Option<i64>) -> int {
    match r {
        Some(s) => s as int,
        None => 0,
    }
}

/// The raw score of one candidate: the better of matching the candidate
/// against the identifier and the identifier against the candidate.
pub open spec fn spec_cand_raw(cand: Seq<char>, needle: Seq<char>) -> int {
    let fwd = spec_opt_score(fuzzy_raw(cand, needle));
    let rev = spec_opt_score(fuzzy_raw(needle, cand));
    if fwd >= rev {
        fwd
    } else {
        rev
    }
}

/// The fallback self-match score when the fuzzy matcher declines the
/// identifier against itself: ten per byte, at least ten, capped to fit.
pub open spec fn spec_fallback_perfect(q: Seq<char>) -> int {
    let l = (encode_utf8(q).len() as usize) as int;
    let m = if l < 1 {
        1int
    } else {
        l
    };
    if 10 * m > i64::MAX as int {
        i64::MAX as int
    } else {
        10 * m
    }
}

/// The self-match score an identifier is normalized against; always at
/// least one.
pub open spec fn spec_perfect(q: Seq<char>) -> int {
    let base = match fuzzy_raw(q, q) {
        Some(s) => s as int,
        None => spec_fallback_perfect(q),
    };
    if base < 1 {
        1int
    } else {
        base
    }
}

/// A raw score normalized to parts per million: the score is clamped to the
/// self-match score, scaled, and damped by the ratio of the shorter to the
/// longer of candidate and identifier. Zero when anything is degenerate.
pub open spec fn spec_normalize_score(score: int, cand_len: int, query_len: int, perfect: int) -> int {
    if score <= 0 || perfect <= 0 || cand_len == 0 || query_len == 0 {
        0int
    } else {
        let a = if score > perfect {
            perfect
        } else {
            score
        };
        let base = a * 1000000 / perfect;
        let lo = if cand_len < query_len {
            cand_len
        } else {
            query_len
        };
        let hi = if cand_len < query_len {
            query_len
        } else {
            cand_len
        };
        let v = base * lo / hi;
        if v > 1000000 {
            1000000int
        } else {
            v
        }
    }
}

/// The normalized score of one candidate against the identifier.
pub open spec fn spec_cand_score(cand: Seq<char>, needle: Seq<char>, perfect: int) -> int {
    spec_normalize_score(spec_cand_raw(cand, needle), cand.len() as int, needle.len() as int, perfect)
}

/// The best score reached when candidates are scanned in order starting at
/// `i` with `best` so far, stopping as soon as the running best reaches the
/// threshold.
pub open spec fn spec_scan_best(
    cands: Seq<Seq<char>>,
    needle: Seq<char>,
    perfect: int,
    threshold: int,
    i: int,
    best: int,
) -> int
    decreases cands.len() - i,
{
    if i < 0 || i >= cands.len() {
        best
    } else {
        let b2 = {
            let sc = spec_cand_score(cands[i], needle, perfect);
            if sc > best {
                sc
            } else {
                best
            }
        };
        if b2 >= threshold {
            b2
        } else {
            spec_scan_best(cands, needle, perfect, threshold, i + 1, b2)
        }
    }
}

/// The score a file gets for an identifier: its candidates scanned in
/// order, stopping early once the threshold is reached.
pub open spec fn spec_file_best(name: Seq<char>, needle: Seq<char>, perfect: int, threshold: int) -> int {
    spec_scan_best(spec_candidates(name), needle, perfect, threshold, 0, 0)
}

/// One match that an identifier scores on a file, in spec form.
pub struct HitView {
    pub hh_id: Seq<char>,
    pub file_id: i64,
    pub file_name: Seq<char>,
    pub file_path: Seq<char>,
    pub similarity: int,
}

/// The hits of one identifier over the files, in file order: every file
/// whose best candidate score reaches the threshold.
pub open spec fn spec_file_hits(
    hh: Seq<char>,
    files: Seq<FileRecord>,
    needle: Seq<char>,
    perfect: int,
    threshold: int,
) -> Seq<HitView>
    decreases files.len(),
{
    if files.len() == 0 {
        Seq::empty()
    } else {
        let rest = spec_file_hits(hh, files.drop_last(), needle, perfect, threshold);
        let f = files.last();
        let best = spec_file_best(f.file_name@, needle, perfect, threshold);
        if best >= threshold {
            rest.push(
                HitView {
                    hh_id: hh,
                    file_id: f.id,
                    file_name: f.file_name@,
                    file_path: f.file_path@,
                    similarity: best,
                },
            )
        } else {
            rest
        }
    }
}

/// The identifier an id string is matched as: trimmed and lowercased.
pub open spec fn spec_needle(id: Seq<char>) -> Seq<char> {
    lower_of(trim_of(id))
}

/// The hits of one identifier: none when it trims to nothing, otherwise its
/// file hits under its own self-match score.
pub open spec fn spec_hits_for_id(id: Seq<char>, files: Seq<FileRecord>, threshold: int) -> Seq<HitView> {
    if trim_of(id).len() == 0 {
        Seq::empty()
    } else {
        let needle = spec_needle(id);
        spec_file_hits(id, files, needle, spec_perfect(needle), threshold)
    }
}

/// The hits of a run: each identifier's hits in identifier order.
pub open spec fn spec_all_hits(ids: Seq<String>, files: Seq<FileRecord>, threshold: int) -> Seq<HitView>
    decreases ids.len(),
{
    if ids.len() == 0 {
        Seq::empty()
    } else {
        spec_all_hits(ids.drop_last(), files, threshold) + spec_hits_for_id(
            ids.last()@,
            files,
            threshold,
        )
    }
}

/// One reported match.
#[derive(Debug, Clone)]
pub struct MatchResult {
    pub hh_id: String,
    pub file_id: i64,
    pub file_name: String,
    pub file_path: String,
    pub similarity: u32,
}

/// Whether a reported match is the given hit.
pub open spec fn result_is_hit(r: MatchResult, h: HitView) -> bool {
    &&& r.hh_id@ == h.hh_id
    &&& r.file_id == h.file_id
    &&& r.file_name@ == h.file_name
    &&& r.file_path@ == h.file_path
    &&& r.similarity as int == h.similarity
}

/// Whether a sequence of reported matches is exactly a sequence of hits.
pub open spec fn results_are_hits(rs: Seq<MatchResult>, hs: Seq<HitView>) -> bool {
    rs.len() == hs.len() && forall|k: int| 0 <= k < rs.len() ==> result_is_hit(rs[k], hs[k])
}

/// Whether `s` ends with the given characters.
fn str_ends_with(s: &str, suffix: &Vec<char>) -> (r: bool)
    ensures
        r == ends_with(s@, suffix@),
{
    let n = s.unicode_len();
    let m = suffix.len();
    if n < m {
        assert(!ends_with(s@, suffix@));
        return false;
    }
    let mut i: usize = 0;
    while i < m
        invariant
            n == s@.len(),
            m == suffix@.len(),
            m <= n,
            0 <= i <= m,
            forall|k: int| 0 <= k < i ==> s@[n - m + k] == suffix@[k],
        decreases m - i,
    {
        if s.get_char(n - m + i) != suffix[i] {
            assert(s@[n - m + i] != suffix@[i as int]);
            assert(s@.subrange(n - m, n as int)[i as int] == s@[n - m + i]);
            return false;
        }
        i = i + 1;
    }
    proof {
        assert(s@.subrange(n - m, n as int) =~= suffix@);
    }
    true
}

/// The file name with one TIFF extension stripped, if it has one.
pub fn strip_tiff_suffix(name: &str) -> (r: Option<&str>)
    ensures
        match r {
            Some(stem) => spec_strip_tiff(name@) == Some(stem@),
            None => spec_strip_tiff(name@) is None,
        },
{
    let tif: Vec<char> = vec!['.', 't', 'i', 'f'];
    let tiff: Vec<char> = vec!['.', 't', 'i', 'f', 'f'];
    let tif_u: Vec<char> = vec!['.', 'T', 'I', 'F'];
    let tiff_u: Vec<char> = vec!['.', 'T', 'I', 'F', 'F'];
    let n = name.unicode_len();
    if str_ends_with(name, &tif) {
        Some(name.substring_char(0, n - 4))
    } else if str_ends_with(name, &tiff) {
        Some(name.substring_char(0, n - 5))
    } else if str_ends_with(name, &tif_u) {
        Some(name.substring_char(0, n - 4))
    } else if str_ends_with(name, &tiff_u) {
        Some(name.substring_char(0, n - 5))
    } else {
        None
    }
}

/// `s` with every trailing repetition of the given suffix removed.
fn trim_end_matches_chars<'a>(s: &'a str, suffix: &Vec<char>) -> (r: &'a str)
    ensures
        r@ == strip_all_suffix(s@, suffix@),
{
    let mut cur: &str = s;
    let m = suffix.len();
    if m == 0 {
        return cur;
    }
    while str_ends_with(cur, suffix)
        invariant
            m == suffix@.len(),
            m > 0,
            strip_all_suffix(cur@, suffix@) == strip_all_suffix(s@, suffix@),
        decreases cur@.len(),
    {
        let n = cur.unicode_len();
        cur = cur.substring_char(0, n - m);
    }
    cur
}

/// The identifier-like token of a file name: TIFF extensions removed from
/// the end, then separators removed.
pub fn extract_id_from_filename(name: &str) -> (r: String)
    ensures
        r@ == spec_extract_id(name@),
{
    let tif: Vec<char> = vec!['.', 't', 'i', 'f'];
    let tiff: Vec<char> = vec!['.', 't', 'i', 'f', 'f'];
    let tif_u: Vec<char> = vec!['.', 'T', 'I', 'F'];
    let tiff_u: Vec<char> = vec!['.', 'T', 'I', 'F', 'F'];
    let a = trim_end_matches_chars(name, &tif);
    let b = trim_end_matches_chars(a, &tiff);
    let c = trim_end_matches_chars(b, &tif_u);
    let d = trim_end_matches_chars(c, &tiff_u);
    let n = d.unicode_len();
    let mut kept: Vec<char> = Vec::new();
    let mut i: usize = 0;
    while i < n
        invariant
            n == d@.len(),
            0 <= i <= n,
            kept@ == d@.take(i as int).filter(|c: char| !is_separator(c)),
        decreases n - i,
    {
        let ch = d.get_char(i);
        proof {
            assert(d@.take(i + 1).drop_last() =~= d@.take(i as int));
            assert(d@.take(i + 1).last() == d@[i as int]);
            reveal(Seq::filter);
        }
        if !(ch == '_' || ch == '-' || ch == ' ' || ch == '.') {
            kept.push(ch);
        }
        i = i + 1;
    }
    proof {
        assert(d@.take(n as int) =~= d@);
    }
    chars_to_string(&kept)
}

/// The self-match score of an identifier, used as the normalization
/// denominator; at least one.
pub fn perfect_score(scorer: &FuzzyScorer, query: &str) -> (r: i64)
    ensures
        r as int == spec_perfect(query@),
        r >= 1,
{
    match scorer.score(query, query) {
        Some(s) => if s < 1 {
            1
        } else {
            s
        },
        None => {
            let l = query.len();
            let m: usize = if l < 1 {
                1
            } else {
                l
            };
            let p = (m as u128) * 10;
            if p > i64::MAX as u128 {
                i64::MAX
            } else {
                p as i64
            }
        },
    }
}

/// Normalize a raw score against the identifier's self-match score and damp
/// it by the length ratio of candidate and identifier; in parts per
/// million, never above the scale.
pub fn normalize_score(score: i64, candidate: &str, query: &str, perfect: i64) -> (r: u32)
    ensures
        r as int == spec_normalize_score(
            score as int,
            candidate@.len() as int,
            query@.len() as int,
            perfect as int,
        ),
        r <= SIMILARITY_SCALE,
{
    let cand_len = candidate.unicode_len();
    let query_len = query.unicode_len();
    if score <= 0 || perfect <= 0 || cand_len == 0 || query_len == 0 {
        return 0;
    }
    let a: u128 = if score > perfect {
        perfect as u128
    } else {
        score as u128
    };
    let base: u128 = a * 1000000 / (perfect as u128);
    proof {
        lemma_mul_inequality(a as int, perfect as int, 1000000int);
        lemma_div_is_ordered(a as int * 1000000, perfect as int * 1000000, perfect as int);
        lemma_div_multiples_vanish(1000000int, perfect as int);
        assert(perfect as int * 1000000 == (perfect as int) * 1000000);
        assert((perfect as int * 1000000) / (perfect as int) == 1000000int);
        assert(base <= 1000000);
    }
    let lo: u128 = if cand_len < query_len {
        cand_len as u128
    } else {
        query_len as u128
    };
    let hi: u128 = if cand_len < query_len {
        query_len as u128
    } else {
        cand_len as u128
    };
    proof {
        assert(base * lo <= 1000000 * 0xffff_ffff_ffff_ffffu128) by (nonlinear_arith)
            requires
                0 <= base <= 1000000,
                0 <= lo <= 0xffff_ffff_ffff_ffffu128,
        ;
    }
    let v: u128 = base * lo / hi;
    if v > 1000000 {
        1000000u32
    } else {
        v as u32
    }
}

/// A file record together with the candidate strings it is matched under.
pub struct FileMatchContext {
    pub record: FileRecord,
    pub candidates: Vec<String>,
}

impl FileMatchContext {
    /// The candidates are exactly those derived from the record's name.
    pub open spec fn wf(&self) -> bool {
        self.candidates@.map_values(|c: String| c@) == spec_candidates(self.record.file_name@)
    }

    /// Build the candidate list of one file: its lowercased name, the
    /// lowercased stem when a TIFF extension is present, and the lowercased
    /// extracted token when non-empty.
    pub fn from_record(record: &FileRecord) -> (r: FileMatchContext)
        ensures
            r.record == *record,
            r.wf(),
    {
        let mut candidates: Vec<String> = Vec::new();
        candidates.push(lowercase(record.file_name.as_str()));
        match strip_tiff_suffix(record.file_name.as_str()) {
            Some(stem) => {
                candidates.push(lowercase(stem));
            },
            None => {},
        }
        let extracted = extract_id_from_filename(record.file_name.as_str());
        if extracted.as_str().unicode_len() > 0 {
            candidates.push(lowercase(extracted.as_str()));
        }
        let rec = FileRecord {
            id: record.id,
            file_path: record.file_path.clone(),
            file_name: record.file_name.clone(),
        };
        let r = FileMatchContext { record: rec, candidates };
        proof {
            assert(r.candidates@.map_values(|c: String| c@) =~= spec_candidates(
                r.record.file_name@,
            ));
        }
        r
    }
}

/// The stateless CPU matcher.
pub struct Matcher {
}

impl Default for Matcher {
    fn default() -> (r: Self) {
        Matcher {  }
    }
}

impl Matcher {
    pub fn new() -> (r: Matcher) {
        Matcher {  }
    }

    /// Score one identifier against every file context and keep the files
    /// whose best candidate reaches the threshold, in file order. An
    /// identifier that trims to nothing matches nothing.
    pub fn match_single_id(
        scorer: &FuzzyScorer,
        hh_id: &str,
        files: &Vec<FileMatchContext>,
        min_similarity: u32,
    ) -> (r: Vec<MatchResult>)
        requires
            forall|k: int| 0 <= k < files@.len() ==> (#[trigger] files@[k]).wf(),
        ensures
            results_are_hits(
                r@,
                spec_hits_for_id(
                    hh_id@,
                    files@.map_values(|c: FileMatchContext| c.record),
                    min_similarity as int,
                ),
            ),
    {
        let ghost recs = files@.map_values(|c: FileMatchContext| c.record);
        let mut results: Vec<MatchResult> = Vec::new();
        let trimmed = trim(hh_id);
        if trimmed.unicode_len() == 0 {
            assert(trim_of(hh_id@).len() == 0);
            return results;
        }
        let needle = lowercase(trimmed);
        assert(needle@ == spec_needle(hh_id@));
        let perfect = perfect_score(scorer, needle.as_str());
        let ghost thr = min_similarity as int;
        let n = files.len();
        let mut fi: usize = 0;
        while fi < n
            invariant
                thr == min_similarity as int,
                n == files@.len(),
                0 <= fi <= n,
                recs == files@.map_values(|c: FileMatchContext| c.record),
                forall|k: int| 0 <= k < files@.len() ==> (#[trigger] files@[k]).wf(),
                needle@ == spec_needle(hh_id@),
                trim_of(hh_id@).len() != 0,
                perfect as int == spec_perfect(needle@),
                results_are_hits(
                    results@,
                    spec_file_hits(hh_id@, recs.take(fi as int), needle@, perfect as int, thr),
                ),
            decreases n - fi,
        {
            let ctx = &files[fi];
            let ghost cands = ctx.candidates@.map_values(|c: String| c@);
            proof {
                assert(files@[fi as int].wf());
                assert(cands == spec_candidates(ctx.record.file_name@));
            }
            let ghost total = spec_file_best(ctx.record.file_name@, needle@, perfect as int, thr);
            let m = ctx.candidates.len();
            let mut best: u32 = 0;
            let mut ci: usize = 0;
            proof {
                assert(total == spec_scan_best(cands, needle@, perfect as int, thr, 0, 0));
            }
            while ci < m
                invariant_except_break
                    thr == min_similarity as int,
                    m == ctx.candidates@.len(),
                    0 <= ci <= m,
                    cands == ctx.candidates@.map_values(|c: String| c@),
                    needle@ == spec_needle(hh_id@),
                    perfect as int == spec_perfect(needle@),
                    perfect >= 1,
                    best <= SIMILARITY_SCALE,
                    spec_scan_best(cands, needle@, perfect as int, thr, ci as int, best as int)
                        == total,
                ensures
                    best as int == total,
                    best <= SIMILARITY_SCALE,
                decreases m - ci,
            {
                let cand = &ctx.candidates[ci];
                let fwd = match scorer.score(cand.as_str(), needle.as_str()) {
                    Some(s) => s,
                    None => 0,
                };
                let rev = match scorer.score(needle.as_str(), cand.as_str()) {
                    Some(s) => s,
                    None => 0,
                };
                let raw = if fwd >= rev {
                    fwd
                } else {
                    rev
                };
                proof {
                    assert(cands[ci as int] == ctx.candidates@[ci as int]@);
                    assert(raw as int == spec_cand_raw(cands[ci as int], needle@));
                }
                let normalized = normalize_score(raw, cand.as_str(), needle.as_str(), perfect);
                proof {
                    assert(normalized as int == spec_cand_score(
                        cands[ci as int],
                        needle@,
                        perfect as int,
                    ));
                }
                let ghost old_best = best as int;
                if normalized > best {
                    best = normalized;
                }
                proof {
                    let b2 = best as int;
                    assert(spec_scan_best(cands, needle@, perfect as int, thr, ci as int, old_best)
                        == if b2 >= thr {
                        b2
                    } else {
                        spec_scan_best(cands, needle@, perfect as int, thr, ci + 1, b2)
                    });
                }
                ci = ci + 1;
                if best >= min_similarity {
                    break ;
                }
            }
            if best >= min_similarity {
                let result = MatchResult {
                    hh_id: hh_id.to_owned(),
                    file_id: ctx.record.id,
                    file_name: ctx.record.file_name.clone(),
                    file_path: ctx.record.file_path.clone(),
                    similarity: best,
                };
                results.push(result);
            }
            proof {
                assert(recs.take(fi + 1).drop_last() =~= recs.take(fi as int));
                assert(recs.take(fi + 1).last() == recs[fi as int]);
                assert(recs[fi as int] == ctx.record);
                assert(results_are_hits(
                    results@,
                    spec_file_hits(hh_id@, recs.take(fi + 1), needle@, perfect as int, thr),
                ));
            }
            fi = fi + 1;
        }
        proof {
            assert(recs.take(n as int) =~= recs);
        }
        results
    }

    /// Match every identifier against every file, in identifier order, and
    /// report progress per block of thirty-two identifiers.
    pub fn match_ids<P: ProgressSink>(
        &self,
        hh_ids: &Vec<String>,
        files: &Vec<FileRecord>,
        min_similarity: u32,
        progress: &mut P,
    ) -> (r: Vec<MatchResult>)
        ensures
            results_are_hits(r@, spec_all_hits(hh_ids@, files@, min_similarity as int)),
    {
        let ghost thr = min_similarity as int;
        let mut contexts: Vec<FileMatchContext> = Vec::new();
        let nf = files.len();
        let mut i: usize = 0;
        while i < nf
            invariant
                nf == files@.len(),
                0 <= i <= nf,
                contexts@.len() == i,
                forall|k: int| 0 <= k < i ==> (#[trigger] contexts@[k]).wf(),
                forall|k: int| 0 <= k < i ==> contexts@[k].record == files@[k],
            decreases nf - i,
        {
            contexts.push(FileMatchContext::from_record(&files[i]));
            i = i + 1;
        }
        proof {
            assert(contexts@.map_values(|c: FileMatchContext| c.record) =~= files@);
        }
        let mut results: Vec<MatchResult> = Vec::new();
        if contexts.len() == 0 {
            proof {
                assert(files@ =~= Seq::<FileRecord>::empty());
                lemma_all_hits_empty_files(hh_ids@, thr);
            }
            return results;
        }
        let scorer = FuzzyScorer::new();
        let total = hh_ids.len();
        let mut j: usize = 0;
        while j < total
            invariant
                thr == min_similarity as int,
                total == hh_ids@.len(),
                0 <= j <= total,
                contexts@.map_values(|c: FileMatchContext| c.record) == files@,
                forall|k: int| 0 <= k < contexts@.len() ==> (#[trigger] contexts@[k]).wf(),
                results_are_hits(results@, spec_all_hits(hh_ids@.take(j as int), files@, thr)),
            decreases total - j,
        {
            let mut sub = Self::match_single_id(
                &scorer,
                hh_ids[j].as_str(),
                &contexts,
                min_similarity,
            );
            let ghost old_results = results@;
            let ghost subv = sub@;
            results.append(&mut sub);
            proof {
                assert(hh_ids@.take(j + 1).drop_last() =~= hh_ids@.take(j as int));
                assert(hh_ids@.take(j + 1).last() == hh_ids@[j as int]);
                let hits = spec_all_hits(hh_ids@.take(j + 1), files@, thr);
                let prev = spec_all_hits(hh_ids@.take(j as int), files@, thr);
                let idh = spec_hits_for_id(hh_ids@[j as int]@, files@, thr);
                assert(hits == prev + idh);
                assert(results@ == old_results + subv);
                assert forall|k: int| 0 <= k < results@.len() implies result_is_hit(
                    results@[k],
                    hits[k],
                ) by {
                    if k < old_results.len() {
                        assert(results@[k] == old_results[k]);
                        assert(hits[k] == prev[k]);
                    } else {
                        assert(results@[k] == subv[k - old_results.len()]);
                        assert(hits[k] == idh[k - prev.len()]);
                    }
                }
            }
            j = j + 1;
            if j % 32 == 0 || j == total {
                progress.report(j, total);
            }
        }
        proof {
            assert(hh_ids@.take(total as int) =~= hh_ids@);
        }
        results
    }

    /// Match identifiers against the store's files and replace all stored
    /// matches with the results, in one committed import. Fails exactly
    /// when the store holds no files.
    pub fn match_and_store<P: ProgressSink>(
        &self,
        hh_ids: &Vec<String>,
        store: &mut Store,
        min_similarity: u32,
        progress: &mut P,
    ) -> (r: Result<usize, String>)
        ensures
            r is Err <==> old(store).spec_files().len() == 0,
            r is Err ==> final(store).spec_matches() == old(store).spec_matches(),
            r is Ok ==> {
                let hits = spec_all_hits(hh_ids@, old(store).spec_files(), min_similarity as int);
                &&& r->Ok_0 == hits.len()
                &&& exists|rows: Seq<MatchRow>|
                    rows_are_hits(rows, hits) && final(store).spec_matches() == apply_upserts(
                        Seq::<MatchRow>::empty(),
                        rows,
                    )
            },
            final(store).spec_files() == old(store).spec_files(),
            final(store).spec_reference_ids() == old(store).spec_reference_ids(),
            forall|x: i64| final(store).spec_vector(x) == old(store).spec_vector(x),
    {
        let files = copy_records(store.get_all_files());
        if files.len() == 0 {
            return Err(String::from_str(
                "No files found in database. Please scan a directory first.",
            ));
        }
        let matches = self.match_ids(hh_ids, &files, min_similarity, progress);
        let count = matches.len();
        let ghost hits = spec_all_hits(hh_ids@, old(store).spec_files(), min_similarity as int);
        let mut session = store.start_match_import();
        session.clear_all();
        let nm = matches.len();
        let mut k: usize = 0;
        while k < nm
            invariant
                nm == matches@.len(),
                0 <= k <= nm,
                results_are_hits(matches@, hits),
                session.spec_wipe_all(),
                session.spec_additions().len() == k,
                forall|q: int| 0 <= q < k ==> row_is_hit(#[trigger] session.spec_additions()[q], hits[q]),
            decreases nm - k,
        {
            let row = &matches[k];
            session.insert_match(row.hh_id.as_str(), row.file_id, row.similarity);
            proof {
                assert(session.spec_additions()[k as int] == session.spec_additions().last());
                assert(forall|q: int|
                    0 <= q < k ==> session.spec_additions()[q] == session.spec_additions().drop_last()[q]);
            }
            k = k + 1;
        }
        let ghost additions = session.spec_additions();
        session.commit(store);
        proof {
            assert(rows_are_hits(additions, hits));
            assert(final(store).spec_matches() == apply_upserts(Seq::<MatchRow>::empty(), additions));
        }
        Ok(count)
    }
}

/// Whether a stored row carries the given hit.
pub open spec fn row_is_hit(r: MatchRow, h: HitView) -> bool {
    &&& r.hh_id@ == h.hh_id
    &&& r.file_id == h.file_id
    &&& r.similarity as int == h.similarity
}

/// Whether a sequence of stored rows carries exactly a sequence of hits.
pub open spec fn rows_are_hits(rs: Seq<MatchRow>, hs: Seq<HitView>) -> bool {
    rs.len() == hs.len() && forall|k: int| 0 <= k < rs.len() ==> row_is_hit(rs[k], hs[k])
}

/// With no files there are no hits, whatever the identifiers.
proof fn lemma_all_hits_empty_files(ids: Seq<String>, threshold: int)
    ensures
        spec_all_hits(ids, Seq::<FileRecord>::empty(), threshold) == Seq::<HitView>::empty(),
    decreases ids.len(),
{
    if ids.len() == 0 {
    } else {
        lemma_all_hits_empty_files(ids.drop_last(), threshold);
        assert(spec_hits_for_id(ids.last()@, Seq::<FileRecord>::empty(), threshold)
            =~= Seq::<HitView>::empty());
        assert(spec_all_hits(ids, Seq::<FileRecord>::empty(), threshold) =~= Seq::<
            HitView,
        >::empty());
    }
}

/// A fresh copy of the file records, value for value.
pub fn copy_records(files: &Vec<FileRecord>) -> (r: Vec<FileRecord>)
    ensures
        r@ == files@,
{
    let mut r: Vec<FileRecord> = Vec::new();
    let n = files.len();
    let mut i: usize = 0;
    while i < n
        invariant
            n == files@.len(),
            0 <= i <= n,
            r@ =~= files@.take(i as int),
        decreases n - i,
    {
        let f = &files[i];
        let c = FileRecord {
            id: f.id,
            file_path: f.file_path.clone(),
            file_name: f.file_name.clone(),
        };
        assert(c == files@[i as int]);
        r.push(c);
        proof {
            assert(r@ =~= files@.take(i + 1));
        }
        i = i + 1;
    }
    proof {
        assert(files@.take(n as int) =~= files@);
    }
    r
}

} // verus!
