//! Interactive search of one identifier against every stored file.
//!
//! Each file is scored on its lowercased name, and — when that does not
//! reach the threshold — on its name with a TIFF extension stripped. The
//! hits are returned sorted by similarity, highest first, and can be
//! persisted as that identifier's cached matches without touching any
//! other identifier's rows.

use vstd::prelude::*;
use vstd::string::StrSliceExecFns;
use vstd::multiset::Multiset;
use crate::fuzzy::{fuzzy_raw, FuzzyScorer};
use crate::matcher::{
    normalize_score,
    perfect_score,
    spec_normalize_score,
    spec_perfect,
    spec_strip_tiff,
    strip_tiff_suffix,
};
use crate::store::{
    match_index_of,
    row_matches,
    spec_file_id_of,
    without_id,
    FileRecord,
    MatchRow,
    SearchResult,
    Store,
};
use crate::text::{lower_of, lowercase};

verus! {

/// One search hit, in spec form.
pub struct SearchHitView {
    pub file_name: Seq<char>,
    pub file_path: Seq<char>,
    pub similarity: int,
}

/// The views of a sequence of search results.
pub open spec fn result_views(rs: Seq<SearchResult>) -> Seq<SearchHitView> {
    rs.map_values(
        |r: SearchResult| SearchHitView {
            file_name: r.file_name@,
            file_path: r.file_path@,
            similarity: r.similarity_score as int,
        },
    )
}

/// The score a file earns for a needle, if it reaches the threshold: the
/// lowercased full name is tried first, and the lowercased stem only when
/// the full name does not qualify.
pub open spec fn spec_search_score(name: Seq<char>, needle: Seq<char>, perfect: int, thr: int) -> Option<int> {
    let lowered = lower_of(name);
    let primary = match fuzzy_raw(lowered, needle) {
        Some(s) => {
            let v = spec_normalize_score(s as int, lowered.len() as int, needle.len() as int, perfect);
            if v >= thr {
                Some(v)
            } else {
                None::<int>
            }
        },
        None => None::<int>,
    };
    if primary is Some {
        primary
    } else {
        match spec_strip_tiff(name) {
            Some(stem) => {
                let ls = lower_of(stem);
                match fuzzy_raw(ls, needle) {
                    Some(s) => {
                        let v = spec_normalize_score(
                            s as int,
                            ls.len() as int,
                            needle.len() as int,
                            perfect,
                        );
                        if v >= thr {
                            Some(v)
                        } else {
                            None::<int>
                        }
                    },
                    None => None::<int>,
                }
            },
            None => None::<int>,
        }
    }
}

/// The qualifying hits over the files, in file order.
pub open spec fn spec_search_hits(
    files: Seq<FileRecord>,
    needle: Seq<char>,
    perfect: int,
    thr: int,
) -> Seq<SearchHitView>
    decreases files.len(),
{
    if files.len() == 0 {
        Seq::empty()
    } else {
        let rest = spec_search_hits(files.drop_last(), needle, perfect, thr);
        let f = files.last();
        match spec_search_score(f.file_name@, needle, perfect, thr) {
            Some(v) => rest.push(
                SearchHitView { file_name: f.file_name@, file_path: f.file_path@, similarity: v },
            ),
            None => rest,
        }
    }
}


/// Whether some stored file carries the given path.
pub open spec fn path_known(files: Seq<FileRecord>, path: Seq<char>) -> bool {
    exists|i: int| 0 <= i < files.len() && (#[trigger] files[i]).file_path@ == path
}

/// Whether every result's path belongs to some stored file.
pub open spec fn all_paths_known(files: Seq<FileRecord>, results: Seq<SearchResult>) -> bool {
    forall|k: int| 0 <= k < results.len() ==> path_known(files, (#[trigger] results[k]).file_path@)
}

/// The score assigned to file id `fid` by the last of the first `n`
/// results whose path maps to it, if any does. Persisting upserts in
/// order, so a later result for the same file wins.
pub open spec fn spec_final_score(
    files: Seq<FileRecord>,
    results: Seq<SearchResult>,
    n: int,
    fid: i64,
) -> Option<u32>
    decreases n,
{
    if n <= 0 {
        None::<u32>
    } else if spec_file_id_of(files, results[n - 1].file_path@) == fid {
        Some(results[n - 1].similarity_score)
    } else {
        spec_final_score(files, results, n - 1, fid)
    }
}

/// Whether the searched identifier has a row with the given file id.
pub open spec fn hh_row_present(m: Seq<MatchRow>, hh: Seq<char>, fid: i64) -> bool {
    exists|j: int| 0 <= j < m.len() && (#[trigger] m[j]).hh_id@ == hh && m[j].file_id == fid
}

/// Whether every row of the searched identifier carries the score the last
/// of the first `n` results gave its file id.
pub open spec fn hh_rows_scored(
    fs: Seq<FileRecord>,
    results: Seq<SearchResult>,
    hh: Seq<char>,
    m: Seq<MatchRow>,
    n: int,
) -> bool {
    forall|j: int|
        0 <= j < m.len() && (#[trigger] m[j]).hh_id@ == hh ==> spec_final_score(
            fs,
            results,
            n,
            m[j].file_id,
        ) == Some(m[j].similarity)
}

/// Whether each of the first `n` results has a row under its file's id.
pub open spec fn results_stored(
    fs: Seq<FileRecord>,
    results: Seq<SearchResult>,
    hh: Seq<char>,
    m: Seq<MatchRow>,
    n: int,
) -> bool {
    forall|q: int|
        0 <= q < n ==> hh_row_present(m, hh, spec_file_id_of(fs, (#[trigger] results[q]).file_path@))
}

/// Whether no two rows of the searched identifier share a file id.
pub open spec fn hh_rows_unique(m: Seq<MatchRow>, hh: Seq<char>) -> bool {
    forall|j1: int, j2: int|
        0 <= j1 < j2 < m.len() && (#[trigger] m[j1]).hh_id@ == hh && (#[trigger] m[j2]).hh_id@
            == hh ==> m[j1].file_id != m[j2].file_id
}

/// The single-identifier searcher.
pub struct Searcher {
    matcher: FuzzyScorer,
}

impl Searcher {
    pub fn new() -> (r: Searcher) {
        Searcher { matcher: FuzzyScorer::new() }
    }

    /// Score one identifier against every stored file and return the hits
    /// at or above the threshold, sorted by similarity, highest first. The
    /// hits are exactly the qualifying files — the sort is a permutation.
    pub fn search_single_id(&self, hh_id: &str, store: &Store, min_similarity: u32) -> (r: Result<
        Vec<SearchResult>,
        String,
    >)
        ensures
            r is Ok,
            r matches Ok(v) ==> {
                let needle = lower_of(hh_id@);
                let hits = spec_search_hits(
                    store.spec_files(),
                    needle,
                    spec_perfect(needle),
                    min_similarity as int,
                );
                &&& result_views(v@).to_multiset() == hits.to_multiset()
                &&& forall|i: int, j: int|
                    0 <= i < j < v@.len() ==> v@[i].similarity_score >= v@[j].similarity_score
            },
    {
        let files = store.get_all_files();
        let needle = lowercase(hh_id);
        let perfect = perfect_score(&self.matcher, needle.as_str());
        let ghost thr = min_similarity as int;
        let mut found: Vec<SearchResult> = Vec::new();
        let n = files.len();
        let mut i: usize = 0;
        while i < n
            invariant
                n == files@.len(),
                files@ == store.spec_files(),
                0 <= i <= n,
                needle@ == lower_of(hh_id@),
                perfect as int == spec_perfect(needle@),
                thr == min_similarity as int,
                result_views(found@) =~= spec_search_hits(
                    files@.take(i as int),
                    needle@,
                    perfect as int,
                    thr,
                ),
            decreases n - i,
        {
            let f = &files[i];
            let ghost before = found@;
            let name_lower = lowercase(f.file_name.as_str());
            let mut hit: Option<u32> = None;
            match self.matcher.score(name_lower.as_str(), needle.as_str()) {
                Some(score) => {
                    let normalized = normalize_score(
                        score,
                        name_lower.as_str(),
                        needle.as_str(),
                        perfect,
                    );
                    if normalized >= min_similarity {
                        hit = Some(normalized);
                    }
                },
                None => {},
            }
            if hit.is_none() {
                match strip_tiff_suffix(f.file_name.as_str()) {
                    Some(stem) => {
                        let stem_lower = lowercase(stem);
                        match self.matcher.score(stem_lower.as_str(), needle.as_str()) {
                            Some(score) => {
                                let normalized = normalize_score(
                                    score,
                                    stem_lower.as_str(),
                                    needle.as_str(),
                                    perfect,
                                );
                                if normalized >= min_similarity {
                                    hit = Some(normalized);
                                }
                            },
                            None => {},
                        }
                    },
                    None => {},
                }
            }
            proof {
                assert(hit matches Some(v) ==> spec_search_score(
                    f.file_name@,
                    needle@,
                    perfect as int,
                    thr,
                ) == Some(v as int));
                assert(hit is None ==> spec_search_score(
                    f.file_name@,
                    needle@,
                    perfect as int,
                    thr,
                ) is None);
            }
            match hit {
                Some(v) => {
                    let sr = SearchResult {
                        file_name: f.file_name.clone(),
                        file_path: f.file_path.clone(),
                        similarity_score: v,
                    };
                    found.push(sr);
                },
                None => {},
            }
            proof {
                assert(files@.take(i + 1).drop_last() =~= files@.take(i as int));
                assert(files@.take(i + 1).last() == files@[i as int]);
                assert(result_views(found@) =~= spec_search_hits(
                    files@.take(i + 1),
                    needle@,
                    perfect as int,
                    thr,
                ));
            }
            i = i + 1;
        }
        proof {
            assert(files@.take(n as int) =~= files@);
        }
        Ok(sort_results_desc(found))
    }

    /// Persist a set of search hits as one identifier's cached matches:
    /// prior matches of that identifier are cleared, and each hit is
    /// upserted under its file's id, so afterwards the identifier's rows
    /// are exactly the results' (file id, score) pairs, a later result
    /// winning on a repeated file. Matches of every other identifier stay
    /// untouched, whether or not every hit's path is still known.
    pub fn store_results(&self, hh_id: &str, results: &Vec<SearchResult>, store: &mut Store) -> (r:
        Result<(), String>)
        ensures
            without_id(final(store).spec_matches(), hh_id@) == without_id(
                old(store).spec_matches(),
                hh_id@,
            ),
            final(store).spec_files() == old(store).spec_files(),
            final(store).spec_reference_ids() == old(store).spec_reference_ids(),
            forall|x: i64| final(store).spec_vector(x) == old(store).spec_vector(x),
            r is Ok <==> all_paths_known(old(store).spec_files(), results@),
            r is Ok ==> hh_rows_scored(
                old(store).spec_files(),
                results@,
                hh_id@,
                final(store).spec_matches(),
                results@.len() as int,
            ),
            r is Ok ==> results_stored(
                old(store).spec_files(),
                results@,
                hh_id@,
                final(store).spec_matches(),
                results@.len() as int,
            ),
            r is Ok ==> hh_rows_unique(final(store).spec_matches(), hh_id@),
    {
        let ghost fs = old(store).spec_files();
        store.clear_matches_for_id(hh_id);
        proof {
            lemma_without_id_of_filter(old(store).spec_matches(), hh_id@);
            assert forall|j: int| 0 <= j < store.spec_matches().len() implies (
            #[trigger] store.spec_matches()[j]).hh_id@ != hh_id@ by {
                lemma_without_id_excludes(old(store).spec_matches(), hh_id@, j);
            }
        }
        let n = results.len();
        let mut k: usize = 0;
        while k < n
            invariant
                n == results@.len(),
                0 <= k <= n,
                fs == old(store).spec_files(),
                store.spec_files() == old(store).spec_files(),
                store.spec_reference_ids() == old(store).spec_reference_ids(),
                forall|x: i64| store.spec_vector(x) == old(store).spec_vector(x),
                without_id(store.spec_matches(), hh_id@) == without_id(
                    old(store).spec_matches(),
                    hh_id@,
                ),
                forall|q: int|
                    0 <= q < k ==> path_known(
                        old(store).spec_files(),
                        (#[trigger] results@[q]).file_path@,
                    ),
                hh_rows_scored(fs, results@, hh_id@, store.spec_matches(), k as int),
                results_stored(fs, results@, hh_id@, store.spec_matches(), k as int),
                hh_rows_unique(store.spec_matches(), hh_id@),
            decreases n - k,
        {
            let res = &results[k];
            match store.get_file_id(res.file_path.as_str()) {
                Some(file_id) => {
                    proof {
                        let i1 = choose|i: int|
                            0 <= i < store.spec_files().len() && store.spec_files()[i].file_path@
                                == res.file_path@ && store.spec_files()[i].id == file_id;
                        assert(old(store).spec_files()[i1].file_path@ == results@[k as int].file_path@);
                        assert(path_known(old(store).spec_files(), results@[k as int].file_path@));
                        assert(file_id == spec_file_id_of(fs, results@[k as int].file_path@));
                    }
                    let ghost rows0 = store.spec_matches();
                    let ghost fidk = spec_file_id_of(fs, results@[k as int].file_path@);
                    store.insert_match(hh_id, file_id, res.similarity_score);
                    proof {
                        lemma_without_id_upsert(
                            rows0,
                            store.spec_matches(),
                            hh_id@,
                            file_id,
                            res.similarity_score,
                        );
                        let rows1 = store.spec_matches();
                        let simk = results@[k as int].similarity_score;
                        assert forall|fid: i64| true implies #[trigger] spec_final_score(
                            fs,
                            results@,
                            k as int + 1,
                            fid,
                        ) == if fid == fidk {
                            Some(simk)
                        } else {
                            spec_final_score(fs, results@, k as int, fid)
                        } by {}
                        let j0 = match_index_of(rows0, hh_id@, file_id);
                        if j0 >= 0 {
                            lemma_match_index_in_range(rows0, hh_id@, file_id);
                            assert forall|j: int|
                                0 <= j < rows1.len() implies rows1[j].file_id == rows0[j].file_id
                                && ((#[trigger] rows1[j]).hh_id@ == hh_id@ <==> rows0[j].hh_id@
                                == hh_id@) by {
                                if j != j0 {
                                    assert(rows1[j] == rows0[j]);
                                }
                            }
                            assert forall|j: int|
                                0 <= j < rows1.len() && (#[trigger] rows1[j]).hh_id@ == hh_id@
                                implies spec_final_score(fs, results@, k as int + 1, rows1[j].file_id)
                                == Some(rows1[j].similarity) by {
                                if j == j0 {
                                    assert(rows1[j0].file_id == file_id);
                                    assert(rows1[j0].similarity == simk);
                                } else {
                                    assert(rows1[j] == rows0[j]);
                                    if rows0[j].file_id == file_id {
                                        assert(rows0[j0].hh_id@ == hh_id@ && rows0[j0].file_id
                                            == file_id);
                                        assert(false);
                                    }
                                }
                            }
                            assert(hh_rows_scored(fs, results@, hh_id@, rows1, k as int + 1));
                            assert forall|q: int|
                                0 <= q < k as int + 1 implies hh_row_present(
                                rows1,
                                hh_id@,
                                spec_file_id_of(fs, (#[trigger] results@[q]).file_path@),
                            ) by {
                                if q < k as int {
                                    assert(hh_row_present(
                                        rows0,
                                        hh_id@,
                                        spec_file_id_of(fs, results@[q].file_path@),
                                    ));
                                    let jw = choose|j: int|
                                        0 <= j < rows0.len() && (#[trigger] rows0[j]).hh_id@
                                            == hh_id@ && rows0[j].file_id == spec_file_id_of(
                                            fs,
                                            results@[q].file_path@,
                                        );
                                    assert(rows1[jw].hh_id@ == hh_id@ && rows1[jw].file_id
                                        == rows0[jw].file_id);
                                } else {
                                    assert(rows1[j0].hh_id@ == hh_id@ && rows1[j0].file_id
                                        == fidk);
                                }
                            }
                            assert(results_stored(fs, results@, hh_id@, rows1, k as int + 1));
                            assert(hh_rows_unique(rows1, hh_id@));
                        } else {
                            assert forall|j: int| 0 <= j < rows0.len() implies !row_matches(
                                rows0[j],
                                hh_id@,
                                file_id,
                            ) by {
                                lemma_match_index_none_converse(rows0, hh_id@, file_id, j);
                            }
                            assert(rows1.len() == rows0.len() + 1);
                            assert(rows1.last().hh_id@ == hh_id@ && rows1.last().file_id
                                == file_id && rows1.last().similarity == simk);
                            assert forall|j: int|
                                0 <= j < rows1.len() && (#[trigger] rows1[j]).hh_id@ == hh_id@
                                implies spec_final_score(fs, results@, k as int + 1, rows1[j].file_id)
                                == Some(rows1[j].similarity) by {
                                if j < rows0.len() {
                                    assert(rows1[j] == rows0[j]);
                                    assert(!row_matches(rows0[j], hh_id@, file_id));
                                    assert(rows0[j].file_id != file_id);
                                }
                            }
                            assert(hh_rows_scored(fs, results@, hh_id@, rows1, k as int + 1));
                            assert forall|q: int|
                                0 <= q < k as int + 1 implies hh_row_present(
                                rows1,
                                hh_id@,
                                spec_file_id_of(fs, (#[trigger] results@[q]).file_path@),
                            ) by {
                                if q < k as int {
                                    assert(hh_row_present(
                                        rows0,
                                        hh_id@,
                                        spec_file_id_of(fs, results@[q].file_path@),
                                    ));
                                    let jw = choose|j: int|
                                        0 <= j < rows0.len() && (#[trigger] rows0[j]).hh_id@
                                            == hh_id@ && rows0[j].file_id == spec_file_id_of(
                                            fs,
                                            results@[q].file_path@,
                                        );
                                    assert(rows1[jw] == rows0[jw]);
                                } else {
                                    assert(rows1[rows0.len() as int].hh_id@ == hh_id@
                                        && rows1[rows0.len() as int].file_id == fidk);
                                }
                            }
                            assert(results_stored(fs, results@, hh_id@, rows1, k as int + 1));
                            assert forall|j1: int, j2: int|
                                0 <= j1 < j2 < rows1.len() && (#[trigger] rows1[j1]).hh_id@
                                == hh_id@ && (#[trigger] rows1[j2]).hh_id@ == hh_id@
                                implies rows1[j1].file_id != rows1[j2].file_id by {
                                if j2 < rows0.len() {
                                    assert(rows1[j1] == rows0[j1] && rows1[j2] == rows0[j2]);
                                } else {
                                    assert(rows1[j1] == rows0[j1]);
                                    assert(!row_matches(rows0[j1], hh_id@, file_id));
                                }
                            }
                            assert(hh_rows_unique(rows1, hh_id@));
                        }
                    }
                },
                None => {
                    proof {
                        if all_paths_known(old(store).spec_files(), results@) {
                            assert(path_known(
                                old(store).spec_files(),
                                results@[k as int].file_path@,
                            ));
                            let i0 = choose|i: int|
                                0 <= i < old(store).spec_files().len() && (#[trigger] old(
                                    store,
                                ).spec_files()[i]).file_path@ == results@[k as int].file_path@;
                            assert(store.spec_files()[i0].file_path@ == res.file_path@);
                            assert(false);
                        }
                    }
                    return Err(String::from_str("Failed to fetch file id for a search result"));
                },
            }
            k = k + 1;
        }
        proof {
            assert(all_paths_known(old(store).spec_files(), results@));
            assert(k as int == results@.len() as int);
        }
        Ok(())
    }
}

/// Clearing one identifier's rows leaves the other identifiers' rows as
/// they were.
proof fn lemma_without_id_of_filter(rows: Seq<crate::store::MatchRow>, hh: Seq<char>)
    ensures
        without_id(without_id(rows, hh), hh) == without_id(rows, hh),
    decreases rows.len(),
{
    reveal(Seq::filter);
    if rows.len() == 0 {
    } else {
        lemma_without_id_of_filter(rows.drop_last(), hh);
        if rows.last().hh_id@ != hh {
            assert(without_id(rows, hh) == without_id(rows.drop_last(), hh).push(rows.last()));
            assert(without_id(rows, hh).drop_last() =~= without_id(rows.drop_last(), hh));
            assert(without_id(without_id(rows, hh), hh) == without_id(
                without_id(rows.drop_last(), hh),
                hh,
            ).push(rows.last()));
        }
    }
}



/// Where no row carries a key, the first-index scan said so: -1 means no
/// row matches.
proof fn lemma_match_index_none_converse(
    rows: Seq<MatchRow>,
    hh: Seq<char>,
    file_id: i64,
    j: int,
)
    requires
        match_index_of(rows, hh, file_id) == -1,
        0 <= j < rows.len(),
    ensures
        !row_matches(rows[j], hh, file_id),
    decreases rows.len(),
{
    if row_matches(rows[0], hh, file_id) {
        assert(match_index_of(rows, hh, file_id) == 0);
    }
    if j > 0 {
        let rest = rows.drop_first();
        if match_index_of(rest, hh, file_id) >= 0 {
            assert(match_index_of(rows, hh, file_id) >= 0);
        }
        assert(rest[j - 1] == rows[j]);
        lemma_match_index_none_converse(rest, hh, file_id, j - 1);
    }
}

/// Every row that clearing one identifier leaves behind belongs to
/// another identifier.
proof fn lemma_without_id_excludes(rows: Seq<MatchRow>, hh: Seq<char>, j: int)
    requires
        0 <= j < without_id(rows, hh).len(),
    ensures
        without_id(rows, hh)[j].hh_id@ != hh,
    decreases rows.len(),
{
    reveal(Seq::filter);
    if rows.len() == 0 {
    } else {
        let prev = without_id(rows.drop_last(), hh);
        if rows.last().hh_id@ != hh {
            if j < prev.len() {
                lemma_without_id_excludes(rows.drop_last(), hh, j);
            }
        } else {
            lemma_without_id_excludes(rows.drop_last(), hh, j);
        }
    }
}

/// Upserting a row of one identifier does not change the other
/// identifiers' rows.
proof fn lemma_without_id_upsert(
    rows0: Seq<crate::store::MatchRow>,
    rows1: Seq<crate::store::MatchRow>,
    hh: Seq<char>,
    file_id: i64,
    similarity: u32,
)
    requires
        ({
            let j = crate::store::match_index_of(rows0, hh, file_id);
            if j >= 0 {
                &&& rows1.len() == rows0.len()
                &&& forall|k: int| 0 <= k < rows0.len() && k != j ==> rows1[k] == rows0[k]
                &&& crate::store::row_matches(rows1[j], hh, file_id)
            } else {
                &&& rows1.len() == rows0.len() + 1
                &&& forall|k: int| 0 <= k < rows0.len() ==> rows1[k] == rows0[k]
                &&& crate::store::row_matches(rows1.last(), hh, file_id)
            }
        }),
    ensures
        without_id(rows1, hh) == without_id(rows0, hh),
{
    let j = crate::store::match_index_of(rows0, hh, file_id);
    if j >= 0 {
        lemma_match_index_in_range(rows0, hh, file_id);
        lemma_without_id_update(rows0, rows1, hh, j);
    } else {
        assert(rows1.drop_last() =~= rows0);
        reveal(Seq::filter);
        assert(without_id(rows1, hh) == without_id(rows0, hh));
    }
}

/// A found index lies in range and its row carries the identifier.
proof fn lemma_match_index_in_range(rows: Seq<crate::store::MatchRow>, hh: Seq<char>, file_id: i64)
    requires
        crate::store::match_index_of(rows, hh, file_id) >= 0,
    ensures
        crate::store::match_index_of(rows, hh, file_id) < rows.len(),
        crate::store::row_matches(
            rows[crate::store::match_index_of(rows, hh, file_id)],
            hh,
            file_id,
        ),
    decreases rows.len(),
{
    if rows.len() == 0 {
    } else if crate::store::row_matches(rows[0], hh, file_id) {
    } else {
        lemma_match_index_in_range(rows.drop_first(), hh, file_id);
        assert(rows.drop_first()[crate::store::match_index_of(rows.drop_first(), hh, file_id)]
            == rows[crate::store::match_index_of(rows, hh, file_id)]);
    }
}

/// Replacing a row that carries the identifier with another row carrying
/// it does not change the other identifiers' rows.
proof fn lemma_without_id_update(
    rows0: Seq<crate::store::MatchRow>,
    rows1: Seq<crate::store::MatchRow>,
    hh: Seq<char>,
    j: int,
)
    requires
        0 <= j < rows0.len(),
        rows1.len() == rows0.len(),
        forall|k: int| 0 <= k < rows0.len() && k != j ==> rows1[k] == rows0[k],
        rows0[j].hh_id@ == hh,
        rows1[j].hh_id@ == hh,
    ensures
        without_id(rows1, hh) == without_id(rows0, hh),
    decreases rows0.len(),
{
    reveal(Seq::filter);
    if rows0.len() == 0 {
    } else if j == rows0.len() - 1 {
        assert(rows1.drop_last() =~= rows0.drop_last());
    } else {
        assert(forall|k: int|
            0 <= k < rows0.drop_last().len() && k != j ==> rows1.drop_last()[k]
                == rows0.drop_last()[k]);
        assert(rows1.drop_last()[j] == rows1[j]);
        assert(rows0.drop_last()[j] == rows0[j]);
        lemma_without_id_update(rows0.drop_last(), rows1.drop_last(), hh, j);
        assert(rows1.last() == rows0.last());
    }
}

/// Sort search results by similarity, highest first: repeatedly move a
/// largest remaining hit to the output, so the result is a permutation of
/// the input.
fn sort_results_desc(input: Vec<SearchResult>) -> (r: Vec<SearchResult>)
    ensures
        forall|i: int, j: int|
            0 <= i < j < r@.len() ==> r@[i].similarity_score >= r@[j].similarity_score,
        result_views(r@).to_multiset() == result_views(input@).to_multiset(),
{
    broadcast use vstd::seq_lib::group_to_multiset_ensures;
    broadcast use vstd::multiset::group_multiset_axioms;

    let ghost orig = input@;
    let mut rest = input;
    let mut out: Vec<SearchResult> = Vec::new();
    while rest.len() > 0
        invariant
            forall|i: int, j: int|
                0 <= i < j < out@.len() ==> out@[i].similarity_score >= out@[j].similarity_score,
            forall|a: int, b: int|
                0 <= a < out@.len() && 0 <= b < rest@.len() ==> out@[a].similarity_score
                    >= rest@[b].similarity_score,
            result_views(out@).to_multiset().add(result_views(rest@).to_multiset())
                =~= result_views(orig).to_multiset(),
        decreases rest@.len(),
    {
        let m = rest.len();
        let mut mi: usize = 0;
        let mut bi: usize = 1;
        while bi < m
            invariant
                m == rest@.len(),
                0 <= mi < m,
                1 <= bi <= m,
                forall|b: int|
                    0 <= b < bi ==> rest@[mi as int].similarity_score >= rest@[b].similarity_score,
            decreases m - bi,
        {
            if rest[bi].similarity_score > rest[mi].similarity_score {
                mi = bi;
            }
            bi = bi + 1;
        }
        let ghost rest_before = rest@;
        let x = rest.remove(mi);
        let ghost out_before = out@;
        out.push(x);
        proof {
            assert(result_views(rest@) =~= result_views(rest_before).remove(mi as int));
            assert(result_views(out@) =~= result_views(out_before).push(
                result_views(rest_before)[mi as int],
            ));
            let xv = result_views(rest_before)[mi as int];
            assert(result_views(rest_before).contains(xv));
            vstd::seq_lib::to_multiset_contains(result_views(rest_before), xv);
            vstd::seq_lib::to_multiset_build(result_views(out_before), xv);
            vstd::seq_lib::to_multiset_remove(result_views(rest_before), mi as int);
            assert(result_views(rest_before).to_multiset().count(xv) > 0);
            assert(result_views(out_before).push(xv).to_multiset() =~= result_views(
                out_before,
            ).to_multiset().insert(xv));
            assert(result_views(out@).to_multiset() =~= result_views(out_before).to_multiset()
                .insert(xv));
            assert(result_views(rest_before).remove(mi as int).to_multiset() =~= result_views(
                rest_before,
            ).to_multiset().remove(xv));
            assert(result_views(rest@).to_multiset() =~= result_views(rest_before).to_multiset()
                .remove(xv));
            assert(result_views(out@).to_multiset().add(result_views(rest@).to_multiset())
                =~= result_views(out_before).to_multiset().add(
                result_views(rest_before).to_multiset(),
            ));
        }
    }
    proof {
        assert(result_views(rest@) =~= Seq::<SearchHitView>::empty());
        assert(result_views(rest@).to_multiset() =~= Multiset::<SearchHitView>::empty());
        assert(result_views(out@).to_multiset().add(Multiset::<SearchHitView>::empty())
            =~= result_views(out@).to_multiset());
    }
    out
}

} // verus!
