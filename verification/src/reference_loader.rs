//! Importing reference identifiers from tabular rows.
//!
//! A surrounding reader parses the file and hands over, per data row, the
//! value of the identifier column — or a marker for a missing column or an
//! unreadable row. The import trims each value, skips empties, inserts
//! fresh identifiers once, skips repeats silently, and commits everything
//! in one buffered session; a file without rows is refused before anything
//! is written. Row numbers in the issue list are one-based with the header
//! line first, so the first data row is line two.

use vstd::prelude::*;
use vstd::string::StrSliceExecFns;
use crate::progress::{spec_percent, spec_should_log};
use crate::store::{contains_str, Store};
use crate::text::{trim, trim_of};

verus! {

/// What the reader found in one data row, as far as the identifier column
/// is concerned.
pub enum CsvRow {
    Field(String),
    MissingField,
    Malformed,
}

/// Why a row was skipped.
#[derive(Debug, Clone, Copy, PartialEq, Eq, Structural)]
pub enum RowIssueKind {
    EmptyId,
    MissingColumn,
    MalformedRow,
}

/// One skipped row: its one-based line number (the header is line one) and
/// the reason.
#[derive(Debug, Clone, Copy, PartialEq, Eq, Structural)]
pub struct RowIssue {
    pub line: usize,
    pub kind: RowIssueKind,
}

/// A line number clamped to what a machine size can hold.
pub open spec fn spec_line_no(line: int) -> usize {
    if line > usize::MAX {
        usize::MAX
    } else {
        line as usize
    }
}

/// What one row contributes to the issue list.
pub open spec fn spec_row_issue(row: CsvRow, line: int) -> Seq<RowIssue> {
    match row {
        CsvRow::Field(s) => if trim_of(s@).len() == 0 {
            seq![RowIssue { line: spec_line_no(line), kind: RowIssueKind::EmptyId }]
        } else {
            Seq::empty()
        },
        CsvRow::MissingField => seq![
            RowIssue { line: spec_line_no(line), kind: RowIssueKind::MissingColumn },
        ],
        CsvRow::Malformed => seq![
            RowIssue { line: spec_line_no(line), kind: RowIssueKind::MalformedRow },
        ],
    }
}

/// The issues of the first `n` rows, in order.
pub open spec fn spec_issues(rows: Seq<CsvRow>, n: int) -> Seq<RowIssue>
    decreases n,
{
    if n <= 0 {
        Seq::empty()
    } else {
        spec_issues(rows, n - 1) + spec_row_issue(rows[n - 1], n + 1)
    }
}

/// The identifiers the first `n` rows add, in order: each row's trimmed
/// value, when it is non-empty and neither stored nor added before.
pub open spec fn spec_fresh_ids(rows: Seq<CsvRow>, have: Seq<Seq<char>>, n: int) -> Seq<Seq<char>>
    decreases n,
{
    if n <= 0 {
        Seq::empty()
    } else {
        let prev = spec_fresh_ids(rows, have, n - 1);
        match rows[n - 1] {
            CsvRow::Field(s) => {
                let t = trim_of(s@);
                if t.len() > 0 && !have.contains(t) && !prev.contains(t) {
                    prev.push(t)
                } else {
                    prev
                }
            },
            CsvRow::MissingField => prev,
            CsvRow::Malformed => prev,
        }
    }
}

/// The views of a sequence of strings.
pub open spec fn string_views(ss: Seq<String>) -> Seq<Seq<char>> {
    ss.map_values(|s: String| s@)
}

/// Membership among strings is membership among their views.
proof fn lemma_contains_str_views(ss: Seq<String>, t: Seq<char>)
    ensures
        contains_str(ss, t) <==> string_views(ss).contains(t),
{
    if contains_str(ss, t) {
        let i = choose|i: int| 0 <= i < ss.len() && ss[i]@ == t;
        assert(string_views(ss)[i] == t);
    }
    if string_views(ss).contains(t) {
        let i = choose|i: int| 0 <= i < string_views(ss).len() && string_views(ss)[i] == t;
        assert(ss[i]@ == t);
    }
}

/// The outcome of one import.
#[derive(Debug, Clone)]
pub struct ReferenceLoadReport {
    pub processed: usize,
    pub inserted: usize,
    pub skipped: usize,
    pub errors: Vec<RowIssue>,
}

/// The reference-identifier importer.
pub struct ReferenceLoader {
}

impl ReferenceLoader {
    pub fn new() -> (r: Self) {
        ReferenceLoader {  }
    }

    /// Import the rows of one file: every row counts as processed; each
    /// identifier value is trimmed; an empty value, a missing column and
    /// an unreadable row are skipped with an issue; a repeated identifier
    /// is skipped silently; the fresh identifiers are appended to the
    /// store in one commit. A file without rows is refused and the store
    /// left untouched.
    pub fn load_rows(&self, rows: &Vec<CsvRow>, store: &mut Store) -> (r: Result<
        ReferenceLoadReport,
        String,
    >)
        ensures
            r is Err <==> rows@.len() == 0,
            r is Err ==> final(store).spec_reference_ids() == old(store).spec_reference_ids(),
            final(store).spec_files() == old(store).spec_files(),
            final(store).spec_matches() == old(store).spec_matches(),
            forall|x: i64| final(store).spec_vector(x) == old(store).spec_vector(x),
            r matches Ok(rep) ==> {
                let fresh = spec_fresh_ids(
                    rows@,
                    string_views(old(store).spec_reference_ids()),
                    rows@.len() as int,
                );
                &&& rep.processed == rows@.len()
                &&& rep.inserted == fresh.len()
                &&& rep.inserted + rep.skipped == rep.processed
                &&& rep.errors@ == spec_issues(rows@, rows@.len() as int)
                &&& string_views(final(store).spec_reference_ids()) == string_views(
                    old(store).spec_reference_ids(),
                ) + fresh
            },
    {
        let n = rows.len();
        if n == 0 {
            return Err(String::from_str("CSV file did not contain any records"));
        }
        let ghost have0 = string_views(store.spec_reference_ids());
        let mut session = store.start_reference_import();
        let mut inserted: usize = 0;
        let mut skipped: usize = 0;
        let mut errors: Vec<RowIssue> = Vec::new();
        let mut i: usize = 0;
        while i < n
            invariant
                n == rows@.len(),
                n >= 1,
                0 <= i <= n,
                *store == *old(store),
                have0 == string_views(store.spec_reference_ids()),
                session.spec_existing() == store.spec_reference_ids(),
                string_views(session.spec_pending()) =~= spec_fresh_ids(rows@, have0, i as int),
                inserted == spec_fresh_ids(rows@, have0, i as int).len(),
                inserted + skipped == i,
                errors@ =~= spec_issues(rows@, i as int),
            decreases n - i,
        {
            let row = &rows[i];
            let ghost pending_before = session.spec_pending();
            let ghost fresh_before = spec_fresh_ids(rows@, have0, i as int);
            match row {
                CsvRow::Field(s) => {
                    let t = trim(s.as_str());
                    if t.unicode_len() == 0 {
                        skipped = skipped + 1;
                        if i < usize::MAX - 1 {
                            errors.push(
                                RowIssue { line: i + 2, kind: RowIssueKind::EmptyId },
                            );
                        } else {
                            errors.push(
                                RowIssue { line: usize::MAX, kind: RowIssueKind::EmptyId },
                            );
                        }
                    } else {
                        proof {
                            lemma_contains_str_views(session.spec_existing(), trim_of(s@));
                            lemma_contains_str_views(session.spec_pending(), trim_of(s@));
                        }
                        let fresh = session.insert(t);
                        if fresh {
                            inserted = inserted + 1;
                            proof {
                                assert(string_views(session.spec_pending()) =~= string_views(
                                    pending_before,
                                ).push(trim_of(s@)));
                            }
                        } else {
                            skipped = skipped + 1;
                        }
                    }
                },
                CsvRow::MissingField => {
                    skipped = skipped + 1;
                    if i < usize::MAX - 1 {
                        errors.push(
                            RowIssue { line: i + 2, kind: RowIssueKind::MissingColumn },
                        );
                    } else {
                        errors.push(
                            RowIssue { line: usize::MAX, kind: RowIssueKind::MissingColumn },
                        );
                    }
                },
                CsvRow::Malformed => {
                    skipped = skipped + 1;
                    if i < usize::MAX - 1 {
                        errors.push(
                            RowIssue { line: i + 2, kind: RowIssueKind::MalformedRow },
                        );
                    } else {
                        errors.push(
                            RowIssue { line: usize::MAX, kind: RowIssueKind::MalformedRow },
                        );
                    }
                },
            }
            i = i + 1;
        }
        let ghost fresh_all = spec_fresh_ids(rows@, have0, n as int);
        let ghost pending_final = session.spec_pending();
        session.commit(store);
        proof {
            assert(string_views(store.spec_reference_ids()) =~= string_views(
                old(store).spec_reference_ids(),
            ) + string_views(pending_final));
        }
        Ok(ReferenceLoadReport { processed: n, inserted, skipped, errors })
    }
}

/// Whether a header cell names the identifier column: it reads `hh_id`
/// once trimmed, letter case ignored.
pub open spec fn spec_is_hh_id_header(h: Seq<char>) -> bool {
    ascii_ieq(trim_of(h), seq!['h', 'h', '_', 'i', 'd'])
}

/// A character with an ASCII upper-case letter folded to lower case.
pub open spec fn ascii_lower_char(c: char) -> char {
    if 'A' <= c && c <= 'Z' {
        ((c as u8) + 32) as char
    } else {
        c
    }
}

/// Character-wise equality up to ASCII case.
pub open spec fn ascii_ieq(a: Seq<char>, b: Seq<char>) -> bool {
    a.len() == b.len() && forall|j: int|
        0 <= j < a.len() ==> ascii_lower_char(#[trigger] a[j]) == ascii_lower_char(b[j])
}

/// Whether one header cell names the identifier column.
pub fn header_is_hh_id(h: &str) -> (r: bool)
    ensures
        r == spec_is_hh_id_header(h@),
{
    let t = trim(h);
    let want: Vec<char> = vec!['h', 'h', '_', 'i', 'd'];
    let n = t.unicode_len();
    if n != want.len() {
        return false;
    }
    let mut j: usize = 0;
    while j < n
        invariant
            n == t@.len(),
            n == want@.len(),
            t@ == trim_of(h@),
            want@ =~= seq!['h', 'h', '_', 'i', 'd'],
            0 <= j <= n,
            forall|k: int|
                0 <= k < j ==> ascii_lower_char(#[trigger] t@[k]) == ascii_lower_char(want@[k]),
        decreases n - j,
    {
        let c = t.get_char(j);
        let lc: char = if 'A' <= c && c <= 'Z' {
            ((c as u8) + 32) as char
        } else {
            c
        };
        let w = want[j];
        let lw: char = if 'A' <= w && w <= 'Z' {
            ((w as u8) + 32) as char
        } else {
            w
        };
        if lc != lw {
            return false;
        }
        j = j + 1;
    }
    true
}

/// The index of the first header cell naming the identifier column.
pub fn find_hh_id_column(headers: &Vec<String>) -> (r: Option<usize>)
    ensures
        match r {
            Some(i) => i < headers@.len() && spec_is_hh_id_header(headers@[i as int]@) && forall|
                k: int,
            |
                0 <= k < i ==> !spec_is_hh_id_header((#[trigger] headers@[k])@),
            None => forall|k: int|
                0 <= k < headers@.len() ==> !spec_is_hh_id_header((#[trigger] headers@[k])@),
        },
{
    let n = headers.len();
    let mut i: usize = 0;
    while i < n
        invariant
            n == headers@.len(),
            0 <= i <= n,
            forall|k: int| 0 <= k < i ==> !spec_is_hh_id_header((#[trigger] headers@[k])@),
        decreases n - i,
    {
        if header_is_hh_id(headers[i].as_str()) {
            return Some(i);
        }
        i = i + 1;
    }
    None
}

/// Turns byte-level read progress into occasional percentage steps, used
/// when no caller-supplied sink is watching an import.
pub struct CsvLogger {
    path: String,
    total_hint: u64,
    last_percent: Option<u8>,
}

impl CsvLogger {
    pub closed spec fn spec_path(&self) -> Seq<char> {
        self.path@
    }

    pub closed spec fn spec_total_hint(&self) -> int {
        self.total_hint as int
    }

    pub closed spec fn spec_last_percent(&self) -> Option<int> {
        match self.last_percent {
            Some(p) => Some(p as int),
            None => None,
        }
    }

    pub fn new(path: &str, total_hint: u64) -> (r: CsvLogger)
        ensures
            r.spec_total_hint() == total_hint as int,
            r.spec_last_percent() is None,
            r.spec_path() == path@,
    {
        CsvLogger { path: path.to_owned(), total_hint, last_percent: None }
    }

    /// The percentage of the file read, when it is worth logging: the
    /// reported total is floored at the size hint and at one.
    pub fn report(&mut self, rows: usize, bytes_read: u64, reported_total: u64) -> (r: Option<
        usize,
    >)
        ensures
            ({
                let total = {
                    let t = if reported_total > old(self).spec_total_hint() {
                        reported_total as int
                    } else {
                        old(self).spec_total_hint()
                    };
                    if t < 1 {
                        1int
                    } else {
                        t
                    }
                };
                let percent = spec_percent(bytes_read as int, total);
                if spec_should_log(old(self).spec_last_percent(), percent) {
                    &&& r == Some(percent as usize)
                    &&& final(self).spec_last_percent() == Some(percent)
                } else {
                    &&& r is None
                    &&& final(self).spec_last_percent() == old(self).spec_last_percent()
                }
            }),
            final(self).spec_total_hint() == old(self).spec_total_hint(),
            final(self).spec_path() == old(self).spec_path(),
    {
        let t0: u64 = if reported_total > self.total_hint {
            reported_total
        } else {
            self.total_hint
        };
        let total: u64 = if t0 < 1 {
            1
        } else {
            t0
        };
        let percent = percent_of_u64(bytes_read, total);
        let should = match self.last_percent {
            Some(prev) => percent >= prev as usize + 5 || (percent == 100 && percent
                != prev as usize),
            None => true,
        };
        if should {
            self.last_percent = Some(percent as u8);
            Some(percent)
        } else {
            None
        }
    }
}

/// Integer percentage over wide counters, rounded half away from zero and
/// capped at 100.
fn percent_of_u64(done: u64, total: u64) -> (r: usize)
    ensures
        r == spec_percent(done as int, total as int),
        0 <= r <= 100,
{
    if total == 0 {
        return 100;
    }
    let d = done as u128;
    let t = total as u128;
    let p = (d * 200 + t) / (2 * t);
    if p > 100 {
        100
    } else {
        p as usize
    }
}

} // verus!
