//! The persisted baseline: a tabular record-per-file form of a report.
//!
//! A baseline holds one header row with exactly eight named fields and
//! one row per file.  Loading fails closed: a wrong header set yields no
//! report at all, a row whose numeric fields do not read as decimal
//! counters is skipped, and the remaining rows are kept.

use vstd::prelude::*;

use crate::decimal::{parse_u64, spec_parse_u64, spec_u64_digits, u64_string};
use crate::report::{entries_map, insert_entry, stats_seq, total_of, FileEntry, Report};
use crate::stats::{spec_sum, stats_clamp, CodeStats};
use crate::strorder::str_equal;

verus! {

/// The eight field names of the persisted form, in column order.
pub open spec fn expected_headers() -> Seq<Seq<char>> {
    seq![
        "filename"@,
        "static_mut_items"@,
        "total_fns"@,
        "total_lines"@,
        "total_statements"@,
        "unsafe_fns"@,
        "unsafe_statements"@,
        "unwraps"@,
    ]
}

/// The record a row's numeric fields stand for, if they all read as
/// decimal counters.
pub open spec fn spec_row_stats(row: Seq<Seq<char>>) -> Option<CodeStats> {
    if spec_parse_u64(row[1]) is Some && spec_parse_u64(row[2]) is Some && spec_parse_u64(
        row[3],
    ) is Some && spec_parse_u64(row[4]) is Some && spec_parse_u64(row[5]) is Some
        && spec_parse_u64(row[6]) is Some && spec_parse_u64(row[7]) is Some {
        Some(
            CodeStats {
                static_mut_items: spec_parse_u64(row[1])->0,
                total_fns: spec_parse_u64(row[2])->0,
                total_lines: spec_parse_u64(row[3])->0,
                total_statements: spec_parse_u64(row[4])->0,
                unsafe_fns: spec_parse_u64(row[5])->0,
                unsafe_statements: spec_parse_u64(row[6])->0,
                unwraps: spec_parse_u64(row[7])->0,
            },
        )
    } else {
        None
    }
}

/// What one row contributes: its filename and record, or nothing when
/// the row has the wrong width or an unreadable numeric field.
pub open spec fn spec_parse_row(row: Seq<Seq<char>>) -> Option<(Seq<char>, CodeStats)> {
    if row.len() == 8 {
        match spec_row_stats(row) {
            Some(stats) => Some((row[0], stats)),
            None => None,
        }
    } else {
        None
    }
}

/// The mapping the rows stand for; a later row overwrites an earlier one
/// of the same filename, and unreadable rows are skipped.
pub open spec fn baseline_map(rows: Seq<Seq<Seq<char>>>) -> Map<Seq<char>, CodeStats>
    decreases rows.len(),
{
    if rows.len() == 0 {
        Map::empty()
    } else {
        let m = baseline_map(rows.drop_last());
        match spec_parse_row(rows.last()) {
            Some(p) => m.insert(p.0, p.1),
            None => m,
        }
    }
}

impl CodeStats {
    /// The header row of the persisted form.
    pub fn csv_headers() -> (r: [String; 8])
        ensures
            r@.len() == 8,
            forall|k: int| 0 <= k < 8 ==> (#[trigger] r@[k])@ == expected_headers()[k],
    {
        let r = [
            String::from_str("filename"),
            String::from_str("static_mut_items"),
            String::from_str("total_fns"),
            String::from_str("total_lines"),
            String::from_str("total_statements"),
            String::from_str("unsafe_fns"),
            String::from_str("unsafe_statements"),
            String::from_str("unwraps"),
        ];
        proof {
            assert forall|k: int| 0 <= k < 8 implies (#[trigger] r@[k])@ == expected_headers()[k]
                by {}
        }
        r
    }

    /// One row of the persisted form: the filename, then the seven
    /// counters as decimal strings, in the fixed column order.
    pub fn to_csv_row(&self, filename: String) -> (r: [String; 8])
        ensures
            r@.len() == 8,
            r@[0] == filename,
            r@[1]@ == spec_u64_digits(self.static_mut_items as nat),
            r@[2]@ == spec_u64_digits(self.total_fns as nat),
            r@[3]@ == spec_u64_digits(self.total_lines as nat),
            r@[4]@ == spec_u64_digits(self.total_statements as nat),
            r@[5]@ == spec_u64_digits(self.unsafe_fns as nat),
            r@[6]@ == spec_u64_digits(self.unsafe_statements as nat),
            r@[7]@ == spec_u64_digits(self.unwraps as nat),
    {
        [
            filename,
            u64_string(self.static_mut_items),
            u64_string(self.total_fns),
            u64_string(self.total_lines),
            u64_string(self.total_statements),
            u64_string(self.unsafe_fns),
            u64_string(self.unsafe_statements),
            u64_string(self.unwraps),
        ]
    }

    /// Reads one row back: the filename and record, or nothing when a
    /// numeric field does not read as a decimal counter.
    pub fn from_csv_row(row: &[&str; 8]) -> (r: Option<(String, CodeStats)>)
        ensures
            (r is Some) == (spec_row_stats(row.deep_view()) is Some),
            r is Some ==> (r->0).1 == spec_row_stats(row.deep_view())->0 && (r->0).0@
                == row.deep_view()[0],
    {
        proof {
            assert forall|k: int| 0 <= k < 8 implies row.deep_view()[k] == (
            #[trigger] row@[k])@ by {}
        }
        let static_mut_items = match parse_u64(row[1]) {
            Some(v) => v,
            None => {
                return None;
            },
        };
        let total_fns = match parse_u64(row[2]) {
            Some(v) => v,
            None => {
                return None;
            },
        };
        let total_lines = match parse_u64(row[3]) {
            Some(v) => v,
            None => {
                return None;
            },
        };
        let total_statements = match parse_u64(row[4]) {
            Some(v) => v,
            None => {
                return None;
            },
        };
        let unsafe_fns = match parse_u64(row[5]) {
            Some(v) => v,
            None => {
                return None;
            },
        };
        let unsafe_statements = match parse_u64(row[6]) {
            Some(v) => v,
            None => {
                return None;
            },
        };
        let unwraps = match parse_u64(row[7]) {
            Some(v) => v,
            None => {
                return None;
            },
        };
        let stats = CodeStats {
            static_mut_items,
            total_fns,
            total_lines,
            total_statements,
            unsafe_fns,
            unsafe_statements,
            unwraps,
        };
        Some((String::from_str(row[0]), stats))
    }
}

/// Loads a baseline: `None` unless the header row is exactly the eight
/// expected field names; otherwise the report of all readable rows, a
/// later duplicate filename overwriting an earlier one.
pub fn parse_baseline(headers: &Vec<String>, rows: &Vec<Vec<String>>) -> (r: Option<Report>)
    ensures
        (r is Some) == (headers.deep_view() == expected_headers()),
        r is Some ==> (r->0).wf() && (r->0).map_view() == baseline_map(rows.deep_view())
            && (r->0).total@ == stats_clamp(spec_sum(stats_seq((r->0).files@))),
{
    proof {
        assert forall|k: int|
            0 <= k < headers@.len() implies headers.deep_view()[k] == (
        #[trigger] headers@[k])@ by {}
    }
    if headers.len() != 8 {
        proof {
            assert(headers.deep_view().len() == headers@.len());
            assert(headers.deep_view() != expected_headers());
        }
        return None;
    }
    let ok = str_equal(headers[0].as_str(), "filename") && str_equal(
        headers[1].as_str(),
        "static_mut_items",
    ) && str_equal(headers[2].as_str(), "total_fns") && str_equal(
        headers[3].as_str(),
        "total_lines",
    ) && str_equal(headers[4].as_str(), "total_statements") && str_equal(
        headers[5].as_str(),
        "unsafe_fns",
    ) && str_equal(headers[6].as_str(), "unsafe_statements") && str_equal(
        headers[7].as_str(),
        "unwraps",
    );
    if !ok {
        proof {
            assert(headers.deep_view() != expected_headers());
        }
        return None;
    }
    proof {
        assert(headers.deep_view() =~= expected_headers());
    }
    let ghost dv = rows.deep_view();
    proof {
        assert forall|k: int| 0 <= k < rows@.len() implies dv[k] == (
        #[trigger] rows@[k]).deep_view() by {}
    }
    let mut files: Vec<FileEntry> = Vec::new();
    let mut i: usize = 0;
    proof {
        assert(entries_map(files@) =~= baseline_map(dv.take(0)));
    }
    while i < rows.len()
        invariant
            0 <= i <= rows@.len(),
            dv == rows.deep_view(),
            dv.len() == rows@.len(),
            forall|k: int| 0 <= k < rows@.len() ==> dv[k] == (#[trigger] rows@[k]).deep_view(),
            crate::report::sorted_strict(files@),
            entries_map(files@) == baseline_map(dv.take(i as int)),
        decreases rows@.len() - i,
    {
        let row = &rows[i];
        let ghost drow = dv[i as int];
        proof {
            assert(drow == rows@[i as int].deep_view());
            assert forall|k: int| 0 <= k < row@.len() implies drow[k] == (
            #[trigger] row@[k])@ by {}
        }
        if row.len() == 8 {
            let parsed = parse_row_fields(row);
            match parsed {
                Some(stats) => {
                    proof {
                        assert(spec_parse_row(drow) == Some((drow[0], stats)));
                    }
                    let entry = FileEntry { filename: row[0].clone(), stats };
                    insert_entry(&mut files, entry);
                },
                None => {
                    proof {
                        assert(spec_parse_row(drow) is None);
                    }
                },
            }
        } else {
            proof {
                assert(drow.len() == row@.len());
                assert(spec_parse_row(drow) is None);
            }
        }
        proof {
            let pre = dv.take(i as int);
            let post = dv.take(i as int + 1);
            assert(post.drop_last() =~= pre);
            assert(post.last() == dv[i as int]);
            assert(entries_map(files@) =~= baseline_map(post));
        }
        i = i + 1;
    }
    proof {
        assert(dv.take(dv.len() as int) =~= dv);
    }
    let total = total_of(&files);
    Some(Report { files, total })
}

/// Reads the seven numeric fields of one full-width row.
fn parse_row_fields(row: &Vec<String>) -> (r: Option<CodeStats>)
    requires
        row@.len() == 8,
    ensures
        r == spec_row_stats(row.deep_view()),
{
    proof {
        assert forall|k: int| 0 <= k < 8 implies row.deep_view()[k] == (
        #[trigger] row@[k])@ by {}
    }
    let static_mut_items = match parse_u64(row[1].as_str()) {
        Some(v) => v,
        None => {
            return None;
        },
    };
    let total_fns = match parse_u64(row[2].as_str()) {
        Some(v) => v,
        None => {
            return None;
        },
    };
    let total_lines = match parse_u64(row[3].as_str()) {
        Some(v) => v,
        None => {
            return None;
        },
    };
    let total_statements = match parse_u64(row[4].as_str()) {
        Some(v) => v,
        None => {
            return None;
        },
    };
    let unsafe_fns = match parse_u64(row[5].as_str()) {
        Some(v) => v,
        None => {
            return None;
        },
    };
    let unsafe_statements = match parse_u64(row[6].as_str()) {
        Some(v) => v,
        None => {
            return None;
        },
    };
    let unwraps = match parse_u64(row[7].as_str()) {
        Some(v) => v,
        None => {
            return None;
        },
    };
    Some(
        CodeStats {
            static_mut_items,
            total_fns,
            total_lines,
            total_statements,
            unsafe_fns,
            unsafe_statements,
            unwraps,
        },
    )
}

} // verus!
