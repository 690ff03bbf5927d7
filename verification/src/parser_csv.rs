//! CSV format adapter: the first row is the header and URLs live in the
//! column named `url`. Record reading is the work of the `csv` crate;
//! its result is named by [`csv_rows`] and the header lookup and column
//! selection are verified.

use vstd::prelude::*;
use crate::text::str_eq;

verus! {

/// The records of the CSV document `content`, in order, one entry per
/// record: its fields as strings, or `None` for a record the reader
/// rejects (for instance one whose field count does not match).
pub uninterp spec fn csv_rows(content: Seq<char>) -> Seq<Option<Seq<Seq<char>>>>;

/// Relies on `csv::ReaderBuilder` (header handling off, so the header
/// row comes through) and `StringRecord`: every record of `content`,
/// field by field.
#[verifier::external_body]
fn read_csv_rows(content: &str) -> (rows: Vec<Option<Vec<String>>>)
    ensures
        rows.deep_view() == csv_rows(content@),
{
    let mut reader = csv::ReaderBuilder::new().has_headers(false).from_reader(content.as_bytes());
    let mut rows = Vec::new();
    for record in reader.records() {
        match record {
            Ok(fields) => rows.push(Some(fields.iter().map(|f| f.to_string()).collect())),
            Err(_) => rows.push(None),
        }
    }
    rows
}

/// The first position of `name` in `fields`, or `fields.len()` when it
/// does not occur.
pub open spec fn find_field(fields: Seq<Seq<char>>, name: Seq<char>) -> int
    decreases fields.len(),
{
    if fields.len() == 0 {
        0
    } else if fields[0] == name {
        0
    } else {
        1 + find_field(fields.skip(1), name)
    }
}

proof fn lemma_find_field(fields: Seq<Seq<char>>, name: Seq<char>)
    ensures
        0 <= find_field(fields, name) <= fields.len(),
        find_field(fields, name) < fields.len() ==> fields[find_field(fields, name)] == name,
        forall|j: int| 0 <= j < find_field(fields, name) ==> fields[j] != name,
    decreases fields.len(),
{
    if fields.len() > 0 && fields[0] != name {
        lemma_find_field(fields.skip(1), name);
        let f = find_field(fields, name);
        assert(forall|m: int| 0 <= m < fields.len() - 1 ==> fields.skip(1)[m] == fields[m + 1]);
        assert forall|j: int| 0 <= j < f implies fields[j] != name by {
            if j > 0 {
                assert(fields.skip(1)[j - 1] != name);
            }
        }
    }
}

/// The entries of column `idx` over the data rows: a rejected row or a
/// row too short to reach the column contributes nothing.
pub open spec fn column_values(data: Seq<Option<Seq<Seq<char>>>>, idx: int) -> Seq<Seq<char>>
    decreases data.len(),
{
    if data.len() == 0 {
        seq![]
    } else {
        let rest = column_values(data.skip(1), idx);
        match data[0] {
            Some(fields) => if 0 <= idx < fields.len() {
                seq![fields[idx]] + rest
            } else {
                rest
            },
            None => rest,
        }
    }
}

/// What a CSV document contributes: the `url` column of its data rows.
/// No rows, an unreadable header row, or a header without a `url`
/// field contributes nothing.
pub open spec fn csv_urls(rows: Seq<Option<Seq<Seq<char>>>>) -> Seq<Seq<char>> {
    if rows.len() == 0 {
        seq![]
    } else {
        match rows[0] {
            None => seq![],
            Some(header) => {
                let idx = find_field(header, "url"@);
                if idx == header.len() {
                    seq![]
                } else {
                    column_values(rows.skip(1), idx)
                }
            },
        }
    }
}

/// The verified tail of CSV parsing: looks the `url` column up in the
/// header row and collects that column over the data rows.
pub fn urls_from_csv_rows(rows: &Vec<Option<Vec<String>>>) -> (urls: Vec<String>)
    ensures
        urls.deep_view() == csv_urls(rows.deep_view()),
{
    let ghost dv = rows.deep_view();
    let mut out: Vec<String> = Vec::new();
    proof {
        assert(out.deep_view() =~= Seq::<Seq<char>>::empty());
    }
    let n = rows.len();
    if n == 0 {
        return out;
    }
    let header = match &rows[0] {
        Some(header) => {
            proof {
                assert(rows@[0] == Some(*header));
                assert(dv[0] == Some(header.deep_view()));
            }
            header
        },
        None => {
            proof {
                assert(rows@[0] is None);
                assert(dv[0] is None);
            }
            return out;
        },
    };
    let ghost hv = header.deep_view();
    let hn = header.len();
    let mut idx: usize = 0;
    while idx < hn && !str_eq(header[idx].as_str(), "url")
        invariant
            idx <= hn,
            hn == header@.len(),
            hv == header.deep_view(),
            forall|j: int| 0 <= j < idx ==> hv[j] != "url"@,
        decreases hn - idx,
    {
        idx += 1;
    }
    proof {
        lemma_find_field(hv, "url"@);
        let f = find_field(hv, "url"@);
        if f < idx {
            assert(hv[f] == "url"@);
            assert(false);
        }
        if f > idx {
            assert(idx < hn);
            assert(hv[idx as int] == "url"@);
            assert(false);
        }
    }
    if idx == hn {
        return out;
    }
    let mut i: usize = 1;
    proof {
        assert(Seq::<Seq<char>>::empty() + column_values(dv.skip(1), idx as int) =~= column_values(
            dv.skip(1),
            idx as int,
        ));
    }
    while i < n
        invariant
            n == rows@.len(),
            1 <= i <= n,
            idx < hn,
            dv == rows.deep_view(),
            out.deep_view() + column_values(dv.skip(i as int), idx as int) == column_values(
                dv.skip(1),
                idx as int,
            ),
        decreases n - i,
    {
        let ghost rest = dv.skip(i as int);
        let ghost before = out.deep_view();
        proof {
            assert(forall|m: int| 0 <= m < rest.len() ==> rest[m] == dv[m + i]);
            assert(rest.skip(1) =~= dv.skip(i + 1));
        }
        match &rows[i] {
            Some(fields) => {
                proof {
                    assert(rows@[i as int] == Some(*fields));
                    assert(rest[0] == Some(fields.deep_view()));
                }
                if idx < fields.len() {
                    proof {
                        assert(fields.deep_view()[idx as int] == fields@[idx as int]@);
                    }
                    out.push(fields[idx].clone());
                    proof {
                        let v = fields.deep_view()[idx as int];
                        assert(out.deep_view() =~= before + seq![v]);
                        assert((before + seq![v]) + column_values(dv.skip(i + 1), idx as int)
                            =~= before + (seq![v] + column_values(dv.skip(i + 1), idx as int)));
                    }
                }
            },
            None => {
                proof {
                    assert(rows@[i as int] is None);
                    assert(rest[0] is None);
                }
            },
        }
        i += 1;
    }
    proof {
        assert(dv.skip(n as int).len() == 0);
        assert(column_values(dv.skip(n as int), idx as int) =~= Seq::<Seq<char>>::empty());
        assert(out.deep_view() + Seq::<Seq<char>>::empty() =~= out.deep_view());
    }
    out
}

/// Parses CSV content with a header row and extracts the column named
/// `url` from the data rows. Rejected records are skipped; content
/// without a `url` column contributes nothing, never an error.
pub fn parser_csv(content: &str) -> (urls: Vec<String>)
    ensures
        urls.deep_view() == csv_urls(csv_rows(content@)),
{
    let rows = read_csv_rows(content);
    urls_from_csv_rows(&rows)
}

/// Parses CSV content exactly as [`parser_csv`] does.
pub fn parse_csv(content: &str) -> (urls: Vec<String>)
    ensures
        urls.deep_view() == csv_urls(csv_rows(content@)),
{
    parser_csv(content)
}

} // verus!
