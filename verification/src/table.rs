//! Reading a comma-separated byte stream into a table of text cells, and
//! header-named access to the cells of a row.

use vstd::prelude::*;
use crate::text::str_eq;
use vstd::string::StrSliceExecFns;

verus! {

/// The table that a comma-separated byte stream with a header row parses
/// to — row 0 is the header — or `None` where the stream is not a
/// well-shaped table. The table depends on the bytes alone.
pub uninterp spec fn csv_table_of(b: Seq<u8>) -> Option<Seq<Seq<Seq<char>>>>;

/// Relies on `csv::Reader`: reads comma-separated text with a header row.
/// Returns the header followed by the records, or `None` on a malformed
/// stream.
#[verifier::external_body]
pub(crate) fn read_table(bytes: &[u8]) -> (r: Option<Vec<Vec<String>>>)
    ensures
        match r {
            Some(t) => csv_table_of(bytes@) == Some(t.deep_view()),
            None => csv_table_of(bytes@) is None,
        },
{
    let mut rdr = csv::Reader::from_reader(bytes);
    let mut rows: Vec<Vec<String>> = Vec::new();
    match rdr.headers() {
        Ok(h) => rows.push(h.iter().map(|c| c.to_string()).collect()),
        Err(_) => return None,
    }
    for rec in rdr.records() {
        match rec {
            Ok(row) => rows.push(row.iter().map(|c| c.to_string()).collect()),
            Err(_) => return None,
        }
    }
    Some(rows)
}

/// The index of the first column with the given header name, or -1.
pub open spec fn spec_col(headers: Seq<Seq<char>>, name: Seq<char>) -> int
    decreases headers.len(),
{
    if headers.len() == 0 {
        -1
    } else if headers[0] == name {
        0
    } else {
        let r = spec_col(headers.skip(1), name);
        if r < 0 {
            -1
        } else {
            r + 1
        }
    }
}

pub proof fn lemma_col_props(headers: Seq<Seq<char>>, name: Seq<char>)
    ensures
        spec_col(headers, name) == -1 ==> forall|j: int|
            0 <= j < headers.len() ==> headers[j] != name,
        spec_col(headers, name) >= 0 ==> spec_col(headers, name) < headers.len()
            && headers[spec_col(headers, name)] == name && forall|j: int|
            0 <= j < spec_col(headers, name) ==> headers[j] != name,
    decreases headers.len(),
{
    if headers.len() > 0 && headers[0] != name {
        lemma_col_props(headers.skip(1), name);
        assert(forall|j: int| 1 <= j < headers.len() ==> headers[j] == headers.skip(1)[j - 1]);
    }
}

/// Finds the first column with the given header name.
pub fn find_col(headers: &Vec<String>, name: &str) -> (r: Option<usize>)
    ensures
        match r {
            Some(i) => i < headers.deep_view().len() && i == spec_col(headers.deep_view(), name@),
            None => spec_col(headers.deep_view(), name@) == -1,
        },
{
    let ghost hv = headers.deep_view();
    let n = headers.len();
    let mut i: usize = 0;
    while i < n
        invariant
            hv == headers.deep_view(),
            n == hv.len(),
            i <= n,
            forall|j: int| 0 <= j < i ==> hv[j] != name@,
        decreases n - i,
    {
        if str_eq(headers[i].as_str(), name) {
            proof {
                lemma_col_props(hv, name@);
                let r = spec_col(hv, name@);
                if r == -1 {
                    assert(hv[i as int] == name@);
                } else if r < i {
                    assert(hv[r] != name@);
                }
            }
            return Some(i);
        }
        i = i + 1;
    }
    proof {
        lemma_col_props(hv, name@);
    }
    None
}

/// The cell under the named column, where the column exists and the row
/// reaches it.
pub open spec fn spec_cell(
    headers: Seq<Seq<char>>,
    row: Seq<Seq<char>>,
    name: Seq<char>,
) -> Option<Seq<char>> {
    let i = spec_col(headers, name);
    if 0 <= i < row.len() {
        Some(row[i])
    } else {
        None
    }
}

/// The cell under the named column, where it exists and is non-empty: the
/// shape of an optional field, whose absence or emptiness means the
/// default.
pub open spec fn spec_opt_cell(
    headers: Seq<Seq<char>>,
    row: Seq<Seq<char>>,
    name: Seq<char>,
) -> Option<Seq<char>> {
    match spec_cell(headers, row, name) {
        Some(s) => if s.len() > 0 {
            Some(s)
        } else {
            None
        },
        None => None,
    }
}

/// Reads the cell under the named column.
pub fn cell<'a>(headers: &Vec<String>, row: &'a Vec<String>, name: &str) -> (r: Option<&'a String>)
    ensures
        match r {
            Some(v) => spec_cell(headers.deep_view(), row.deep_view(), name@) == Some(v@),
            None => spec_cell(headers.deep_view(), row.deep_view(), name@) is None,
        },
{
    match find_col(headers, name) {
        Some(i) => if i < row.len() {
            proof {
                assert(row.deep_view()[i as int] == row@[i as int]@);
            }
            Some(&row[i])
        } else {
            None
        },
        None => None,
    }
}

/// Reads the cell under the named column, treating an empty cell as
/// absent.
pub fn opt_cell<'a>(headers: &Vec<String>, row: &'a Vec<String>, name: &str) -> (r: Option<
    &'a String,
>)
    ensures
        match r {
            Some(v) => spec_opt_cell(headers.deep_view(), row.deep_view(), name@) == Some(v@),
            None => spec_opt_cell(headers.deep_view(), row.deep_view(), name@) is None,
        },
{
    match cell(headers, row, name) {
        Some(v) => if v.as_str().unicode_len() > 0 {
            Some(v)
        } else {
            None
        },
        None => None,
    }
}

} // verus!
