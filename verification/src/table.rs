use vstd::prelude::*;

use crate::error::CsvError;
use crate::reader::{float_field_of, int_field_of, parse_float_text, parse_int};
use crate::text::{same_text, to_owned_text, trim, trim_str};

verus! {

/// The rows of a delimited text file as the CSV reader hands them over: the
/// header fields, the records read before the reader stopped, and the
/// reader's message where it stopped on an error rather than at the end.
pub struct CsvTable {
    pub headers: Vec<String>,
    pub rows: Vec<Vec<String>>,
    pub error: Option<String>,
}

/// The model of a `CsvTable`: headers, records and the message where
/// reading stopped on an error.
pub type TableModel = (Seq<Seq<char>>, Seq<Seq<Seq<char>>>, Option<Seq<char>>);

impl View for CsvTable {
    type V = TableModel;

    open spec fn view(&self) -> TableModel {
        (self.headers.deep_view(), self.rows.deep_view(), self.error.deep_view())
    }
}

/// What the `csv` crate reads from `data` with the given delimiter and
/// header setting: the header fields, the records up to the first error and
/// that error's message; or the message of the error met while reading the
/// headers.
pub uninterp spec fn csv_read_outcome(data: Seq<u8>, delimiter: u8, has_headers: bool) -> Result<
    (Seq<Seq<char>>, Seq<Seq<Seq<char>>>, Option<Seq<char>>),
    Seq<char>,
>;

/// Reads `data` with `csv::ReaderBuilder` (the given delimiter and header
/// setting): `Reader::headers`, then `Reader::records` until the first
/// error, each record's fields and each error's `Display` text copied out.
/// The contract claims that the outcome is the named function of the
/// arguments; nothing more is said of how the crate splits the data.
#[verifier::external_body]
pub(crate) fn read_csv_table(data: &[u8], delimiter: u8, has_headers: bool) -> (r: Result<
    CsvTable,
    String,
>)
    ensures
        match r {
            Ok(t) => csv_read_outcome(data@, delimiter, has_headers) == Ok::<_, Seq<char>>(t@),
            Err(m) => csv_read_outcome(data@, delimiter, has_headers) == Err::<TableModel, _>(
                m@,
            ),
        },
{
    let mut rdr = csv::ReaderBuilder::new().delimiter(delimiter).has_headers(has_headers)
        .from_reader(data);
    let headers: Vec<String> = match rdr.headers() {
        Ok(h) => h.iter().map(|f| f.to_string()).collect(),
        Err(e) => return Err(e.to_string()),
    };
    let mut rows = Vec::new();
    for rec in rdr.records() {
        match rec {
            Ok(r) => rows.push(r.iter().map(|f| f.to_string()).collect()),
            Err(e) => return Ok(CsvTable { headers, rows, error: Some(e.to_string()) }),
        }
    }
    Ok(CsvTable { headers, rows, error: None })
}

/// The position of the first header that, trimmed, equals `name`.
pub open spec fn column_of(headers: Seq<Seq<char>>, name: Seq<char>) -> Option<int>
    decreases headers.len(),
{
    if headers.len() == 0 {
        None
    } else if trim(headers[0]) == name {
        Some(0)
    } else {
        match column_of(headers.drop_first(), name) {
            Some(i) => Some(i + 1),
            None => None,
        }
    }
}

/// The positions of the columns `names`, in order; or the first of them
/// (in order) that no header names.
pub open spec fn columns_of(headers: Seq<Seq<char>>, names: Seq<Seq<char>>) -> Result<
    Seq<int>,
    Seq<char>,
>
    decreases names.len(),
{
    if names.len() == 0 {
        Ok(Seq::empty())
    } else {
        match columns_of(headers, names.drop_last()) {
            Err(m) => Err(m),
            Ok(ix) => match column_of(headers, names.last()) {
                None => Err(names.last()),
                Some(i) => Ok(ix.push(i)),
            },
        }
    }
}

proof fn lemma_column_of_range(headers: Seq<Seq<char>>, name: Seq<char>)
    ensures
        column_of(headers, name) matches Some(i) ==> 0 <= i < headers.len() && trim(headers[i])
            == name,
    decreases headers.len(),
{
    if headers.len() > 0 {
        lemma_column_of_range(headers.drop_first(), name);
    }
}

proof fn lemma_column_of_prefix(headers: Seq<Seq<char>>, name: Seq<char>, k: int)
    requires
        0 <= k <= headers.len(),
        forall|t: int| 0 <= t < k ==> trim(#[trigger] headers[t]) != name,
    ensures
        column_of(headers, name) == (match column_of(headers.skip(k), name) {
            Some(i) => Some(i + k),
            None => None,
        }),
    decreases k,
{
    if k == 0 {
        assert(headers.skip(0) =~= headers);
        match column_of(headers, name) {
            Some(i) => {},
            None => {},
        }
    } else {
        lemma_column_of_prefix(headers.drop_first(), name, k - 1);
        assert(headers.drop_first().skip(k - 1) =~= headers.skip(k));
    }
}

/// The position of the first header that, trimmed, equals `name`.
pub fn find_column(headers: &Vec<String>, name: &str) -> (r: Option<usize>)
    ensures
        match column_of(headers.deep_view(), name@) {
            None => r is None,
            Some(i) => r matches Some(c) && c as int == i,
        },
{
    let n = headers.len();
    let ghost h = headers.deep_view();
    let mut i: usize = 0;
    while i < n
        invariant
            n == headers@.len(),
            h == headers.deep_view(),
            h.len() == n,
            i <= n,
            forall|t: int| 0 <= t < i ==> trim(#[trigger] h[t]) != name@,
        decreases n - i,
    {
        let hd = trim_str(headers[i].as_str());
        assert(h[i as int] == headers@[i as int]@);
        if same_text(hd, name) {
            proof {
                lemma_column_of_prefix(h, name@, i as int);
                assert(h.skip(i as int)[0] == h[i as int]);
            }
            return Some(i);
        }
        i = i + 1;
    }
    proof {
        lemma_column_of_prefix(h, name@, n as int);
        assert(h.skip(n as int).len() == 0);
    }
    None
}

/// The views of a list of text slices.
pub open spec fn texts_view(names: Seq<&str>) -> Seq<Seq<char>> {
    names.map_values(|s: &str| s@)
}

/// The positions of the columns `names`, in order; or, as the error, the
/// first of them that no header names.
pub fn find_columns(headers: &Vec<String>, names: &[&str]) -> (r: Result<Vec<usize>, String>)
    ensures
        match columns_of(headers.deep_view(), texts_view(names@)) {
            Ok(ix) => r matches Ok(v) && v@.len() == ix.len() && forall|k: int|
                0 <= k < ix.len() ==> #[trigger] v@[k] as int == ix[k],
            Err(m) => r matches Err(x) && x@ == m,
        },
{
    let n = names.len();
    let ghost nv = texts_view(names@);
    let mut out: Vec<usize> = Vec::new();
    let mut i: usize = 0;
    while i < n
        invariant
            n == names@.len(),
            nv == texts_view(names@),
            i <= n,
            columns_of(headers.deep_view(), nv.take(i as int)) matches Ok(ix) && out@.len()
                == ix.len() && forall|k: int| 0 <= k < ix.len() ==> #[trigger] out@[k] as int
                == ix[k],
        decreases n - i,
    {
        let ghost prev = nv.take(i as int);
        let ghost ix = columns_of(headers.deep_view(), prev)->Ok_0;
        assert(nv.take(i + 1).drop_last() =~= prev);
        assert(nv[i as int] == names@[i as int]@);
        assert(nv.take(i + 1).last() == names@[i as int]@);
        match find_column(headers, names[i]) {
            None => {
                proof {
                    lemma_columns_error_sticks(headers.deep_view(), nv, i + 1);
                }
                return Err(to_owned_text(names[i]));
            },
            Some(c) => {
                out.push(c);
                proof {
                    let ix2 = ix.push(c as int);
                    assert(columns_of(headers.deep_view(), nv.take(i + 1)) == Ok::<
                        Seq<int>,
                        Seq<char>,
                    >(ix2));
                    assert forall|k: int| 0 <= k < ix2.len() implies #[trigger] out@[k] as int
                        == ix2[k] by {
                        if k < ix.len() {
                            assert(out@[k] as int == ix[k]);
                        }
                    }
                }
            },
        }
        i = i + 1;
    }
    assert(nv.take(n as int) =~= nv);
    Ok(out)
}

pub proof fn lemma_columns_len(headers: Seq<Seq<char>>, names: Seq<Seq<char>>)
    ensures
        columns_of(headers, names) matches Ok(ix) ==> ix.len() == names.len(),
    decreases names.len(),
{
    if names.len() > 0 {
        lemma_columns_len(headers, names.drop_last());
    }
}

proof fn lemma_columns_error_sticks(headers: Seq<Seq<char>>, names: Seq<Seq<char>>, k: int)
    requires
        0 <= k <= names.len(),
        columns_of(headers, names.take(k)) is Err,
    ensures
        columns_of(headers, names) == columns_of(headers, names.take(k)),
    decreases names.len(),
{
    if k < names.len() {
        assert(names.drop_last().take(k) =~= names.take(k));
        lemma_columns_error_sticks(headers, names.drop_last(), k);
    } else {
        assert(names.take(k) =~= names);
    }
}

/// The field at position `i` of a record, or the empty text where the record
/// is shorter.
pub open spec fn field_of(row: Seq<Seq<char>>, i: int) -> Seq<char> {
    if 0 <= i < row.len() {
        row[i]
    } else {
        Seq::empty()
    }
}

/// The field at position `i` of `row`, or the empty text where `row` is
/// shorter.
pub fn field<'a>(row: &'a Vec<String>, i: usize) -> (r: &'a str)
    ensures
        r@ == field_of(row.deep_view(), i as int),
{
    if i < row.len() {
        assert(row.deep_view()[i as int] == row@[i as int]@);
        row[i].as_str()
    } else {
        proof {
            reveal_strlit("");
        }
        ""
    }
}

/// The integer field at position `i` of `row` (see `int_field_of`).
pub fn int_at(row: &Vec<String>, i: usize) -> (r: Option<i64>)
    ensures
        r == int_field_of(field_of(row.deep_view(), i as int)),
{
    match parse_int(field(row, i)) {
        Ok(v) => v,
        Err(_) => None,
    }
}

/// The floating-point field at position `i` of `row`, kept as the text of
/// its literal (see `float_field_of`).
pub fn float_at(row: &Vec<String>, i: usize) -> (r: Option<String>)
    ensures
        r.deep_view() == float_field_of(field_of(row.deep_view(), i as int)),
{
    match parse_float_text(field(row, i)) {
        Ok(v) => v,
        Err(_) => None,
    }
}

} // verus!
