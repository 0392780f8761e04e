use vstd::prelude::*;

use crate::models::{file_name, file_name_of, CsvFileType, FileKind, table_of};
use crate::text::{ascii_lower_seq, push_char, same_text, to_ascii_lower, to_owned_text};

verus! {

// ------------------------------------------------------------ where a file goes

/// Where the rows of a file are stored: the device kind and identifier it
/// is registered under, and the data table.
#[derive(Debug, Clone, PartialEq, Eq)]
pub struct IngestTarget {
    pub tipo: &'static str,
    pub device_id: String,
    pub tabla: &'static str,
}

/// The device kind under which files of kind `k` are registered.
pub open spec fn device_kind_of(k: FileKind) -> Seq<char> {
    match k {
        FileKind::Hsu(_) => "HSU"@,
        FileKind::Tcu(_) => "TCU"@,
        _ => "NCU"@,
    }
}

/// The device under which files of kind `k` from the NCU `ncu_id` are
/// registered: the HSU or TCU unit named in the file, or the NCU itself.
pub open spec fn device_id_of(k: FileKind, ncu_id: Seq<char>) -> Seq<char> {
    match k {
        FileKind::Hsu(id) => id,
        FileKind::Tcu(id) => id,
        _ => ncu_id,
    }
}

impl CsvFileType {
    /// Where the rows of a file of this kind from the NCU `ncu_id` are
    /// stored.
    pub fn ingest_target(&self, ncu_id: &str) -> (r: IngestTarget)
        ensures
            r.tipo@ == device_kind_of(self@),
            r.device_id@ == device_id_of(self@, ncu_id@),
            r.tabla@ == table_of(self@),
    {
        let tabla = self.table_name();
        match self {
            CsvFileType::Hsu { hsu_id } => IngestTarget {
                tipo: "HSU",
                device_id: hsu_id.clone(),
                tabla,
            },
            CsvFileType::Tcu { tcu_id } => IngestTarget {
                tipo: "TCU",
                device_id: tcu_id.clone(),
                tabla,
            },
            _ => IngestTarget { tipo: "NCU", device_id: to_owned_text(ncu_id), tabla },
        }
    }
}

/// What to do with a file found at a path.
#[derive(Debug, Clone, PartialEq, Eq)]
pub enum FilePlan {
    /// The path has no final component to read a name from.
    InvalidPath,
    /// The name names no known kind of file: nothing is stored.
    Unrecognized,
    /// The file is read as `kind` and its rows stored at `target`.
    Ingest { kind: CsvFileType, target: IngestTarget },
}

/// What to do with the file at `path` for the NCU `ncu_id`.
pub fn plan_file(path: &str, ncu_id: &str) -> (r: FilePlan)
    ensures
        match file_name_of(path@) {
            None => r is InvalidPath,
            Some(n) => match crate::models::kind_of_name(n) {
                None => r is Unrecognized,
                Some(k) => r matches FilePlan::Ingest { kind, target } && kind@ == k
                    && target.tipo@ == device_kind_of(k) && target.device_id@ == device_id_of(
                    k,
                    ncu_id@,
                ) && target.tabla@ == table_of(k),
            },
        },
{
    match file_name(path) {
        None => FilePlan::InvalidPath,
        Some(name) => match CsvFileType::detect_from_name(name) {
            None => FilePlan::Unrecognized,
            Some(kind) => {
                let target = kind.ingest_target(ncu_id);
                FilePlan::Ingest { kind, target }
            },
        },
    }
}

// ------------------------------------------------------------ which files

/// The extension of a file name, as `std::path::Path::extension` gives it:
/// the text after the last `.`, where some text stands before that `.`.
pub open spec fn extension_of(name: Seq<char>) -> Option<Seq<char>> {
    let stem_len = name.len() - crate::models::last_segment_after(name, '.').len() - 1;
    if !name.contains('.') || stem_len <= 0 {
        None
    } else {
        Some(crate::models::last_segment_after(name, '.'))
    }
}

/// Whether the path names a file with the extension `csv` in any case.
pub open spec fn is_csv_path(path: Seq<char>) -> bool {
    match file_name_of(path) {
        None => false,
        Some(n) => match extension_of(n) {
            None => false,
            Some(e) => ascii_lower_seq(e) == "csv"@,
        },
    }
}

} // verus!

verus! {

/// The extension of the file name `name` (see `extension_of`).
pub fn extension(name: &str) -> (r: Option<&str>)
    ensures
        match extension_of(name@) {
            None => r is None,
            Some(e) => r matches Some(x) && x@ == e,
        },
{
    let n = name.unicode_len();
    let mut i: usize = n;
    while i > 0 && name.get_char(i - 1) != '.'
        invariant
            n == name@.len(),
            i <= n,
            forall|t: int| i <= t < n ==> #[trigger] name@[t] != '.',
        decreases i,
    {
        i = i - 1;
    }
    proof {
        crate::models::lemma_last_segment_after(name@, '.');
        let seg = crate::models::last_segment_after(name@, '.');
        if seg.len() < n - i {
            let t = n - seg.len() - 1;
            assert(name@[t] == '.');
        }
        if seg.len() > n - i {
            assert(name@[i - 1] == '.');
            assert(seg[i - 1 - (n - seg.len())] == name@[i - 1]);
        }
        assert(seg.len() == n - i);
        assert(seg =~= name@.subrange(i as int, n as int));
        if i == 0 {
            assert(!name@.contains('.'));
        } else {
            assert(name@[i - 1] == '.');
        }
    }
    if i <= 1 {
        return None;
    }
    Some(name.substring_char(i, n))
}

/// Whether `path` names a file with the extension `csv` in any case, the
/// files that a folder scan takes.
pub fn has_csv_extension(path: &str) -> (r: bool)
    ensures
        r == is_csv_path(path@),
{
    match file_name(path) {
        None => false,
        Some(name) => match extension(name) {
            None => false,
            Some(e) => {
                let lower = to_ascii_lower(e);
                same_text(lower.as_str(), "csv")
            },
        },
    }
}

} // verus!

verus! {

/// Whether a folder scan ingests a file that the ingestion log lists
/// `times_logged` times: always, unless files already ingested are skipped
/// and the log lists it.
pub fn should_ingest(skip_files_already_inserted: bool, times_logged: i64) -> (r: bool)
    ensures
        r == !(skip_files_already_inserted && times_logged > 0),
{
    !(skip_files_already_inserted && times_logged > 0)
}

// ------------------------------------------------------------ counting and logging

/// How many bind variables one query that counts existing rows takes at
/// most; longer lists of date-times are counted in chunks of this size.
pub const BIND_CHUNK: usize = 900;

/// The ranges `[start, end)` into a list of `len` date-times that are
/// counted by one query each: consecutive, from 0 to `len`, each of
/// `BIND_CHUNK` elements but the last, which may be shorter.
pub fn chunk_ranges(len: usize) -> (r: Vec<(usize, usize)>)
    ensures
        r@.len() * 900 >= len,
        r@.len() == 0 || (r@.len() - 1) * 900 < len,
        forall|k: int|
            0 <= k < r@.len() ==> (#[trigger] r@[k]).0 == k * 900 && r@[k].1 == (if (k + 1) * 900
                <= len {
                (k + 1) * 900
            } else {
                len as int
            }),
{
    let mut out: Vec<(usize, usize)> = Vec::new();
    let mut start: usize = 0;
    while start < len
        invariant
            start <= len,
            start < len ==> start == out@.len() * 900,
            start == len ==> out@.len() * 900 >= len,
            out@.len() == 0 || (out@.len() - 1) * 900 < len,
            forall|k: int|
                0 <= k < out@.len() ==> (#[trigger] out@[k]).0 == k * 900 && out@[k].1 == (if (k
                    + 1) * 900 <= len {
                    (k + 1) * 900
                } else {
                    len as int
                }),
        decreases len - start,
    {
        let end: usize = if len - start > BIND_CHUNK {
            start + BIND_CHUNK
        } else {
            len
        };
        out.push((start, end));
        start = end;
    }
    out
}

/// `n` bind placeholders separated by commas: `?,?,…,?`.
pub open spec fn placeholders(n: nat) -> Seq<char>
    decreases n,
{
    if n == 0 {
        Seq::empty()
    } else if n == 1 {
        seq!['?']
    } else {
        placeholders((n - 1) as nat) + seq![',', '?']
    }
}

/// The query that counts how many of `n` date-times the table `tabla`
/// already holds for one device.
pub open spec fn existing_count_query(tabla: Seq<char>, n: nat) -> Seq<char> {
    "SELECT COUNT(*) FROM "@ + tabla + " WHERE dispositivo_id = ? AND timestamp IN ("@
        + placeholders(n) + ")"@
}

/// The query that counts how many of `n` date-times the table `tabla`
/// already holds for one device (its binds: the device, then the
/// date-times).
pub fn existing_count_sql(tabla: &str, n: usize) -> (r: String)
    ensures
        r@ == existing_count_query(tabla@, n as nat),
{
    let mut sql = String::from_str("SELECT COUNT(*) FROM ");
    sql.append(tabla);
    sql.append(" WHERE dispositivo_id = ? AND timestamp IN (");
    let ghost before = sql@;
    let mut i: usize = 0;
    while i < n
        invariant
            i <= n,
            sql@ == before + placeholders(i as nat),
        decreases n - i,
    {
        if i > 0 {
            push_char(&mut sql, ',');
        }
        push_char(&mut sql, '?');
        proof {
            if i == 0 {
                assert(placeholders(1) == seq!['?']);
                assert(placeholders(0) =~= Seq::<char>::empty());
            }
        }
        assert(sql@ =~= before + placeholders((i + 1) as nat));
        i = i + 1;
    }
    sql.append(")");
    sql
}

/// `s` with every `"` doubled, as an SQL identifier between double quotes
/// needs it.
pub open spec fn double_quotes(s: Seq<char>) -> Seq<char>
    decreases s.len(),
{
    if s.len() == 0 {
        Seq::empty()
    } else if s[0] == '"' {
        seq!['"', '"'] + double_quotes(s.drop_first())
    } else {
        seq![s[0]] + double_quotes(s.drop_first())
    }
}

/// The query that counts the rows of the table named `name`, the name
/// quoted as an identifier.
pub open spec fn row_count_query(name: Seq<char>) -> Seq<char> {
    "SELECT COUNT(*) FROM \""@ + double_quotes(name) + "\""@
}

proof fn lemma_double_quotes_append(s: Seq<char>, c: char)
    ensures
        double_quotes(s.push(c)) == double_quotes(s) + (if c == '"' {
            seq!['"', '"']
        } else {
            seq![c]
        }),
    decreases s.len(),
{
    if s.len() == 0 {
        assert(s.push(c).drop_first() =~= Seq::<char>::empty());
        assert(double_quotes(Seq::<char>::empty()) =~= Seq::<char>::empty());
    } else {
        assert(s.push(c).drop_first() =~= s.drop_first().push(c));
        lemma_double_quotes_append(s.drop_first(), c);
    }
}

/// The query that counts the rows of the table named `name`.
pub fn row_count_sql(name: &str) -> (r: String)
    ensures
        r@ == row_count_query(name@),
{
    let mut sql = String::from_str("SELECT COUNT(*) FROM \"");
    let ghost before = sql@;
    let n = name.unicode_len();
    let mut i: usize = 0;
    assert(name@.subrange(0, 0) =~= Seq::<char>::empty());
    while i < n
        invariant
            n == name@.len(),
            i <= n,
            sql@ == before + double_quotes(name@.subrange(0, i as int)),
        decreases n - i,
    {
        let c = name.get_char(i);
        if c == '"' {
            push_char(&mut sql, '"');
        }
        push_char(&mut sql, c);
        proof {
            assert(name@.subrange(0, i + 1) =~= name@.subrange(0, i as int).push(c));
            lemma_double_quotes_append(name@.subrange(0, i as int), c);
        }
        assert(sql@ =~= before + double_quotes(name@.subrange(0, i + 1)));
        i = i + 1;
    }
    assert(name@.subrange(0, n as int) =~= name@);
    sql.append("\"");
    sql
}

/// Quoting keeps names apart: two table names give the same quoted text
/// only when they are the same name.
pub proof fn law_double_quotes_injective(a: Seq<char>, b: Seq<char>)
    requires
        double_quotes(a) == double_quotes(b),
    ensures
        a == b,
    decreases a.len() + b.len(),
{
    if a.len() == 0 || b.len() == 0 {
        if a.len() > 0 {
            assert(double_quotes(a).len() > 0);
        }
        if b.len() > 0 {
            assert(double_quotes(b).len() > 0);
        }
        assert(a =~= b);
    } else {
        let da = double_quotes(a);
        let db = double_quotes(b);
        assert(da[0] == db[0]);
        if a[0] == '"' {
            assert(b[0] == '"');
            assert(double_quotes(a.drop_first()) =~= da.skip(2));
            assert(double_quotes(b.drop_first()) =~= db.skip(2));
        } else {
            assert(b[0] != '"');
            assert(double_quotes(a.drop_first()) =~= da.skip(1));
            assert(double_quotes(b.drop_first()) =~= db.skip(1));
        }
        law_double_quotes_injective(a.drop_first(), b.drop_first());
        assert(a =~= seq![a[0]] + a.drop_first());
        assert(b =~= seq![b[0]] + b.drop_first());
    }
}

/// The rows of a file that were stored for the first time and those that
/// replaced rows already stored, and the first and last date-time of the
/// file, as the ingestion log records them.
#[derive(Debug, Clone, Copy, PartialEq, Eq)]
pub struct IngestionCounts {
    pub filas_nuevas: usize,
    pub filas_actualizadas: usize,
    pub timestamp_inicio: Option<i64>,
    pub timestamp_fin: Option<i64>,
}

/// The three row counts of an ingestion-log entry: rows processed (new plus
/// replaced), new rows and replaced rows, as stored (64-bit signed).
pub fn log_row_counts(filas_nuevas: usize, filas_actualizadas: usize) -> (r: (i64, i64, i64))
    requires
        filas_nuevas + filas_actualizadas <= usize::MAX,
    ensures
        r.0 == (filas_nuevas + filas_actualizadas) as i64,
        r.1 == filas_nuevas as i64,
        r.2 == filas_actualizadas as i64,
{
    ((filas_nuevas + filas_actualizadas) as i64, filas_nuevas as i64, filas_actualizadas as i64)
}

/// The number of rows of one table.
#[derive(Debug, Clone, PartialEq, Eq)]
pub struct TableSummary {
    pub name: String,
    pub row_count: usize,
}

} // verus!
