use vstd::prelude::*;

use crate::error::{CsvError, CsvFault};
use crate::models::NcuRecord;
use crate::reader::{bool_of, float_field_of, int_field_of, opt_string_of, parse_bool, parse_opt_string, parse_timestamp, timestamp_outcome};
use crate::table::{
    columns_of, field, field_of, find_columns, float_at, int_at, lemma_columns_len,
    read_csv_table, texts_view, CsvTable, TableModel, csv_read_outcome,
};
use crate::text::trim;

verus! {

/// The records of `rows`, each read by `f`, in order; or the fault of the
/// first row that cannot be read.
pub open spec fn rows_outcome<R>(
    rows: Seq<Seq<Seq<char>>>,
    f: spec_fn(Seq<Seq<char>>) -> Result<R, CsvFault>,
) -> Result<Seq<R>, CsvFault>
    decreases rows.len(),
{
    if rows.len() == 0 {
        Ok(Seq::empty())
    } else {
        match rows_outcome(rows.drop_last(), f) {
            Err(e) => Err(e),
            Ok(rs) => match f(rows.last()) {
                Err(e) => Err(e),
                Ok(r) => Ok(rs.push(r)),
            },
        }
    }
}

pub proof fn lemma_rows_error_sticks<R>(
    rows: Seq<Seq<Seq<char>>>,
    f: spec_fn(Seq<Seq<char>>) -> Result<R, CsvFault>,
    k: int,
)
    requires
        0 <= k <= rows.len(),
        rows_outcome(rows.take(k), f) is Err,
    ensures
        rows_outcome(rows, f) == rows_outcome(rows.take(k), f),
    decreases rows.len(),
{
    if k < rows.len() {
        assert(rows.drop_last().take(k) =~= rows.take(k));
        lemma_rows_error_sticks(rows.drop_last(), f, k);
    } else {
        assert(rows.take(k) =~= rows);
    }
}

/// What reading a table with the required columns `names` and the row
/// reader `f` gives: the first required column that is missing; or the
/// records, the fault of the first row that cannot be read, or the CSV
/// layer's error where it stopped early.
pub open spec fn table_outcome<R>(
    t: TableModel,
    names: Seq<Seq<char>>,
    f: spec_fn(Seq<Seq<char>>, Seq<int>) -> Result<R, CsvFault>,
) -> Result<Result<Seq<R>, CsvFault>, Seq<char>> {
    match columns_of(t.0, names) {
        Err(m) => Err(m),
        Ok(ix) => Ok(
            match rows_outcome(t.1, |row: Seq<Seq<char>>| f(row, ix)) {
                Err(e) => Err(e),
                Ok(rs) => match t.2 {
                    Some(m) => Err(CsvFault::Csv(m)),
                    None => Ok(rs),
                },
            },
        ),
    }
}

/// What reading the bytes `data` of a `;`-separated file with a header row
/// gives (see `table_outcome`); an error of the CSV layer on the header row
/// is a fault of its own.
pub open spec fn file_outcome<R>(
    data: Seq<u8>,
    names: Seq<Seq<char>>,
    f: spec_fn(Seq<Seq<char>>, Seq<int>) -> Result<R, CsvFault>,
) -> Result<Result<Seq<R>, CsvFault>, Seq<char>> {
    match csv_read_outcome(data, ';' as u8, true) {
        Err(m) => Ok(Err(CsvFault::Csv(m))),
        Ok(t) => table_outcome(t, names, f),
    }
}

/// Whether the executable records `r` agree with the modelled outcome `o`,
/// records compared by `view`.
pub open spec fn records_agree<T, R>(
    r: Result<Vec<T>, CsvError>,
    o: Result<Seq<R>, CsvFault>,
    view: spec_fn(T) -> R,
) -> bool {
    match o {
        Err(f) => r matches Err(e) && e@ == f,
        Ok(rs) => r matches Ok(v) && v@.map_values(view) == rs,
    }
}

/// Whether an executable outcome `r` agrees with the modelled outcome `o`:
/// the same missing column, or records that agree.
pub open spec fn read_agrees<T, R>(
    r: Result<Result<Vec<T>, CsvError>, String>,
    o: Result<Result<Seq<R>, CsvFault>, Seq<char>>,
    view: spec_fn(T) -> R,
) -> bool {
    match o {
        Err(m) => r matches Err(x) && x@ == m,
        Ok(inner) => r matches Ok(ri) && records_agree(ri, inner, view),
    }
}

/// Whether the row reader `f` reads nothing but the `n` fields at the
/// column positions it is given: two rows whose fields at those positions
/// agree read alike.
#[verifier::opaque]
pub open spec fn reads_only_columns<R>(
    f: spec_fn(Seq<Seq<char>>, Seq<int>) -> Result<R, CsvFault>,
    n: nat,
) -> bool {
    forall|r1: Seq<Seq<char>>, ix1: Seq<int>, r2: Seq<Seq<char>>, ix2: Seq<int>|
        ix1.len() == n && ix2.len() == n && (forall|k: int|
            0 <= k < n ==> #[trigger] field_of(r1, ix1[k]) == field_of(r2, ix2[k])) ==> #[trigger] f(
            r1,
            ix1,
        ) == #[trigger] f(r2, ix2)
}

/// Whether two reading outcomes agree: the same missing column, the same
/// records, or the same fault, where two errors of the CSV layer agree
/// whatever their messages.
pub open spec fn outcomes_agree<R>(
    a: Result<Result<Seq<R>, CsvFault>, Seq<char>>,
    b: Result<Result<Seq<R>, CsvFault>, Seq<char>>,
) -> bool {
    match (a, b) {
        (Ok(Err(CsvFault::Csv(_))), Ok(Err(CsvFault::Csv(_)))) => true,
        _ => a == b,
    }
}

/// Whether the table `t2` holds the columns of `t`, header and every row
/// alike, column `j` of `t` standing at position `p[j]` of `t2`: the columns
/// may come in another order, and `t2` may have columns of its own, none of
/// which is named (trimmed) like one of the required columns `names`. The
/// trimmed headers of `t2` are all different, and the CSV layer stops on an
/// error in both tables or in neither (its messages may differ).
#[verifier::opaque]
pub open spec fn rearranges(t: TableModel, t2: TableModel, p: Seq<int>, names: Seq<Seq<char>>) -> bool {
    &&& p.len() == t.0.len()
    &&& forall|j: int| 0 <= j < p.len() ==> 0 <= #[trigger] p[j] < t2.0.len() && t2.0[p[j]] == t.0[j]
    &&& forall|i1: int, i2: int|
        0 <= i1 < i2 < t2.0.len() ==> trim(#[trigger] t2.0[i1]) != trim(#[trigger] t2.0[i2])
    &&& forall|i: int|
        0 <= i < t2.0.len() && names.contains(trim(#[trigger] t2.0[i])) ==> exists|j: int|
            0 <= j < p.len() && #[trigger] p[j] == i
    &&& t2.1.len() == t.1.len()
    &&& forall|r: int, j: int|
        0 <= r < t.1.len() && 0 <= j < p.len() ==> #[trigger] field_of(t2.1[r], p[j]) == field_of(
            t.1[r],
            j,
        )
    &&& (t2.2 is Some <==> t.2 is Some)
}

// ----------------------------------------------------------------- NCU

/// The required columns of an NCU status file, in the order they are
/// looked up.
pub open spec fn ncu_columns() -> Seq<Seq<char>> {
    seq![
        "datetime"@,
        "mqtt_online"@,
        "gw1_online"@,
        "gw2_online"@,
        "ups_power_ok"@,
        "ups_battery_low"@,
        "stop_button"@,
        "bluetooth_enabled"@,
    ]
}

/// The NCU record of `row`, whose columns are at the positions `ix` (in the
/// order of `ncu_columns`).
pub open spec fn ncu_record_of(row: Seq<Seq<char>>, ix: Seq<int>) -> Result<NcuRecord, CsvFault> {
    match timestamp_outcome(trim(field_of(row, ix[0]))) {
        Err(f) => Err(f),
        Ok(ts) => Ok(
            NcuRecord {
                timestamp: ts,
                mqtt_online: bool_of(field_of(row, ix[1])),
                gw1_online: bool_of(field_of(row, ix[2])),
                gw2_online: bool_of(field_of(row, ix[3])),
                ups_power_ok: bool_of(field_of(row, ix[4])),
                ups_battery_low: bool_of(field_of(row, ix[5])),
                stop_button: bool_of(field_of(row, ix[6])),
                bluetooth_enabled: bool_of(field_of(row, ix[7])),
            },
        ),
    }
}

/// The row reader of NCU status files.
pub open spec fn ncu_reader() -> spec_fn(Seq<Seq<char>>, Seq<int>) -> Result<NcuRecord, CsvFault> {
    |row: Seq<Seq<char>>, ix: Seq<int>| ncu_record_of(row, ix)
}

/// An NCU status row is read from its required columns alone.
pub proof fn lemma_ncu_reads_only_columns()
    ensures
        reads_only_columns(ncu_reader(), 8),
{
    reveal(reads_only_columns);
    assert forall|r1: Seq<Seq<char>>, ix1: Seq<int>, r2: Seq<Seq<char>>, ix2: Seq<int>|
        ix1.len() == 8 && ix2.len() == 8 && (forall|k: int|
            0 <= k < 8 ==> #[trigger] field_of(r1, ix1[k]) == field_of(
                r2,
                ix2[k],
            )) implies #[trigger] ncu_reader()(r1, ix1) == #[trigger] ncu_reader()(r2, ix2) by {
        assert(field_of(r1, ix1[0]) == field_of(r2, ix2[0]));
        assert(field_of(r1, ix1[1]) == field_of(r2, ix2[1]));
        assert(field_of(r1, ix1[2]) == field_of(r2, ix2[2]));
        assert(field_of(r1, ix1[3]) == field_of(r2, ix2[3]));
        assert(field_of(r1, ix1[4]) == field_of(r2, ix2[4]));
        assert(field_of(r1, ix1[5]) == field_of(r2, ix2[5]));
        assert(field_of(r1, ix1[6]) == field_of(r2, ix2[6]));
        assert(field_of(r1, ix1[7]) == field_of(r2, ix2[7]));
    }
}

fn ncu_row(row: &Vec<String>, ix: &Vec<usize>) -> (r: Result<NcuRecord, CsvError>)
    requires
        ix@.len() == 8,
    ensures
        match ncu_record_of(row.deep_view(), ix@.map_values(|i: usize| i as int)) {
            Ok(rec) => r == Ok::<NcuRecord, CsvError>(rec),
            Err(f) => r matches Err(e) && e@ == f,
        },
{
    let ghost ixv = ix@.map_values(|i: usize| i as int);
    assert(forall|k: int| 0 <= k < 8 ==> #[trigger] ixv[k] == ix@[k] as int);
    let ts = parse_timestamp(field(row, ix[0]))?;
    Ok(
        NcuRecord {
            timestamp: ts,
            mqtt_online: parse_bool(field(row, ix[1])),
            gw1_online: parse_bool(field(row, ix[2])),
            gw2_online: parse_bool(field(row, ix[3])),
            ups_power_ok: parse_bool(field(row, ix[4])),
            ups_battery_low: parse_bool(field(row, ix[5])),
            stop_button: parse_bool(field(row, ix[6])),
            bluetooth_enabled: parse_bool(field(row, ix[7])),
        },
    )
}

/// The names of the required columns of an NCU status file, in the order they are
/// looked up.
fn ncu_column_names() -> (r: [&'static str; 8])
    ensures
        texts_view(r@) == ncu_columns(),
{
    let names: [&'static str; 8] = [
        "datetime",
        "mqtt_online",
        "gw1_online",
        "gw2_online",
        "ups_power_ok",
        "ups_battery_low",
        "stop_button",
        "bluetooth_enabled",
    ];
    assert(texts_view(names@) =~= ncu_columns());
    names
}

/// The rows of a table of an NCU status file whose header names every required
/// column (see `table_outcome`).
pub fn read_ncu_table(t: &CsvTable) -> (r: Result<Vec<NcuRecord>, CsvError>)
    requires
        columns_of(t@.0, ncu_columns()) is Ok,
    ensures
        table_outcome(t@, ncu_columns(), ncu_reader()) matches Ok(o) && records_agree(r, o, |x: NcuRecord| x),
{
    let names = ncu_column_names();
    let ix = match find_columns(&t.headers, &names) {
        Ok(ix) => ix,
        Err(m) => {
            return Err(CsvError::Csv(m));
        },
    };
    let ghost ixv = ix@.map_values(|i: usize| i as int);
    let ghost cols = columns_of(t.headers.deep_view(), ncu_columns())->Ok_0;
    proof {
        lemma_columns_len(t.headers.deep_view(), ncu_columns());
    }
    assert(ixv =~= cols);
    let ghost f = |row: Seq<Seq<char>>| ncu_record_of(row, ixv);
    let ghost rows = t.rows.deep_view();
    let n = t.rows.len();
    let mut out: Vec<NcuRecord> = Vec::new();
    let mut i: usize = 0;
    while i < n
        invariant
            n == t.rows@.len(),
            rows == t.rows.deep_view(),
            ix@.len() == 8,
            ixv == ix@.map_values(|i: usize| i as int),
            ixv == cols,
            columns_of(t.headers.deep_view(), ncu_columns()) == Ok::<Seq<int>, Seq<char>>(cols),
            f == (|row: Seq<Seq<char>>| ncu_record_of(row, ixv)),
            i <= n,
            rows_outcome(rows.take(i as int), f) == Ok::<Seq<NcuRecord>, CsvFault>(out@),
        decreases n - i,
    {
        assert(rows.take(i + 1).drop_last() =~= rows.take(i as int));
        assert(rows.take(i + 1).last() == t.rows@[i as int].deep_view());
        match ncu_row(&t.rows[i], &ix) {
            Ok(rec) => {
                out.push(rec);
            },
            Err(e) => {
                proof {
                    lemma_rows_error_sticks(rows, f, i + 1);
                    assert(f =~= (|row: Seq<Seq<char>>| ncu_reader()(row, cols)));
                }
                return Err(e);
            },
        }
        i = i + 1;
    }
    assert(rows.take(n as int) =~= rows);
    assert(out@.map_values(|x: NcuRecord| x) =~= out@);
    assert(f =~= (|row: Seq<Seq<char>>| ncu_reader()(row, cols)));
    match &t.error {
        Some(m) => Err(CsvError::Csv(m.clone())),
        None => Ok(out),
    }
}

/// Reads the bytes of an NCU status file (`;`-separated, with a header row).
/// The outer error names the first required column that the header lacks;
/// the tables are read only where every required column is there.
pub fn read_ncu_csv(data: &[u8]) -> (r: Result<Result<Vec<NcuRecord>, CsvError>, String>)
    ensures
        read_agrees(r, file_outcome(data@, ncu_columns(), ncu_reader()), |x: NcuRecord| x),
{
    match read_csv_table(data, ';' as u8, true) {
        Err(m) => Ok(Err(CsvError::Csv(m))),
        Ok(t) => {
            let names = ncu_column_names();
            match find_columns(&t.headers, &names) {
                Err(m) => Err(m),
                Ok(_) => Ok(read_ncu_table(&t)),
            }
        },
    }
}

// ----------------------------------------------------------------- sensors and TCU

/// A row of a sensor file (HSU or NCU_SENSORS); floating-point fields are kept as the text of the
/// literal.
#[derive(Debug, Clone, PartialEq, Eq)]
pub struct SensorRow {
    pub timestamp: i64,
    pub main_battery: Option<i64>,
    pub internal_temp: Option<String>,
    pub wind_speed: Option<String>,
    pub wind_direction: Option<String>,
    pub wind_level: Option<i64>,
    pub snow_level: Option<String>,
    pub irradiance: Option<i64>,
    pub wind_alarm: bool,
    pub gusty_wind_alarm: bool,
    pub snow_alarm: bool,
    pub snow_sensor_com_error: bool,
}

/// The model of a `SensorRow`.
pub struct SensorEntry {
    pub timestamp: i64,
    pub main_battery: Option<i64>,
    pub internal_temp: Option<Seq<char>>,
    pub wind_speed: Option<Seq<char>>,
    pub wind_direction: Option<Seq<char>>,
    pub wind_level: Option<i64>,
    pub snow_level: Option<Seq<char>>,
    pub irradiance: Option<i64>,
    pub wind_alarm: bool,
    pub gusty_wind_alarm: bool,
    pub snow_alarm: bool,
    pub snow_sensor_com_error: bool,
}

impl View for SensorRow {
    type V = SensorEntry;

    open spec fn view(&self) -> SensorEntry {
        SensorEntry {
            timestamp: self.timestamp,
            main_battery: self.main_battery,
            internal_temp: self.internal_temp.deep_view(),
            wind_speed: self.wind_speed.deep_view(),
            wind_direction: self.wind_direction.deep_view(),
            wind_level: self.wind_level,
            snow_level: self.snow_level.deep_view(),
            irradiance: self.irradiance,
            wind_alarm: self.wind_alarm,
            gusty_wind_alarm: self.gusty_wind_alarm,
            snow_alarm: self.snow_alarm,
            snow_sensor_com_error: self.snow_sensor_com_error,
        }
    }
}

/// The required columns of a sensor file, in the order they are looked up.
pub open spec fn sensor_columns() -> Seq<Seq<char>> {
    seq![
        "datetime"@,
        "main_battery"@,
        "internal_temp"@,
        "wind_speed"@,
        "wind_direction"@,
        "wind_level"@,
        "snow_level"@,
        "irradiance"@,
        "wind_alarm"@,
        "gusty_wind_alarm"@,
        "snow_alarm"@,
        "snow_sensor_com_error"@,
    ]
}

/// The sensor-file (HSU or NCU_SENSORS) record of `row`, whose columns are at the positions `ix`
/// (in the order of `sensor_columns`); only the date-time can fail to read.
pub open spec fn sensor_record_of(row: Seq<Seq<char>>, ix: Seq<int>) -> Result<SensorEntry, CsvFault> {
    match timestamp_outcome(trim(field_of(row, ix[0]))) {
        Err(f) => Err(f),
        Ok(ts) => Ok(
            SensorEntry {
                timestamp: ts,
                main_battery: int_field_of(field_of(row, ix[1])),
                internal_temp: float_field_of(field_of(row, ix[2])),
                wind_speed: float_field_of(field_of(row, ix[3])),
                wind_direction: float_field_of(field_of(row, ix[4])),
                wind_level: int_field_of(field_of(row, ix[5])),
                snow_level: float_field_of(field_of(row, ix[6])),
                irradiance: int_field_of(field_of(row, ix[7])),
                wind_alarm: bool_of(field_of(row, ix[8])),
                gusty_wind_alarm: bool_of(field_of(row, ix[9])),
                snow_alarm: bool_of(field_of(row, ix[10])),
                snow_sensor_com_error: bool_of(field_of(row, ix[11])),
            },
        ),
    }
}

/// The row reader of a sensor file.
pub open spec fn sensor_reader() -> spec_fn(Seq<Seq<char>>, Seq<int>) -> Result<SensorEntry, CsvFault> {
    |row: Seq<Seq<char>>, ix: Seq<int>| sensor_record_of(row, ix)
}

/// A sensor row is read from its required columns alone.
pub proof fn lemma_sensor_reads_only_columns()
    ensures
        reads_only_columns(sensor_reader(), 12),
{
    reveal(reads_only_columns);
    assert forall|r1: Seq<Seq<char>>, ix1: Seq<int>, r2: Seq<Seq<char>>, ix2: Seq<int>|
        ix1.len() == 12 && ix2.len() == 12 && (forall|k: int|
            0 <= k < 12 ==> #[trigger] field_of(r1, ix1[k]) == field_of(
                r2,
                ix2[k],
            )) implies #[trigger] sensor_reader()(r1, ix1) == #[trigger] sensor_reader()(r2, ix2) by {
        assert(field_of(r1, ix1[0]) == field_of(r2, ix2[0]));
        assert(field_of(r1, ix1[1]) == field_of(r2, ix2[1]));
        assert(field_of(r1, ix1[2]) == field_of(r2, ix2[2]));
        assert(field_of(r1, ix1[3]) == field_of(r2, ix2[3]));
        assert(field_of(r1, ix1[4]) == field_of(r2, ix2[4]));
        assert(field_of(r1, ix1[5]) == field_of(r2, ix2[5]));
        assert(field_of(r1, ix1[6]) == field_of(r2, ix2[6]));
        assert(field_of(r1, ix1[7]) == field_of(r2, ix2[7]));
        assert(field_of(r1, ix1[8]) == field_of(r2, ix2[8]));
        assert(field_of(r1, ix1[9]) == field_of(r2, ix2[9]));
        assert(field_of(r1, ix1[10]) == field_of(r2, ix2[10]));
        assert(field_of(r1, ix1[11]) == field_of(r2, ix2[11]));
    }
}

fn sensor_row(row: &Vec<String>, ix: &Vec<usize>) -> (r: Result<SensorRow, CsvError>)
    requires
        ix@.len() == 12,
    ensures
        match sensor_record_of(row.deep_view(), ix@.map_values(|i: usize| i as int)) {
            Ok(rec) => r matches Ok(x) && x@ == rec,
            Err(f) => r matches Err(e) && e@ == f,
        },
{
    let ghost ixv = ix@.map_values(|i: usize| i as int);
    assert(forall|k: int| 0 <= k < 12 ==> #[trigger] ixv[k] == ix@[k] as int);
    let ts = parse_timestamp(field(row, ix[0]))?;
    let rec = SensorRow {
        timestamp: ts,
        main_battery: int_at(row, ix[1]),
        internal_temp: float_at(row, ix[2]),
        wind_speed: float_at(row, ix[3]),
        wind_direction: float_at(row, ix[4]),
        wind_level: int_at(row, ix[5]),
        snow_level: float_at(row, ix[6]),
        irradiance: int_at(row, ix[7]),
        wind_alarm: parse_bool(field(row, ix[8])),
        gusty_wind_alarm: parse_bool(field(row, ix[9])),
        snow_alarm: parse_bool(field(row, ix[10])),
        snow_sensor_com_error: parse_bool(field(row, ix[11])),
    };
    Ok(rec)
}

/// The names of the required columns of a sensor file, in the order they are
/// looked up.
fn sensor_column_names() -> (r: [&'static str; 12])
    ensures
        texts_view(r@) == sensor_columns(),
{
    let names: [&'static str; 12] = [
        "datetime",
        "main_battery",
        "internal_temp",
        "wind_speed",
        "wind_direction",
        "wind_level",
        "snow_level",
        "irradiance",
        "wind_alarm",
        "gusty_wind_alarm",
        "snow_alarm",
        "snow_sensor_com_error",
    ];
    assert(texts_view(names@) =~= sensor_columns());
    names
}

/// The rows of a table of a sensor file whose header names every required
/// column (see `table_outcome`).
pub fn read_sensor_table(t: &CsvTable) -> (r: Result<Vec<SensorRow>, CsvError>)
    requires
        columns_of(t@.0, sensor_columns()) is Ok,
    ensures
        table_outcome(t@, sensor_columns(), sensor_reader()) matches Ok(o) && records_agree(r, o, |x: SensorRow| x@),
{
    let names = sensor_column_names();
    let ix = match find_columns(&t.headers, &names) {
        Ok(ix) => ix,
        Err(m) => {
            return Err(CsvError::Csv(m));
        },
    };
    let ghost ixv = ix@.map_values(|i: usize| i as int);
    let ghost cols = columns_of(t.headers.deep_view(), sensor_columns())->Ok_0;
    proof {
        lemma_columns_len(t.headers.deep_view(), sensor_columns());
    }
    assert(ixv =~= cols);
    let ghost f = |row: Seq<Seq<char>>| sensor_record_of(row, ixv);
    let ghost rows = t.rows.deep_view();
    let n = t.rows.len();
    let mut out: Vec<SensorRow> = Vec::new();
    let mut i: usize = 0;
    assert(out@.map_values(|x: SensorRow| x@) =~= Seq::<SensorEntry>::empty());
    assert(rows.take(0).len() == 0);
    while i < n
        invariant
            n == t.rows@.len(),
            rows == t.rows.deep_view(),
            ix@.len() == 12,
            ixv == ix@.map_values(|i: usize| i as int),
            ixv == cols,
            columns_of(t.headers.deep_view(), sensor_columns()) == Ok::<Seq<int>, Seq<char>>(cols),
            f == (|row: Seq<Seq<char>>| sensor_record_of(row, ixv)),
            i <= n,
            rows_outcome(rows.take(i as int), f) == Ok::<Seq<SensorEntry>, CsvFault>(
                out@.map_values(|x: SensorRow| x@),
            ),
        decreases n - i,
    {
        assert(rows.take(i + 1).drop_last() =~= rows.take(i as int));
        assert(rows.take(i + 1).last() == t.rows@[i as int].deep_view());
        match sensor_row(&t.rows[i], &ix) {
            Ok(rec) => {
                let ghost prev = out@;
                out.push(rec);
                assert(out@.map_values(|x: SensorRow| x@) =~= prev.map_values(|x: SensorRow| x@).push(
                    out@.last()@,
                ));
            },
            Err(e) => {
                proof {
                    lemma_rows_error_sticks(rows, f, i + 1);
                    assert(f =~= (|row: Seq<Seq<char>>| sensor_reader()(row, cols)));
                }
                return Err(e);
            },
        }
        i = i + 1;
    }
    assert(rows.take(n as int) =~= rows);
    assert(f =~= (|row: Seq<Seq<char>>| sensor_reader()(row, cols)));
    match &t.error {
        Some(m) => Err(CsvError::Csv(m.clone())),
        None => Ok(out),
    }
}

/// Reads the bytes of a sensor file (`;`-separated, with a header row). The
/// outer error names the first required column that the header lacks; the
/// table is read only where every required column is there.
pub fn read_sensor_csv(data: &[u8]) -> (r: Result<Result<Vec<SensorRow>, CsvError>, String>)
    ensures
        read_agrees(r, file_outcome(data@, sensor_columns(), sensor_reader()), |x: SensorRow| x@),
{
    match read_csv_table(data, ';' as u8, true) {
        Err(m) => Ok(Err(CsvError::Csv(m))),
        Ok(t) => {
            let names = sensor_column_names();
            match find_columns(&t.headers, &names) {
                Err(m) => Err(m),
                Ok(_) => Ok(read_sensor_table(&t)),
            }
        },
    }
}

/// A row of a TCU file; floating-point fields are kept as the text of the
/// literal.
#[derive(Debug, Clone, PartialEq, Eq)]
pub struct TcuRow {
    pub timestamp: i64,
    pub main_state: Option<String>,
    pub backtracking: bool,
    pub wind_from_east: bool,
    pub active_security_position: Option<i64>,
    pub angle: Option<String>,
    pub target_angle: Option<String>,
    pub soc: Option<i64>,
    pub remaining_capacity: Option<i64>,
    pub ps_voltage: Option<i64>,
    pub ps_current: Option<i64>,
    pub voltage: Option<i64>,
    pub current: Option<i64>,
    pub motor_voltage: Option<i64>,
    pub motor_current: Option<i64>,
    pub motor_current_peak: Option<i64>,
    pub motor_state: Option<String>,
    pub motor_pwm: Option<String>,
    pub daily_motor_power_consumption: Option<i64>,
    pub pcb_temp: Option<String>,
    pub battery_temp: Option<String>,
    pub alarms_1: Option<i64>,
    pub alarms_2: Option<i64>,
    pub hw_alarms: Option<i64>,
    pub system_monitor_status: Option<i64>,
    pub system_monitor_flags: Option<i64>,
    pub power_section_alarms: Option<i64>,
}

/// The model of a `TcuRow`.
pub struct TcuEntry {
    pub timestamp: i64,
    pub main_state: Option<Seq<char>>,
    pub backtracking: bool,
    pub wind_from_east: bool,
    pub active_security_position: Option<i64>,
    pub angle: Option<Seq<char>>,
    pub target_angle: Option<Seq<char>>,
    pub soc: Option<i64>,
    pub remaining_capacity: Option<i64>,
    pub ps_voltage: Option<i64>,
    pub ps_current: Option<i64>,
    pub voltage: Option<i64>,
    pub current: Option<i64>,
    pub motor_voltage: Option<i64>,
    pub motor_current: Option<i64>,
    pub motor_current_peak: Option<i64>,
    pub motor_state: Option<Seq<char>>,
    pub motor_pwm: Option<Seq<char>>,
    pub daily_motor_power_consumption: Option<i64>,
    pub pcb_temp: Option<Seq<char>>,
    pub battery_temp: Option<Seq<char>>,
    pub alarms_1: Option<i64>,
    pub alarms_2: Option<i64>,
    pub hw_alarms: Option<i64>,
    pub system_monitor_status: Option<i64>,
    pub system_monitor_flags: Option<i64>,
    pub power_section_alarms: Option<i64>,
}

impl View for TcuRow {
    type V = TcuEntry;

    open spec fn view(&self) -> TcuEntry {
        TcuEntry {
            timestamp: self.timestamp,
            main_state: self.main_state.deep_view(),
            backtracking: self.backtracking,
            wind_from_east: self.wind_from_east,
            active_security_position: self.active_security_position,
            angle: self.angle.deep_view(),
            target_angle: self.target_angle.deep_view(),
            soc: self.soc,
            remaining_capacity: self.remaining_capacity,
            ps_voltage: self.ps_voltage,
            ps_current: self.ps_current,
            voltage: self.voltage,
            current: self.current,
            motor_voltage: self.motor_voltage,
            motor_current: self.motor_current,
            motor_current_peak: self.motor_current_peak,
            motor_state: self.motor_state.deep_view(),
            motor_pwm: self.motor_pwm.deep_view(),
            daily_motor_power_consumption: self.daily_motor_power_consumption,
            pcb_temp: self.pcb_temp.deep_view(),
            battery_temp: self.battery_temp.deep_view(),
            alarms_1: self.alarms_1,
            alarms_2: self.alarms_2,
            hw_alarms: self.hw_alarms,
            system_monitor_status: self.system_monitor_status,
            system_monitor_flags: self.system_monitor_flags,
            power_section_alarms: self.power_section_alarms,
        }
    }
}

/// The required columns of a TCU file, in the order they are looked up.
pub open spec fn tcu_columns() -> Seq<Seq<char>> {
    seq![
        "datetime"@,
        "main_state"@,
        "backtracking"@,
        "wind_from_east"@,
        "active_security_position"@,
        "angle"@,
        "target_angle"@,
        "soc"@,
        "remaining_capacity"@,
        "ps_voltage"@,
        "ps_current"@,
        "voltage"@,
        "current"@,
        "motor_voltage"@,
        "motor_current"@,
        "motor_current_peak"@,
        "motor_state"@,
        "motor_pwm"@,
        "daily_motor_power_consumption"@,
        "pcb_temp"@,
        "battery_temp"@,
        "alarms_1"@,
        "alarms_2"@,
        "hw_alarms"@,
        "system_monitor_status"@,
        "system_monitor_flags"@,
        "power_section_alarms"@,
    ]
}

/// The TCU-file record of `row`, whose columns are at the positions `ix`
/// (in the order of `tcu_columns`); only the date-time can fail to read.
pub open spec fn tcu_record_of(row: Seq<Seq<char>>, ix: Seq<int>) -> Result<TcuEntry, CsvFault> {
    match timestamp_outcome(trim(field_of(row, ix[0]))) {
        Err(f) => Err(f),
        Ok(ts) => Ok(
            TcuEntry {
                timestamp: ts,
                main_state: opt_string_of(field_of(row, ix[1])),
                backtracking: bool_of(field_of(row, ix[2])),
                wind_from_east: bool_of(field_of(row, ix[3])),
                active_security_position: int_field_of(field_of(row, ix[4])),
                angle: float_field_of(field_of(row, ix[5])),
                target_angle: float_field_of(field_of(row, ix[6])),
                soc: int_field_of(field_of(row, ix[7])),
                remaining_capacity: int_field_of(field_of(row, ix[8])),
                ps_voltage: int_field_of(field_of(row, ix[9])),
                ps_current: int_field_of(field_of(row, ix[10])),
                voltage: int_field_of(field_of(row, ix[11])),
                current: int_field_of(field_of(row, ix[12])),
                motor_voltage: int_field_of(field_of(row, ix[13])),
                motor_current: int_field_of(field_of(row, ix[14])),
                motor_current_peak: int_field_of(field_of(row, ix[15])),
                motor_state: opt_string_of(field_of(row, ix[16])),
                motor_pwm: float_field_of(field_of(row, ix[17])),
                daily_motor_power_consumption: int_field_of(field_of(row, ix[18])),
                pcb_temp: float_field_of(field_of(row, ix[19])),
                battery_temp: float_field_of(field_of(row, ix[20])),
                alarms_1: int_field_of(field_of(row, ix[21])),
                alarms_2: int_field_of(field_of(row, ix[22])),
                hw_alarms: int_field_of(field_of(row, ix[23])),
                system_monitor_status: int_field_of(field_of(row, ix[24])),
                system_monitor_flags: int_field_of(field_of(row, ix[25])),
                power_section_alarms: int_field_of(field_of(row, ix[26])),
            },
        ),
    }
}

/// The row reader of a TCU file.
pub open spec fn tcu_reader() -> spec_fn(Seq<Seq<char>>, Seq<int>) -> Result<TcuEntry, CsvFault> {
    |row: Seq<Seq<char>>, ix: Seq<int>| tcu_record_of(row, ix)
}

/// A TCU row is read from its required columns alone.
pub proof fn lemma_tcu_reads_only_columns()
    ensures
        reads_only_columns(tcu_reader(), 27),
{
    reveal(reads_only_columns);
    assert forall|r1: Seq<Seq<char>>, ix1: Seq<int>, r2: Seq<Seq<char>>, ix2: Seq<int>|
        ix1.len() == 27 && ix2.len() == 27 && (forall|k: int|
            0 <= k < 27 ==> #[trigger] field_of(r1, ix1[k]) == field_of(
                r2,
                ix2[k],
            )) implies #[trigger] tcu_reader()(r1, ix1) == #[trigger] tcu_reader()(r2, ix2) by {
        assert(field_of(r1, ix1[0]) == field_of(r2, ix2[0]));
        assert(field_of(r1, ix1[1]) == field_of(r2, ix2[1]));
        assert(field_of(r1, ix1[2]) == field_of(r2, ix2[2]));
        assert(field_of(r1, ix1[3]) == field_of(r2, ix2[3]));
        assert(field_of(r1, ix1[4]) == field_of(r2, ix2[4]));
        assert(field_of(r1, ix1[5]) == field_of(r2, ix2[5]));
        assert(field_of(r1, ix1[6]) == field_of(r2, ix2[6]));
        assert(field_of(r1, ix1[7]) == field_of(r2, ix2[7]));
        assert(field_of(r1, ix1[8]) == field_of(r2, ix2[8]));
        assert(field_of(r1, ix1[9]) == field_of(r2, ix2[9]));
        assert(field_of(r1, ix1[10]) == field_of(r2, ix2[10]));
        assert(field_of(r1, ix1[11]) == field_of(r2, ix2[11]));
        assert(field_of(r1, ix1[12]) == field_of(r2, ix2[12]));
        assert(field_of(r1, ix1[13]) == field_of(r2, ix2[13]));
        assert(field_of(r1, ix1[14]) == field_of(r2, ix2[14]));
        assert(field_of(r1, ix1[15]) == field_of(r2, ix2[15]));
        assert(field_of(r1, ix1[16]) == field_of(r2, ix2[16]));
        assert(field_of(r1, ix1[17]) == field_of(r2, ix2[17]));
        assert(field_of(r1, ix1[18]) == field_of(r2, ix2[18]));
        assert(field_of(r1, ix1[19]) == field_of(r2, ix2[19]));
        assert(field_of(r1, ix1[20]) == field_of(r2, ix2[20]));
        assert(field_of(r1, ix1[21]) == field_of(r2, ix2[21]));
        assert(field_of(r1, ix1[22]) == field_of(r2, ix2[22]));
        assert(field_of(r1, ix1[23]) == field_of(r2, ix2[23]));
        assert(field_of(r1, ix1[24]) == field_of(r2, ix2[24]));
        assert(field_of(r1, ix1[25]) == field_of(r2, ix2[25]));
        assert(field_of(r1, ix1[26]) == field_of(r2, ix2[26]));
    }
}

fn tcu_row(row: &Vec<String>, ix: &Vec<usize>) -> (r: Result<TcuRow, CsvError>)
    requires
        ix@.len() == 27,
    ensures
        match tcu_record_of(row.deep_view(), ix@.map_values(|i: usize| i as int)) {
            Ok(rec) => r matches Ok(x) && x@ == rec,
            Err(f) => r matches Err(e) && e@ == f,
        },
{
    let ghost ixv = ix@.map_values(|i: usize| i as int);
    assert(forall|k: int| 0 <= k < 27 ==> #[trigger] ixv[k] == ix@[k] as int);
    let ts = parse_timestamp(field(row, ix[0]))?;
    let rec = TcuRow {
        timestamp: ts,
        main_state: parse_opt_string(field(row, ix[1])),
        backtracking: parse_bool(field(row, ix[2])),
        wind_from_east: parse_bool(field(row, ix[3])),
        active_security_position: int_at(row, ix[4]),
        angle: float_at(row, ix[5]),
        target_angle: float_at(row, ix[6]),
        soc: int_at(row, ix[7]),
        remaining_capacity: int_at(row, ix[8]),
        ps_voltage: int_at(row, ix[9]),
        ps_current: int_at(row, ix[10]),
        voltage: int_at(row, ix[11]),
        current: int_at(row, ix[12]),
        motor_voltage: int_at(row, ix[13]),
        motor_current: int_at(row, ix[14]),
        motor_current_peak: int_at(row, ix[15]),
        motor_state: parse_opt_string(field(row, ix[16])),
        motor_pwm: float_at(row, ix[17]),
        daily_motor_power_consumption: int_at(row, ix[18]),
        pcb_temp: float_at(row, ix[19]),
        battery_temp: float_at(row, ix[20]),
        alarms_1: int_at(row, ix[21]),
        alarms_2: int_at(row, ix[22]),
        hw_alarms: int_at(row, ix[23]),
        system_monitor_status: int_at(row, ix[24]),
        system_monitor_flags: int_at(row, ix[25]),
        power_section_alarms: int_at(row, ix[26]),
    };
    Ok(rec)
}

/// The names of the required columns of a TCU file, in the order they are
/// looked up.
fn tcu_column_names() -> (r: [&'static str; 27])
    ensures
        texts_view(r@) == tcu_columns(),
{
    let names: [&'static str; 27] = [
        "datetime",
        "main_state",
        "backtracking",
        "wind_from_east",
        "active_security_position",
        "angle",
        "target_angle",
        "soc",
        "remaining_capacity",
        "ps_voltage",
        "ps_current",
        "voltage",
        "current",
        "motor_voltage",
        "motor_current",
        "motor_current_peak",
        "motor_state",
        "motor_pwm",
        "daily_motor_power_consumption",
        "pcb_temp",
        "battery_temp",
        "alarms_1",
        "alarms_2",
        "hw_alarms",
        "system_monitor_status",
        "system_monitor_flags",
        "power_section_alarms",
    ];
    assert(texts_view(names@) =~= tcu_columns());
    names
}

/// The rows of a table of a TCU file whose header names every required
/// column (see `table_outcome`).
pub fn read_tcu_table(t: &CsvTable) -> (r: Result<Vec<TcuRow>, CsvError>)
    requires
        columns_of(t@.0, tcu_columns()) is Ok,
    ensures
        table_outcome(t@, tcu_columns(), tcu_reader()) matches Ok(o) && records_agree(r, o, |x: TcuRow| x@),
{
    let names = tcu_column_names();
    let ix = match find_columns(&t.headers, &names) {
        Ok(ix) => ix,
        Err(m) => {
            return Err(CsvError::Csv(m));
        },
    };
    let ghost ixv = ix@.map_values(|i: usize| i as int);
    let ghost cols = columns_of(t.headers.deep_view(), tcu_columns())->Ok_0;
    proof {
        lemma_columns_len(t.headers.deep_view(), tcu_columns());
    }
    assert(ixv =~= cols);
    let ghost f = |row: Seq<Seq<char>>| tcu_record_of(row, ixv);
    let ghost rows = t.rows.deep_view();
    let n = t.rows.len();
    let mut out: Vec<TcuRow> = Vec::new();
    let mut i: usize = 0;
    assert(out@.map_values(|x: TcuRow| x@) =~= Seq::<TcuEntry>::empty());
    assert(rows.take(0).len() == 0);
    while i < n
        invariant
            n == t.rows@.len(),
            rows == t.rows.deep_view(),
            ix@.len() == 27,
            ixv == ix@.map_values(|i: usize| i as int),
            ixv == cols,
            columns_of(t.headers.deep_view(), tcu_columns()) == Ok::<Seq<int>, Seq<char>>(cols),
            f == (|row: Seq<Seq<char>>| tcu_record_of(row, ixv)),
            i <= n,
            rows_outcome(rows.take(i as int), f) == Ok::<Seq<TcuEntry>, CsvFault>(
                out@.map_values(|x: TcuRow| x@),
            ),
        decreases n - i,
    {
        assert(rows.take(i + 1).drop_last() =~= rows.take(i as int));
        assert(rows.take(i + 1).last() == t.rows@[i as int].deep_view());
        match tcu_row(&t.rows[i], &ix) {
            Ok(rec) => {
                let ghost prev = out@;
                out.push(rec);
                assert(out@.map_values(|x: TcuRow| x@) =~= prev.map_values(|x: TcuRow| x@).push(
                    out@.last()@,
                ));
            },
            Err(e) => {
                proof {
                    lemma_rows_error_sticks(rows, f, i + 1);
                    assert(f =~= (|row: Seq<Seq<char>>| tcu_reader()(row, cols)));
                }
                return Err(e);
            },
        }
        i = i + 1;
    }
    assert(rows.take(n as int) =~= rows);
    assert(f =~= (|row: Seq<Seq<char>>| tcu_reader()(row, cols)));
    match &t.error {
        Some(m) => Err(CsvError::Csv(m.clone())),
        None => Ok(out),
    }
}

/// Reads the bytes of a TCU file (`;`-separated, with a header row). The
/// outer error names the first required column that the header lacks; the
/// table is read only where every required column is there.
pub fn read_tcu_csv(data: &[u8]) -> (r: Result<Result<Vec<TcuRow>, CsvError>, String>)
    ensures
        read_agrees(r, file_outcome(data@, tcu_columns(), tcu_reader()), |x: TcuRow| x@),
{
    match read_csv_table(data, ';' as u8, true) {
        Err(m) => Ok(Err(CsvError::Csv(m))),
        Ok(t) => {
            let names = tcu_column_names();
            match find_columns(&t.headers, &names) {
                Err(m) => Err(m),
                Ok(_) => Ok(read_tcu_table(&t)),
            }
        },
    }
}

} // verus!
