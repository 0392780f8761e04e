//! Properties of the library as a whole, stated over the models that the
//! functions' contracts use.
use vstd::prelude::*;

use vstd::utf8::{decode_utf8, valid_utf8};

use crate::events::event_of_line;
use crate::ingest::{device_id_of, device_kind_of, placeholders};
use crate::error::CsvFault;
use crate::models::NcuRecord;
use crate::records::{
    SensorEntry, TcuEntry,
    lemma_ncu_reads_only_columns, lemma_sensor_reads_only_columns, lemma_tcu_reads_only_columns,
    ncu_columns, ncu_reader, outcomes_agree, reads_only_columns, rearranges, rows_outcome, sensor_columns,
    sensor_reader, table_outcome, tcu_columns, tcu_reader,
};
use crate::table::{column_of, columns_of, field_of, lemma_columns_len, TableModel};
use crate::protocol::{
    counts_of, ingest_next, ingest_run, IngestAction, IngestEventModel, IngestState,
};
use crate::models::{
    before_first, file_name_of, kind_of_name, last_segment, last_segment_after,
    name_for_detection, starts_with, unit_id, FileKind,
};
use crate::numbers::{
    decimal_text, digits_of, lemma_decimal_round_trip, lemma_digits_of_digits, IntErrorKind,
    accumulate_digits, decimal_i64, is_ascii_digit, is_decimal_number, is_float_literal,
    is_mantissa, is_sign, without_sign,
};
use crate::reader::{
    bool_of, float_field_of, int_field_of, is_false_word, is_true_word, lenient_bool_of,
    opt_string_of, timestamp_outcome,
};
use crate::text::{ascii_lower, ascii_lower_seq, is_white_space, trim, trim_end, trim_start};

verus! {

proof fn lemma_trim_start_shape(s: Seq<char>) -> (k: int)
    ensures
        0 <= k <= s.len(),
        trim_start(s) == s.skip(k),
        k < s.len() ==> !is_white_space(s[k]),
    decreases s.len(),
{
    if s.len() > 0 && is_white_space(s[0]) {
        let k = lemma_trim_start_shape(s.drop_first());
        assert(s.drop_first().skip(k) =~= s.skip(k + 1));
        if k + 1 < s.len() {
            assert(s[k + 1] == s.drop_first()[k]);
        }
        k + 1
    } else {
        assert(s.skip(0) =~= s);
        0
    }
}

proof fn lemma_trim_end_shape(s: Seq<char>) -> (j: int)
    ensures
        0 <= j <= s.len(),
        trim_end(s) == s.take(j),
        j > 0 ==> !is_white_space(s[j - 1]),
    decreases s.len(),
{
    if s.len() > 0 && is_white_space(s.last()) {
        let j = lemma_trim_end_shape(s.drop_last());
        assert(s.drop_last().take(j) =~= s.take(j));
        if j > 0 {
            assert(s[j - 1] == s.drop_last()[j - 1]);
        }
        j
    } else {
        assert(s.take(s.len() as int) =~= s);
        s.len() as int
    }
}

proof fn lemma_trim_shape(s: Seq<char>)
    ensures
        trim(s).len() > 0 ==> !is_white_space(trim(s)[0]) && !is_white_space(trim(s).last()),
{
    let k = lemma_trim_start_shape(s);
    let x = trim_start(s);
    let j = lemma_trim_end_shape(x);
    if j > 0 {
        assert(x[0] == s[k]);
        assert(trim(s)[0] == x[0]);
        assert(trim(s).last() == x[j - 1]);
    }
}

/// Trimming twice is trimming once.
pub proof fn law_trim_idempotent(s: Seq<char>)
    ensures
        trim(trim(s)) == trim(s),
{
    let t = trim(s);
    lemma_trim_shape(s);
    if t.len() > 0 {
        assert(trim_start(t) == t);
        assert(trim_end(t) == t);
    } else {
        assert(trim_start(t) == t);
        assert(trim_end(t) == t);
    }
}

/// White space around a field never changes what it reads as: every field
/// reader gives the same outcome for the field and for its trimmed text.
pub proof fn law_fields_ignore_surrounding_space(s: Seq<char>)
    ensures
        bool_of(trim(s)) == bool_of(s),
        lenient_bool_of(trim(s)) == lenient_bool_of(s),
        int_field_of(trim(s)) == int_field_of(s),
        float_field_of(trim(s)) == float_field_of(s),
        opt_string_of(trim(s)) == opt_string_of(s),
        timestamp_outcome(trim(trim(s))) == timestamp_outcome(trim(s)),
{
    law_trim_idempotent(s);
}

proof fn lemma_lower_keeps_space(c: char)
    ensures
        is_white_space(ascii_lower(c)) == is_white_space(c),
        ascii_lower(ascii_lower(c)) == ascii_lower(c),
{
}

proof fn lemma_trim_start_lower(s: Seq<char>)
    ensures
        trim_start(ascii_lower_seq(s)) == ascii_lower_seq(trim_start(s)),
    decreases s.len(),
{
    if s.len() > 0 {
        lemma_lower_keeps_space(s[0]);
        assert(ascii_lower_seq(s).drop_first() =~= ascii_lower_seq(s.drop_first()));
        lemma_trim_start_lower(s.drop_first());
    }
}

proof fn lemma_trim_end_lower(s: Seq<char>)
    ensures
        trim_end(ascii_lower_seq(s)) == ascii_lower_seq(trim_end(s)),
    decreases s.len(),
{
    if s.len() > 0 {
        lemma_lower_keeps_space(s.last());
        assert(ascii_lower_seq(s).drop_last() =~= ascii_lower_seq(s.drop_last()));
        lemma_trim_end_lower(s.drop_last());
    }
}

/// Lower-casing and trimming can be done in either order.
pub proof fn law_trim_lower_commute(s: Seq<char>)
    ensures
        trim(ascii_lower_seq(s)) == ascii_lower_seq(trim(s)),
{
    lemma_trim_start_lower(s);
    lemma_trim_end_lower(trim_start(s));
}

proof fn lemma_lower_idempotent(s: Seq<char>)
    ensures
        ascii_lower_seq(ascii_lower_seq(s)) == ascii_lower_seq(s),
{
    assert forall|i: int| 0 <= i < s.len() implies #[trigger] ascii_lower_seq(
        ascii_lower_seq(s),
    )[i] == ascii_lower_seq(s)[i] by {
        lemma_lower_keeps_space(s[i]);
    }
    assert(ascii_lower_seq(ascii_lower_seq(s)) =~= ascii_lower_seq(s));
}

/// The boolean readers do not depend on letter case: `TRUE`, `True` and
/// `true` read alike, and so do all other words.
pub proof fn law_booleans_ignore_case(s: Seq<char>)
    ensures
        bool_of(ascii_lower_seq(s)) == bool_of(s),
        lenient_bool_of(ascii_lower_seq(s)) == lenient_bool_of(s),
{
    law_trim_lower_commute(s);
    lemma_lower_idempotent(trim(s));
}

/// What the strict boolean reader takes for true, the lenient one takes for
/// true as well.
pub proof fn law_strict_true_is_lenient_true(s: Seq<char>)
    requires
        bool_of(s),
    ensures
        lenient_bool_of(s) == Ok::<bool, Seq<char>>(true),
{
}

/// No word reads both as true and as false in the lenient reading.
pub proof fn law_lenient_words_disjoint(w: Seq<char>)
    ensures
        !(is_true_word(w) && is_false_word(w)),
{
    reveal_strlit("true");
    reveal_strlit("1");
    reveal_strlit("yes");
    reveal_strlit("y");
    reveal_strlit("t");
    reveal_strlit("false");
    reveal_strlit("0");
    reveal_strlit("no");
    reveal_strlit("n");
    reveal_strlit("f");
    if is_true_word(w) && is_false_word(w) {
        if w.len() == 1 {
            assert(w[0] == 't' || w[0] == '1' || w[0] == 'y');
            assert(w[0] == 'f' || w[0] == '0' || w[0] == 'n');
        }
    }
}

proof fn lemma_accumulate_all_digits(ds: Seq<char>, negative: bool)
    requires
        accumulate_digits(ds, negative) is Ok,
    ensures
        forall|i: int| 0 <= i < ds.len() ==> is_ascii_digit(#[trigger] ds[i]),
    decreases ds.len(),
{
    if ds.len() > 0 {
        lemma_accumulate_all_digits(ds.drop_last(), negative);
        assert forall|i: int| 0 <= i < ds.len() implies is_ascii_digit(#[trigger] ds[i]) by {
            if i < ds.len() - 1 {
                assert(ds[i] == ds.drop_last()[i]);
            }
        }
    }
}

/// Every text that reads as an integer also reads as a floating-point
/// number.
pub proof fn law_integers_are_float_literals(s: Seq<char>)
    requires
        decimal_i64(s) is Ok,
    ensures
        is_float_literal(s),
{
    let ds = without_sign(s);
    let negative = s[0] == '-';
    assert(ds == (if s[0] == '+' || s[0] == '-' {
        s.drop_first()
    } else {
        s
    }));
    lemma_accumulate_all_digits(ds, negative);
    let b = ascii_lower_seq(ds);
    assert(b.len() == ds.len());
    assert forall|i: int| 0 <= i < b.len() implies #[trigger] b[i] == ds[i] by {}
    assert(b =~= ds);
    assert(ds.len() > 0);
    assert forall|i: int| 0 <= i < b.len() implies #[trigger] b[i] != 'e' by {
        assert(is_ascii_digit(ds[i]));
    }
    assert(is_ascii_digit(b[0]));
    assert(is_mantissa(b));
    assert(is_decimal_number(b));
}

proof fn lemma_last_segment_of_join(d: Seq<char>, sep: char, n: Seq<char>)
    requires
        forall|i: int| 0 <= i < n.len() ==> #[trigger] n[i] != sep,
    ensures
        last_segment_after(d.push(sep) + n, sep) == n,
        last_segment_after(n, sep) == n,
    decreases n.len(),
{
    if n.len() == 0 {
        assert(d.push(sep) + n =~= d.push(sep));
    } else {
        let p = d.push(sep) + n;
        assert(p.drop_last() =~= d.push(sep) + n.drop_last());
        lemma_last_segment_of_join(d, sep, n.drop_last());
        assert(n.drop_last().push(n.last()) =~= n);
    }
}

/// A file name read at the end of a path: the directories before it play no
/// part, and a bare name is its own final component. Holds for names that
/// are not empty, hold no `/` and are not `.` or `..`.
pub proof fn law_file_name_after_directories(dir: Seq<char>, name: Seq<char>)
    requires
        name.len() > 0,
        forall|i: int| 0 <= i < name.len() ==> #[trigger] name[i] != '/',
        name != seq!['.'],
        name != seq!['.', '.'],
    ensures
        file_name_of(dir.push('/') + name) == Some(name),
        file_name_of(name) == Some(name),
        kind_of_name(name_for_detection(dir.push('/') + name)) == kind_of_name(name),
        kind_of_name(name_for_detection(name)) == kind_of_name(name),
{
    lemma_last_segment_of_join(dir, '/', name);
    let p = dir.push('/') + name;
    assert(p.last() == name.last());
    assert(name.last() == name[name.len() - 1]);
}

proof fn lemma_before_first_shape(s: Seq<char>, sep: char)
    ensures
        before_first(s, sep).len() <= s.len(),
        before_first(s, sep) =~= s.take(before_first(s, sep).len() as int),
        forall|i: int| 0 <= i < before_first(s, sep).len() ==> #[trigger] before_first(s, sep)[i]
            != sep,
    decreases s.len(),
{
    if s.len() > 0 && s[0] != sep {
        lemma_before_first_shape(s.drop_first(), sep);
        let r = before_first(s.drop_first(), sep);
        assert(before_first(s, sep) =~= seq![s[0]] + r);
        assert forall|i: int| 0 <= i < before_first(s, sep).len() implies #[trigger] before_first(
            s,
            sep,
        )[i] != sep by {
            if i > 0 {
                assert(before_first(s, sep)[i] == r[i - 1]);
            }
        }
    }
}

/// The unit named by an HSU or TCU file is the beginning of its name: the
/// prefix (`HSU_` or `TCU_`) followed by the next part of the name, which
/// holds no `_`.
pub proof fn law_unit_id_is_name_prefix(name: Seq<char>)
    ensures
        kind_of_name(name) matches Some(FileKind::Hsu(id)) ==> {
            &&& id == name.take(id.len() as int)
            &&& starts_with(id, "HSU_"@)
            &&& forall|i: int| 4 <= i < id.len() ==> #[trigger] id[i] != '_'
        },
        kind_of_name(name) matches Some(FileKind::Tcu(id)) ==> {
            &&& id == name.take(id.len() as int)
            &&& starts_with(id, "TCU_"@)
            &&& forall|i: int| 4 <= i < id.len() ==> #[trigger] id[i] != '_'
        },
{
    reveal_strlit("HSU_");
    reveal_strlit("TCU_");
    if name.len() >= 4 {
        let rest = name.skip(4);
        lemma_before_first_shape(rest, '_');
        let b = before_first(rest, '_');
        let id = unit_id(name);
        assert(id =~= name.take(4 + b.len() as int));
        assert(id.take(4) =~= name.take(4));
        assert forall|i: int| 4 <= i < id.len() implies #[trigger] id[i] != '_' by {
            assert(id[i] == b[i - 4]);
        }
    }
}

/// The placeholders of a counting query: one `?` per date-time, separated
/// by commas.
pub proof fn law_placeholders_count(n: nat)
    ensures
        placeholders(n).len() == (if n == 0 {
            0
        } else {
            2 * n - 1
        }),
        forall|i: int| 0 <= i < placeholders(n).len() ==> (#[trigger] placeholders(n)[i] == '?'
            <==> i % 2 == 0),
    decreases n,
{
    if n > 1 {
        law_placeholders_count((n - 1) as nat);
        let p = placeholders((n - 1) as nat);
        assert forall|i: int| 0 <= i < placeholders(n).len() implies (#[trigger] placeholders(
            n,
        )[i] == '?' <==> i % 2 == 0) by {
            if i < p.len() {
                assert(placeholders(n)[i] == p[i]);
            }
        }
    }
}

/// Storing a file with rows goes through every step once, in order: the
/// device, the rows, the count of rows already stored, the rows stored, the
/// log entry; it reports every row of the file, however many the store
/// already held, and the log entry counts the rows and dates them from the
/// first to the last row of the file.
pub proof fn law_file_ingestion_steps(disp_id: i64, ts: Seq<i64>, existing: usize)
    requires
        0 < ts.len() <= usize::MAX,
    ensures
        ingest_run(
            IngestState::Start,
            seq![
                IngestEventModel::Begin,
                IngestEventModel::Device(disp_id),
                IngestEventModel::Rows(ts),
                IngestEventModel::Existing(existing),
                IngestEventModel::Stored,
                IngestEventModel::Logged,
            ],
        ) == (
            IngestState::Done { rows: ts.len() as usize },
            seq![
                IngestAction::LookupDevice,
                IngestAction::ReadRows,
                IngestAction::CountExisting { disp_id },
                IngestAction::StoreRows { disp_id },
                IngestAction::WriteLog(counts_of(ts.len() as usize, ts[0], ts.last(), existing)),
                IngestAction::Finish(ts.len() as usize),
            ],
        ),
{
    let es = seq![
        IngestEventModel::Begin,
        IngestEventModel::Device(disp_id),
        IngestEventModel::Rows(ts),
        IngestEventModel::Existing(existing),
        IngestEventModel::Stored,
        IngestEventModel::Logged,
    ];
    let n = ts.len() as usize;
    let c = counts_of(n, ts[0], ts.last(), existing);
    let s5 = IngestState::AwaitLogged { rows: n };
    let s4 = IngestState::AwaitStored { rows: n, counts: c };
    let s3 = IngestState::AwaitExisting { disp_id, rows: n, first: ts[0], last: ts.last() };
    let s2 = IngestState::AwaitRows { disp_id };
    assert(ingest_run(IngestState::Done { rows: n }, es.skip(6)) == (
        IngestState::Done { rows: n },
        Seq::<IngestAction>::empty(),
    ));
    assert(es.skip(5).drop_first() =~= es.skip(6));
    assert(es.skip(4).drop_first() =~= es.skip(5));
    assert(es.skip(3).drop_first() =~= es.skip(4));
    assert(es.skip(2).drop_first() =~= es.skip(3));
    assert(es.skip(1).drop_first() =~= es.skip(2));
    assert(es.drop_first() =~= es.skip(1));
    assert(ingest_run(s5, es.skip(5)).1 =~= seq![IngestAction::Finish(n)]);
    assert(ingest_run(s4, es.skip(4)).1 =~= seq![IngestAction::WriteLog(c), IngestAction::Finish(n)]);
    assert(ingest_run(s3, es.skip(3)).1 =~= seq![
        IngestAction::StoreRows { disp_id },
        IngestAction::WriteLog(c),
        IngestAction::Finish(n),
    ]);
    assert(ingest_run(s2, es.skip(2)).1 =~= seq![
        IngestAction::CountExisting { disp_id },
        IngestAction::StoreRows { disp_id },
        IngestAction::WriteLog(c),
        IngestAction::Finish(n),
    ]);
    assert(ingest_run(IngestState::AwaitDevice, es.skip(1)).1 =~= seq![
        IngestAction::ReadRows,
        IngestAction::CountExisting { disp_id },
        IngestAction::StoreRows { disp_id },
        IngestAction::WriteLog(c),
        IngestAction::Finish(n),
    ]);
    assert(ingest_run(IngestState::Start, es).1 =~= seq![
        IngestAction::LookupDevice,
        IngestAction::ReadRows,
        IngestAction::CountExisting { disp_id },
        IngestAction::StoreRows { disp_id },
        IngestAction::WriteLog(c),
        IngestAction::Finish(n),
    ]);
}

/// A file without rows stores nothing and logs nothing: after its device
/// and its (empty) rows the ingestion finishes with no row processed.
pub proof fn law_empty_file_stores_nothing(disp_id: i64)
    ensures
        ingest_run(
            IngestState::Start,
            seq![
                IngestEventModel::Begin,
                IngestEventModel::Device(disp_id),
                IngestEventModel::Rows(Seq::empty()),
            ],
        ) == (
            IngestState::Done { rows: 0 },
            seq![IngestAction::LookupDevice, IngestAction::ReadRows, IngestAction::Finish(0)],
        ),
{
    let es = seq![
        IngestEventModel::Begin,
        IngestEventModel::Device(disp_id),
        IngestEventModel::Rows(Seq::empty()),
    ];
    assert(es.drop_first().drop_first().drop_first() =~= Seq::<IngestEventModel>::empty());
    assert(ingest_run(IngestState::Done { rows: 0 }, Seq::<IngestEventModel>::empty()) == (
        IngestState::Done { rows: 0 },
        Seq::<IngestAction>::empty(),
    ));
    assert(es.drop_first().drop_first() =~= seq![IngestEventModel::Rows(Seq::empty())]);
    assert(ingest_run(IngestState::AwaitRows { disp_id }, es.drop_first().drop_first()).1
        =~= seq![IngestAction::Finish(0)]);
    assert(es.drop_first() =~= seq![
        IngestEventModel::Device(disp_id),
        IngestEventModel::Rows(Seq::empty()),
    ]);
    assert(ingest_run(IngestState::AwaitDevice, es.drop_first()).1 =~= seq![
        IngestAction::ReadRows,
        IngestAction::Finish(0),
    ]);
    assert(ingest_run(IngestState::Start, es).1 =~= seq![
        IngestAction::LookupDevice,
        IngestAction::ReadRows,
        IngestAction::Finish(0),
    ]);
}

/// The log entry of a file counts each of its rows once, as new or as
/// replacing a stored row, when no more rows were stored than the file has.
pub proof fn law_log_counts_every_row(rows: usize, first: i64, last: i64, existing: usize)
    requires
        existing <= rows,
    ensures
        counts_of(rows, first, last, existing).filas_nuevas + counts_of(
            rows,
            first,
            last,
            existing,
        ).filas_actualizadas == rows,
{
}

/// Once finished or refused, an ingestion answers every further event with
/// a refusal.
pub proof fn law_finished_ingestion_refuses(rows: usize, e: IngestEventModel)
    ensures
        ingest_next(IngestState::Done { rows }, e) == (IngestState::Broken, IngestAction::Refuse),
        ingest_next(IngestState::Broken, e) == (IngestState::Broken, IngestAction::Refuse),
{
}

proof fn lemma_column_of_first(h: Seq<Seq<char>>, name: Seq<char>)
    ensures
        match column_of(h, name) {
            Some(i) => 0 <= i < h.len() && trim(h[i]) == name && forall|t: int|
                0 <= t < i ==> trim(#[trigger] h[t]) != name,
            None => forall|t: int| 0 <= t < h.len() ==> trim(#[trigger] h[t]) != name,
        },
    decreases h.len(),
{
    if h.len() > 0 {
        lemma_column_of_first(h.drop_first(), name);
        assert forall|t: int| 1 <= t < h.len() implies #[trigger] h[t] == h.drop_first()[t - 1] by {}
        if trim(h[0]) != name {
            match column_of(h.drop_first(), name) {
                Some(i) => {
                    assert forall|t: int| 0 <= t < i + 1 implies trim(#[trigger] h[t]) != name by {
                        if t > 0 {
                            assert(h[t] == h.drop_first()[t - 1]);
                        }
                    }
                },
                None => {
                    assert forall|t: int| 0 <= t < h.len() implies trim(#[trigger] h[t]) != name by {
                        if t > 0 {
                            assert(h[t] == h.drop_first()[t - 1]);
                        }
                    }
                },
            }
        }
    }
}

proof fn lemma_column_moved(
    t: TableModel,
    t2: TableModel,
    p: Seq<int>,
    names: Seq<Seq<char>>,
    name: Seq<char>,
)
    requires
        rearranges(t, t2, p, names),
        names.contains(name),
    ensures
        column_of(t2.0, name) == (match column_of(t.0, name) {
            Some(j) => Some(p[j]),
            None => None,
        }),
        column_of(t.0, name) matches Some(j) ==> 0 <= j < t.0.len(),
{
    reveal(rearranges);
    lemma_column_of_first(t.0, name);
    lemma_column_of_first(t2.0, name);
    match column_of(t.0, name) {
        Some(j) => {
            assert(t2.0[p[j]] == t.0[j]);
            match column_of(t2.0, name) {
                Some(i) => {
                    if i < p[j] {
                        assert(trim(t2.0[i]) != trim(t2.0[p[j]]));
                    } else if i > p[j] {
                        assert(trim(t2.0[p[j]]) != trim(t2.0[i]));
                    }
                },
                None => {
                    assert(trim(t2.0[p[j]]) != name);
                },
            }
        },
        None => {
            match column_of(t2.0, name) {
                Some(i) => {
                    assert(names.contains(trim(t2.0[i])));
                    let j = choose|j: int| 0 <= j < p.len() && #[trigger] p[j] == i;
                    assert(t2.0[p[j]] == t.0[j]);
                    assert(trim(t.0[j]) != name);
                },
                None => {},
            }
        },
    }
}

proof fn lemma_columns_moved(
    t: TableModel,
    t2: TableModel,
    p: Seq<int>,
    names: Seq<Seq<char>>,
    sub: Seq<Seq<char>>,
)
    requires
        rearranges(t, t2, p, names),
        forall|k: int| 0 <= k < sub.len() ==> names.contains(#[trigger] sub[k]),
    ensures
        columns_of(t2.0, sub) == (match columns_of(t.0, sub) {
            Err(m) => Err(m),
            Ok(ix) => Ok(ix.map_values(|j: int| p[j])),
        }),
        columns_of(t.0, sub) matches Ok(ix) ==> forall|k: int|
            0 <= k < ix.len() ==> 0 <= #[trigger] ix[k] < t.0.len(),
    decreases sub.len(),
{
    reveal(rearranges);
    if sub.len() == 0 {
        assert(Seq::<int>::empty().map_values(|j: int| p[j]) =~= Seq::<int>::empty());
    } else {
        assert forall|k: int| 0 <= k < sub.drop_last().len() implies names.contains(
            #[trigger] sub.drop_last()[k],
        ) by {
            assert(sub.drop_last()[k] == sub[k]);
        }
        lemma_columns_moved(t, t2, p, names, sub.drop_last());
        assert(names.contains(sub[sub.len() - 1]));
        lemma_column_moved(t, t2, p, names, sub.last());
        match columns_of(t.0, sub.drop_last()) {
            Err(m) => {},
            Ok(ix) => match column_of(t.0, sub.last()) {
                None => {},
                Some(j) => {
                    assert(ix.push(j).map_values(|j: int| p[j]) =~= ix.map_values(|j: int| p[j]).push(
                        p[j],
                    ));
                    assert forall|k: int| 0 <= k < ix.push(j).len() implies 0 <= #[trigger] ix.push(
                        j,
                    )[k] < t.0.len() by {
                        if k < ix.len() {
                            assert(ix.push(j)[k] == ix[k]);
                        }
                    }
                },
            },
        }
    }
}

proof fn lemma_rows_pointwise<R>(
    rows1: Seq<Seq<Seq<char>>>,
    rows2: Seq<Seq<Seq<char>>>,
    g1: spec_fn(Seq<Seq<char>>) -> Result<R, CsvFault>,
    g2: spec_fn(Seq<Seq<char>>) -> Result<R, CsvFault>,
)
    requires
        rows1.len() == rows2.len(),
        forall|i: int| 0 <= i < rows1.len() ==> g1(#[trigger] rows1[i]) == g2(rows2[i]),
    ensures
        rows_outcome(rows1, g1) == rows_outcome(rows2, g2),
    decreases rows1.len(),
{
    if rows1.len() > 0 {
        assert forall|i: int| 0 <= i < rows1.drop_last().len() implies g1(
            #[trigger] rows1.drop_last()[i],
        ) == g2(rows2.drop_last()[i]) by {
            assert(rows1.drop_last()[i] == rows1[i]);
            assert(rows2.drop_last()[i] == rows2[i]);
        }
        lemma_rows_pointwise(rows1.drop_last(), rows2.drop_last(), g1, g2);
        assert(g1(rows1[rows1.len() - 1]) == g2(rows2[rows2.len() - 1]));
    }
}

/// Columns are found by their (trimmed) header names, not by position:
/// reading a table whose columns come in another order, or beside columns of
/// other names, gives what reading the table itself gives: the same missing
/// column, the same records or the same fault (errors of the CSV layer
/// agree whatever their messages). Holds of every
/// row reader that reads nothing but the required columns, as the NCU,
/// sensor and TCU readers do (`lemma_ncu_reads_only_columns`,
/// `lemma_sensor_reads_only_columns`, `lemma_tcu_reads_only_columns`).
pub proof fn law_columns_found_by_name<R>(
    t: TableModel,
    t2: TableModel,
    p: Seq<int>,
    names: Seq<Seq<char>>,
    f: spec_fn(Seq<Seq<char>>, Seq<int>) -> Result<R, CsvFault>,
)
    requires
        rearranges(t, t2, p, names),
        reads_only_columns(f, names.len()),
    ensures
        outcomes_agree(table_outcome(t2, names, f), table_outcome(t, names, f)),
{
    reveal(rearranges);
    reveal(reads_only_columns);
    assert forall|k: int| 0 <= k < names.len() implies names.contains(#[trigger] names[k]) by {}
    lemma_columns_moved(t, t2, p, names, names);
    lemma_columns_len(t.0, names);
    match columns_of(t.0, names) {
        Err(m) => {},
        Ok(ix) => {
            let ix2 = ix.map_values(|j: int| p[j]);
            let g1 = |row: Seq<Seq<char>>| f(row, ix);
            let g2 = |row: Seq<Seq<char>>| f(row, ix2);
            assert forall|i: int| 0 <= i < t2.1.len() implies g2(#[trigger] t2.1[i]) == g1(t.1[i]) by {
                assert forall|k: int| 0 <= k < names.len() implies #[trigger] field_of(t2.1[i], ix2[k])
                    == field_of(t.1[i], ix[k]) by {
                    assert(0 <= ix[k] < t.0.len());
                    assert(field_of(t2.1[i], p[ix[k]]) == field_of(t.1[i], ix[k]));
                }
                assert(f(t2.1[i], ix2) == f(t.1[i], ix));
            }
            lemma_rows_pointwise(t2.1, t.1, g2, g1);
        },
    }
}

/// Reordering the columns of a TCU file, or adding columns of other names,
/// leaves what its table reads as unchanged (see `outcomes_agree`).
pub proof fn law_tcu_columns_found_by_name(t: TableModel, t2: TableModel, p: Seq<int>)
    requires
        rearranges(t, t2, p, tcu_columns()),
    ensures
        outcomes_agree(
            table_outcome(t2, tcu_columns(), tcu_reader()),
            table_outcome(t, tcu_columns(), tcu_reader()),
        ),
{
    lemma_tcu_reads_only_columns();
    assert(tcu_columns().len() == 27);
    law_columns_found_by_name(t, t2, p, tcu_columns(), tcu_reader());
}

/// Reordering the columns of a sensor file, or adding columns of other
/// names, leaves what its table reads as unchanged.
pub proof fn law_sensor_columns_found_by_name(t: TableModel, t2: TableModel, p: Seq<int>)
    requires
        rearranges(t, t2, p, sensor_columns()),
    ensures
        outcomes_agree(
            table_outcome(t2, sensor_columns(), sensor_reader()),
            table_outcome(t, sensor_columns(), sensor_reader()),
        ),
{
    lemma_sensor_reads_only_columns();
    assert(sensor_columns().len() == 12);
    law_columns_found_by_name(t, t2, p, sensor_columns(), sensor_reader());
}

/// Reordering the columns of an NCU status file, or adding columns of other
/// names, leaves what its table reads as unchanged.
pub proof fn law_ncu_columns_found_by_name(t: TableModel, t2: TableModel, p: Seq<int>)
    requires
        rearranges(t, t2, p, ncu_columns()),
    ensures
        outcomes_agree(
            table_outcome(t2, ncu_columns(), ncu_reader()),
            table_outcome(t, ncu_columns(), ncu_reader()),
        ),
{
    lemma_ncu_reads_only_columns();
    assert(ncu_columns().len() == 8);
    law_columns_found_by_name(t, t2, p, ncu_columns(), ncu_reader());
}

proof fn lemma_trim_start_after_space(ws: Seq<char>, t: Seq<char>)
    requires
        forall|i: int| 0 <= i < ws.len() ==> is_white_space(#[trigger] ws[i]),
        t.len() > 0,
        !is_white_space(t[0]),
    ensures
        trim_start(ws + t) == t,
    decreases ws.len(),
{
    if ws.len() == 0 {
        assert(ws + t =~= t);
    } else {
        assert((ws + t)[0] == ws[0]);
        assert((ws + t).drop_first() =~= ws.drop_first() + t);
        assert forall|i: int| 0 <= i < ws.drop_first().len() implies is_white_space(
            #[trigger] ws.drop_first()[i],
        ) by {
            assert(ws.drop_first()[i] == ws[i + 1]);
        }
        lemma_trim_start_after_space(ws.drop_first(), t);
    }
}

proof fn lemma_trim_end_before_space(t: Seq<char>, ws: Seq<char>)
    requires
        forall|i: int| 0 <= i < ws.len() ==> is_white_space(#[trigger] ws[i]),
        t.len() > 0,
        !is_white_space(t.last()),
    ensures
        trim_end(t + ws) == t,
    decreases ws.len(),
{
    if ws.len() == 0 {
        assert(t + ws =~= t);
    } else {
        assert((t + ws).last() == ws.last());
        assert((t + ws).drop_last() =~= t + ws.drop_last());
        assert forall|i: int| 0 <= i < ws.drop_last().len() implies is_white_space(
            #[trigger] ws.drop_last()[i],
        ) by {
            assert(ws.drop_last()[i] == ws[i]);
        }
        lemma_trim_end_before_space(t, ws.drop_last());
    }
}

/// Every 64-bit integer, written in decimal as `i64` displays it, reads
/// back as itself, with or without white space around it.
pub proof fn law_integer_round_trip(n: i64, before: Seq<char>, after: Seq<char>)
    requires
        forall|i: int| 0 <= i < before.len() ==> is_white_space(#[trigger] before[i]),
        forall|i: int| 0 <= i < after.len() ==> is_white_space(#[trigger] after[i]),
    ensures
        decimal_i64(decimal_text(n as int)) == Ok::<i64, IntErrorKind>(n),
        int_field_of(decimal_text(n as int)) == Some(n),
        int_field_of(before + decimal_text(n as int) + after) == Some(n),
{
    lemma_decimal_round_trip(n);
    let t = decimal_text(n as int);
    let m: nat = if n < 0 { (-n) as nat } else { n as nat };
    lemma_digits_of_digits(m);
    let d = digits_of(m);
    if n < 0 {
        assert(t[0] == '-');
        assert(t.last() == d.last());
    } else {
        assert(t =~= d);
    }
    assert(is_ascii_digit(d[d.len() - 1]));
    assert(!is_white_space(t[0]));
    assert(!is_white_space(t.last()));
    let e = Seq::<char>::empty();
    lemma_trim_start_after_space(e, t);
    lemma_trim_end_before_space(t, e);
    assert(e + t =~= t);
    assert(t + e =~= t);
    lemma_trim_start_after_space(before, t + after);
    assert((t + after)[0] == t[0]);
    assert(before + t + after =~= before + (t + after));
    lemma_trim_end_before_space(t, after);
}

/// The field of row `i` of the table `t` under the first header that,
/// trimmed, reads `name` (empty where no header does).
pub open spec fn field_named(t: TableModel, i: int, name: Seq<char>) -> Seq<char> {
    match column_of(t.0, name) {
        Some(j) => field_of(t.1[i], j),
        None => Seq::empty(),
    }
}

proof fn lemma_columns_of_each(h: Seq<Seq<char>>, names: Seq<Seq<char>>)
    ensures
        columns_of(h, names) matches Ok(ix) ==> ix.len() == names.len() && forall|k: int|
            0 <= k < names.len() ==> column_of(h, #[trigger] names[k]) == Some(ix[k]),
    decreases names.len(),
{
    if names.len() > 0 {
        lemma_columns_of_each(h, names.drop_last());
        if let Ok(ix) = columns_of(h, names) {
            let pre = columns_of(h, names.drop_last())->Ok_0;
            assert forall|k: int| 0 <= k < names.len() implies column_of(h, #[trigger] names[k])
                == Some(ix[k]) by {
                if k < names.len() - 1 {
                    assert(names[k] == names.drop_last()[k]);
                    assert(ix[k] == pre[k]);
                }
            }
        }
    }
}

proof fn lemma_rows_outcome_each<R>(
    rows: Seq<Seq<Seq<char>>>,
    g: spec_fn(Seq<Seq<char>>) -> Result<R, CsvFault>,
)
    ensures
        rows_outcome(rows, g) matches Ok(rs) ==> rs.len() == rows.len() && forall|i: int|
            0 <= i < rows.len() ==> g(#[trigger] rows[i]) == Ok::<R, CsvFault>(rs[i]),
    decreases rows.len(),
{
    if rows.len() > 0 {
        lemma_rows_outcome_each(rows.drop_last(), g);
        if let Ok(rs) = rows_outcome(rows, g) {
            let pre = rows_outcome(rows.drop_last(), g)->Ok_0;
            assert forall|i: int| 0 <= i < rows.len() implies g(#[trigger] rows[i]) == Ok::<
                R,
                CsvFault,
            >(rs[i]) by {
                if i < rows.len() - 1 {
                    assert(rows[i] == rows.drop_last()[i]);
                    assert(rs[i] == pre[i]);
                }
            }
        }
    }
}
proof fn lemma_ncu_columns_named(h: Seq<Seq<char>>, ix: Seq<int>)
    requires
        columns_of(h, ncu_columns()) == Ok::<Seq<int>, Seq<char>>(ix),
    ensures
        column_of(h, "datetime"@) == Some(ix[0]),
        column_of(h, "mqtt_online"@) == Some(ix[1]),
        column_of(h, "gw1_online"@) == Some(ix[2]),
        column_of(h, "gw2_online"@) == Some(ix[3]),
        column_of(h, "ups_power_ok"@) == Some(ix[4]),
        column_of(h, "ups_battery_low"@) == Some(ix[5]),
        column_of(h, "stop_button"@) == Some(ix[6]),
        column_of(h, "bluetooth_enabled"@) == Some(ix[7]),
{
    let c = ncu_columns();
    lemma_columns_of_each(h, c);
    assert(column_of(h, "datetime"@) == Some(ix[0])) by {
        assert(c[0] == "datetime"@);
        assert(column_of(h, c[0]) == Some(ix[0]));
    }
    assert(column_of(h, "mqtt_online"@) == Some(ix[1])) by {
        assert(c[1] == "mqtt_online"@);
        assert(column_of(h, c[1]) == Some(ix[1]));
    }
    assert(column_of(h, "gw1_online"@) == Some(ix[2])) by {
        assert(c[2] == "gw1_online"@);
        assert(column_of(h, c[2]) == Some(ix[2]));
    }
    assert(column_of(h, "gw2_online"@) == Some(ix[3])) by {
        assert(c[3] == "gw2_online"@);
        assert(column_of(h, c[3]) == Some(ix[3]));
    }
    assert(column_of(h, "ups_power_ok"@) == Some(ix[4])) by {
        assert(c[4] == "ups_power_ok"@);
        assert(column_of(h, c[4]) == Some(ix[4]));
    }
    assert(column_of(h, "ups_battery_low"@) == Some(ix[5])) by {
        assert(c[5] == "ups_battery_low"@);
        assert(column_of(h, c[5]) == Some(ix[5]));
    }
    assert(column_of(h, "stop_button"@) == Some(ix[6])) by {
        assert(c[6] == "stop_button"@);
        assert(column_of(h, c[6]) == Some(ix[6]));
    }
    assert(column_of(h, "bluetooth_enabled"@) == Some(ix[7])) by {
        assert(c[7] == "bluetooth_enabled"@);
        assert(column_of(h, c[7]) == Some(ix[7]));
    }
}


/// Each field of an NCU status record is read from the column of the same
/// name, wherever that column stands: the date-time from `datetime`, each
/// flag from the column that bears its name.
pub proof fn law_ncu_fields_by_name(t: TableModel, rs: Seq<NcuRecord>, i: int)
    requires
        table_outcome(t, ncu_columns(), ncu_reader()) == Ok::<Result<Seq<NcuRecord>, CsvFault>, Seq<char>>(
            Ok(rs),
        ),
        0 <= i < rs.len(),
    ensures
        rs.len() == t.1.len(),
        timestamp_outcome(trim(field_named(t, i, "datetime"@))) == Ok::<i64, CsvFault>(rs[i].timestamp),
        rs[i].mqtt_online == bool_of(field_named(t, i, "mqtt_online"@)),
        rs[i].gw1_online == bool_of(field_named(t, i, "gw1_online"@)),
        rs[i].gw2_online == bool_of(field_named(t, i, "gw2_online"@)),
        rs[i].ups_power_ok == bool_of(field_named(t, i, "ups_power_ok"@)),
        rs[i].ups_battery_low == bool_of(field_named(t, i, "ups_battery_low"@)),
        rs[i].stop_button == bool_of(field_named(t, i, "stop_button"@)),
        rs[i].bluetooth_enabled == bool_of(field_named(t, i, "bluetooth_enabled"@)),
{
    let ix = columns_of(t.0, ncu_columns())->Ok_0;
    lemma_ncu_columns_named(t.0, ix);
    let g = |row: Seq<Seq<char>>| ncu_reader()(row, ix);
    assert(rows_outcome(t.1, g) == Ok::<Seq<NcuRecord>, CsvFault>(rs));
    lemma_rows_outcome_each(t.1, g);
    assert(g(t.1[i]) == Ok::<NcuRecord, CsvFault>(rs[i]));
}
proof fn lemma_sensor_columns_named(h: Seq<Seq<char>>, ix: Seq<int>)
    requires
        columns_of(h, sensor_columns()) == Ok::<Seq<int>, Seq<char>>(ix),
    ensures
        column_of(h, "datetime"@) == Some(ix[0]),
        column_of(h, "main_battery"@) == Some(ix[1]),
        column_of(h, "internal_temp"@) == Some(ix[2]),
        column_of(h, "wind_speed"@) == Some(ix[3]),
        column_of(h, "wind_direction"@) == Some(ix[4]),
        column_of(h, "wind_level"@) == Some(ix[5]),
        column_of(h, "snow_level"@) == Some(ix[6]),
        column_of(h, "irradiance"@) == Some(ix[7]),
        column_of(h, "wind_alarm"@) == Some(ix[8]),
        column_of(h, "gusty_wind_alarm"@) == Some(ix[9]),
        column_of(h, "snow_alarm"@) == Some(ix[10]),
        column_of(h, "snow_sensor_com_error"@) == Some(ix[11]),
{
    let c = sensor_columns();
    lemma_columns_of_each(h, c);
    assert(column_of(h, "datetime"@) == Some(ix[0])) by {
        assert(c[0] == "datetime"@);
        assert(column_of(h, c[0]) == Some(ix[0]));
    }
    assert(column_of(h, "main_battery"@) == Some(ix[1])) by {
        assert(c[1] == "main_battery"@);
        assert(column_of(h, c[1]) == Some(ix[1]));
    }
    assert(column_of(h, "internal_temp"@) == Some(ix[2])) by {
        assert(c[2] == "internal_temp"@);
        assert(column_of(h, c[2]) == Some(ix[2]));
    }
    assert(column_of(h, "wind_speed"@) == Some(ix[3])) by {
        assert(c[3] == "wind_speed"@);
        assert(column_of(h, c[3]) == Some(ix[3]));
    }
    assert(column_of(h, "wind_direction"@) == Some(ix[4])) by {
        assert(c[4] == "wind_direction"@);
        assert(column_of(h, c[4]) == Some(ix[4]));
    }
    assert(column_of(h, "wind_level"@) == Some(ix[5])) by {
        assert(c[5] == "wind_level"@);
        assert(column_of(h, c[5]) == Some(ix[5]));
    }
    assert(column_of(h, "snow_level"@) == Some(ix[6])) by {
        assert(c[6] == "snow_level"@);
        assert(column_of(h, c[6]) == Some(ix[6]));
    }
    assert(column_of(h, "irradiance"@) == Some(ix[7])) by {
        assert(c[7] == "irradiance"@);
        assert(column_of(h, c[7]) == Some(ix[7]));
    }
    assert(column_of(h, "wind_alarm"@) == Some(ix[8])) by {
        assert(c[8] == "wind_alarm"@);
        assert(column_of(h, c[8]) == Some(ix[8]));
    }
    assert(column_of(h, "gusty_wind_alarm"@) == Some(ix[9])) by {
        assert(c[9] == "gusty_wind_alarm"@);
        assert(column_of(h, c[9]) == Some(ix[9]));
    }
    assert(column_of(h, "snow_alarm"@) == Some(ix[10])) by {
        assert(c[10] == "snow_alarm"@);
        assert(column_of(h, c[10]) == Some(ix[10]));
    }
    assert(column_of(h, "snow_sensor_com_error"@) == Some(ix[11])) by {
        assert(c[11] == "snow_sensor_com_error"@);
        assert(column_of(h, c[11]) == Some(ix[11]));
    }
}


/// Each field of a sensor record is read from the column of the same name,
/// wherever that column stands: the date-time from `datetime`, each number
/// and alarm from the column that bears its name.
pub proof fn law_sensor_fields_by_name(t: TableModel, rs: Seq<SensorEntry>, i: int)
    requires
        table_outcome(t, sensor_columns(), sensor_reader()) == Ok::<Result<Seq<SensorEntry>, CsvFault>, Seq<char>>(
            Ok(rs),
        ),
        0 <= i < rs.len(),
    ensures
        rs.len() == t.1.len(),
        timestamp_outcome(trim(field_named(t, i, "datetime"@))) == Ok::<i64, CsvFault>(rs[i].timestamp),
        rs[i].main_battery == int_field_of(field_named(t, i, "main_battery"@)),
        rs[i].internal_temp == float_field_of(field_named(t, i, "internal_temp"@)),
        rs[i].wind_speed == float_field_of(field_named(t, i, "wind_speed"@)),
        rs[i].wind_direction == float_field_of(field_named(t, i, "wind_direction"@)),
        rs[i].wind_level == int_field_of(field_named(t, i, "wind_level"@)),
        rs[i].snow_level == float_field_of(field_named(t, i, "snow_level"@)),
        rs[i].irradiance == int_field_of(field_named(t, i, "irradiance"@)),
        rs[i].wind_alarm == bool_of(field_named(t, i, "wind_alarm"@)),
        rs[i].gusty_wind_alarm == bool_of(field_named(t, i, "gusty_wind_alarm"@)),
        rs[i].snow_alarm == bool_of(field_named(t, i, "snow_alarm"@)),
        rs[i].snow_sensor_com_error == bool_of(field_named(t, i, "snow_sensor_com_error"@)),
{
    let ix = columns_of(t.0, sensor_columns())->Ok_0;
    lemma_sensor_columns_named(t.0, ix);
    let g = |row: Seq<Seq<char>>| sensor_reader()(row, ix);
    assert(rows_outcome(t.1, g) == Ok::<Seq<SensorEntry>, CsvFault>(rs));
    lemma_rows_outcome_each(t.1, g);
    assert(g(t.1[i]) == Ok::<SensorEntry, CsvFault>(rs[i]));
}
proof fn lemma_tcu_columns_named(h: Seq<Seq<char>>, ix: Seq<int>)
    requires
        columns_of(h, tcu_columns()) == Ok::<Seq<int>, Seq<char>>(ix),
    ensures
        column_of(h, "datetime"@) == Some(ix[0]),
        column_of(h, "main_state"@) == Some(ix[1]),
        column_of(h, "backtracking"@) == Some(ix[2]),
        column_of(h, "wind_from_east"@) == Some(ix[3]),
        column_of(h, "active_security_position"@) == Some(ix[4]),
        column_of(h, "angle"@) == Some(ix[5]),
        column_of(h, "target_angle"@) == Some(ix[6]),
        column_of(h, "soc"@) == Some(ix[7]),
        column_of(h, "remaining_capacity"@) == Some(ix[8]),
        column_of(h, "ps_voltage"@) == Some(ix[9]),
        column_of(h, "ps_current"@) == Some(ix[10]),
        column_of(h, "voltage"@) == Some(ix[11]),
        column_of(h, "current"@) == Some(ix[12]),
        column_of(h, "motor_voltage"@) == Some(ix[13]),
        column_of(h, "motor_current"@) == Some(ix[14]),
        column_of(h, "motor_current_peak"@) == Some(ix[15]),
        column_of(h, "motor_state"@) == Some(ix[16]),
        column_of(h, "motor_pwm"@) == Some(ix[17]),
        column_of(h, "daily_motor_power_consumption"@) == Some(ix[18]),
        column_of(h, "pcb_temp"@) == Some(ix[19]),
        column_of(h, "battery_temp"@) == Some(ix[20]),
        column_of(h, "alarms_1"@) == Some(ix[21]),
        column_of(h, "alarms_2"@) == Some(ix[22]),
        column_of(h, "hw_alarms"@) == Some(ix[23]),
        column_of(h, "system_monitor_status"@) == Some(ix[24]),
        column_of(h, "system_monitor_flags"@) == Some(ix[25]),
        column_of(h, "power_section_alarms"@) == Some(ix[26]),
{
    let c = tcu_columns();
    lemma_columns_of_each(h, c);
    assert(column_of(h, "datetime"@) == Some(ix[0])) by {
        assert(c[0] == "datetime"@);
        assert(column_of(h, c[0]) == Some(ix[0]));
    }
    assert(column_of(h, "main_state"@) == Some(ix[1])) by {
        assert(c[1] == "main_state"@);
        assert(column_of(h, c[1]) == Some(ix[1]));
    }
    assert(column_of(h, "backtracking"@) == Some(ix[2])) by {
        assert(c[2] == "backtracking"@);
        assert(column_of(h, c[2]) == Some(ix[2]));
    }
    assert(column_of(h, "wind_from_east"@) == Some(ix[3])) by {
        assert(c[3] == "wind_from_east"@);
        assert(column_of(h, c[3]) == Some(ix[3]));
    }
    assert(column_of(h, "active_security_position"@) == Some(ix[4])) by {
        assert(c[4] == "active_security_position"@);
        assert(column_of(h, c[4]) == Some(ix[4]));
    }
    assert(column_of(h, "angle"@) == Some(ix[5])) by {
        assert(c[5] == "angle"@);
        assert(column_of(h, c[5]) == Some(ix[5]));
    }
    assert(column_of(h, "target_angle"@) == Some(ix[6])) by {
        assert(c[6] == "target_angle"@);
        assert(column_of(h, c[6]) == Some(ix[6]));
    }
    assert(column_of(h, "soc"@) == Some(ix[7])) by {
        assert(c[7] == "soc"@);
        assert(column_of(h, c[7]) == Some(ix[7]));
    }
    assert(column_of(h, "remaining_capacity"@) == Some(ix[8])) by {
        assert(c[8] == "remaining_capacity"@);
        assert(column_of(h, c[8]) == Some(ix[8]));
    }
    assert(column_of(h, "ps_voltage"@) == Some(ix[9])) by {
        assert(c[9] == "ps_voltage"@);
        assert(column_of(h, c[9]) == Some(ix[9]));
    }
    assert(column_of(h, "ps_current"@) == Some(ix[10])) by {
        assert(c[10] == "ps_current"@);
        assert(column_of(h, c[10]) == Some(ix[10]));
    }
    assert(column_of(h, "voltage"@) == Some(ix[11])) by {
        assert(c[11] == "voltage"@);
        assert(column_of(h, c[11]) == Some(ix[11]));
    }
    assert(column_of(h, "current"@) == Some(ix[12])) by {
        assert(c[12] == "current"@);
        assert(column_of(h, c[12]) == Some(ix[12]));
    }
    assert(column_of(h, "motor_voltage"@) == Some(ix[13])) by {
        assert(c[13] == "motor_voltage"@);
        assert(column_of(h, c[13]) == Some(ix[13]));
    }
    assert(column_of(h, "motor_current"@) == Some(ix[14])) by {
        assert(c[14] == "motor_current"@);
        assert(column_of(h, c[14]) == Some(ix[14]));
    }
    assert(column_of(h, "motor_current_peak"@) == Some(ix[15])) by {
        assert(c[15] == "motor_current_peak"@);
        assert(column_of(h, c[15]) == Some(ix[15]));
    }
    assert(column_of(h, "motor_state"@) == Some(ix[16])) by {
        assert(c[16] == "motor_state"@);
        assert(column_of(h, c[16]) == Some(ix[16]));
    }
    assert(column_of(h, "motor_pwm"@) == Some(ix[17])) by {
        assert(c[17] == "motor_pwm"@);
        assert(column_of(h, c[17]) == Some(ix[17]));
    }
    assert(column_of(h, "daily_motor_power_consumption"@) == Some(ix[18])) by {
        assert(c[18] == "daily_motor_power_consumption"@);
        assert(column_of(h, c[18]) == Some(ix[18]));
    }
    assert(column_of(h, "pcb_temp"@) == Some(ix[19])) by {
        assert(c[19] == "pcb_temp"@);
        assert(column_of(h, c[19]) == Some(ix[19]));
    }
    assert(column_of(h, "battery_temp"@) == Some(ix[20])) by {
        assert(c[20] == "battery_temp"@);
        assert(column_of(h, c[20]) == Some(ix[20]));
    }
    assert(column_of(h, "alarms_1"@) == Some(ix[21])) by {
        assert(c[21] == "alarms_1"@);
        assert(column_of(h, c[21]) == Some(ix[21]));
    }
    assert(column_of(h, "alarms_2"@) == Some(ix[22])) by {
        assert(c[22] == "alarms_2"@);
        assert(column_of(h, c[22]) == Some(ix[22]));
    }
    assert(column_of(h, "hw_alarms"@) == Some(ix[23])) by {
        assert(c[23] == "hw_alarms"@);
        assert(column_of(h, c[23]) == Some(ix[23]));
    }
    assert(column_of(h, "system_monitor_status"@) == Some(ix[24])) by {
        assert(c[24] == "system_monitor_status"@);
        assert(column_of(h, c[24]) == Some(ix[24]));
    }
    assert(column_of(h, "system_monitor_flags"@) == Some(ix[25])) by {
        assert(c[25] == "system_monitor_flags"@);
        assert(column_of(h, c[25]) == Some(ix[25]));
    }
    assert(column_of(h, "power_section_alarms"@) == Some(ix[26])) by {
        assert(c[26] == "power_section_alarms"@);
        assert(column_of(h, c[26]) == Some(ix[26]));
    }
}


/// Each field of a TCU record is read from the column of the same name,
/// wherever that column stands: the date-time from `datetime`, each state,
/// number and flag from the column that bears its name.
pub proof fn law_tcu_fields_by_name(t: TableModel, rs: Seq<TcuEntry>, i: int)
    requires
        table_outcome(t, tcu_columns(), tcu_reader()) == Ok::<Result<Seq<TcuEntry>, CsvFault>, Seq<char>>(
            Ok(rs),
        ),
        0 <= i < rs.len(),
    ensures
        rs.len() == t.1.len(),
        timestamp_outcome(trim(field_named(t, i, "datetime"@))) == Ok::<i64, CsvFault>(rs[i].timestamp),
        rs[i].main_state == opt_string_of(field_named(t, i, "main_state"@)),
        rs[i].backtracking == bool_of(field_named(t, i, "backtracking"@)),
        rs[i].wind_from_east == bool_of(field_named(t, i, "wind_from_east"@)),
        rs[i].active_security_position == int_field_of(field_named(t, i, "active_security_position"@)),
        rs[i].angle == float_field_of(field_named(t, i, "angle"@)),
        rs[i].target_angle == float_field_of(field_named(t, i, "target_angle"@)),
        rs[i].soc == int_field_of(field_named(t, i, "soc"@)),
        rs[i].remaining_capacity == int_field_of(field_named(t, i, "remaining_capacity"@)),
        rs[i].ps_voltage == int_field_of(field_named(t, i, "ps_voltage"@)),
        rs[i].ps_current == int_field_of(field_named(t, i, "ps_current"@)),
        rs[i].voltage == int_field_of(field_named(t, i, "voltage"@)),
        rs[i].current == int_field_of(field_named(t, i, "current"@)),
        rs[i].motor_voltage == int_field_of(field_named(t, i, "motor_voltage"@)),
        rs[i].motor_current == int_field_of(field_named(t, i, "motor_current"@)),
        rs[i].motor_current_peak == int_field_of(field_named(t, i, "motor_current_peak"@)),
        rs[i].motor_state == opt_string_of(field_named(t, i, "motor_state"@)),
        rs[i].motor_pwm == float_field_of(field_named(t, i, "motor_pwm"@)),
        rs[i].daily_motor_power_consumption == int_field_of(field_named(t, i, "daily_motor_power_consumption"@)),
        rs[i].pcb_temp == float_field_of(field_named(t, i, "pcb_temp"@)),
        rs[i].battery_temp == float_field_of(field_named(t, i, "battery_temp"@)),
        rs[i].alarms_1 == int_field_of(field_named(t, i, "alarms_1"@)),
        rs[i].alarms_2 == int_field_of(field_named(t, i, "alarms_2"@)),
        rs[i].hw_alarms == int_field_of(field_named(t, i, "hw_alarms"@)),
        rs[i].system_monitor_status == int_field_of(field_named(t, i, "system_monitor_status"@)),
        rs[i].system_monitor_flags == int_field_of(field_named(t, i, "system_monitor_flags"@)),
        rs[i].power_section_alarms == int_field_of(field_named(t, i, "power_section_alarms"@)),
{
    let ix = columns_of(t.0, tcu_columns())->Ok_0;
    lemma_tcu_columns_named(t.0, ix);
    let g = |row: Seq<Seq<char>>| tcu_reader()(row, ix);
    assert(rows_outcome(t.1, g) == Ok::<Seq<TcuEntry>, CsvFault>(rs));
    lemma_rows_outcome_each(t.1, g);
    assert(g(t.1[i]) == Ok::<TcuEntry, CsvFault>(rs[i]));
}

proof fn lemma_before_first_stop(s: Seq<char>, sep: char)
    ensures
        before_first(s, sep).len() < s.len() ==> s[before_first(s, sep).len() as int] == sep,
        s.contains(sep) ==> before_first(s, sep).len() < s.len(),
    decreases s.len(),
{
    lemma_before_first_shape(s, sep);
    if s.len() > 0 && s[0] != sep {
        lemma_before_first_stop(s.drop_first(), sep);
        if s.contains(sep) {
            let j = choose|j: int| 0 <= j < s.len() && s[j] == sep;
            assert(s.drop_first()[j - 1] == sep);
        }
    }
}

/// An event line keeps its event text whole: the trimmed line is the
/// date-time text, the first `;` and the event, and the event's date-time is
/// read from that text; a line that decodes and, trimmed, holds a `;` always
/// gives an event or an error, never nothing.
pub proof fn law_event_text_whole(line: Seq<u8>)
    ensures
        event_of_line(line) matches Ok(Some(e)) ==> exists|head: Seq<char>|
            !head.contains(';') && #[trigger] (head + seq![';'] + e.event) == trim(decode_utf8(line))
                && timestamp_outcome(trim(head)) == Ok::<i64, CsvFault>(e.timestamp),
        valid_utf8(line) && trim(decode_utf8(line)).contains(';') ==> !(event_of_line(line) matches Ok(
            None,
        )),
{
    if valid_utf8(line) {
        let t = trim(decode_utf8(line));
        if t.contains(';') {
            let head = before_first(t, ';');
            lemma_before_first_shape(t, ';');
            lemma_before_first_stop(t, ';');
            assert(t =~= head + seq![';'] + t.skip(head.len() as int + 1));
            if head.contains(';') {
                let j = choose|j: int| 0 <= j < head.len() && head[j] == ';';
                assert(head[j] != ';');
            }
            if let Ok(Some(e)) = event_of_line(line) {
                assert(e.event == t.skip(head.len() as int + 1));
                assert(head + seq![';'] + e.event == t);
            }
        }
    }
}

/// The rows of an HSU or TCU file are stored under the unit that the file
/// names, whatever NCU it came from: the device is of kind `HSU` or `TCU`
/// and its id is the unit identifier at the start of the file name
/// (`TCU_008` for `TCU_008_2026-09-01.csv`); the files of the NCU itself are
/// stored under the NCU, of kind `NCU`.
pub proof fn law_files_stored_under_their_unit(name: Seq<char>, ncu_id: Seq<char>)
    ensures
        starts_with(name, "HSU_"@) ==> (kind_of_name(name) matches Some(k) && device_kind_of(k)
            == "HSU"@ && device_id_of(k, ncu_id) == unit_id(name)),
        starts_with(name, "TCU_"@) ==> (kind_of_name(name) matches Some(k) && device_kind_of(k)
            == "TCU"@ && device_id_of(k, ncu_id) == unit_id(name)),
        starts_with(name, "NCU_"@) ==> (kind_of_name(name) matches Some(k) && device_kind_of(k)
            == "NCU"@ && device_id_of(k, ncu_id) == ncu_id),
{
    reveal_strlit("HSU_");
    reveal_strlit("TCU_");
    reveal_strlit("NCU_");
    reveal_strlit("NCU_EVENT_LOG_");
    reveal_strlit("NCU_SENSORS_");
    if starts_with(name, "HSU_"@) || starts_with(name, "TCU_"@) {
        assert(name.take(4)[0] == name[0]);
        assert("HSU_"@[0] == 'H' && "TCU_"@[0] == 'T');
        assert(name[0] != 'N');
        assert("NCU_EVENT_LOG_"@[0] == 'N' && "NCU_SENSORS_"@[0] == 'N' && "NCU_"@[0] == 'N');
        if name.len() >= 14 {
            assert(name.take(14)[0] == name[0]);
        }
        if name.len() >= 12 {
            assert(name.take(12)[0] == name[0]);
        }
        assert(!starts_with(name, "NCU_EVENT_LOG_"@));
        assert(!starts_with(name, "NCU_SENSORS_"@));
        assert(!starts_with(name, "NCU_"@));
    }
}

} // verus!
