use vstd::prelude::*;

use crate::text::to_owned_text;

verus! {

/// The kind of a telemetry file, recognised from its name.
#[derive(Debug, Clone, PartialEq, Eq)]
pub enum CsvFileType {
    NcuEventLog,
    NcuSensors,
    Ncu,
    Hsu { hsu_id: String },
    Tcu { tcu_id: String },
}

/// The model of a `CsvFileType`.
pub enum FileKind {
    NcuEventLog,
    NcuSensors,
    Ncu,
    Hsu(Seq<char>),
    Tcu(Seq<char>),
}

impl View for CsvFileType {
    type V = FileKind;

    open spec fn view(&self) -> FileKind {
        match self {
            CsvFileType::NcuEventLog => FileKind::NcuEventLog,
            CsvFileType::NcuSensors => FileKind::NcuSensors,
            CsvFileType::Ncu => FileKind::Ncu,
            CsvFileType::Hsu { hsu_id } => FileKind::Hsu(hsu_id@),
            CsvFileType::Tcu { tcu_id } => FileKind::Tcu(tcu_id@),
        }
    }
}

pub open spec fn starts_with(s: Seq<char>, p: Seq<char>) -> bool {
    s.len() >= p.len() && s.take(p.len() as int) == p
}

/// The part of `s` before its first `sep`, or all of `s`.
pub open spec fn before_first(s: Seq<char>, sep: char) -> Seq<char>
    decreases s.len(),
{
    if s.len() == 0 || s[0] == sep {
        Seq::empty()
    } else {
        seq![s[0]] + before_first(s.drop_first(), sep)
    }
}

/// The identifier of a unit whose file name `name` starts with a three-letter
/// prefix and `_`: the first two `_`-separated parts of the name, joined by
/// `_` (`HSU_230_2026-08-26.csv` gives `HSU_230`).
pub open spec fn unit_id(name: Seq<char>) -> Seq<char> {
    name.take(4) + before_first(name.skip(4), '_')
}

/// The kind of file that a file name (without directories) names.
pub open spec fn kind_of_name(name: Seq<char>) -> Option<FileKind> {
    if starts_with(name, "NCU_EVENT_LOG_"@) {
        Some(FileKind::NcuEventLog)
    } else if starts_with(name, "NCU_SENSORS_"@) {
        Some(FileKind::NcuSensors)
    } else if starts_with(name, "NCU_"@) {
        Some(FileKind::Ncu)
    } else if starts_with(name, "HSU_"@) {
        Some(FileKind::Hsu(unit_id(name)))
    } else if starts_with(name, "TCU_"@) {
        Some(FileKind::Tcu(unit_id(name)))
    } else {
        None
    }
}

/// The part of `p` after its last `sep` (all of `p` where it has none).
pub open spec fn last_segment_after(p: Seq<char>, sep: char) -> Seq<char>
    decreases p.len(),
{
    if p.len() == 0 || p.last() == sep {
        Seq::empty()
    } else {
        last_segment_after(p.drop_last(), sep).push(p.last())
    }
}

/// The part of `p` after its last `/` (all of `p` where it has none).
pub open spec fn last_segment(p: Seq<char>) -> Seq<char> {
    last_segment_after(p, '/')
}

/// The final component of the path `p`, as `std::path::Path::file_name`
/// gives it on Unix: trailing `/` and `.` components are passed over, and
/// there is none where the path is empty, is the root, or ends in `..`.
pub open spec fn file_name_of(p: Seq<char>) -> Option<Seq<char>>
    decreases p.len(),
{
    if p.len() == 0 {
        None
    } else if p.last() == '/' {
        file_name_of(p.drop_last())
    } else {
        let seg = last_segment(p);
        if seg == seq!['.'] {
            file_name_of(p.take(p.len() - 1))
        } else if seg == seq!['.', '.'] {
            None
        } else {
            Some(seg)
        }
    }
}

/// The name that the kind of a file is read from: the final component of the
/// path, or the whole text where the path has none.
pub open spec fn name_for_detection(filename: Seq<char>) -> Seq<char> {
    match file_name_of(filename) {
        Some(n) => n,
        None => filename,
    }
}

pub proof fn lemma_last_segment_after(p: Seq<char>, sep: char)
    ensures
        last_segment_after(p, sep).len() <= p.len(),
        last_segment_after(p, sep) =~= p.skip(p.len() - last_segment_after(p, sep).len()),
        forall|k: int|
            0 <= k < last_segment_after(p, sep).len() ==> #[trigger] last_segment_after(p, sep)[k]
                != sep,
        last_segment_after(p, sep).len() < p.len() ==> p[p.len() - last_segment_after(p, sep).len()
            - 1] == sep,
    decreases p.len(),
{
    if p.len() > 0 && p.last() != sep {
        lemma_last_segment_after(p.drop_last(), sep);
    }
}

proof fn lemma_last_segment(p: Seq<char>)
    ensures
        last_segment(p).len() <= p.len(),
        last_segment(p) =~= p.skip(p.len() - last_segment(p).len()),
        forall|k: int| 0 <= k < last_segment(p).len() ==> #[trigger] last_segment(p)[k] != '/',
        last_segment(p).len() < p.len() ==> p[p.len() - last_segment(p).len() - 1] == '/',
{
    lemma_last_segment_after(p, '/');
}

/// Whether `s` starts with `p`.
pub fn text_starts_with(s: &str, p: &str) -> (r: bool)
    ensures
        r == starts_with(s@, p@),
{
    let n = s.unicode_len();
    let m = p.unicode_len();
    if n < m {
        return false;
    }
    let mut i: usize = 0;
    while i < m
        invariant
            n == s@.len(),
            m == p@.len(),
            m <= n,
            i <= m,
            forall|k: int| 0 <= k < i ==> #[trigger] s@[k] == p@[k],
        decreases m - i,
    {
        if s.get_char(i) != p.get_char(i) {
            assert(s@.take(m as int)[i as int] != p@[i as int]);
            return false;
        }
        i = i + 1;
    }
    assert(s@.take(m as int) =~= p@);
    true
}

pub proof fn lemma_before_first_prefix(s: Seq<char>, sep: char, k: int)
    requires
        0 <= k <= s.len(),
        forall|t: int| 0 <= t < k ==> #[trigger] s[t] != sep,
        k == s.len() || s[k] == sep,
    ensures
        before_first(s, sep) =~= s.take(k),
{
    lemma_before_first(s, sep, k);
}

proof fn lemma_before_first(s: Seq<char>, sep: char, k: int)
    requires
        0 <= k <= s.len(),
        forall|t: int| 0 <= t < k ==> #[trigger] s[t] != sep,
        k == s.len() || s[k] == sep,
    ensures
        before_first(s, sep) =~= s.take(k),
    decreases k,
{
    if k > 0 {
        lemma_before_first(s.drop_first(), sep, k - 1);
        assert(s.take(k) =~= seq![s[0]] + s.drop_first().take(k - 1));
    }
}

/// The unit identifier of a name that starts with a three-letter prefix and
/// `_`.
fn unit_id_of(name: &str) -> (r: String)
    requires
        name@.len() >= 4,
    ensures
        r@ == unit_id(name@),
{
    let n = name.unicode_len();
    let mut j: usize = 4;
    while j < n && name.get_char(j) != '_'
        invariant
            n == name@.len(),
            4 <= j <= n,
            forall|t: int| 4 <= t < j ==> #[trigger] name@[t] != '_',
        decreases n - j,
    {
        j = j + 1;
    }
    proof {
        let rest = name@.skip(4);
        assert forall|t: int| 0 <= t < j - 4 implies #[trigger] rest[t] != '_' by {
            assert(rest[t] == name@[t + 4]);
        }
        lemma_before_first(rest, '_', j - 4);
        assert(name@.subrange(0, j as int) =~= name@.take(4) + rest.take(j - 4));
    }
    to_owned_text(name.substring_char(0, j))
}

impl CsvFileType {
    /// The kind of file that the file name `name` (without directories)
    /// names: `NCU_EVENT_LOG_…`, `NCU_SENSORS_…`, `NCU_…`, `HSU_…` and
    /// `TCU_…`, tried in that order; for `HSU` and `TCU` files the unit is
    /// named by the first two `_`-separated parts of the name.
    pub fn detect_from_name(name: &str) -> (r: Option<CsvFileType>)
        ensures
            match kind_of_name(name@) {
                None => r is None,
                Some(k) => r matches Some(t) && t@ == k,
            },
    {
        if text_starts_with(name, "NCU_EVENT_LOG_") {
            Some(CsvFileType::NcuEventLog)
        } else if text_starts_with(name, "NCU_SENSORS_") {
            Some(CsvFileType::NcuSensors)
        } else if text_starts_with(name, "NCU_") {
            Some(CsvFileType::Ncu)
        } else if text_starts_with(name, "HSU_") {
            proof {
                reveal_strlit("HSU_");
            }
            Some(CsvFileType::Hsu { hsu_id: unit_id_of(name) })
        } else if text_starts_with(name, "TCU_") {
            proof {
                reveal_strlit("TCU_");
            }
            Some(CsvFileType::Tcu { tcu_id: unit_id_of(name) })
        } else {
            None
        }
    }

    /// The kind of file that `filename` names, read from the final component
    /// of the path (or the whole text where it has none).
    pub fn detect_from_filename(filename: &str) -> (r: Option<CsvFileType>)
        ensures
            match kind_of_name(name_for_detection(filename@)) {
                None => r is None,
                Some(k) => r matches Some(t) && t@ == k,
            },
    {
        match file_name(filename) {
            Some(name) => Self::detect_from_name(name),
            None => Self::detect_from_name(filename),
        }
    }

    /// The table that holds the data of files of this kind.
    pub fn table_name(&self) -> (r: &'static str)
        ensures
            r@ == table_of(self@),
    {
        match self {
            CsvFileType::Ncu => "datos_ncu",
            CsvFileType::NcuSensors => "datos_ncu_sensor",
            CsvFileType::Hsu { .. } => "datos_hsu",
            CsvFileType::Tcu { .. } => "datos_tcu",
            CsvFileType::NcuEventLog => "ncu_event_log",
        }
    }
}

/// The table that holds the data of files of kind `k`.
pub open spec fn table_of(k: FileKind) -> Seq<char> {
    match k {
        FileKind::Ncu => "datos_ncu"@,
        FileKind::NcuSensors => "datos_ncu_sensor"@,
        FileKind::Hsu(_) => "datos_hsu"@,
        FileKind::Tcu(_) => "datos_tcu"@,
        FileKind::NcuEventLog => "ncu_event_log"@,
    }
}

/// The final component of the path `path` (see `file_name_of`).
pub fn file_name(path: &str) -> (r: Option<&str>)
    ensures
        match file_name_of(path@) {
            None => r is None,
            Some(n) => r matches Some(x) && x@ == n,
        },
    decreases path@.len(),
{
    let n = path.unicode_len();
    if n == 0 {
        return None;
    }
    if path.get_char(n - 1) == '/' {
        let rest = path.substring_char(0, n - 1);
        assert(rest@ =~= path@.drop_last());
        return file_name(rest);
    }
    let mut i: usize = n;
    while i > 0 && path.get_char(i - 1) != '/'
        invariant
            n == path@.len(),
            i <= n,
            forall|t: int| i <= t < n ==> #[trigger] path@[t] != '/',
        decreases i,
    {
        i = i - 1;
    }
    proof {
        lemma_last_segment(path@);
        let seg = last_segment(path@);
        // the segment after the last '/' starts at i
        if seg.len() < n - i {
            let t = n - seg.len() - 1;
            assert(path@[t] == '/');
        }
        if seg.len() > n - i {
            assert(path@[i - 1] == '/');
            assert(seg[i - 1 - (n - seg.len())] == path@[i - 1]);
        }
        assert(seg.len() == n - i);
        assert(seg =~= path@.subrange(i as int, n as int));
    }
    let seg = path.substring_char(i, n);
    let len = n - i;
    if len == 1 && seg.get_char(0) == '.' {
        assert(seg@ =~= seq!['.']);
        let before = path.substring_char(0, i);
        return file_name(before);
    }
    if len == 2 && seg.get_char(0) == '.' && seg.get_char(1) == '.' {
        assert(seg@ =~= seq!['.', '.']);
        return None;
    }
    proof {
        if seg@ == seq!['.'] {
            assert(seg@[0] == '.');
        }
        if seg@ == seq!['.', '.'] {
            assert(seg@[0] == '.' && seg@[1] == '.');
        }
    }
    Some(seg)
}

/// A row of an NCU status file.
#[derive(Debug, Clone, PartialEq, Eq)]
pub struct NcuRecord {
    pub timestamp: i64,
    pub mqtt_online: bool,
    pub gw1_online: bool,
    pub gw2_online: bool,
    pub ups_power_ok: bool,
    pub ups_battery_low: bool,
    pub stop_button: bool,
    pub bluetooth_enabled: bool,
}

/// A line of an NCU event log.
#[derive(Debug, Clone, PartialEq, Eq)]
pub struct EventLogRecord {
    pub timestamp: i64,
    pub event: String,
}

/// The model of an `EventLogRecord`.
pub struct EventLogEntry {
    pub timestamp: i64,
    pub event: Seq<char>,
}

impl View for EventLogRecord {
    type V = EventLogEntry;

    open spec fn view(&self) -> EventLogEntry {
        EventLogEntry { timestamp: self.timestamp, event: self.event@ }
    }
}

} // verus!
