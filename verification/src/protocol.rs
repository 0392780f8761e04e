//! The steps of storing one telemetry file, as a state machine: the store
//! does the work of each action and answers with an event, and the machine
//! decides what comes next. Storing a file takes, in this order: finding
//! (or registering) its device, reading its rows, counting the rows the
//! store already holds, storing the rows, and writing the ingestion-log
//! entry; a file without rows stops after reading.
use vstd::prelude::*;

use crate::ingest::IngestionCounts;

verus! {

/// Where the ingestion of one file stands.
#[derive(Debug, Clone, Copy, PartialEq, Eq)]
pub enum IngestState {
    /// Nothing has been asked yet.
    Start,
    /// The device's id was asked for.
    AwaitDevice,
    /// The file's rows were asked for; they belong to the device `disp_id`.
    AwaitRows { disp_id: i64 },
    /// The rows already stored were asked to be counted; the file has
    /// `rows` rows, dated from `first` to `last` in file order.
    AwaitExisting { disp_id: i64, rows: usize, first: i64, last: i64 },
    /// The rows were asked to be stored; `counts` is what the log records.
    AwaitStored { rows: usize, counts: IngestionCounts },
    /// The log entry was asked to be written.
    AwaitLogged { rows: usize },
    /// Finished: `rows` rows were processed.
    Done { rows: usize },
    /// An answer came that the state did not ask for.
    Broken,
}

/// The answer of the store to the last action.
#[derive(Debug, Clone, PartialEq, Eq)]
pub enum IngestEvent {
    /// The ingestion starts.
    Begin,
    /// The id of the device.
    Device(i64),
    /// The date-times of the file's rows, in file order.
    Rows(Vec<i64>),
    /// How many of those rows the store already held.
    Existing(usize),
    /// The rows were stored.
    Stored,
    /// The log entry was written.
    Logged,
}

/// The model of an `IngestEvent`.
pub enum IngestEventModel {
    Begin,
    Device(i64),
    Rows(Seq<i64>),
    Existing(usize),
    Stored,
    Logged,
}

impl View for IngestEvent {
    type V = IngestEventModel;

    open spec fn view(&self) -> IngestEventModel {
        match self {
            IngestEvent::Begin => IngestEventModel::Begin,
            IngestEvent::Device(d) => IngestEventModel::Device(*d),
            IngestEvent::Rows(ts) => IngestEventModel::Rows(ts@),
            IngestEvent::Existing(k) => IngestEventModel::Existing(*k),
            IngestEvent::Stored => IngestEventModel::Stored,
            IngestEvent::Logged => IngestEventModel::Logged,
        }
    }
}

/// What the store is asked to do next.
#[derive(Debug, Clone, Copy, PartialEq, Eq)]
pub enum IngestAction {
    /// Find the file's device, registering it when it is unknown.
    LookupDevice,
    /// Read the file's rows.
    ReadRows,
    /// Count the rows of the file already stored for the device.
    CountExisting { disp_id: i64 },
    /// Store the rows of the file for the device, replacing rows with the
    /// same date-time.
    StoreRows { disp_id: i64 },
    /// Write the ingestion-log entry with these counts.
    WriteLog(IngestionCounts),
    /// Stop: the file's ingestion processed this many rows.
    Finish(usize),
    /// Stop: the answer does not fit the state.
    Refuse,
}

/// The log counts of a file of `rows` rows dated from `first` to `last`,
/// of which `existing` were already stored.
pub open spec fn counts_of(rows: usize, first: i64, last: i64, existing: usize) -> IngestionCounts {
    IngestionCounts {
        filas_nuevas: if rows >= existing {
            (rows - existing) as usize
        } else {
            0
        },
        filas_actualizadas: existing,
        timestamp_inicio: Some(first),
        timestamp_fin: Some(last),
    }
}

/// The next state and action after the event `e` in the state `s`.
pub open spec fn ingest_next(s: IngestState, e: IngestEventModel) -> (IngestState, IngestAction) {
    match s {
        IngestState::Start => match e {
            IngestEventModel::Begin => (IngestState::AwaitDevice, IngestAction::LookupDevice),
            _ => (IngestState::Broken, IngestAction::Refuse),
        },
        IngestState::AwaitDevice => match e {
            IngestEventModel::Device(d) => (
                IngestState::AwaitRows { disp_id: d },
                IngestAction::ReadRows,
            ),
            _ => (IngestState::Broken, IngestAction::Refuse),
        },
        IngestState::AwaitRows { disp_id } => match e {
            IngestEventModel::Rows(ts) => if ts.len() == 0 {
                (IngestState::Done { rows: 0 }, IngestAction::Finish(0))
            } else {
                (
                    IngestState::AwaitExisting {
                        disp_id,
                        rows: ts.len() as usize,
                        first: ts[0],
                        last: ts.last(),
                    },
                    IngestAction::CountExisting { disp_id },
                )
            },
            _ => (IngestState::Broken, IngestAction::Refuse),
        },
        IngestState::AwaitExisting { disp_id, rows, first, last } => match e {
            IngestEventModel::Existing(k) => (
                IngestState::AwaitStored { rows, counts: counts_of(rows, first, last, k) },
                IngestAction::StoreRows { disp_id },
            ),
            _ => (IngestState::Broken, IngestAction::Refuse),
        },
        IngestState::AwaitStored { rows, counts } => match e {
            IngestEventModel::Stored => (
                IngestState::AwaitLogged { rows },
                IngestAction::WriteLog(counts),
            ),
            _ => (IngestState::Broken, IngestAction::Refuse),
        },
        IngestState::AwaitLogged { rows } => match e {
            IngestEventModel::Logged => (IngestState::Done { rows }, IngestAction::Finish(rows)),
            _ => (IngestState::Broken, IngestAction::Refuse),
        },
        _ => (IngestState::Broken, IngestAction::Refuse),
    }
}

/// The next state and action after the event `e` in the state `s`.
pub fn ingest_step(s: IngestState, e: IngestEvent) -> (r: (IngestState, IngestAction))
    ensures
        r == ingest_next(s, e@),
{
    match s {
        IngestState::Start => match e {
            IngestEvent::Begin => (IngestState::AwaitDevice, IngestAction::LookupDevice),
            _ => (IngestState::Broken, IngestAction::Refuse),
        },
        IngestState::AwaitDevice => match e {
            IngestEvent::Device(d) => (IngestState::AwaitRows { disp_id: d }, IngestAction::ReadRows),
            _ => (IngestState::Broken, IngestAction::Refuse),
        },
        IngestState::AwaitRows { disp_id } => match e {
            IngestEvent::Rows(ts) => {
                let n = ts.len();
                if n == 0 {
                    (IngestState::Done { rows: 0 }, IngestAction::Finish(0))
                } else {
                    (
                        IngestState::AwaitExisting {
                            disp_id,
                            rows: n,
                            first: ts[0],
                            last: ts[n - 1],
                        },
                        IngestAction::CountExisting { disp_id },
                    )
                }
            },
            _ => (IngestState::Broken, IngestAction::Refuse),
        },
        IngestState::AwaitExisting { disp_id, rows, first, last } => match e {
            IngestEvent::Existing(k) => {
                let counts = IngestionCounts {
                    filas_nuevas: rows.saturating_sub(k),
                    filas_actualizadas: k,
                    timestamp_inicio: Some(first),
                    timestamp_fin: Some(last),
                };
                (IngestState::AwaitStored { rows, counts }, IngestAction::StoreRows { disp_id })
            },
            _ => (IngestState::Broken, IngestAction::Refuse),
        },
        IngestState::AwaitStored { rows, counts } => match e {
            IngestEvent::Stored => (IngestState::AwaitLogged { rows }, IngestAction::WriteLog(counts)),
            _ => (IngestState::Broken, IngestAction::Refuse),
        },
        IngestState::AwaitLogged { rows } => match e {
            IngestEvent::Logged => (IngestState::Done { rows }, IngestAction::Finish(rows)),
            _ => (IngestState::Broken, IngestAction::Refuse),
        },
        _ => (IngestState::Broken, IngestAction::Refuse),
    }
}

/// The state and the actions after the events `es`, one action per event,
/// from the state `s`.
pub open spec fn ingest_run(s: IngestState, es: Seq<IngestEventModel>) -> (IngestState, Seq<IngestAction>)
    decreases es.len(),
{
    if es.len() == 0 {
        (s, Seq::empty())
    } else {
        let (s1, a) = ingest_next(s, es[0]);
        let (sn, rest) = ingest_run(s1, es.drop_first());
        (sn, seq![a] + rest)
    }
}

} // verus!
