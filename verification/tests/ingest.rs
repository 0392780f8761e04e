use mini_nube::ingest::{
    chunk_ranges, existing_count_sql, has_csv_extension, log_row_counts, plan_file,
    row_count_sql, should_ingest, FilePlan, IngestTarget, IngestionCounts,
};
use mini_nube::protocol::{ingest_step, IngestAction, IngestEvent, IngestState};
use mini_nube::models::CsvFileType;
use mini_nube::schema::{create_statements, sensor_insert_sql, SQL_CREATE_INGESTA_LOG};

#[test]
fn chunks_of_nine_hundred() {
    assert_eq!(chunk_ranges(0), vec![]);
    assert_eq!(chunk_ranges(1), vec![(0, 1)]);
    assert_eq!(chunk_ranges(900), vec![(0, 900)]);
    assert_eq!(chunk_ranges(1801), vec![(0, 900), (900, 1800), (1800, 1801)]);
}

#[test]
fn counting_query() {
    assert_eq!(
        existing_count_sql("datos_ncu", 3),
        "SELECT COUNT(*) FROM datos_ncu WHERE dispositivo_id = ? AND timestamp IN (?,?,?)"
    );
    assert_eq!(
        existing_count_sql("datos_tcu", 1),
        "SELECT COUNT(*) FROM datos_tcu WHERE dispositivo_id = ? AND timestamp IN (?)"
    );
}

#[test]
fn row_count_query_quotes_names() {
    assert_eq!(row_count_sql("datos_hsu"), "SELECT COUNT(*) FROM \"datos_hsu\"");
    assert_eq!(row_count_sql("a\"b"), "SELECT COUNT(*) FROM \"a\"\"b\"");
}

#[test]
fn log_row_counts_add_up() {
    assert_eq!(log_row_counts(2, 1), (3, 2, 1));
    assert_eq!(log_row_counts(0, 0), (0, 0, 0));
}

fn run(events: Vec<IngestEvent>) -> (IngestState, Vec<IngestAction>) {
    let mut state = IngestState::Start;
    let mut actions = Vec::new();
    for e in events {
        let (next, a) = ingest_step(state, e);
        state = next;
        actions.push(a);
    }
    (state, actions)
}

#[test]
fn ingestion_steps_for_a_file() {
    let (state, actions) = run(vec![
        IngestEvent::Begin,
        IngestEvent::Device(7),
        IngestEvent::Rows(vec![10, 20, 30]),
        IngestEvent::Existing(1),
        IngestEvent::Stored,
        IngestEvent::Logged,
    ]);
    assert_eq!(state, IngestState::Done { rows: 3 });
    assert_eq!(
        actions,
        vec![
            IngestAction::LookupDevice,
            IngestAction::ReadRows,
            IngestAction::CountExisting { disp_id: 7 },
            IngestAction::StoreRows { disp_id: 7 },
            IngestAction::WriteLog(IngestionCounts {
                filas_nuevas: 2,
                filas_actualizadas: 1,
                timestamp_inicio: Some(10),
                timestamp_fin: Some(30),
            }),
            IngestAction::Finish(3),
        ]
    );
}

#[test]
fn ingestion_of_a_file_already_stored() {
    let (_, actions) = run(vec![
        IngestEvent::Begin,
        IngestEvent::Device(1),
        IngestEvent::Rows(vec![5]),
        IngestEvent::Existing(3),
        IngestEvent::Stored,
        IngestEvent::Logged,
    ]);
    assert_eq!(
        actions[4],
        IngestAction::WriteLog(IngestionCounts {
            filas_nuevas: 0,
            filas_actualizadas: 3,
            timestamp_inicio: Some(5),
            timestamp_fin: Some(5),
        })
    );
    assert_eq!(actions[5], IngestAction::Finish(1));
}

#[test]
fn ingestion_of_an_empty_file() {
    let (state, actions) = run(vec![IngestEvent::Begin, IngestEvent::Device(2), IngestEvent::Rows(vec![])]);
    assert_eq!(state, IngestState::Done { rows: 0 });
    assert_eq!(actions, vec![IngestAction::LookupDevice, IngestAction::ReadRows, IngestAction::Finish(0)]);
}

#[test]
fn ingestion_refuses_unasked_answers() {
    let (state, actions) = run(vec![IngestEvent::Device(2)]);
    assert_eq!(state, IngestState::Broken);
    assert_eq!(actions, vec![IngestAction::Refuse]);
    let (state, _) = run(vec![IngestEvent::Begin, IngestEvent::Device(2), IngestEvent::Stored]);
    assert_eq!(state, IngestState::Broken);
    assert_eq!(ingest_step(IngestState::Done { rows: 4 }, IngestEvent::Logged), (IngestState::Broken, IngestAction::Refuse));
}

#[test]
fn folder_scan_skips_logged_files_when_asked() {
    assert!(should_ingest(false, 3));
    assert!(should_ingest(true, 0));
    assert!(!should_ingest(true, 1));
    assert!(should_ingest(false, 0));
}

#[test]
fn csv_extension_in_any_case() {
    assert!(has_csv_extension("plant/2026/NCU_1.csv"));
    assert!(has_csv_extension("NCU_1.CsV"));
    assert!(!has_csv_extension(".csv"));
    assert!(!has_csv_extension("a.csv.bak"));
    assert!(!has_csv_extension("csv"));
    assert!(has_csv_extension("dir/a.csv/"));
    for p in ["a.tar.csv", "..csv", "a.", ".", ".."] {
        let std = std::path::Path::new(p)
            .extension()
            .map_or(false, |e| e.eq_ignore_ascii_case("csv"));
        assert_eq!(has_csv_extension(p), std, "{}", p);
    }
}

#[test]
fn plans_for_files() {
    assert_eq!(plan_file("..", "NCU_A"), FilePlan::InvalidPath);
    assert_eq!(plan_file("x/readme.csv", "NCU_A"), FilePlan::Unrecognized);
    assert_eq!(
        plan_file("x/HSU_230_20260729.csv", "NCU_A"),
        FilePlan::Ingest {
            kind: CsvFileType::Hsu { hsu_id: "HSU_230".to_string() },
            target: IngestTarget { tipo: "HSU", device_id: "HSU_230".to_string(), tabla: "datos_hsu" },
        }
    );
    assert_eq!(
        plan_file("NCU_EVENT_LOG_20260729.csv", "NCU_A"),
        FilePlan::Ingest {
            kind: CsvFileType::NcuEventLog,
            target: IngestTarget { tipo: "NCU", device_id: "NCU_A".to_string(), tabla: "ncu_event_log" },
        }
    );
    assert_eq!(
        CsvFileType::NcuSensors.ingest_target("N1"),
        IngestTarget { tipo: "NCU", device_id: "N1".to_string(), tabla: "datos_ncu_sensor" }
    );
}

#[test]
fn schema_statements() {
    let stmts = create_statements();
    assert_eq!(stmts.len(), 12);
    assert_eq!(stmts[11], SQL_CREATE_INGESTA_LOG);
    assert_eq!(stmts.iter().filter(|s| s.contains("CREATE UNIQUE INDEX")).count(), 5);
    let sql = sensor_insert_sql("datos_hsu");
    assert!(sql.contains("INSERT OR REPLACE INTO datos_hsu\n"));
    assert!(sql.contains("snow_sensor_com_error)"));
}
