use mini_nube::models::file_name;
use mini_nube::CsvFileType;

#[test]
fn detect_reads_the_final_path_component() {
    assert_eq!(
        CsvFileType::detect_from_filename("../data/PR6/2026-09-01/TCU_008_2026-09-01.csv"),
        Some(CsvFileType::Tcu { tcu_id: "TCU_008".to_string() })
    );
    assert_eq!(
        CsvFileType::detect_from_filename("dir/NCU_SENSORS_20260901.csv"),
        Some(CsvFileType::NcuSensors)
    );
    assert_eq!(CsvFileType::detect_from_filename("NCU_X/other.csv"), None);
    assert_eq!(CsvFileType::detect_from_filename("data.csv"), None);
    assert_eq!(CsvFileType::detect_from_filename(""), None);
}

#[test]
fn detect_unit_ids() {
    assert_eq!(
        CsvFileType::detect_from_name("HSU_230"),
        Some(CsvFileType::Hsu { hsu_id: "HSU_230".to_string() })
    );
    assert_eq!(
        CsvFileType::detect_from_name("HSU_"),
        Some(CsvFileType::Hsu { hsu_id: "HSU_".to_string() })
    );
    assert_eq!(
        CsvFileType::detect_from_name("TCU__x"),
        Some(CsvFileType::Tcu { tcu_id: "TCU_".to_string() })
    );
    assert_eq!(CsvFileType::detect_from_name("ncu_2026.csv"), None);
    assert_eq!(CsvFileType::detect_from_name("NCU_EVENT_LOG"), Some(CsvFileType::Ncu));
}

#[test]
fn table_names() {
    assert_eq!(CsvFileType::Ncu.table_name(), "datos_ncu");
    assert_eq!(CsvFileType::NcuSensors.table_name(), "datos_ncu_sensor");
    assert_eq!(CsvFileType::Hsu { hsu_id: "HSU_1".to_string() }.table_name(), "datos_hsu");
    assert_eq!(CsvFileType::Tcu { tcu_id: "TCU_1".to_string() }.table_name(), "datos_tcu");
    assert_eq!(CsvFileType::NcuEventLog.table_name(), "ncu_event_log");
}

#[test]
fn file_names_like_std_path() {
    for p in ["a/b.csv", "b.csv", "/x/y/", "a/b/.", "./a", ".", "..", "a/..", "/", "", "a//b", "a/./b/./", "../a", "./."] {
        let ours = file_name(p);
        let std = std::path::Path::new(p).file_name().and_then(|n| n.to_str());
        assert_eq!(ours, std, "{}", p);
    }
}
