use mini_nube::{
    parse_bool, parse_bool_lenient, parse_float_text, parse_int, parse_opt_string,
    parse_timestamp, CsvError, CsvFileType,
};

#[test]
fn test_parse_timestamp() {
    assert_eq!(parse_timestamp("2026-07-29 00:00:00").unwrap(), 1785283200);
}

#[test]
fn test_parse_bool() {
    assert!(parse_bool("true"));
    assert!(parse_bool("TRUE"));
    assert!(parse_bool("True"));
    assert!(!parse_bool("false"));
    assert!(!parse_bool("0"));
}

#[test]
fn test_parse_bool_lenient() {
    assert_eq!(parse_bool_lenient("true").unwrap(), true);
    assert_eq!(parse_bool_lenient("True").unwrap(), true);
    assert_eq!(parse_bool_lenient("TRUE").unwrap(), true);
    assert_eq!(parse_bool_lenient("1").unwrap(), true);
    assert_eq!(parse_bool_lenient("false").unwrap(), false);
    assert_eq!(parse_bool_lenient("False").unwrap(), false);
    assert_eq!(parse_bool_lenient("FALSE").unwrap(), false);
    assert_eq!(parse_bool_lenient("0").unwrap(), false);
    assert!(parse_bool_lenient("invalid").is_err());
}

#[test]
fn test_detect_file_type() {
    assert_eq!(
        CsvFileType::detect_from_filename("NCU_2026-08-26.csv"),
        Some(CsvFileType::Ncu)
    );
    assert_eq!(
        CsvFileType::detect_from_filename("NCU_EVENT_LOG_2026-08-26.csv"),
        Some(CsvFileType::NcuEventLog)
    );
    assert_eq!(
        CsvFileType::detect_from_filename("NCU_SENSORS_2026-08-26.csv"),
        Some(CsvFileType::NcuSensors)
    );
    assert_eq!(
        CsvFileType::detect_from_filename("HSU_230_2026-08-26.csv"),
        Some(CsvFileType::Hsu {
            hsu_id: "HSU_230".to_string()
        })
    );
    assert_eq!(
        CsvFileType::detect_from_filename("TCU_001_2026-08-26.csv"),
        Some(CsvFileType::Tcu {
            tcu_id: "TCU_001".to_string()
        })
    );
}

#[test]
fn timestamp_ignores_surrounding_space() {
    assert_eq!(parse_timestamp("  2026-07-29 00:00:08\t").unwrap(), 1785283208);
    assert_eq!(parse_timestamp("2026-07-29 06:48:27").unwrap(), 1785307707);
    assert_eq!(parse_timestamp("1970-01-01 00:00:00").unwrap(), 0);
}

#[test]
fn timestamp_error_names_trimmed_field() {
    match parse_timestamp(" 29/07/2026 ") {
        Err(CsvError::DateTimeParse(t, _)) => assert_eq!(t, "29/07/2026"),
        other => panic!("unexpected {:?}", other),
    }
    assert!(matches!(parse_timestamp(""), Err(CsvError::DateTimeParse(t, _)) if t.is_empty()));
}

#[test]
fn bool_strict_other_words_are_false() {
    assert!(parse_bool("  tRuE \n"));
    assert!(!parse_bool("1"));
    assert!(!parse_bool("yes"));
    assert!(!parse_bool(""));
    assert!(!parse_bool("truee"));
}

#[test]
fn bool_lenient_all_words_and_message() {
    for w in ["true", "1", "yes", "y", "t", " YES ", "T"] {
        assert_eq!(parse_bool_lenient(w), Ok(true), "{}", w);
    }
    for w in ["false", "0", "no", "n", "f", "No", " F "] {
        assert_eq!(parse_bool_lenient(w), Ok(false), "{}", w);
    }
    assert_eq!(
        parse_bool_lenient(" MaYbe "),
        Err("Valor booleano inválido: 'maybe'. Se esperaba true/false, True/False, 1/0.".to_string())
    );
    assert_eq!(
        parse_bool_lenient(""),
        Err("Valor booleano inválido: ''. Se esperaba true/false, True/False, 1/0.".to_string())
    );
}

#[test]
fn int_fields() {
    assert_eq!(parse_int("42"), Ok(Some(42)));
    assert_eq!(parse_int("  -7 "), Ok(Some(-7)));
    assert_eq!(parse_int("+15"), Ok(Some(15)));
    assert_eq!(parse_int("0007"), Ok(Some(7)));
    assert_eq!(parse_int("   "), Ok(None));
    assert_eq!(parse_int(""), Ok(None));
    assert_eq!(parse_int("9223372036854775807"), Ok(Some(i64::MAX)));
    assert_eq!(parse_int("-9223372036854775808"), Ok(Some(i64::MIN)));
}

#[test]
fn int_fields_that_are_no_integer_have_no_value() {
    for s in [" 12a ", "-", "9223372036854775808", "-9223372036854775809", "1.5", "abc", "12 3"] {
        assert_eq!(parse_int(s), Ok(None), "{}", s);
    }
}

#[test]
fn int_fields_agree_with_std() {
    for s in ["0", "-0", "+", "++1", "1_000", "99999999999999999999x", "x99999999999999999999", "12 3", "١٢", " 81 "] {
        assert_eq!(parse_int(s), Ok(s.trim().parse::<i64>().ok()), "{}", s);
    }
}

#[test]
fn float_fields() {
    assert_eq!(parse_float_text(" 19.85 "), Ok(Some("19.85".to_string())));
    for s in ["5", "-5.", ".5", "1e5", "1E-5", "+2.5e+3", "inf", "-Infinity", "NaN", "0.0"] {
        assert_eq!(parse_float_text(s), Ok(Some(s.to_string())), "{}", s);
        assert!(s.parse::<f64>().is_ok());
    }
    assert_eq!(parse_float_text(""), Ok(None));
    assert_eq!(parse_float_text("   "), Ok(None));
}

#[test]
fn float_fields_that_are_no_number_have_no_value() {
    for s in [".", "1e", "e5", "1.2.3", "--1", "1,5", "infinit", "0x10", "1e5.0", "abc"] {
        assert_eq!(parse_float_text(s), Ok(None), "{}", s);
        assert!(s.parse::<f64>().is_err());
    }
}

#[test]
fn optional_strings() {
    assert_eq!(parse_opt_string("  AUTO "), Some("AUTO".to_string()));
    assert_eq!(parse_opt_string(" \u{a0}\u{3000} "), None);
    assert_eq!(parse_opt_string("a b"), Some("a b".to_string()));
}

#[test]
fn timestamps_are_utc_epoch_seconds() {
    assert_eq!(parse_timestamp("1970-01-01 00:00:00"), Ok(0));
    assert_eq!(parse_timestamp("1969-12-31 23:59:59"), Ok(-1));
    assert_eq!(parse_timestamp("2024-02-29 12:34:56"), Ok(1709210096));
    assert_eq!(parse_timestamp(" 0000-01-01 00:00:00 "), Ok(-62167219200));
    assert_eq!(parse_timestamp("9999-12-31 23:59:59"), Ok(253402300799));
    assert!(parse_timestamp("2023-02-29 00:00:00").is_err());
}

#[test]
fn integers_read_back_as_themselves() {
    for n in [0i64, 1, -1, 9, 10, -10, 42, 1785283200, i64::MAX, i64::MIN, i64::MAX - 1, i64::MIN + 1] {
        assert_eq!(parse_int(&n.to_string()), Ok(Some(n)));
        assert_eq!(parse_int(&format!("  {}  ", n)), Ok(Some(n)));
        assert_eq!(parse_int(&format!("\t{}\n", n)), Ok(Some(n)));
    }
}
