use mini_nube::{parse_bool, parse_bool_lenient, parse_float_text, parse_int, CsvFileType};

#[test]
fn surrounding_space_does_not_matter() {
    for s in ["12", "x", "1.5", "true", "AUTO"] {
        let padded = format!(" \t{}\u{3000}\n", s);
        assert_eq!(parse_int(&padded), parse_int(s));
        assert_eq!(parse_float_text(&padded), parse_float_text(s));
        assert_eq!(parse_bool(&padded), parse_bool(s));
        assert_eq!(parse_bool_lenient(&padded), parse_bool_lenient(s));
    }
}

#[test]
fn case_does_not_matter_for_booleans() {
    for s in ["TrUe", "YES", "F", "Nope"] {
        assert_eq!(parse_bool(s), parse_bool(&s.to_ascii_lowercase()));
        assert_eq!(parse_bool_lenient(s), parse_bool_lenient(&s.to_ascii_lowercase()));
    }
}

#[test]
fn strict_true_is_lenient_true() {
    for s in ["true", " TRUE "] {
        assert!(parse_bool(s));
        assert_eq!(parse_bool_lenient(s), Ok(true));
    }
}

#[test]
fn integers_are_float_literals() {
    for s in ["0", "-12", "+7", "9223372036854775807"] {
        assert!(parse_int(s).unwrap().is_some());
        assert_eq!(parse_float_text(s), Ok(Some(s.to_string())));
    }
}

#[test]
fn directories_do_not_change_the_kind() {
    for n in ["HSU_230_2026.csv", "NCU_1.csv", "other.csv"] {
        assert_eq!(
            CsvFileType::detect_from_filename(&format!("a/b/{}", n)),
            CsvFileType::detect_from_name(n)
        );
    }
}
