use mini_nube::{read_event_log_csv, read_ncu_csv, read_sensor_csv, read_tcu_csv, CsvError, EventLogRecord, NcuRecord};

const NCU_HEADER: &str = "datetime;mqtt_online;gw1_online;gw2_online;ups_power_ok;ups_battery_low;stop_button;bluetooth_enabled\n";

#[test]
fn ncu_rows_are_read() {
    let data = format!(
        "{}2026-07-29 00:00:00;false;true;TRUE;True;0;no;true\n2026-07-29 00:00:10;true;false;false;false;true;false;false\n",
        NCU_HEADER
    );
    let recs = read_ncu_csv(data.as_bytes()).unwrap().unwrap();
    assert_eq!(
        recs,
        vec![
            NcuRecord {
                timestamp: 1785283200,
                mqtt_online: false,
                gw1_online: true,
                gw2_online: true,
                ups_power_ok: true,
                ups_battery_low: false,
                stop_button: false,
                bluetooth_enabled: true,
            },
            NcuRecord {
                timestamp: 1785283210,
                mqtt_online: true,
                gw1_online: false,
                gw2_online: false,
                ups_power_ok: false,
                ups_battery_low: true,
                stop_button: false,
                bluetooth_enabled: false,
            },
        ]
    );
}

#[test]
fn ncu_columns_found_by_trimmed_name_in_any_order() {
    let data = "bluetooth_enabled; stop_button ;ups_battery_low;ups_power_ok;gw2_online;gw1_online;mqtt_online;datetime;extra\ntrue;true;true;true;true;true;true;2026-07-29 00:00:00;x\n";
    let recs = read_ncu_csv(data.as_bytes()).unwrap().unwrap();
    assert_eq!(recs.len(), 1);
    assert!(recs[0].stop_button && recs[0].mqtt_online);
    assert_eq!(recs[0].timestamp, 1785283200);
}

#[test]
fn ncu_missing_column_is_named() {
    let data = "datetime;mqtt_online;gw1_online;ups_power_ok\n";
    assert_eq!(read_ncu_csv(data.as_bytes()), Err("gw2_online".to_string()));
    assert_eq!(read_ncu_csv(b""), Err("datetime".to_string()));
}

#[test]
fn ncu_empty_file_with_header_has_no_rows() {
    assert_eq!(read_ncu_csv(NCU_HEADER.as_bytes()), Ok(Ok(vec![])));
}

#[test]
fn ncu_first_bad_date_stops_reading() {
    let data = format!("{}2026-07-29 00:00:00;1;1;1;1;1;1;1\nbad;1;1;1;1;1;1;1\nworse;1;1;1;1;1;1;1\n", NCU_HEADER);
    match read_ncu_csv(data.as_bytes()) {
        Ok(Err(CsvError::DateTimeParse(t, _))) => assert_eq!(t, "bad"),
        other => panic!("unexpected {:?}", other),
    }
}

#[test]
fn ncu_row_of_wrong_length_is_a_csv_error() {
    let data = format!("{}2026-07-29 00:00:00;1;1\n", NCU_HEADER);
    assert!(matches!(read_ncu_csv(data.as_bytes()), Ok(Err(CsvError::Csv(_)))));
}

#[test]
fn sensor_rows_keep_float_text() {
    let data = "datetime;main_battery;internal_temp;wind_speed;wind_direction;wind_level;snow_level;irradiance;wind_alarm;gusty_wind_alarm;snow_alarm;snow_sensor_com_error\n2026-07-29 00:00:00;14847;19.85;;2.5e1; 3 ;0;-12;false;TRUE;false;true\n";
    let rows = read_sensor_csv(data.as_bytes()).unwrap().unwrap();
    assert_eq!(rows.len(), 1);
    let r = &rows[0];
    assert_eq!(r.timestamp, 1785283200);
    assert_eq!(r.main_battery, Some(14847));
    assert_eq!(r.internal_temp, Some("19.85".to_string()));
    assert_eq!(r.wind_speed, None);
    assert_eq!(r.wind_direction, Some("2.5e1".to_string()));
    assert_eq!(r.wind_level, Some(3));
    assert_eq!(r.snow_level, Some("0".to_string()));
    assert_eq!(r.irradiance, Some(-12));
    assert!(!r.wind_alarm && r.gusty_wind_alarm && !r.snow_alarm && r.snow_sensor_com_error);
}

#[test]
fn sensor_fields_that_are_no_number_have_no_value() {
    let data = "datetime;main_battery;internal_temp;wind_speed;wind_direction;wind_level;snow_level;irradiance;wind_alarm;gusty_wind_alarm;snow_alarm;snow_sensor_com_error\n2026-07-29 00:00:00;1;x.y;1;1;zz;1;1;0;0;0;0\n";
    let rows = read_sensor_csv(data.as_bytes()).unwrap().unwrap();
    assert_eq!(rows.len(), 1);
    assert_eq!(rows[0].main_battery, Some(1));
    assert_eq!(rows[0].internal_temp, None);
    assert_eq!(rows[0].wind_speed, Some("1".to_string()));
    assert_eq!(rows[0].wind_level, None);
}

const TCU_HEADER: &str = "datetime;main_state;backtracking;wind_from_east;active_security_position;angle;target_angle;soc;remaining_capacity;ps_voltage;ps_current;voltage;current;motor_voltage;motor_current;motor_current_peak;motor_state;motor_pwm;daily_motor_power_consumption;pcb_temp;battery_temp;alarms_1;alarms_2;hw_alarms;system_monitor_status;system_monitor_flags;power_section_alarms\n";

#[test]
fn tcu_rows_are_read() {
    let data = format!(
        "{}2026-07-29 00:00:08;AUTO;false;true;0;5.20;5.5;84;1000;12000;-50;13000;40;0;0;0;OFF;0.0;3;31.5;29;0;0;0;1;2;0\n",
        TCU_HEADER
    );
    let rows = read_tcu_csv(data.as_bytes()).unwrap().unwrap();
    assert_eq!(rows.len(), 1);
    let r = &rows[0];
    assert_eq!(r.timestamp, 1785283208);
    assert_eq!(r.main_state, Some("AUTO".to_string()));
    assert!(!r.backtracking && r.wind_from_east);
    assert_eq!(r.angle, Some("5.20".to_string()));
    assert_eq!(r.soc, Some(84));
    assert_eq!(r.ps_current, Some(-50));
    assert_eq!(r.motor_state, Some("OFF".to_string()));
    assert_eq!(r.battery_temp, Some("29".to_string()));
    assert_eq!(r.system_monitor_flags, Some(2));
}

#[test]
fn tcu_columns_found_by_name_in_any_order() {
    let row = "2026-07-29 00:00:08;AUTO;false;true;0;5.20;5.5;84;1000;12000;-50;13000;40;0;0;0;OFF;0.0;3;31.5;29;0;0;0;1;2;0";
    let data = format!("{}{}\n", TCU_HEADER, row);
    let mut heads: Vec<String> = TCU_HEADER.trim_end().split(';').map(|h| format!(" {} ", h)).collect();
    let mut fields: Vec<String> = row.split(';').map(|f| f.to_string()).collect();
    heads.reverse();
    fields.reverse();
    heads.insert(3, "extra".to_string());
    fields.insert(3, "zzz".to_string());
    let moved = format!("{}\n{}\n", heads.join(";"), fields.join(";"));
    let a = read_tcu_csv(data.as_bytes());
    assert!(matches!(a, Ok(Ok(_))));
    assert_eq!(read_tcu_csv(moved.as_bytes()), a);
}

#[test]
fn tcu_missing_column_is_named() {
    let data = TCU_HEADER.replace(";motor_pwm", "");
    assert_eq!(read_tcu_csv(data.as_bytes()), Err("motor_pwm".to_string()));
}

#[test]
fn event_log_lines() {
    let data = b"2026-07-29 06:48:27;OTA performed; version 2\r\n\n   \nno separator here\n  2026-07-29 06:48:28 ; reboot  \nlast;";
    match read_event_log_csv(data) {
        Ok(_) => panic!("the last line has no valid date"),
        Err(CsvError::DateTimeParse(t, _)) => assert_eq!(t, "last"),
        Err(e) => panic!("unexpected {:?}", e),
    }
    let data = b"2026-07-29 06:48:27;OTA performed; version 2\r\n\n   \nno separator here\n  2026-07-29 06:48:28 ; reboot  \n";
    assert_eq!(
        read_event_log_csv(data),
        Ok(vec![
            EventLogRecord { timestamp: 1785307707, event: "OTA performed; version 2".to_string() },
            EventLogRecord { timestamp: 1785307708, event: " reboot".to_string() },
        ])
    );
}

#[test]
fn event_log_invalid_utf8_is_an_io_error() {
    let data = b"2026-07-29 06:48:27;ok\n\xff\xfe;x\n";
    assert_eq!(
        read_event_log_csv(data),
        Err(CsvError::Io("stream did not contain valid UTF-8".to_string()))
    );
    assert_eq!(read_event_log_csv(b""), Ok(vec![]));
}
