use vstd::prelude::*;

verus! {

// The tables and indexes of the store; every data table has a unique index on
// (device, date-time), the event log on (device, date-time, event).

pub const SQL_CREATE_DISPOSITIVOS: &'static str = r#"
CREATE TABLE IF NOT EXISTS dispositivos (
    id              INTEGER PRIMARY KEY AUTOINCREMENT,
    ncu_id          TEXT    NOT NULL,
    tipo            TEXT    NOT NULL CHECK (tipo IN ('NCU', 'HSU', 'TCU')),
    device_id       TEXT    NOT NULL,
    descripcion     TEXT,
    created_at      INTEGER NOT NULL DEFAULT (unixepoch('now')),

    UNIQUE (ncu_id, tipo, device_id)
);
"#;

pub const SQL_CREATE_DATOS_NCU: &'static str = r#"
CREATE TABLE IF NOT EXISTS datos_ncu (
    id                  INTEGER PRIMARY KEY AUTOINCREMENT,
    dispositivo_id      INTEGER NOT NULL REFERENCES dispositivos(id),
    timestamp           INTEGER NOT NULL,
    mqtt_online         INTEGER NOT NULL,
    gw1_online          INTEGER NOT NULL,
    gw2_online          INTEGER NOT NULL,
    ups_power_ok        INTEGER NOT NULL,
    ups_battery_low     INTEGER NOT NULL,
    stop_button         INTEGER NOT NULL,
    bluetooth_enabled   INTEGER NOT NULL
);
"#;

pub const SQL_CREATE_IDX_DATOS_NCU: &'static str = r#"
CREATE UNIQUE INDEX IF NOT EXISTS idx_datos_ncu_ts
    ON datos_ncu (dispositivo_id, timestamp);
"#;

pub const SQL_CREATE_DATOS_NCU_SENSOR: &'static str = r#"
CREATE TABLE IF NOT EXISTS datos_ncu_sensor (
    id                      INTEGER PRIMARY KEY AUTOINCREMENT,
    dispositivo_id          INTEGER NOT NULL REFERENCES dispositivos(id),
    timestamp               INTEGER NOT NULL,
    main_battery            INTEGER,
    internal_temp           REAL,
    wind_speed              REAL,
    wind_direction          REAL,
    wind_level              INTEGER,
    snow_level              REAL,
    irradiance              INTEGER,
    wind_alarm              INTEGER NOT NULL,
    gusty_wind_alarm        INTEGER NOT NULL,
    snow_alarm              INTEGER NOT NULL,
    snow_sensor_com_error   INTEGER NOT NULL
);
"#;

pub const SQL_CREATE_IDX_DATOS_NCU_SENSOR: &'static str = r#"
CREATE UNIQUE INDEX IF NOT EXISTS idx_datos_ncu_sensor_ts
    ON datos_ncu_sensor (dispositivo_id, timestamp);
"#;

pub const SQL_CREATE_DATOS_HSU: &'static str = r#"
CREATE TABLE IF NOT EXISTS datos_hsu (
    id                      INTEGER PRIMARY KEY AUTOINCREMENT,
    dispositivo_id          INTEGER NOT NULL REFERENCES dispositivos(id),
    timestamp               INTEGER NOT NULL,
    main_battery            INTEGER,
    internal_temp           REAL,
    wind_speed              REAL,
    wind_direction          REAL,
    wind_level              INTEGER,
    snow_level              REAL,
    irradiance              INTEGER,
    wind_alarm              INTEGER NOT NULL,
    gusty_wind_alarm        INTEGER NOT NULL,
    snow_alarm              INTEGER NOT NULL,
    snow_sensor_com_error   INTEGER NOT NULL
);
"#;

pub const SQL_CREATE_IDX_DATOS_HSU: &'static str = r#"
CREATE UNIQUE INDEX IF NOT EXISTS idx_datos_hsu_ts
    ON datos_hsu (dispositivo_id, timestamp);
"#;

pub const SQL_CREATE_DATOS_TCU: &'static str = r#"
CREATE TABLE IF NOT EXISTS datos_tcu (
    id                              INTEGER PRIMARY KEY AUTOINCREMENT,
    dispositivo_id                  INTEGER NOT NULL REFERENCES dispositivos(id),
    timestamp                       INTEGER NOT NULL,
    main_state                      TEXT,
    backtracking                    INTEGER NOT NULL,
    wind_from_east                  INTEGER NOT NULL,
    active_security_position        INTEGER,
    angle                           REAL,
    target_angle                    REAL,
    soc                             INTEGER,
    remaining_capacity              INTEGER,
    ps_voltage                      INTEGER,
    ps_current                      INTEGER,
    voltage                         INTEGER,
    current                         INTEGER,
    motor_voltage                   INTEGER,
    motor_current                   INTEGER,
    motor_current_peak              INTEGER,
    motor_state                     TEXT,
    motor_pwm                       REAL,
    daily_motor_power_consumption   INTEGER,
    pcb_temp                        REAL,
    battery_temp                    REAL,
    alarms_1                        INTEGER,
    alarms_2                        INTEGER,
    hw_alarms                       INTEGER,
    system_monitor_status           INTEGER,
    system_monitor_flags            INTEGER,
    power_section_alarms            INTEGER
);
"#;

pub const SQL_CREATE_IDX_DATOS_TCU: &'static str = r#"
CREATE UNIQUE INDEX IF NOT EXISTS idx_datos_tcu_ts
    ON datos_tcu (dispositivo_id, timestamp);
"#;

pub const SQL_CREATE_NCU_EVENT_LOG: &'static str = r#"
CREATE TABLE IF NOT EXISTS ncu_event_log (
    id                  INTEGER PRIMARY KEY AUTOINCREMENT,
    dispositivo_id      INTEGER NOT NULL REFERENCES dispositivos(id),
    timestamp           INTEGER NOT NULL,
    evento              TEXT    NOT NULL
);
"#;

pub const SQL_CREATE_IDX_NCU_EVENT_LOG: &'static str = r#"
CREATE UNIQUE INDEX IF NOT EXISTS idx_ncu_event_log_ts
    ON ncu_event_log (dispositivo_id, timestamp, evento);
"#;

pub const SQL_CREATE_INGESTA_LOG: &'static str = r#"
CREATE TABLE IF NOT EXISTS ingesta_log (
    id              INTEGER PRIMARY KEY AUTOINCREMENT,
    ncu_id          TEXT    NOT NULL,
    fichero         TEXT    NOT NULL,
    tipo_datos      TEXT    NOT NULL,
    filas_insertadas INTEGER NOT NULL,
    filas_nuevas      INTEGER NOT NULL,
    filas_actualizadas INTEGER NOT NULL,
    timestamp_inicio INTEGER,
    timestamp_fin    INTEGER,
    ingested_at     INTEGER NOT NULL DEFAULT (unixepoch('now'))
);
"#;

/// The statements that create the store, in the order they are run.
pub open spec fn create_statements_spec() -> Seq<&'static str> {
    seq![
        SQL_CREATE_DISPOSITIVOS,
        SQL_CREATE_DATOS_NCU,
        SQL_CREATE_IDX_DATOS_NCU,
        SQL_CREATE_DATOS_NCU_SENSOR,
        SQL_CREATE_IDX_DATOS_NCU_SENSOR,
        SQL_CREATE_DATOS_HSU,
        SQL_CREATE_IDX_DATOS_HSU,
        SQL_CREATE_DATOS_TCU,
        SQL_CREATE_IDX_DATOS_TCU,
        SQL_CREATE_NCU_EVENT_LOG,
        SQL_CREATE_IDX_NCU_EVENT_LOG,
        SQL_CREATE_INGESTA_LOG,
    ]
}

/// The statements that create every table and index, in the order they are
/// run.
pub fn create_statements() -> (r: Vec<&'static str>)
    ensures
        r@ == create_statements_spec(),
{
    let v = vec![SQL_CREATE_DISPOSITIVOS, SQL_CREATE_DATOS_NCU, SQL_CREATE_IDX_DATOS_NCU, SQL_CREATE_DATOS_NCU_SENSOR, SQL_CREATE_IDX_DATOS_NCU_SENSOR, SQL_CREATE_DATOS_HSU, SQL_CREATE_IDX_DATOS_HSU, SQL_CREATE_DATOS_TCU, SQL_CREATE_IDX_DATOS_TCU, SQL_CREATE_NCU_EVENT_LOG, SQL_CREATE_IDX_NCU_EVENT_LOG, SQL_CREATE_INGESTA_LOG];
    assert(v@ =~= create_statements_spec());
    v
}

/// The settings applied to every connection: write-ahead logging and
/// foreign-key checks.
pub const SQL_CONNECTION_PRAGMAS: &'static str = r#"
        PRAGMA journal_mode = WAL;
        PRAGMA foreign_keys = ON;
        "#;

pub const SQL_SELECT_DEVICE: &'static str =
    "SELECT id FROM dispositivos WHERE ncu_id = ? AND tipo = ? AND device_id = ?";

pub const SQL_INSERT_DEVICE: &'static str =
    "INSERT INTO dispositivos (ncu_id, tipo, device_id) VALUES (?, ?, ?)";

pub const SQL_EVENT_EXISTS: &'static str =
    "SELECT 1 FROM ncu_event_log WHERE dispositivo_id = ? AND timestamp = ? AND evento = ?";

pub const SQL_INSERT_INGESTA_LOG: &'static str = r#"
        INSERT OR REPLACE INTO ingesta_log
           (ncu_id, fichero, tipo_datos, filas_insertadas, filas_nuevas, filas_actualizadas,
            timestamp_inicio, timestamp_fin)
        VALUES (?, ?, ?, ?, ?, ?, ?, ?)
        "#;

pub const SQL_FILE_ALREADY_INGESTED: &'static str =
    "SELECT COUNT(*) FROM ingesta_log WHERE fichero = ? AND ncu_id = ?";

pub const SQL_LIST_TABLES: &'static str =
    "SELECT name FROM sqlite_master WHERE type='table' AND name NOT LIKE 'sqlite_%' ORDER BY name";

pub const SQL_INSERT_NCU: &'static str = r#"
            INSERT OR REPLACE INTO datos_ncu
               (dispositivo_id, timestamp, mqtt_online, gw1_online, gw2_online,
                ups_power_ok, ups_battery_low, stop_button, bluetooth_enabled)
            VALUES (?, ?, ?, ?, ?, ?, ?, ?, ?)
            "#;

pub const SQL_INSERT_TCU: &'static str = r#"
            INSERT OR REPLACE INTO datos_tcu
               (dispositivo_id, timestamp, main_state, backtracking, wind_from_east,
                active_security_position, angle, target_angle, soc, remaining_capacity,
                ps_voltage, ps_current, voltage, current, motor_voltage, motor_current,
                motor_current_peak, motor_state, motor_pwm, daily_motor_power_consumption,
                pcb_temp, battery_temp, alarms_1, alarms_2, hw_alarms,
                system_monitor_status, system_monitor_flags, power_section_alarms)
            VALUES (?, ?, ?, ?, ?, ?, ?, ?, ?, ?, ?, ?, ?, ?, ?, ?, ?, ?, ?, ?, ?, ?, ?, ?, ?, ?, ?, ?)
            "#;

pub const SQL_INSERT_EVENT: &'static str = r#"
            INSERT OR REPLACE INTO ncu_event_log (dispositivo_id, timestamp, evento)
            VALUES (?, ?, ?)
            "#;

/// The text before the table name in the statement that stores sensor rows.
pub const SQL_INSERT_SENSOR_HEAD: &'static str = r#"
        INSERT OR REPLACE INTO "#;

/// The text after the table name in the statement that stores sensor rows.
pub const SQL_INSERT_SENSOR_TAIL: &'static str = r#"
            (dispositivo_id, timestamp, main_battery, internal_temp,
             wind_speed, wind_direction, wind_level, snow_level, irradiance,
             wind_alarm, gusty_wind_alarm, snow_alarm, snow_sensor_com_error)
        VALUES (?, ?, ?, ?, ?, ?, ?, ?, ?, ?, ?, ?, ?)
        "#;

/// The statement that stores sensor rows in the table `tabla` (the HSU and
/// the NCU sensor tables share one layout).
pub fn sensor_insert_sql(tabla: &str) -> (r: String)
    ensures
        r@ == SQL_INSERT_SENSOR_HEAD@ + tabla@ + SQL_INSERT_SENSOR_TAIL@,
{
    let mut sql = String::from_str(SQL_INSERT_SENSOR_HEAD);
    sql.append(tabla);
    sql.append(SQL_INSERT_SENSOR_TAIL);
    sql
}

} // verus!
