use chrono::DateTime;
use hamcall::clublog::{
    CallsignException, CallsignExceptions, ClubLog, Entities, InvalidOperation,
    InvalidOperations, Prefix, Prefixes, Timestamp, ZoneException, ZoneExceptions,
};
use hamcall::clublogquery::ClubLogQuery;

fn ts(s: &str) -> Timestamp {
    Timestamp::from_unix_nanos(
        DateTime::parse_from_rfc3339(s)
            .unwrap()
            .timestamp_nanos_opt()
            .unwrap(),
    )
}

fn prefix(call: &str, adif: u16, start: Option<&str>, end: Option<&str>) -> Prefix {
    Prefix {
        record: 0,
        call: call.to_string(),
        entity: String::new(),
        adif,
        cqz: None,
        cont: None,
        long: None,
        lat: None,
        start: start.map(ts),
        end: end.map(ts),
    }
}

/// The records of the reference table that the queries below depend on.
fn read_clublog() -> ClubLog {
    ClubLog {
        date: ts("2020-01-01T00:00:00Z"),
        entities: Entities { list: vec![] },
        exceptions: CallsignExceptions {
            list: vec![CallsignException {
                record: 0,
                call: "KC6RJW".to_string(),
                entity: "BELAU".to_string(),
                adif: 22,
                cqz: Some(27),
                cont: Some("OC".to_string()),
                long: None,
                lat: None,
                start: Some(ts("2002-11-01T00:00:00Z")),
                end: Some(ts("2003-02-28T23:59:59Z")),
            }],
        },
        prefixes: Prefixes {
            list: vec![
                prefix("DA", 230, Some("1990-10-03T00:00:00Z"), None),
                prefix("Y2", 229, None, Some("1990-10-02T23:59:59Z")),
                prefix("Y2", 230, Some("1990-10-03T00:00:00Z"), None),
                prefix("DL", 230, None, None),
            ],
        },
        invalid_operations: InvalidOperations {
            list: vec![InvalidOperation {
                record: 0,
                call: "T88A".to_string(),
                start: Some(ts("1995-06-01T00:00:00Z")),
                end: Some(ts("1995-07-31T23:59:59Z")),
            }],
        },
        zone_exceptions: ZoneExceptions {
            list: vec![ZoneException {
                record: 0,
                call: "KD6WW/VY0".to_string(),
                zone: 1,
                start: Some(ts("2003-07-30T00:00:00Z")),
                end: Some(ts("2003-07-31T23:59:59Z")),
            }],
        },
    }
}

fn lookup_prefix_ok_impl(clublog: &impl ClubLogQuery) {
    let info = clublog.get_prefix("DA", &ts("2020-01-01T00:00:00Z")).unwrap();
    assert_eq!(info.adif, 230);
}

fn lookup_prefix_ok_time_impl(clublog: &impl ClubLogQuery) {
    let y1 = clublog.get_prefix("Y2", &ts("1980-01-01T00:00:00Z")).unwrap();
    let y2 = clublog.get_prefix("Y2", &ts("1995-01-01T00:00:00Z")).unwrap();
    assert_eq!(y1.adif, 229);
    assert_eq!(y2.adif, 230);
}

fn lookup_prefix_err_impl(clublog: &impl ClubLogQuery) {
    let info = clublog.get_prefix("FOO", &ts("2020-01-01T00:00:00Z"));
    assert!(info.is_none());
}

fn callsign_exception_ok_impl(clublog: &impl ClubLogQuery) {
    let call_exc = clublog.get_callsign_exception("KC6RJW", &ts("2003-01-01T00:00:00Z"));
    assert!(call_exc.is_some());
}

fn callsign_exception_err_impl(clublog: &impl ClubLogQuery) {
    let call_exc = clublog.get_callsign_exception("A1B", &ts("2001-01-01T00:00:00Z"));
    assert!(call_exc.is_none());
}

fn invalid_operation_ok_impl(clublog: &impl ClubLogQuery) {
    let invalid = clublog.is_invalid_operation("T88A", &ts("1995-07-01T00:00:00Z"));
    assert!(invalid);
}

fn invalid_operation_err_impl(clublog: &impl ClubLogQuery) {
    let invalid = clublog.is_invalid_operation("DL1FOO", &ts("2001-01-01T00:00:00Z"));
    assert!(!invalid);
}

fn zone_exception_ok_impl(clublog: &impl ClubLogQuery) {
    let exception = clublog.get_zone_exception("KD6WW/VY0", &ts("2003-07-30T12:00:00Z"));
    assert_eq!(exception, Some(1));
}

fn zone_exception_err_impl(clublog: &impl ClubLogQuery) {
    let exception = clublog.get_zone_exception("DL1FOO", &ts("2001-01-01T00:00:00Z"));
    assert!(exception.is_none());
}

#[test]
fn clublog_lookup_prefix_ok() {
    let clublog = read_clublog();
    lookup_prefix_ok_impl(&clublog);
}

#[test]
fn clublog_lookup_prefix_ok_time() {
    let clublog = read_clublog();
    lookup_prefix_ok_time_impl(&clublog);
}

#[test]
fn clublog_lookup_prefix_err() {
    let clublog = read_clublog();
    lookup_prefix_err_impl(&clublog);
}

#[test]
fn clublog_callsign_exception_ok() {
    let clublog = read_clublog();
    callsign_exception_ok_impl(&clublog);
}

#[test]
fn clublog_callsign_exception_err() {
    let clublog = read_clublog();
    callsign_exception_err_impl(&clublog);
}

#[test]
fn clublog_invalid_operation_ok() {
    let clublog = read_clublog();
    invalid_operation_ok_impl(&clublog);
}

#[test]
fn clublog_invalid_operation_err() {
    let clublog = read_clublog();
    invalid_operation_err_impl(&clublog);
}

#[test]
fn clublog_zone_exception_ok() {
    let clublog = read_clublog();
    zone_exception_ok_impl(&clublog);
}

#[test]
fn clublog_zone_exception_err() {
    let clublog = read_clublog();
    zone_exception_err_impl(&clublog);
}
