use chrono::DateTime;
use hamcall::call::{analyze_callsign, check_whitelist, CallsignError};
use hamcall::clublog::{
    CallsignException, CallsignExceptions, ClubLog, Entities, Entity, InvalidOperations,
    Prefix, Prefixes, Timestamp, ZoneException, ZoneExceptions,
};
use hamcall::clublogmap::ClubLogMap;

fn ts(s: &str) -> Timestamp {
    Timestamp::from_unix_nanos(
        DateTime::parse_from_rfc3339(s)
            .unwrap()
            .timestamp_nanos_opt()
            .unwrap(),
    )
}

fn prefix(call: &str, entity: &str, adif: u16, cqz: u8) -> Prefix {
    Prefix {
        record: 0,
        call: call.to_string(),
        entity: entity.to_string(),
        adif,
        cqz: Some(cqz),
        cont: None,
        long: None,
        lat: None,
        start: None,
        end: None,
    }
}

fn exception(call: &str, entity: &str, adif: u16, start: &str, end: &str) -> CallsignException {
    CallsignException {
        record: 0,
        call: call.to_string(),
        entity: entity.to_string(),
        adif,
        cqz: None,
        cont: None,
        long: None,
        lat: None,
        start: Some(ts(start)),
        end: Some(ts(end)),
    }
}

fn zone_exception(call: &str, zone: u8, start: &str, end: &str) -> ZoneException {
    ZoneException {
        record: 0,
        call: call.to_string(),
        zone,
        start: Some(ts(start)),
        end: Some(ts(end)),
    }
}

/// The records of the reference table that the callsigns below depend on.
fn read_clublog() -> ClubLogMap {
    let midway = Entity {
        adif: 174,
        name: "MIDWAY ISLAND".to_string(),
        prefix: "KH4".to_string(),
        deleted: false,
        cqz: Some(31),
        cont: Some("OC".to_string()),
        long: Some(-177_370_000),
        lat: Some(28_200_000),
        start: None,
        end: None,
        whitelist: Some(true),
        whitelist_start: Some(ts("1945-01-01T00:00:00Z")),
        whitelist_end: None,
    };
    let clublog = ClubLog {
        date: ts("2020-01-01T00:00:00Z"),
        entities: Entities { list: vec![midway] },
        exceptions: CallsignExceptions {
            list: vec![
                exception(
                    "KB5SIW/STS50",
                    "SATELLITE, INTERNET OR REPEATER",
                    0,
                    "1992-06-25T00:00:00Z",
                    "2025-07-09T23:59:59Z",
                ),
                exception(
                    "ZY0RK",
                    "MARITIME MOBILE",
                    0,
                    "1994-08-17T00:00:00Z",
                    "1994-08-25T23:59:59Z",
                ),
                exception(
                    "KH4AB",
                    "MIDWAY ISLAND",
                    174,
                    "1980-04-05T00:00:00Z",
                    "1980-04-09T23:59:59Z",
                ),
                exception(
                    "AM70URE/8",
                    "CANARY ISLANDS",
                    29,
                    "2019-05-01T00:00:00Z",
                    "2019-05-31T23:59:59Z",
                ),
                exception(
                    "EA8VK/URE",
                    "CANARY ISLANDS",
                    29,
                    "2020-12-01T00:00:00Z",
                    "2021-12-31T23:59:59Z",
                ),
            ],
        },
        prefixes: Prefixes {
            list: vec![
                prefix("W", "UNITED STATES OF AMERICA", 291, 5),
                prefix("K", "UNITED STATES OF AMERICA", 291, 5),
                prefix("KH4", "MIDWAY ISLAND", 174, 31),
                prefix("KL", "ALASKA", 6, 1),
                prefix("9A", "CROATIA", 497, 15),
                prefix("A7", "QATAR", 376, 21),
                prefix("AM", "SPAIN", 281, 14),
                prefix("EA8", "CANARY ISLANDS", 29, 33),
                prefix("LM", "NORWAY", 266, 14),
                prefix("U", "EUROPEAN RUSSIA", 54, 16),
                prefix("R", "EUROPEAN RUSSIA", 54, 16),
                prefix("UA6", "EUROPEAN RUSSIA", 54, 16),
                prefix("UA9", "ASIATIC RUSSIA", 15, 17),
                prefix("UA0", "ASIATIC RUSSIA", 15, 19),
                prefix("RW0A", "ASIATIC RUSSIA", 15, 18),
                prefix("SV", "GREECE", 236, 20),
                prefix("SV9", "CRETE", 40, 20),
                prefix("SV/A", "MOUNT ATHOS", 180, 20),
                prefix("MM", "SCOTLAND", 279, 14),
                prefix("F", "FRANCE", 227, 14),
                prefix("CE", "CHILE", 112, 12),
                prefix("CE0Y", "EASTER ISLAND", 47, 12),
                prefix("LS", "ARGENTINA", 100, 13),
                prefix("VE", "CANADA", 1, 5),
                prefix("3D2", "FIJI", 176, 32),
                prefix("3D2/R", "ROTUMA ISLAND", 460, 32),
                prefix("ZY", "BRAZIL", 108, 11),
            ],
        },
        invalid_operations: InvalidOperations { list: vec![] },
        zone_exceptions: ZoneExceptions {
            list: vec![
                zone_exception("W1CBY/VE8", 1, "1993-06-01T00:00:00Z", "1993-08-31T23:59:59Z"),
                zone_exception("VE2BQB", 2, "1991-06-01T00:00:00Z", "1992-06-30T23:59:59Z"),
            ],
        },
    };
    ClubLogMap::from(clublog)
}

#[test]
fn clublog_prefix_entity_invalid() {
    let calls = vec!["X5ABC", "X5ABC/P", "X5/W1AW", "X5/W1AW/P"];

    let clublog = read_clublog();
    for call in calls.iter() {
        let res = analyze_callsign(&clublog, call, &ts("2020-01-01T00:00:00Z"));
        assert_eq!(res, Err(CallsignError::BeginWithoutPrefix));
    }
}

#[test]
fn clublog_special_appendix() {
    let calls = vec![
        ("KB5SIW/STS50", "2020-01-01T00:00:00Z"),
        ("ZY0RK", "1994-08-20T00:00:00Z"),
    ];

    let clublog = read_clublog();
    for call in calls.iter() {
        println!("Test for: {}", call.0);
        let res = analyze_callsign(&clublog, call.0, &ts(call.1)).unwrap();
        assert!(res.is_special_entity());
    }
}

#[test]
fn clublog_whitelist() {
    let params = vec![
        ("KH4AB", "1980-04-07T00:00:00Z", true),
        ("KH4AB", "1981-01-01T00:00:00Z", false),
    ];

    let clublog = read_clublog();
    for param in params.iter() {
        println!("Test for: {}", param.0);
        let timestamp = ts(param.1);
        let call = analyze_callsign(&clublog, param.0, &timestamp).unwrap();
        let res = check_whitelist(&clublog, &call, &timestamp);
        assert_eq!(param.2, res);
    }
}

#[test]
fn special_appendix_am() {
    let calls = vec!["W1AW/AM", "W1AM/P/AM", "W1AW/AM/P", "W1AW/P/AM/7"];

    let clublog = read_clublog();
    for call in calls.iter() {
        let res = analyze_callsign(&clublog, call, &ts("2020-01-01T00:00:00Z")).unwrap();
        assert!(res.is_special_entity());
    }
}

#[test]
fn special_appendix_mm() {
    let calls = vec!["W1AW/MM", "W1AM/P/MM", "W1AW/MM/P", "W1AW/P/MM/7"];

    let clublog = read_clublog();
    for call in calls.iter() {
        let res = analyze_callsign(&clublog, call, &ts("2020-01-01T00:00:00Z")).unwrap();
        assert!(res.is_special_entity());
    }
}

#[test]
fn special_appendix_sat() {
    let calls = vec!["W1AW/SAT", "W1AM/P/SAT", "W1AW/SAT/P", "W1AW/P/SAT/7"];

    let clublog = read_clublog();
    for call in calls.iter() {
        let res = analyze_callsign(&clublog, call, &ts("2020-01-01T00:00:00Z")).unwrap();
        assert!(res.is_special_entity());
    }
}

#[test]
fn special_entity_prefix() {
    let calls = vec![
        ("SV1ABC/A", "2020-01-01T00:00:00Z", 180),
        ("SV2/W1AW/A", "2020-01-01T00:00:00Z", 180),
        ("3D2ABC/R", "2020-01-01T00:00:00Z", 460),
        ("3D2/W1ABC/R", "2020-01-01T00:00:00Z", 460),
    ];

    let clublog = read_clublog();
    for call in calls.iter() {
        let res = analyze_callsign(&clublog, call.0, &ts(call.1)).unwrap();
        assert_eq!(res.adif, call.2);
    }
}

#[test]
fn cqzone_exception() {
    let calls = vec![
        ("W1CBY/VE8", "1993-07-01T00:00:00Z", 1),
        ("VE2BQB", "1992-01-01T00:00:00Z", 2),
    ];

    let clublog = read_clublog();
    for call in calls.iter() {
        let res = analyze_callsign(&clublog, call.0, &ts(call.1)).unwrap();
        assert_eq!(res.cqzone.unwrap(), call.2);
    }
}

#[test]
fn call_exceptions() {
    let calls = vec![
        ("AM70URE/8", "2019-05-01T00:00:00Z", 29),
        ("EA8VK/URE", "2021-01-01T00:00:00Z", 29),
    ];

    let clublog = read_clublog();
    for call in calls.iter() {
        let res = analyze_callsign(&clublog, call.0, &ts(call.1)).unwrap();
        assert_eq!(res.adif, call.2);
    }
}

#[test]
fn genuine_calls() {
    let calls = vec![
        ("W1ABC", 291),
        ("9A1ABC", 497),
        ("A71AB", 376),
        ("LM2T70Y", 266),
        ("UA9ABC", 15),
        ("U1ABC", 54),
        ("SV0ABC/9", 40),
        ("UA0JL/6", 54),
        ("MM/W1AW", 279),
        ("F/W1AW", 227),
        ("CE0Y/W1ABC", 47),
        ("W1ABC/CE0Y", 47),
        ("RW0A", 15),
        ("LS4AA/F", 227),
        ("VE3LYC/KL7", 6),
    ];

    let clublog = read_clublog();
    for call in calls.iter() {
        println!("Test for: {}", call.0);
        let res = analyze_callsign(&clublog, call.0, &ts("2020-01-01T00:00:00Z")).unwrap();
        assert_eq!(res.adif, call.1);
    }
}
