use device_faker::error::CompanionError;
use device_faker::protocol::{
    apply_response, companion_result, frame, plain_response, request_length, response_length,
    spoof_system_props_via_companion, sync_log_level, unreadable_response, write_log_lines,
    CompanionRequest, CompanionResponse, LogLevel, WriteLogRequest,
};
use device_faker::string_map::PropertyMap;

#[test]
fn frames_carry_the_length_in_little_endian() {
    let payload: Vec<u8> = (0..300).map(|i| (i % 251) as u8).collect();
    let framed = frame(&payload);
    assert_eq!(framed.len(), 304);
    assert_eq!(framed[..4], [0x2c, 0x01, 0, 0]);
    assert_eq!(framed[4..], payload[..]);
    let header = [framed[0], framed[1], framed[2], framed[3]];
    assert_eq!(response_length(&header), 300);
    assert_eq!(request_length(&header).unwrap(), 300);
    assert_eq!(frame(&Vec::new()), vec![0, 0, 0, 0]);
    assert_eq!(response_length(&[0xff, 0xff, 0xff, 0xff]), 0xffff_ffff);
}

#[test]
fn a_request_is_never_empty() {
    let e = request_length(&[0, 0, 0, 0]).unwrap_err();
    assert!(matches!(e, CompanionError::EmptyRequest));
    assert_eq!(e.message(), "empty request payload");
    assert_eq!(response_length(&[0, 0, 0, 0]), 0);
}

#[test]
fn answers() {
    let ok = CompanionResponse::ok();
    assert_eq!(ok.status, 0);
    assert_eq!(ok.message, None);
    assert!(ok.backups.is_none());
    let err = CompanionResponse::err("broken".to_string());
    assert_eq!(err.status, -1);
    assert_eq!(err.message, Some("broken".to_string()));
    assert!(err.backups.is_none());
    let mut backups = PropertyMap::new();
    backups.set("a", "1");
    let with = CompanionResponse::ok_with_backups(backups);
    assert_eq!(with.status, 0);
    assert_eq!(with.message, None);
    assert_eq!(with.backups.unwrap().value_of("a"), Some(&"1".to_string()));
    let unreadable = unreadable_response();
    assert_eq!(unreadable.status, -1);
    assert_eq!(unreadable.message, Some("invalid request".to_string()));
}

#[test]
fn results_become_answers() {
    let mut backups = PropertyMap::new();
    backups.set("k", "v");
    let r = apply_response(Ok(backups));
    assert_eq!(r.status, 0);
    assert_eq!(r.backups.unwrap().len(), 1);
    let r = apply_response(Err(CompanionError::DpiOutOfRange(700)));
    assert_eq!(r.status, -1);
    assert_eq!(
        r.message,
        Some("DPI 700 is outside the supported range 120..=640".to_string())
    );
    assert!(r.backups.is_none());
    assert_eq!(plain_response(Ok(())).status, 0);
    let r = plain_response(Err(CompanionError::Outside("disk full".to_string())));
    assert_eq!(r.status, -1);
    assert_eq!(r.message, Some("disk full".to_string()));
}

#[test]
fn answers_become_results() {
    assert_eq!(companion_result(CompanionResponse::ok()), Ok(()));
    assert_eq!(
        companion_result(CompanionResponse::err("no".to_string())),
        Err("no".to_string())
    );
    let silent = CompanionResponse { status: 7, message: None, backups: None };
    assert_eq!(companion_result(silent), Err("companion resetprop failed".to_string()));
    // A status of 0 is a success whatever else the answer holds.
    let odd = CompanionResponse { status: 0, message: Some("x".to_string()), backups: None };
    assert_eq!(companion_result(odd), Ok(()));
}

#[test]
fn nothing_is_asked_for_nothing() {
    let none = PropertyMap::new();
    assert!(spoof_system_props_via_companion(1, &none, &Vec::new(), "p", None, true).is_none());
    let mut props = PropertyMap::new();
    props.set("ro.x", "1");
    let deletes = vec!["ro.y".to_string()];
    let request =
        spoof_system_props_via_companion(42, &props, &deletes, "com.game", Some(320), true).unwrap();
    match request {
        CompanionRequest::Apply(session) => {
            assert_eq!(session.pid, 42);
            assert_eq!(session.props.value_of("ro.x"), Some(&"1".to_string()));
            assert_eq!(session.delete_props, deletes);
            assert_eq!(session.package_name, "com.game");
            assert_eq!(session.density, Some(320));
            assert!(session.debug);
        }
        _ => panic!("not a session"),
    }
    assert!(spoof_system_props_via_companion(1, &none, &deletes, "p", None, false).is_some());
    assert!(spoof_system_props_via_companion(1, &none, &Vec::new(), "p", Some(1), false).is_some());
}

#[test]
fn log_lines_end_with_a_line_end() {
    assert_eq!(write_log_lines(&WriteLogRequest { lines: Vec::new() }), None);
    let lines = vec!["a".to_string(), "".to_string(), "b c".to_string()];
    assert_eq!(write_log_lines(&WriteLogRequest { lines }), Some("a\n\nb c\n".to_string()));
}

#[test]
fn the_log_is_all_or_nothing() {
    assert_eq!(sync_log_level(true), LogLevel::Debug);
    assert_eq!(sync_log_level(false), LogLevel::Off);
}
