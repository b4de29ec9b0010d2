use rkh_chk::config::{pick_timezone, uint_setting, MyConfig};
use rkh_chk::error::{IntErrorKind, MyError};

#[test]
fn uint_settings() {
    assert_eq!(uint_setting(&None, 10), Ok(10));
    assert_eq!(uint_setting(&Some("7".to_string()), 10), Ok(7));
    assert_eq!(uint_setting(&Some("".to_string()), 10), Err(IntErrorKind::Empty));
    assert_eq!(uint_setting(&Some(" 7".to_string()), 10), Err(IntErrorKind::InvalidDigit));
}

#[test]
fn timezone_choice() {
    let paris = Some("Europe/Paris".to_string());
    assert_eq!(pick_timezone(paris.clone(), Ok(paris.clone()), None, None).unwrap(), "Europe/Paris");
    let tokyo = Some("Asia/Tokyo".to_string());
    assert_eq!(pick_timezone(None, Ok(None), tokyo.clone(), Some(Ok(tokyo.clone()))).unwrap(), "Asia/Tokyo");
    let e = jiff::tz::TimeZone::get("Mars/Base").unwrap_err();
    assert_eq!(pick_timezone(None, Ok(None), Some("Mars/Base".to_string()), Some(Err(e))).unwrap(), "utc");
    assert_eq!(pick_timezone(None, Ok(None), tokyo, None).unwrap(), "utc");
    assert_eq!(pick_timezone(None, Ok(None), None, None).unwrap(), "utc");
}

#[test]
fn config_from_values() {
    let c = MyConfig::load(Some("5".to_string()), None, None, Some("Asia/Tokyo".to_string()), None)
        .unwrap();
    assert_eq!(c.max_offset, 5);
    assert_eq!(c.max_dnf_deja_vu, 2);
    assert_eq!(c.timezone, "Asia/Tokyo");
    assert_eq!(c.rust_log, "info");
    let c = MyConfig::load(None, Some("4".to_string()), None, Some("Nowhere/Atlantis".to_string()), Some("debug".to_string()))
        .unwrap();
    assert_eq!(c.max_offset, 10);
    assert_eq!(c.max_dnf_deja_vu, 4);
    assert_eq!(c.timezone, "utc");
    assert_eq!(c.rust_log, "debug");
    let c = MyConfig::load(None, None, Some("Europe/Paris".to_string()), None, None).unwrap();
    assert_eq!(c.timezone, "Europe/Paris");
    match MyConfig::load(None, None, Some("Nowhere/Atlantis".to_string()), None, None) {
        Err(MyError::DateTime(_)) => {}
        other => panic!("unexpected {:?}", other),
    }
}

#[test]
fn error_messages() {
    assert_eq!(MyError::Runtime("x".to_string()).message(), "Runtime error: x");
    assert_eq!(
        MyError::Parse(IntErrorKind::InvalidDigit).message(),
        "Parse integer error: ParseIntError { kind: InvalidDigit }"
    );
    assert_eq!(
        MyError::Command(("rpm".to_string(), "boom".to_string())).message(),
        "Command (`rpm`) failed: boom"
    );
    assert_eq!(MyError::IO("e".to_string()).message(), "I/O error: e");
    assert_eq!(MyError::Config("c".to_string()).message(), "Load config parameters error: c");
    assert_eq!(MyError::Logging("l".to_string()).message(), "Log setup failed: l");
    let e = "nope".parse::<jiff::civil::DateTime>().unwrap_err();
    let text = format!("{:?}", e);
    assert_eq!(MyError::DateTime(e).message(), format!("Date-time error: {}", text));
}


#[test]
fn config_from_lookups() {
    let mars = Some("Mars/Base".to_string());
    let c = MyConfig::new(None, None, mars.clone(), Ok(mars), None, None, None).unwrap();
    assert_eq!(c.timezone, "Mars/Base");
    let tokyo = Some("Asia/Tokyo".to_string());
    let e = jiff::tz::TimeZone::get("Asia/Tokio").unwrap_err();
    let c = MyConfig::new(None, None, None, Ok(None), Some("Asia/Tokio".to_string()), Some(Err(e)), None).unwrap();
    assert_eq!(c.timezone, "utc");
    let c = MyConfig::new(None, None, None, Ok(None), tokyo.clone(), Some(Ok(tokyo)), None).unwrap();
    assert_eq!(c.timezone, "Asia/Tokyo");
    let e = jiff::tz::TimeZone::get("Nowhere/Atlantis").unwrap_err();
    match MyConfig::new(None, None, Some("Nowhere/Atlantis".to_string()), Err(e), None, None, None) {
        Err(MyError::DateTime(_)) => {}
        other => panic!("unexpected {:?}", other),
    }
}
