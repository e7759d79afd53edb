#[allow(dead_code)]
fn parse_uuid(s: &str) -> Option<u128> {
    uuid::Uuid::parse_str(s).ok().map(|u| u.as_u128())
}

#[allow(dead_code)]
fn uuid_hyphenated(u: u128) -> String {
    uuid::Uuid::from_u128(u).hyphenated().to_string()
}

use mdevctl::environment::{join, scan_entry, DefaultEnvironment, ScanEntry};
use mdevctl::mdev::{check_available, check_type_support, missing_parent_error, parse_instances, MDev};
use mdevctl::text::{compare_text, parse_int, push_decimal, push_signed_decimal, replace_newlines, trim, trim_trailing_nuls, Cmp, IntParse};

#[test]
fn decimal_rendering() {
    let mut s = String::new();
    push_decimal(&mut s, 0);
    push_decimal(&mut s, 1234567890);
    push_signed_decimal(&mut s, -42);
    push_signed_decimal(&mut s, i64::MIN);
    assert_eq!(s, "01234567890-42-9223372036854775808");
}

#[test]
fn integer_reading() {
    assert_eq!(parse_int("42"), IntParse::Value(42));
    assert_eq!(parse_int("+7"), IntParse::Value(7));
    assert_eq!(parse_int("-2147483648"), IntParse::Value(i32::MIN));
    assert_eq!(parse_int("2147483647"), IntParse::Value(i32::MAX));
    assert_eq!(parse_int("2147483648"), IntParse::PosOverflow);
    assert_eq!(parse_int("-2147483649"), IntParse::NegOverflow);
    assert_eq!(parse_int(""), IntParse::Empty);
    assert_eq!(parse_int("-"), IntParse::InvalidDigit);
    assert_eq!(parse_int("1x"), IntParse::InvalidDigit);
    assert_eq!(parse_int(" 1"), IntParse::InvalidDigit);
    for s in ["0", "17", "-5", "+3", "99999999999", "", "x", "-", "1 "] {
        let expected = match s.parse::<i32>() {
            Ok(v) => IntParse::Value(v),
            Err(_) => parse_int(s),
        };
        assert_eq!(parse_int(s), expected);
        assert_eq!(s.parse::<i32>().is_ok(), matches!(parse_int(s), IntParse::Value(_)));
    }
}

#[test]
fn trimming_and_replacing() {
    assert_eq!(trim("  a b \n\t"), "a b");
    assert_eq!(trim("\u{3000}x\u{85}"), "x");
    assert_eq!(trim("   "), "");
    assert_eq!(trim(""), "");
    for s in [" x ", "\n\ny", "z", "\u{2000}q\u{200a}"] {
        assert_eq!(trim(s), s.trim());
    }
    assert_eq!(trim_trailing_nuls("ab\0\0"), "ab");
    assert_eq!(trim_trailing_nuls("\0a\0"), "\0a");
    assert_eq!(replace_newlines("a\nb\n"), "a, b, ");
}

#[test]
fn text_order() {
    assert_eq!(compare_text("a", "b"), Cmp::Less);
    assert_eq!(compare_text("b", "a"), Cmp::Greater);
    assert_eq!(compare_text("ab", "a"), Cmp::Greater);
    assert_eq!(compare_text("", ""), Cmp::Equal);
    assert_eq!(compare_text("0.0.26ab", "0000:00:02.0"), Cmp::Less);
    assert_eq!(compare_text("é", "z"), Cmp::Greater);
}

#[test]
fn scanned_names() {
    let u = 0xa1a2a3a4b1b2c1c2d1d2d3d4d5d6d7d8u128;
    assert_eq!(scan_entry("a1a2a3a4-b1b2-c1c2-d1d2-d3d4d5d6d7d8", None), ScanEntry::Wanted(u));
    assert_eq!(scan_entry("A1A2A3A4-B1B2-C1C2-D1D2-D3D4D5D6D7D8", Some(u)), ScanEntry::Wanted(u));
    assert_eq!(scan_entry("a1a2a3a4b1b2c1c2d1d2d3d4d5d6d7d8", Some(1)), ScanEntry::Unwanted);
    assert_eq!(scan_entry("invalid-uuid-value", None), ScanEntry::NotDevice);
    let mut d = MDev::new(1);
    d.mdev_type = Some("t".to_string());
    d.parent = Some("p".to_string());
    assert_eq!(
        d.to_text(mdevctl::mdev::FormatType::Defined, false, true).unwrap(),
        "00000000-0000-0000-0000-000000000001 p t manual\n"
    );
    d.uuid = u;
    d.active = true;
    assert_eq!(
        d.to_text(mdevctl::mdev::FormatType::Defined, false, true).unwrap(),
        "a1a2a3a4-b1b2-c1c2-d1d2-d3d4d5d6d7d8 p t manual (active)\n"
    );
    assert!(matches!(d.to_text(mdevctl::mdev::FormatType::Defined, false, false), Err(mdevctl::error::DeviceError::NotDefined)));
    d.active = false;
    assert!(matches!(d.to_text(mdevctl::mdev::FormatType::Active, false, false), Err(mdevctl::error::DeviceError::NotActive)));
}

#[test]
fn environment_layout() {
    let env = DefaultEnvironment::new("/".to_string(), "/usr/lib/mdevctl/scripts.d".to_string());
    assert_eq!(env.mdev_base(), "/sys/bus/mdev/devices");
    assert_eq!(env.config_base(), "/etc/mdevctl.d");
    assert_eq!(env.parent_base(), "/sys/class/mdev_bus");
    assert_eq!(env.config_scripts_base(), "/etc/mdevctl.d/scripts.d");
    assert_eq!(env.callout_dirs(), vec!["/usr/lib/mdevctl/scripts.d/callouts", "/etc/mdevctl.d/scripts.d/callouts"]);
    assert_eq!(env.notification_dirs(), vec!["/usr/lib/mdevctl/scripts.d/notifiers", "/etc/mdevctl.d/scripts.d/notifiers"]);
    assert_eq!(env.required_dirs(), vec!["/etc/mdevctl.d", "/usr/lib/mdevctl/scripts.d/callouts", "/usr/lib/mdevctl/scripts.d/notifiers"]);
    let env = DefaultEnvironment::new("/tmp/root".to_string(), "/s".to_string());
    assert_eq!(env.root(), "/tmp/root");
    assert_eq!(env.scripts_base(), "/s");
    let u = parse_uuid("976d8cc2-4bfc-43b9-b9f9-f4af2de91ab9").unwrap();
    assert_eq!(MDev::new(u).path(&env), "/tmp/root/sys/bus/mdev/devices/976d8cc2-4bfc-43b9-b9f9-f4af2de91ab9");
    assert_eq!(env.parent_path("0000:00:02.0"), "/tmp/root/sys/class/mdev_bus/0000:00:02.0");
    let mut d = MDev::new(u);
    assert_eq!(d.persist_path(&env), None);
    d.parent = Some("p".to_string());
    assert_eq!(d.persist_path(&env).unwrap(), "/tmp/root/etc/mdevctl.d/p/976d8cc2-4bfc-43b9-b9f9-f4af2de91ab9");
    assert_eq!(join("a/", "b"), "a/b");
    assert_eq!(join("", "b"), "b");
    assert_eq!(join("a", "/b"), "/b");
    for (a, b) in [("/x", "y/z"), ("/x/", "y"), ("", "q"), ("r", "/abs")] {
        assert_eq!(join(a, b), std::path::Path::new(a).join(b).to_str().unwrap());
    }
}

#[test]
fn creation_checks() {
    let u = parse_uuid("976d8cc2-4bfc-43b9-b9f9-f4af2de91ab9").unwrap();
    let mut dev = MDev::new(u);
    dev.parent = Some("0000:00:03.0".to_string());
    dev.mdev_type = Some("t".to_string());
    let mut existing = MDev::new(u);
    assert!(dev.check_not_running(&existing).is_ok());
    existing.apply_sysfs("0000:00:03.0".to_string(), "t".to_string());
    assert_eq!(dev.check_not_running(&existing).unwrap_err().message(), "Device already exists");
    existing.mdev_type = Some("other".to_string());
    assert_eq!(dev.check_not_running(&existing).unwrap_err().message(), "Device exists with different type");
    existing.parent = Some("0000:00:02.0".to_string());
    assert_eq!(dev.check_not_running(&existing).unwrap_err().message(), "Device exists under different parent");

    let names = vec!["0000:00:02.0".to_string(), "0000:2B:00.0".to_string()];
    assert_eq!(missing_parent_error("0000:2b:00.0", &names).message(), "Unable to find parent device '0000:2b:00.0'. Did you mean '0000:2B:00.0'?");
    assert_eq!(missing_parent_error("missing-parent", &names).message(), "Unable to find parent device 'missing-parent'");
    assert_eq!(check_type_support("p", "t", false, true).unwrap_err().message(), "Parent p is not currently registered for mdev support");
    assert_eq!(check_type_support("p", "t", true, false).unwrap_err().message(), "Parent p does not support mdev type t");
    assert!(check_type_support("p", "t", true, true).is_ok());
    assert_eq!(check_available("p", "t", "0\n").unwrap_err().message(), "No available instances of t on p");
    assert_eq!(check_available("p", "t", " 3 ").unwrap(), 3);
    assert_eq!(check_available("p", "t", "x").unwrap_err().message(), "invalid digit found in string");
    assert_eq!(parse_instances("").unwrap_err().message(), "cannot parse integer from empty string");
    assert_eq!(parse_instances("99999999999").unwrap_err().message(), "number too large to fit in target type");
    assert_eq!(parse_instances("-1").unwrap(), -1);
}

#[test]
fn sysfs_view_of_running_device() {
    let u = parse_uuid("976d8cc2-4bfc-43b9-b9f9-f4af2de91ab9").unwrap();
    let mut d = MDev::new(u);
    assert!(d.sysfs_parent_fits("p"));
    d.mdev_type = Some("t".to_string());
    d.apply_sysfs("p".to_string(), "other".to_string());
    assert!(!d.active);
    assert_eq!(d.parent, None);
    d.apply_sysfs("p".to_string(), "t".to_string());
    assert!(d.active);
    assert_eq!(d.parent.as_deref(), Some("p"));
    assert!(!d.sysfs_parent_fits("q"));
}

#[test]
fn active_listing_line() {
    let u = parse_uuid("83c32df7-d52e-4ec1-9668-1f3c7e4df107").unwrap();
    let mut d = MDev::new(u);
    d.parent = Some("0000:00:02.0".to_string());
    d.mdev_type = Some("i915-GVTg_V4_8".to_string());
    d.autostart = true;
    d.active = true;
    assert_eq!(
        d.to_text(mdevctl::mdev::FormatType::Active, false, true).unwrap(),
        "83c32df7-d52e-4ec1-9668-1f3c7e4df107 0000:00:02.0 i915-GVTg_V4_8 (defined)\n"
    );
    assert_eq!(
        d.to_text(mdevctl::mdev::FormatType::Active, false, false).unwrap(),
        "83c32df7-d52e-4ec1-9668-1f3c7e4df107 0000:00:02.0 i915-GVTg_V4_8\n"
    );
    assert_eq!(
        d.to_text(mdevctl::mdev::FormatType::Defined, false, true).unwrap(),
        "83c32df7-d52e-4ec1-9668-1f3c7e4df107 0000:00:02.0 i915-GVTg_V4_8 auto (active)\n"
    );
}

#[test]
fn stop_needs_running_device() {
    let u = parse_uuid("976d8cc2-4bfc-43b9-b9f9-f4af2de91ab9").unwrap();
    let mut d = MDev::new(u);
    let e = d.check_running().unwrap_err();
    assert_eq!(e.message(), "Device 976d8cc2-4bfc-43b9-b9f9-f4af2de91ab9 is not an active mdev");
    d.active = true;
    assert!(d.check_running().is_ok());
}
