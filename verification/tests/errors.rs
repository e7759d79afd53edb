use mdevctl::environment::{get_active_device, get_defined_device};
use mdevctl::error::DeviceError;
use mdevctl::groups::Groups;
use mdevctl::mdev::MDev;
use mdevctl::text::IntParse;

const U: u128 = 0x976d8cc2_4bfc_43b9_b9f9_f4af2de91ab9;
const US: &str = "976d8cc2-4bfc-43b9-b9f9-f4af2de91ab9";

#[test]
fn error_texts() {
    let cases: Vec<(DeviceError, String)> = vec![
        (DeviceError::NotDefined, "Device is not defined".to_string()),
        (DeviceError::NotActive, "Device is not active".to_string()),
        (DeviceError::ParseInt(IntParse::NegOverflow), "number too small to fit in target type".to_string()),
        (DeviceError::ExistsUnderOtherParent, "Device exists under different parent".to_string()),
        (DeviceError::MissingDirectory { path: "\"/etc/mdevctl.d\"".to_string() },
            "Required directory \"/etc/mdevctl.d\" doesn't exist. This may indicate a packaging or installation error".to_string()),
        (DeviceError::MultipleParents { uuid: U }, format!("Multiple parents found for {US}. System error?")),
        (DeviceError::MultipleDefinitions { parent: "p".to_string(), uuid: U }, format!("Multiple definitions found for p/{US}")),
        (DeviceError::MultipleDefinitionsNoParent { uuid: U }, format!("Multiple definitions found for {US}, specify a parent")),
        (DeviceError::LiveNeedsJsonFile, "'live' option must be used with 'jsonfile' option".to_string()),
        (DeviceError::LiveUpdateUnsupported, "Live update of a running device is not supported".to_string()),
        (DeviceError::External { message: "disk on fire".to_string() }, "disk on fire".to_string()),
        (DeviceError::UnknownError, "Unknown error".to_string()),
        (DeviceError::FailedToGetDevice, "Failed to get device".to_string()),
        (DeviceError::NoMatchingDevices, "No devices match the specified uuid".to_string()),
        (DeviceError::DeviceNotActive { uuid: U, given_parent: Some("p".to_string()) }, format!("Mediated device p/{US} is not active")),
        (DeviceError::ScriptFailed { script: "\"/x.sh\"".to_string(), code: Some(2) }, "Script '\"/x.sh\"' failed with status '2'".to_string()),
        (DeviceError::InvalidAttributeIndex { index: 12, hint: "h".to_string() }, "Attribute index 12 is invalid\nh".to_string()),
    ];
    for (e, text) in cases {
        assert_eq!(e.message(), text);
    }
}

fn dev(u: u128) -> MDev {
    MDev::new(u)
}

#[test]
fn defined_device_selection() {
    let p = "0000:00:03.0".to_string();
    let mut g = Groups::new();
    g.push(p.clone(), dev(U));
    g.push(p.clone(), dev(U));
    assert_eq!(get_defined_device(g, U, Some(&p)).unwrap_err().message(), format!("Multiple definitions found for 0000:00:03.0/{US}"));
    let mut g = Groups::new();
    g.push("a".to_string(), dev(U));
    g.push("b".to_string(), dev(U));
    assert_eq!(get_defined_device(g, U, Some(&p)).unwrap_err().message(), format!("Multiple definitions found for 0000:00:03.0/{US}"));
    let mut g = Groups::new();
    g.push("a".to_string(), dev(U));
    g.push("a".to_string(), dev(U));
    assert_eq!(get_active_device(g, U, None).unwrap_err().message(), format!("Multiple definitions found for a/{US}"));
    let mut g = Groups::new();
    g.push("a".to_string(), dev(U));
    assert_eq!(get_defined_device(g, U, None).unwrap().uuid, U);
}

#[test]
fn groups_stay_in_key_order() {
    let mut g: Groups<u32> = Groups::new();
    g.push("b".to_string(), 1);
    g.push("a".to_string(), 2);
    g.push("c".to_string(), 3);
    g.push("b".to_string(), 4);
    g.set("a".to_string(), vec![9, 8]);
    let keys: Vec<(String, Vec<u32>)> = g.entries().clone();
    assert_eq!(keys, vec![("a".to_string(), vec![9, 8]), ("b".to_string(), vec![1, 4]), ("c".to_string(), vec![3])]);
    assert!(g.more_than_one());
    assert_eq!(g.len(), 3);
    let mut single: Groups<u32> = Groups::new();
    assert!(!single.more_than_one());
    single.push("x".to_string(), 1);
    assert!(!single.more_than_one());
}
