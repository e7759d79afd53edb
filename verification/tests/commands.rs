#[allow(dead_code)]
fn parse_uuid(s: &str) -> Option<u128> {
    uuid::Uuid::parse_str(s).ok().map(|u| u.as_u128())
}

#[allow(dead_code)]
fn uuid_hyphenated(u: u128) -> String {
    uuid::Uuid::from_u128(u).hyphenated().to_string()
}

use mdevctl::commands::{
    already_defined, autostart_devices, check_live_change, check_live_defined, define_from_args, define_json_checks,
    device_uuid, live_json_parent, modify_attributes, modify_defined, modify_live_checks, refuse_overwrite,
    start_from_args, start_json_checks, undefine_outcome, undefine_targets,
};
use mdevctl::environment::{get_active_device, get_defined_device, group_defined_devices, DefaultEnvironment};
use mdevctl::error::DeviceError;
use mdevctl::groups::Groups;
use mdevctl::mdev::{parse_config, MDev};

const UUID: &str = "976d8cc2-4bfc-43b9-b9f9-f4af2de91ab9";
const PARENT: &str = "0000:00:03.0";
const PARENT2: &str = "0000:00:02.0";
const DEFINED_JSON: &str = r#"{"mdev_type": "i915-GVTg_V5_4", "start": "manual",
    "attrs": [{"attr0": "value0"}, {"attr1": "value1"}, {"attr2": "value2"}, {"attr3": "value3"}]}"#;

fn uuid(s: &str) -> u128 {
    parse_uuid(s).unwrap()
}

/// Stored definitions: (parent, uuid, contents), scanned as mdevctl scans its config directory.
fn defined_devices(store: &[(&str, &str, &str)], u: Option<u128>, parent: Option<&String>) -> Groups<MDev> {
    let mut parents: Vec<&str> = store.iter().map(|(p, _, _)| *p).collect();
    parents.sort();
    parents.dedup();
    let mut scan = Vec::new();
    for pname in parents {
        let mut children = Vec::new();
        for (p, us, text) in store {
            if *p != pname {
                continue;
            }
            let mut dev = MDev::new(uuid(us));
            dev.load_from_json(p.to_string(), &parse_config(text).unwrap()).unwrap();
            children.push((dev.clone(), dev));
        }
        scan.push((pname.to_string(), children));
    }
    group_defined_devices(scan, u, parent)
}

fn modify(
    store: &[(&str, &str, &str)], parent: Option<&str>, mdev_type: Option<&str>, addattr: Option<&str>, delattr: bool,
    index: Option<u32>, value: Option<&str>, auto: bool, manual: bool,
) -> Result<String, DeviceError> {
    let u = uuid(UUID);
    let parent = parent.map(|p| p.to_string());
    let found = defined_devices(store, Some(u), parent.as_ref());
    let dev = get_defined_device(found, u, parent.as_ref())?;
    let dev = modify_defined(dev, mdev_type.map(|t| t.to_string()), auto, manual)?;
    let dev = modify_attributes(dev, addattr.map(|a| a.to_string()), delattr, index, value.map(|v| v.to_string()))?;
    dev.config_text()
}

fn config(t: &str, start: &str, attrs: &[(&str, &str)]) -> String {
    let mut a = String::new();
    if attrs.is_empty() {
        a.push_str("[]");
    } else {
        a.push_str("[\n");
        for (i, (k, v)) in attrs.iter().enumerate() {
            a.push_str(&format!("    {{\n      \"{k}\": \"{v}\"\n    }}"));
            if i + 1 < attrs.len() {
                a.push(',');
            }
            a.push('\n');
        }
        a.push_str("  ]");
    }
    format!("{{\n  \"attrs\": {a},\n  \"mdev_type\": \"{t}\",\n  \"start\": \"{start}\"\n}}")
}

const A0: (&str, &str) = ("attr0", "value0");
const A1: (&str, &str) = ("attr1", "value1");
const A2: (&str, &str) = ("attr2", "value2");
const A3: (&str, &str) = ("attr3", "value3");
const ADDED: (&str, &str) = ("added-attr", "added-attr-value");

#[test]
fn tests_test_modify() {
    let one = [(PARENT, UUID, DEFINED_JSON)];
    let two = [(PARENT, UUID, DEFINED_JSON), (PARENT2, UUID, DEFINED_JSON)];
    let t = "i915-GVTg_V5_4";
    // device-not-defined
    assert!(modify(&[], None, None, None, false, None, None, false, false).is_err());
    // auto
    assert_eq!(modify(&one, Some(PARENT), None, None, false, None, None, true, false).unwrap(), config(t, "auto", &[A0, A1, A2, A3]));
    // manual
    assert_eq!(modify(&one, Some(PARENT), None, None, false, None, None, false, true).unwrap(), config(t, "manual", &[A0, A1, A2, A3]));
    // delattr
    assert_eq!(modify(&one, Some(PARENT), None, None, true, Some(2), None, false, false).unwrap(), config(t, "manual", &[A0, A1, A3]));
    // delattr-noindex
    assert_eq!(modify(&one, Some(PARENT), None, None, true, None, None, false, false).unwrap(), config(t, "manual", &[A0, A1, A2]));
    // addattr
    assert_eq!(
        modify(&one, Some(PARENT), None, Some("added-attr"), false, Some(3), Some("added-attr-value"), false, false).unwrap(),
        config(t, "manual", &[A0, A1, A2, ADDED, A3])
    );
    // addattr-noindex
    assert_eq!(
        modify(&one, Some(PARENT), None, Some("added-attr"), false, None, Some("added-attr-value"), false, false).unwrap(),
        config(t, "manual", &[A0, A1, A2, A3, ADDED])
    );
    // mdev_type
    assert_eq!(
        modify(&one, Some(PARENT), Some("changed-mdev-type"), None, false, None, None, false, false).unwrap(),
        config("changed-mdev-type", "manual", &[A0, A1, A2, A3])
    );
    // multiple-noparent
    let e = modify(&two, None, None, None, false, None, None, true, false).unwrap_err();
    assert_eq!(e.message(), format!("Multiple definitions found for {}, specify a parent", UUID));
    // multiple-parent
    assert_eq!(modify(&two, Some(PARENT), None, None, false, None, None, true, false).unwrap(), config(t, "auto", &[A0, A1, A2, A3]));
    // auto-manual
    assert!(modify(&[], Some(PARENT), None, None, false, None, None, true, true).is_err());
}

#[test]
fn modify_errors() {
    let one = [(PARENT, UUID, DEFINED_JSON)];
    let e = modify(&one, Some(PARENT), None, None, false, None, None, true, true).unwrap_err();
    assert_eq!(e.message(), "'auto' and 'manual' are mutually exclusive");
    let e = modify(&one, Some(PARENT), None, Some("a"), false, None, None, false, false).unwrap_err();
    assert_eq!(e.message(), "No attribute value provided");
    let e = modify(&one, Some(PARENT), None, None, true, Some(4), None, false, false).unwrap_err();
    assert_eq!(
        e.message(),
        "Attribute index 4 is invalid\n  Attrs:\n    @{0}: {\"attr0\":\"value0\"}\n    @{1}: {\"attr1\":\"value1\"}\n    @{2}: {\"attr2\":\"value2\"}\n    @{3}: {\"attr3\":\"value3\"}\n"
    );
    let e = modify(&one, Some(PARENT), None, Some("a"), false, Some(5), Some("v"), false, false).unwrap_err();
    assert!(matches!(e, DeviceError::InvalidAttributeIndex { index: 5, .. }));
    let e = modify(&[], Some(PARENT), None, None, false, None, None, true, false).unwrap_err();
    assert_eq!(e.message(), format!("Mediated device {}/{} is not defined", PARENT, UUID));
    let e = modify(&[], None, None, None, false, None, None, true, false).unwrap_err();
    assert_eq!(e.message(), format!("Mediated device {} is not defined", UUID));
}

#[test]
fn attribute_edit_is_undone_by_delete() {
    let mut d = MDev::new(uuid(UUID));
    d.attrs.push(("a".to_string(), "1".to_string()));
    d.attrs.push(("b".to_string(), "2".to_string()));
    let before = d.attrs.clone();
    d.add_attribute("x".to_string(), "y".to_string(), Some(1)).unwrap();
    assert_eq!(d.attrs[1], ("x".to_string(), "y".to_string()));
    d.delete_attribute(Some(1)).unwrap();
    assert_eq!(d.attrs, before);
    d.add_attribute("x".to_string(), "y".to_string(), None).unwrap();
    d.delete_attribute(None).unwrap();
    assert_eq!(d.attrs, before);
    let mut empty = MDev::new(uuid(UUID));
    empty.delete_attribute(None).unwrap();
    let e = empty.delete_attribute(Some(0)).unwrap_err();
    assert_eq!(e.message(), format!("Attribute index 0 is invalid\nDevice {} has no attributes", UUID));
}

fn undefine(store: &[(&str, &str, &str)], parent: Option<&str>) -> Result<Vec<(String, String)>, DeviceError> {
    let u = uuid(UUID);
    let parent = parent.map(|p| p.to_string());
    let found = defined_devices(store, Some(u), parent.as_ref());
    let targets = undefine_targets(found)?;
    let env = DefaultEnvironment::new("/".to_string(), "/usr/lib/mdevctl/scripts.d".to_string());
    let mut removed = Vec::new();
    for t in &targets {
        removed.push((t.parent.clone().unwrap(), t.undefine_path(&env)?));
    }
    undefine_outcome(false)?;
    Ok(removed)
}

#[test]
fn tests_test_undefine() {
    let path = |p: &str| format!("/etc/mdevctl.d/{}/{}", p, UUID);
    // single
    assert_eq!(undefine(&[(PARENT, UUID, DEFINED_JSON)], Some(PARENT)).unwrap(), vec![(PARENT.to_string(), path(PARENT))]);
    // multiple devices with the same uuid: the one with the matching parent is undefined
    assert_eq!(
        undefine(&[(PARENT, UUID, DEFINED_JSON), (PARENT2, UUID, DEFINED_JSON)], Some(PARENT)).unwrap(),
        vec![(PARENT.to_string(), path(PARENT))]
    );
    // multiple devices with the same uuid and no parent: all are undefined
    assert_eq!(
        undefine(&[(PARENT, UUID, DEFINED_JSON), (PARENT2, UUID, DEFINED_JSON)], None).unwrap(),
        vec![(PARENT2.to_string(), path(PARENT2)), (PARENT.to_string(), path(PARENT))]
    );
    // nonexistent
    let e = undefine(&[], Some(PARENT)).unwrap_err();
    assert_eq!(e.message(), "No devices match the specified uuid");
}

#[test]
fn undefine_reports_failures() {
    assert_eq!(undefine_outcome(true).unwrap_err().message(), "Undefine failed");
    let env = DefaultEnvironment::new("/".to_string(), "/s".to_string());
    let d = MDev::new(uuid(UUID));
    assert_eq!(d.undefine_path(&env).unwrap_err().message(), format!("Failed to undefine {}", UUID));
}

/// The `define` command's decisions, with the running device (parent, type) and the existing
/// definitions of the system given.
fn define(
    running: Option<(&str, &str)>, defined: &[(&str, &str, &str)], u: Option<&str>, auto: bool, parent: Option<&str>,
    mdev_type: Option<&str>, jsonfile: Option<(&str, &str)>,
) -> Result<MDev, DeviceError> {
    let uuid_provided = u.is_some();
    let u = device_uuid(u.map(uuid));
    let parent = parent.map(|p| p.to_string());
    let mdev_type = mdev_type.map(|t| t.to_string());
    let mut dev = MDev::new(u);
    if let Some((path, contents)) = jsonfile {
        let parent = define_json_checks(path, parent, &mdev_type)?;
        refuse_overwrite(&defined_devices(defined, Some(u), Some(&parent)), &parent, u)?;
        dev.load_from_json(parent, &parse_config(contents)?)?;
        return Ok(dev);
    }
    if uuid_provided {
        if let Some((p, t)) = running {
            if dev.sysfs_parent_fits(p) {
                dev.apply_sysfs(p.to_string(), t.to_string());
            }
        }
    }
    let dev = define_from_args(dev, uuid_provided, auto, parent, mdev_type)?;
    let p = dev.parent.clone().unwrap();
    if defined.iter().any(|(dp, du, _)| *dp == p && uuid(du) == dev.uuid) {
        return Err(already_defined(&dev));
    }
    Ok(dev)
}

#[test]
fn tests_test_define() {
    let t = Some("i915-GVTg_V5_4");
    // no-uuid-no-type
    assert!(define(None, &[], None, true, Some(PARENT), None, None).is_err());
    // no-uuid: one is generated
    let d = define(None, &[], None, true, Some(PARENT), t, None).unwrap();
    assert_eq!(d.config_text().unwrap(), config("i915-GVTg_V5_4", "auto", &[]));
    assert_eq!(uuid_hyphenated(d.uuid).chars().nth(14), Some('4'));
    // uuid-auto
    let d = define(None, &[], Some(UUID), true, Some(PARENT), t, None).unwrap();
    assert_eq!(d.config_text().unwrap(), config("i915-GVTg_V5_4", "auto", &[]));
    // uuid-manual
    let d = define(None, &[], Some(UUID), false, Some(PARENT), t, None).unwrap();
    assert_eq!(d.config_text().unwrap(), config("i915-GVTg_V5_4", "manual", &[]));
    // jsonfile-type
    let e = define(None, &[], Some(UUID), false, Some(PARENT), t, Some(("defined.json", DEFINED_JSON))).unwrap_err();
    assert_eq!(e.message(), "Device type cannot be specified separately from \"defined.json\"");
    // jsonfile
    let d = define(None, &[], Some(UUID), false, Some(PARENT), None, Some(("defined.json", DEFINED_JSON))).unwrap();
    assert_eq!(d.config_text().unwrap(), config("i915-GVTg_V5_4", "manual", &[A0, A1, A2, A3]));
    // uuid-running-no-parent
    let e = define(Some((PARENT, "i915-GVTg_V5_4")), &[], Some(UUID), false, None, t, None).unwrap_err();
    assert_eq!(e.message(), "No parent specified");
    // uuid-running-no-type: the running device's type is used
    let d = define(Some((PARENT, "i915-GVTg_V5_4")), &[], Some(UUID), false, Some(PARENT), None, None).unwrap();
    assert_eq!(d.config_text().unwrap(), config("i915-GVTg_V5_4", "manual", &[]));
    // uuid-running-diff-parent
    let d = define(Some((PARENT2, "i915-GVTg_V5_4")), &[], Some(UUID), false, Some(PARENT), t, None).unwrap();
    assert_eq!(d.parent.as_deref(), Some(PARENT));
    assert_eq!(d.config_text().unwrap(), config("i915-GVTg_V5_4", "manual", &[]));
    // uuid-running-diff-type
    let d = define(Some((PARENT, "different_type")), &[], Some(UUID), false, Some(PARENT), t, None).unwrap();
    assert_eq!(d.config_text().unwrap(), config("i915-GVTg_V5_4", "manual", &[]));
    // uuid-already-defined
    let e = define(None, &[(PARENT, UUID, DEFINED_JSON)], Some(UUID), false, Some(PARENT), t, None).unwrap_err();
    assert_eq!(e.message(), format!("Device {} on {} already defined", UUID, PARENT));
}

#[test]
fn define_from_json_refuses_overwrite() {
    let e = define(None, &[(PARENT, UUID, DEFINED_JSON)], Some(UUID), false, Some(PARENT), None, Some(("f.json", DEFINED_JSON)))
        .unwrap_err();
    assert_eq!(e.message(), format!("Cowardly refusing to overwrite existing config for {}/{}", PARENT, UUID));
    let e = define(None, &[], Some(UUID), false, None, None, Some(("f.json", DEFINED_JSON))).unwrap_err();
    assert_eq!(e.message(), "Parent device required to define device via \"f.json\"");
    let e = define(None, &[], None, false, Some(PARENT), None, None).unwrap_err();
    assert_eq!(e.message(), "No type specified");
}

/// The `start` command's decisions, for starting without a JSON file.
fn start(defined: &[(&str, &str, &str)], u: Option<&str>, parent: Option<&str>, mdev_type: Option<&str>) -> Result<MDev, DeviceError> {
    let u = u.map(uuid);
    let parent = parent.map(|p| p.to_string());
    let found = match u {
        Some(_) => defined_devices(defined, u, parent.as_ref()),
        None => Groups::new(),
    };
    start_from_args(u, parent, mdev_type.map(|t| t.to_string()), found)
}

#[test]
fn tests_test_start() {
    let ty = "arbitrary_type";
    let def_json = r#"{"mdev_type": "arbitrary_type", "start": "manual", "attrs": []}"#;
    // uuid-type-parent
    let d = start(&[], Some(UUID), Some(PARENT), Some(ty)).unwrap();
    assert_eq!((uuid_hyphenated(d.uuid), d.parent.unwrap(), d.mdev_type.unwrap()), (UUID.to_string(), PARENT.to_string(), ty.to_string()));
    // no-uuid
    let d = start(&[], None, Some(PARENT), Some(ty)).unwrap();
    assert_eq!(d.parent.as_deref(), Some(PARENT));
    // no-uuid-no-parent
    assert_eq!(start(&[], None, None, Some(ty)).unwrap_err().message(), "can't provide type without parent");
    // no-uuid-no-type
    assert_eq!(start(&[], None, Some(PARENT), None).unwrap_err().message(), "Device is insufficiently specified");
    // no-parent
    assert!(start(&[], Some(UUID), None, Some(ty)).is_err());
    // no-type
    assert!(start(&[], Some(UUID), Some(PARENT), None).is_err());
    // no-type-defined: the definition supplies the type
    let d = start(&[(PARENT, UUID, def_json)], Some(UUID), Some(PARENT), None).unwrap();
    assert_eq!(d.mdev_type.as_deref(), Some(ty));
    // no-type-parent-defined
    let d = start(&[(PARENT, UUID, def_json)], Some(UUID), None, None).unwrap();
    assert_eq!(d.parent.as_deref(), Some(PARENT));
    // defined-with-type
    assert!(start(&[(PARENT, UUID, def_json)], Some(UUID), None, Some(ty)).is_ok());
    // defined-multiple-underspecified
    let e = start(&[(PARENT, UUID, def_json), (PARENT2, UUID, def_json)], Some(UUID), None, None).unwrap_err();
    assert_eq!(e.message(), format!("Multiple definitions found for device {}. Please specify a parent.", UUID));
    // defined-multiple
    let d = start(&[(PARENT, UUID, def_json), (PARENT2, UUID, def_json)], Some(UUID), Some(PARENT), None).unwrap();
    assert_eq!(d.parent.as_deref(), Some(PARENT));
    // defined-diff-type
    let e = start(&[(PARENT, UUID, def_json)], Some(UUID), None, Some("wrong-type")).unwrap_err();
    assert_eq!(e.message(), format!("Device {} already exists on parent {} with type {}", UUID, PARENT, ty));
}

#[test]
fn start_json_options() {
    assert_eq!(start_json_checks(None, &Some("t".to_string())).unwrap_err().message(), "Device type cannot be specified separately from json file");
    assert_eq!(start_json_checks(None, &None).unwrap_err().message(), "Parent device required to start device via json file");
    assert_eq!(start_json_checks(Some("p".to_string()), &None).unwrap(), "p");
}

#[test]
fn live_modify_checks() {
    assert_eq!(modify_live_checks(&Some("t".to_string()), false, false).unwrap_err().message(), "'type' cannot be changed on active mdev");
    assert_eq!(modify_live_checks(&None, true, false).unwrap_err().message(), "'auto' cannot be changed on active mdev");
    assert_eq!(modify_live_checks(&None, false, true).unwrap_err().message(), "'manual' cannot be changed on active mdev");
    assert!(modify_live_checks(&None, false, false).is_ok());
    let mut act = MDev::new(uuid(UUID));
    assert_eq!(live_json_parent(&act).unwrap_err().message(), "Parent device required to modify device via json file");
    act.parent = Some(PARENT.to_string());
    act.mdev_type = Some("t".to_string());
    let mut changed = MDev::new(uuid(UUID));
    changed.parent = Some(PARENT.to_string());
    changed.mdev_type = Some("u".to_string());
    assert_eq!(check_live_change(&act, &changed).unwrap_err().message(), "'type' cannot be changed on active mdev");
    changed.mdev_type = Some("t".to_string());
    assert!(check_live_change(&act, &changed).is_ok());
    changed.parent = Some(PARENT2.to_string());
    assert_eq!(check_live_change(&act, &changed).unwrap_err().message(), "'parent' cannot be changed on active mdev");
    let mut def = MDev::new(uuid(UUID));
    def.mdev_type = Some("x".to_string());
    assert_eq!(check_live_defined(&def, &act).unwrap_err().message(), "'type' of active and defined mdev does not match");
}

#[test]
fn active_device_selection() {
    let u = uuid(UUID);
    let e = get_active_device(Groups::new(), u, None).unwrap_err();
    assert_eq!(e.message(), format!("Mediated device {} is not active", UUID));
    let p = PARENT.to_string();
    let e = get_active_device(Groups::new(), u, Some(&p)).unwrap_err();
    assert_eq!(e.message(), format!("Mediated device {}/{} is not active", PARENT, UUID));
    let mut g = Groups::new();
    g.push(PARENT.to_string(), MDev::new(u));
    g.push(PARENT2.to_string(), MDev::new(u));
    assert_eq!(get_active_device(g, u, None).unwrap_err().message(), format!("Multiple parents found for {}. System error?", UUID));
    let mut g = Groups::new();
    g.push(PARENT.to_string(), MDev::new(u));
    assert_eq!(get_active_device(g, u, None).unwrap().uuid, u);
}

#[test]
fn autostart_selection() {
    let store = [
        (PARENT, UUID, r#"{"mdev_type": "t", "start": "auto"}"#),
        (PARENT, "59e8b599-afdd-4766-a59e-415ef4f5a492", r#"{"mdev_type": "t", "start": "manual"}"#),
    ];
    let p = PARENT.to_string();
    let v = autostart_devices(defined_devices(&store, None, Some(&p))).unwrap();
    assert_eq!(v.len(), 1);
    assert_eq!(v[0].uuid, uuid(UUID));
    assert!(autostart_devices(Groups::new()).unwrap().is_empty());
    let mut g = Groups::new();
    g.push("a".to_string(), MDev::new(1));
    g.push("b".to_string(), MDev::new(2));
    assert_eq!(autostart_devices(g).unwrap_err().message(), "More than one parent found");
}

#[test]
fn undefine_then_scan_finds_none() {
    let store = [(PARENT, UUID, DEFINED_JSON), (PARENT2, UUID, DEFINED_JSON)];
    // with a parent: only its definition goes, the other parent's stays
    let found = defined_devices(&store, Some(uuid(UUID)), Some(&PARENT.to_string()));
    let gone: Vec<(String, u128)> = undefine_targets(found)
        .unwrap()
        .into_iter()
        .map(|d| (d.parent.clone().unwrap(), d.uuid))
        .collect();
    let left: Vec<(&str, &str, &str)> =
        store.iter().copied().filter(|(p, u, _)| !gone.contains(&(p.to_string(), uuid(u)))).collect();
    assert_eq!(left, vec![(PARENT2, UUID, DEFINED_JSON)]);
    assert_eq!(defined_devices(&left, Some(uuid(UUID)), Some(&PARENT.to_string())).len(), 0);
    // without a parent: every definition of the UUID goes
    let found = defined_devices(&store, Some(uuid(UUID)), None);
    let gone: Vec<(String, u128)> = undefine_targets(found)
        .unwrap()
        .into_iter()
        .map(|d| (d.parent.clone().unwrap(), d.uuid))
        .collect();
    let left: Vec<(&str, &str, &str)> =
        store.iter().copied().filter(|(p, u, _)| !gone.contains(&(p.to_string(), uuid(u)))).collect();
    assert!(left.is_empty());
    assert_eq!(defined_devices(&left, Some(uuid(UUID)), None).len(), 0);
}
