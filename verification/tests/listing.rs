#[allow(dead_code)]
fn parse_uuid(s: &str) -> Option<u128> {
    uuid::Uuid::parse_str(s).ok().map(|u| u.as_u128())
}

#[allow(dead_code)]
fn uuid_hyphenated(u: u128) -> String {
    uuid::Uuid::from_u128(u).hyphenated().to_string()
}

use mdevctl::commands::{list_command_helper, types_command_helper, ListedDevice};
use mdevctl::environment::{get_supported_types, group_active_devices, group_defined_devices, parent_wanted, uuid_wanted};
use mdevctl::groups::Groups;
use mdevctl::mdev::{parse_config, MDev, MDevType};

const UUID: &[&str] = &[
    "976d8cc2-4bfc-43b9-b9f9-f4af2de91ab9",
    "59e8b599-afdd-4766-a59e-415ef4f5a492",
    "4a0a190f-dcf3-4def-9342-c48768f0c940",
    "9f579710-6ffc-4201-987a-4ffa0fb1f3a5",
    "3eee6cd9-35ad-43bd-9be1-14ee2b7389c9",
];
const PARENT: &[&str] = &["0000:00:02.0", "0000:00:03.0"];
const MDEV_TYPE: &[&str] = &["arbitrary_type1", "arbitrary_type2"];

const DEVICE1_JSON: &str =
    r#"{"mdev_type": "arbitrary_type1", "start": "auto", "attrs": [{"attr1": "value1"}, {"attr2": "value2"}]}"#;
const DEVICE2_JSON: &str = r#"{"mdev_type": "arbitrary_type2", "start": "manual", "attrs": []}"#;

/// A simulated system: running devices (uuid, parent, type) and stored definitions
/// (parent, uuid, file contents).
struct System {
    active: Vec<(&'static str, &'static str, &'static str)>,
    defined: Vec<(&'static str, &'static str, &'static str)>,
}

impl System {
    fn empty() -> System {
        System { active: vec![], defined: vec![] }
    }

    fn full() -> System {
        System {
            active: vec![(UUID[0], PARENT[0], MDEV_TYPE[0]), (UUID[1], PARENT[1], MDEV_TYPE[1])],
            defined: vec![(PARENT[0], UUID[2], DEVICE2_JSON), (PARENT[1], UUID[3], DEVICE1_JSON), (PARENT[0], UUID[3], DEVICE1_JSON)],
        }
    }

    fn is_defined(&self, uuid: u128, parent: &str) -> bool {
        self.defined.iter().any(|(p, u, _)| *p == parent && parse_uuid(u) == Some(uuid))
    }

    fn active_devices(&self, uuid: Option<u128>, parent: Option<&String>) -> Groups<ListedDevice> {
        let mut found = Vec::new();
        for (u, p, t) in &self.active {
            let u = parse_uuid(u).unwrap();
            let mut dev = MDev::new(u);
            assert!(dev.sysfs_parent_fits(p));
            dev.apply_sysfs(p.to_string(), t.to_string());
            let defined = self.is_defined(u, p);
            let mut entry = ListedDevice { dev: MDev::new(u), defined };
            entry.dev.apply_sysfs(p.to_string(), t.to_string());
            found.push((dev, entry));
        }
        group_active_devices(found, uuid, parent).unwrap()
    }

    fn defined_devices(&self, uuid: Option<u128>, parent: Option<&String>) -> Groups<ListedDevice> {
        let mut parents: Vec<&str> = self.defined.iter().map(|(p, _, _)| *p).collect();
        parents.sort();
        parents.dedup();
        let mut scan = Vec::new();
        for pname in parents {
            let mut children = Vec::new();
            for (p, u, text) in &self.defined {
                if *p != pname {
                    continue;
                }
                let u = parse_uuid(u).unwrap();
                let mut dev = MDev::new(u);
                dev.load_from_json(pname.to_string(), &parse_config(text).unwrap()).unwrap();
                let mut copy = MDev::new(u);
                copy.load_from_json(pname.to_string(), &parse_config(text).unwrap()).unwrap();
                children.push((copy, ListedDevice { dev, defined: true }));
            }
            scan.push((pname.to_string(), children));
        }
        group_defined_devices(scan, uuid, parent)
    }
}

fn list(sys: &System, defined: bool, dumpjson: bool, verbose: bool, uuid: Option<&str>, parent: Option<&str>) -> String {
    let uuid = uuid.map(|u| parse_uuid(u).unwrap());
    let parent = parent.map(|p| p.to_string());
    let devices = if defined {
        sys.defined_devices(uuid, parent.as_ref())
    } else {
        sys.active_devices(uuid, parent.as_ref())
    };
    list_command_helper(devices, defined, dumpjson, verbose, uuid).unwrap()
}

fn keyed(uuid: &str, t: &str, start: &str, attrs: &[(&str, &str)], indent: usize) -> String {
    let pad = " ".repeat(indent);
    let mut a = String::new();
    if attrs.is_empty() {
        a.push_str("[]");
    } else {
        a.push_str("[\n");
        for (i, (k, v)) in attrs.iter().enumerate() {
            a.push_str(&format!("{pad}      {{\n{pad}        \"{k}\": \"{v}\"\n{pad}      }}"));
            if i + 1 < attrs.len() {
                a.push(',');
            }
            a.push('\n');
        }
        a.push_str(&format!("{pad}    ]"));
    }
    format!(
        "{pad}{{\n{pad}  \"{uuid}\": {{\n{pad}    \"attrs\": {a},\n{pad}    \"mdev_type\": \"{t}\",\n{pad}    \"start\": \"{start}\"\n{pad}  }}\n{pad}}}"
    )
}

#[test]
fn tests_test_list() {
    let empty = System::empty();
    assert_eq!(list(&empty, false, false, false, None, None), "");
    assert_eq!(list(&empty, false, true, false, None, None), "[]");
    assert_eq!(list(&empty, true, false, false, None, None), "");
    assert_eq!(list(&empty, true, true, false, None, None), "[]");

    let sys = System::full();
    let active_text = format!("{} {} {}\n{} {} {}\n", UUID[0], PARENT[0], MDEV_TYPE[0], UUID[1], PARENT[1], MDEV_TYPE[1]);
    assert_eq!(list(&sys, false, false, false, None, None), active_text);
    assert_eq!(list(&sys, false, false, true, None, None), active_text);
    let active_json = format!(
        "[\n  {{\n    \"{}\": [\n{}\n    ],\n    \"{}\": [\n{}\n    ]\n  }}\n]",
        PARENT[0], keyed(UUID[0], MDEV_TYPE[0], "manual", &[], 6), PARENT[1], keyed(UUID[1], MDEV_TYPE[1], "manual", &[], 6)
    );
    assert_eq!(list(&sys, false, true, false, None, None), active_json);

    let active_parent_text = format!("{} {} {}\n", UUID[0], PARENT[0], MDEV_TYPE[0]);
    assert_eq!(list(&sys, false, false, false, None, Some(PARENT[0])), active_parent_text);
    assert_eq!(list(&sys, false, false, true, None, Some(PARENT[0])), active_parent_text);
    assert_eq!(list(&sys, false, false, false, Some(UUID[0]), None), active_parent_text);
    assert_eq!(list(&sys, false, false, true, Some(UUID[0]), Some(PARENT[0])), active_parent_text);
    // a single device asked for by UUID is shown as its bare configuration
    assert_eq!(
        list(&sys, false, true, false, Some(UUID[0]), None),
        format!("{{\n  \"attrs\": [],\n  \"mdev_type\": \"{}\",\n  \"start\": \"manual\"\n}}", MDEV_TYPE[0])
    );

    let line2 = format!("{} {} arbitrary_type2 manual\n", UUID[2], PARENT[0]);
    let line3a = format!("{} {} arbitrary_type1 auto\n", UUID[3], PARENT[0]);
    let line3b = format!("{} {} arbitrary_type1 auto\n", UUID[3], PARENT[1]);
    let attrs = "  Attrs:\n    @{0}: {\"attr1\":\"value1\"}\n    @{1}: {\"attr2\":\"value2\"}\n";
    assert_eq!(list(&sys, true, false, false, None, None), format!("{line2}{line3a}{line3b}"));
    assert_eq!(list(&sys, true, false, true, None, None), format!("{line2}{line3a}{attrs}{line3b}{attrs}"));
    assert_eq!(list(&sys, true, false, false, None, Some(PARENT[0])), format!("{line2}{line3a}"));
    assert_eq!(list(&sys, true, false, true, None, Some(PARENT[0])), format!("{line2}{line3a}{attrs}"));
    assert_eq!(list(&sys, true, false, false, Some(UUID[3]), None), format!("{line3a}{line3b}"));
    assert_eq!(list(&sys, true, false, true, Some(UUID[3]), None), format!("{line3a}{attrs}{line3b}{attrs}"));
    assert_eq!(list(&sys, true, false, false, Some(UUID[3]), Some(PARENT[0])), line3a.clone());
    assert_eq!(list(&sys, true, false, true, Some(UUID[3]), Some(PARENT[0])), format!("{line3a}{attrs}"));
    let defined_json = format!(
        "[\n  {{\n    \"{}\": [\n{},\n{}\n    ],\n    \"{}\": [\n{}\n    ]\n  }}\n]",
        PARENT[0],
        keyed(UUID[2], "arbitrary_type2", "manual", &[], 6),
        keyed(UUID[3], "arbitrary_type1", "auto", &[("attr1", "value1"), ("attr2", "value2")], 6),
        PARENT[1],
        keyed(UUID[3], "arbitrary_type1", "auto", &[("attr1", "value1"), ("attr2", "value2")], 6)
    );
    assert_eq!(list(&sys, true, true, false, None, None), defined_json);
    // two definitions match the UUID: the whole listing is shown
    let two = format!(
        "[\n  {{\n    \"{}\": [\n{}\n    ],\n    \"{}\": [\n{}\n    ]\n  }}\n]",
        PARENT[0],
        keyed(UUID[3], "arbitrary_type1", "auto", &[("attr1", "value1"), ("attr2", "value2")], 6),
        PARENT[1],
        keyed(UUID[3], "arbitrary_type1", "auto", &[("attr1", "value1"), ("attr2", "value2")], 6)
    );
    assert_eq!(list(&sys, true, true, false, Some(UUID[3]), None), two);

    assert_eq!(list(&sys, true, false, true, Some("466983a3-1240-4543-8d02-01c29a08fb0c"), None), "");
    assert_eq!(list(&sys, true, true, true, Some("466983a3-1240-4543-8d02-01c29a08fb0c"), None), "[]");
    assert_eq!(list(&sys, true, false, true, None, Some("nonexistent")), "");
    assert_eq!(list(&sys, true, true, true, None, Some("nonexistent")), "[]");
}

#[test]
fn active_listing_marks_defined_devices() {
    let sys = System {
        active: vec![(UUID[2], PARENT[0], "arbitrary_type2")],
        defined: vec![(PARENT[0], UUID[2], DEVICE2_JSON)],
    };
    assert_eq!(list(&sys, false, false, false, None, None), format!("{} {} arbitrary_type2 (defined)\n", UUID[2], PARENT[0]));
}

#[test]
fn listing_is_sorted_by_uuid_within_parent() {
    let sys = System {
        active: vec![(UUID[3], PARENT[0], "t"), (UUID[4], PARENT[0], "t"), (UUID[0], PARENT[0], "t")],
        defined: vec![],
    };
    let out = list(&sys, false, false, false, None, None);
    let expected = format!("{} {p} t\n{} {p} t\n{} {p} t\n", UUID[4], UUID[0], UUID[3], p = PARENT[0]);
    assert_eq!(out, expected);
}

fn parent_types() -> Vec<(String, Vec<MDevType>)> {
    let table: Vec<(&str, Vec<(&str, i32, &str, &str, Option<&str>)>)> = vec![
        ("0000:00:02.0", vec![
            ("mdev_type1", 5, "vfio-pci", "name1", Some("description 1")),
            ("mdev_type2", 16, "vfio-pci", "name2", None),
            ("mdev_type3", 1, "vfio-pci", "name3", Some("description 3")),
        ]),
        ("0000:00:03.0", vec![
            ("nvidia-155", 4, "vfio-pci", "GRID M10-2B", None),
            ("nvidia-36", 16, "vfio-pci", "GRID M10-0Q", None),
        ]),
        ("0.0.26ab", vec![("vfio_ccw-io", 4, "vfio_mdev", "name", Some("description"))]),
    ];
    let mut scan = Vec::new();
    // directory listings come in no particular order
    for (parent, types) in table.into_iter().rev() {
        let mut found = Vec::new();
        for t in types.into_iter().rev() {
            found.push(MDevType::from_sysfs(parent.to_string(), t.0.to_string(), t.1, t.2, Some(t.3), t.4));
        }
        scan.push((parent.to_string(), found));
    }
    scan
}

fn types(scan: Vec<(String, Vec<MDevType>)>, parent: Option<&str>, dumpjson: bool) -> String {
    let parent = parent.map(|p| p.to_string());
    let groups = get_supported_types(scan, parent.as_ref());
    types_command_helper(&groups, dumpjson).unwrap()
}

fn type_block(t: &str, n: i32, api: &str, name: &str, desc: Option<&str>) -> String {
    let mut s = format!("  {t}\n    Available instances: {n}\n    Device API: {api}\n    Name: {name}\n");
    if let Some(d) = desc {
        s.push_str(&format!("    Description: {d}\n"));
    }
    s
}

fn type_json(t: &str, n: i32, api: &str, name: &str, desc: Option<&str>) -> String {
    let mut s = format!("      {{\n        \"{t}\": {{\n          \"available_instances\": {n},\n");
    match desc {
        Some(d) => s.push_str(&format!("          \"description\": \"{d}\",\n")),
        None => {}
    }
    s.push_str(&format!("          \"device_api\": \"{api}\",\n          \"name\": \"{name}\"\n        }}\n      }}"));
    s
}

#[test]
fn tests_test_types() {
    assert_eq!(types(Vec::new(), None, false), "");
    assert_eq!(types(Vec::new(), None, true), "[]");

    let p1 = format!(
        "0000:00:02.0\n{}{}{}",
        type_block("mdev_type1", 5, "vfio-pci", "name1", Some("description 1")),
        type_block("mdev_type2", 16, "vfio-pci", "name2", None),
        type_block("mdev_type3", 1, "vfio-pci", "name3", Some("description 3"))
    );
    let p2 = format!(
        "0000:00:03.0\n{}{}",
        type_block("nvidia-155", 4, "vfio-pci", "GRID M10-2B", None),
        type_block("nvidia-36", 16, "vfio-pci", "GRID M10-0Q", None)
    );
    let p3 = format!("0.0.26ab\n{}", type_block("vfio_ccw-io", 4, "vfio_mdev", "name", Some("description")));
    assert_eq!(types(parent_types(), None, false), format!("{p3}{p1}{p2}"));
    assert_eq!(types(parent_types(), Some("0000:00:02.0"), false), p1);
    assert_eq!(types(parent_types(), Some("0000:00:03.0"), false), p2);
    assert_eq!(types(parent_types(), Some("0.0.26ab"), false), p3);
    assert_eq!(types(parent_types(), Some("missing"), false), "");
    assert_eq!(types(parent_types(), Some("missing"), true), "[]");

    let j1 = format!(
        "    \"0000:00:02.0\": [\n{},\n{},\n{}\n    ]",
        type_json("mdev_type1", 5, "vfio-pci", "name1", Some("description 1")),
        type_json("mdev_type2", 16, "vfio-pci", "name2", None),
        type_json("mdev_type3", 1, "vfio-pci", "name3", Some("description 3"))
    );
    let j2 = format!(
        "    \"0000:00:03.0\": [\n{},\n{}\n    ]",
        type_json("nvidia-155", 4, "vfio-pci", "GRID M10-2B", None),
        type_json("nvidia-36", 16, "vfio-pci", "GRID M10-0Q", None)
    );
    let j3 = format!("    \"0.0.26ab\": [\n{}\n    ]", type_json("vfio_ccw-io", 4, "vfio_mdev", "name", Some("description")));
    assert_eq!(types(parent_types(), None, true), format!("[\n  {{\n{j3},\n{j1},\n{j2}\n  }}\n]"));
    assert_eq!(types(parent_types(), Some("0000:00:02.0"), true), format!("[\n  {{\n{j1}\n  }}\n]"));
}

#[test]
fn type_files_are_trimmed() {
    let t = MDevType::from_sysfs("p".to_string(), "t".to_string(), 3, " vfio-pci \n", None, Some("  line one\nline two\n\n"));
    assert_eq!(t.device_api, "vfio-pci");
    assert_eq!(t.name, "");
    assert_eq!(t.description, "line one, line two");
    assert_eq!(MDevType::new().available_instances, 0);
}

#[test]
fn types_keep_last_scan_of_a_parent() {
    let a = MDevType::from_sysfs("p".to_string(), "a".to_string(), 1, "api", None, None);
    let b = MDevType::from_sysfs("p".to_string(), "b".to_string(), 2, "api", None, None);
    let scan = vec![("p".to_string(), vec![a]), ("p".to_string(), vec![b])];
    assert_eq!(types(scan, None, false), "p\n  b\n    Available instances: 2\n    Device API: api\n");
}

#[test]
fn tests_test_invalid_files() {
    // files that are not named by a UUID are skipped when scanning
    assert_eq!(parse_uuid("invalid-uuid-value"), None);
    let sys = System { active: vec![], defined: vec![] };
    assert_eq!(list(&sys, false, false, false, None, None), "");
    assert_eq!(list(&sys, true, false, false, None, None), "");
}

#[test]
fn grouping_filters_and_refuses_parentless() {
    let u0 = parse_uuid(UUID[0]).unwrap();
    let u1 = parse_uuid(UUID[1]).unwrap();
    let mut a = MDev::new(u0);
    a.apply_sysfs(PARENT[0].to_string(), MDEV_TYPE[0].to_string());
    let mut b = MDev::new(u1);
    b.apply_sysfs(PARENT[1].to_string(), MDEV_TYPE[1].to_string());
    let found = vec![(a.clone(), a.clone()), (b.clone(), b.clone())];
    let g = group_active_devices(found, None, Some(&PARENT[1].to_string())).unwrap();
    assert_eq!(g.len(), 1);
    assert_eq!(g.entries()[0].0, PARENT[1]);
    assert_eq!(g.entries()[0].1[0].uuid, u1);
    let found = vec![(a.clone(), a.clone()), (b.clone(), b.clone())];
    let g = group_active_devices(found, Some(u0), None).unwrap();
    assert_eq!(g.len(), 1);
    assert_eq!(g.entries()[0].1[0].uuid, u0);
    // a wanted device without a parent is refused; an unwanted one is ignored
    let orphan = MDev::new(u1);
    let found = vec![(a.clone(), a.clone()), (orphan.clone(), orphan.clone())];
    assert_eq!(
        group_active_devices(found, None, None).unwrap_err().message(),
        format!("Device {} is missing a parent", UUID[1])
    );
    let found = vec![(a.clone(), a.clone()), (orphan.clone(), orphan)];
    assert_eq!(group_active_devices(found, Some(u0), None).unwrap().len(), 1);
    assert!(uuid_wanted(None, u0) && !uuid_wanted(Some(u1), u0));
    assert!(parent_wanted(None, None) && !parent_wanted(Some(&"x".to_string()), None));
    // definitions: a parent left without wanted definitions is left out
    let scan = vec![
        (PARENT[0].to_string(), vec![(a.clone(), 1u8)]),
        (PARENT[1].to_string(), vec![(b.clone(), 2u8)]),
    ];
    let g = group_defined_devices(scan, Some(u1), None);
    assert_eq!(g.len(), 1);
    assert_eq!(g.entries()[0].0, PARENT[1]);
    assert_eq!(g.entries()[0].1, vec![2u8]);
}
