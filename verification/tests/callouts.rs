#[allow(dead_code)]
fn parse_uuid(s: &str) -> Option<u128> {
    uuid::Uuid::parse_str(s).ok().map(|u| u.as_u128())
}

#[allow(dead_code)]
fn uuid_hyphenated(u: u128) -> String {
    uuid::Uuid::from_u128(u).hyphenated().to_string()
}

use mdevctl::callouts::{
    callout, classify_exit, invocation_failure, sort_scripts, Action, Callout, Event, InvokeAction, InvokeEvent, InvokePhase,
    ScriptMatch, State,
};
use mdevctl::error::DeviceError;
use mdevctl::json::JsonValue;
use mdevctl::mdev::MDev;

const UUID: &str = "976d8cc2-4bfc-43b9-b9f9-f4af2de91ab9";

fn device() -> MDev {
    let mut d = MDev::new(parse_uuid(UUID).unwrap());
    d.mdev_type = Some("test_type".to_string());
    d.parent = Some("test_parent".to_string());
    d
}

#[test]
fn names_of_events_actions_states() {
    let events: Vec<&str> = [Event::Pre, Event::Post, Event::Notify, Event::Get].iter().map(|e| e.name()).collect();
    assert_eq!(events, vec!["pre", "post", "notify", "get"]);
    let actions: Vec<&str> = [Action::Start, Action::Stop, Action::Define, Action::Undefine, Action::Modify, Action::Attributes, Action::Test]
        .iter()
        .map(|a| a.name())
        .collect();
    assert_eq!(actions, vec!["start", "stop", "define", "undefine", "modify", "attributes", "test"]);
    let states: Vec<&str> = [State::Unset, State::Success, State::Failure].iter().map(|s| s.name()).collect();
    assert_eq!(states, vec!["none", "success", "failure"]);
}

#[test]
fn script_arguments() {
    let c = callout(device());
    let args = c.script_args(Event::Pre, Action::Define).unwrap();
    assert_eq!(args, vec!["-t", "test_type", "-e", "pre", "-a", "define", "-s", "none", "-u", UUID, "-p", "test_parent"]);
    let mut d = device();
    d.parent = None;
    let c = Callout::new(d);
    assert_eq!(c.script_args(Event::Get, Action::Attributes).unwrap_err().message(), format!("Device {} is missing a parent", UUID));
}

#[test]
fn failure_message_quotes_script() {
    let e = invocation_failure("/etc/scripts/rc1.sh", Some(1));
    assert_eq!(e.message(), "Script '\"/etc/scripts/rc1.sh\"' failed with status '1'");
    let e = invocation_failure("/x", None);
    assert_eq!(e.message(), "Script '\"/x\"' failed with status 'unknown'");
    let e = invocation_failure("/x", Some(-3));
    assert_eq!(e.message(), "Script '\"/x\"' failed with status '-3'");
}

#[test]
fn script_search_outcomes() {
    assert_eq!(classify_exit(None), ScriptMatch::Signalled);
    assert_eq!(classify_exit(Some(2)), ScriptMatch::Unmatched);
    assert_eq!(classify_exit(Some(0)), ScriptMatch::Matched);
    assert_eq!(classify_exit(Some(1)), ScriptMatch::Matched);
    let mut c = callout(device());
    assert!(c.found_outcome("/a.sh".to_string(), None).is_none());
    assert!(c.script().is_none());
    let r = c.found_outcome("/b.sh".to_string(), Some(1)).unwrap();
    assert_eq!(r.unwrap_err().message(), "Script '\"/b.sh\"' failed with status '1'");
    assert!(c.script().is_none());
    assert!(c.found_outcome("/c.sh".to_string(), Some(0)).unwrap().is_ok());
    assert_eq!(c.script().unwrap(), "/c.sh");
    assert!(c.cached_outcome(None).is_ok());
    assert!(c.cached_outcome(Some(0)).is_ok());
    assert_eq!(c.cached_outcome(Some(7)).unwrap_err().message(), "Script '\"/c.sh\"' failed with status '7'");
}

#[test]
fn scripts_run_in_path_order() {
    let paths = vec!["/d/type-c.sh".to_string(), "/d/00.sh".to_string(), "/d/type-a.sh".to_string(), "/d/Type-b.sh".to_string()];
    assert_eq!(sort_scripts(paths), vec!["/d/00.sh", "/d/Type-b.sh", "/d/type-a.sh", "/d/type-c.sh"]);
}

#[test]
fn attributes_from_script_output() {
    let mut c = callout(device());
    assert!(c.found_outcome("/g.sh".to_string(), Some(0)).unwrap().is_ok());
    assert!(matches!(c.attributes_from_output(true, Some(0), b"").unwrap(), JsonValue::Null));
    match c.attributes_from_output(true, Some(0), b"[{}]").unwrap() {
        JsonValue::Array(a) => assert!(a.is_empty()),
        other => panic!("unexpected {:?}", other),
    }
    match c.attributes_from_output(true, Some(0), b"[{\"assign_adapter\":\"5\"}]\0\0").unwrap() {
        JsonValue::Array(a) => assert_eq!(a.len(), 1),
        other => panic!("unexpected {:?}", other),
    }
    let e = c.attributes_from_output(true, Some(0), b"[{\"a\":").unwrap_err();
    assert!(matches!(e, DeviceError::InvalidCalloutJson));
    assert_eq!(e.message(), "Invalid JSON received from callout script");
    let e = c.attributes_from_output(false, None, b"").unwrap_err();
    assert_eq!(e.message(), "Script '\"/g.sh\"' failed with status 'unknown'");
    // invalid UTF-8 is replaced, then rejected as JSON
    assert!(c.attributes_from_output(true, Some(0), &[0xff, 0xfe]).is_err());
}

fn run(force: bool, pre: Result<(), DeviceError>, op: Result<(), DeviceError>) -> (Vec<&'static str>, Result<(), DeviceError>, State) {
    let mut c = callout(device());
    let mut inv = c.begin_invoke(Action::Start, force).unwrap();
    assert_eq!(inv.conf(), "{\"attrs\":[],\"mdev_type\":\"test_type\",\"start\":\"manual\"}");
    assert_eq!(inv.phase(), InvokePhase::AwaitPre);
    let mut trace = vec!["pre"];
    let mut next = inv.step(&mut c, InvokeEvent::PreDone(pre));
    let mut op = Some(op);
    loop {
        next = match next {
            InvokeAction::RunPre => unreachable!(),
            InvokeAction::RunOperation { .. } => {
                trace.push("operation");
                inv.step(&mut c, InvokeEvent::OperationDone(op.take().unwrap()))
            }
            InvokeAction::RunPost => {
                trace.push("post");
                assert_eq!(c.script_args(Event::Post, inv.action()).unwrap()[7], c.state().name());
                inv.step(&mut c, InvokeEvent::PostDone)
            }
            InvokeAction::RunNotify => {
                trace.push("notify");
                inv.step(&mut c, InvokeEvent::Notified)
            }
            InvokeAction::Finish(r) => return (trace, r, c.state()),
        }
    }
}

#[test]
fn invocation_runs_operation_between_scripts() {
    let (trace, r, state) = run(false, Ok(()), Ok(()));
    assert_eq!(trace, vec!["pre", "operation", "post", "notify"]);
    assert!(r.is_ok());
    assert_eq!(state, State::Success);
    let (trace, r, state) = run(false, Ok(()), Err(DeviceError::AlreadyExists));
    assert_eq!(trace, vec!["pre", "operation", "post", "notify"]);
    assert!(matches!(r, Err(DeviceError::AlreadyExists)));
    assert_eq!(state, State::Failure);
}

#[test]
fn failed_pre_script_stops_operation_unless_forced() {
    let (trace, r, state) = run(false, Err(invocation_failure("/rc1.sh", Some(1))), Ok(()));
    assert_eq!(trace, vec!["pre", "notify"]);
    assert_eq!(r.unwrap_err().message(), "Script '\"/rc1.sh\"' failed with status '1'");
    assert_eq!(state, State::Unset);
    let (trace, r, _) = run(true, Err(invocation_failure("/rc1.sh", Some(1))), Ok(()));
    assert_eq!(trace, vec!["pre", "operation", "post", "notify"]);
    assert!(r.is_ok());
}

#[test]
fn invocation_needs_a_type() {
    let mut d = device();
    d.mdev_type = None;
    let c = Callout::new(device());
    let mut c2 = c;
    c2.dev = d;
    assert_eq!(c2.begin_invoke(Action::Stop, false).unwrap_err().message(), format!("Device {} is missing a mdev_type", UUID));
}

/// A simulated callout script: its file name and its exit code for (type, parent, event).
type Script = (&'static str, fn(&str, &str, &str) -> Option<i32>);

fn rc0(_: &str, _: &str, _: &str) -> Option<i32> {
    Some(0)
}
fn rc1(_: &str, _: &str, _: &str) -> Option<i32> {
    Some(1)
}
fn rc2(_: &str, _: &str, _: &str) -> Option<i32> {
    Some(2)
}
fn type_a(t: &str, _: &str, _: &str) -> Option<i32> {
    if t == "type_a" { Some(0) } else { Some(2) }
}
fn type_b(t: &str, _: &str, _: &str) -> Option<i32> {
    if t == "type_b" { Some(0) } else { Some(2) }
}
fn type_c(t: &str, _: &str, _: &str) -> Option<i32> {
    if t == "type_c" { Some(1) } else { Some(2) }
}

/// Runs the device's callout script for an event, searching the directory when none is known yet.
fn run_callout(c: &mut Callout, scripts: &[Script], event: Event, action: Action) -> Result<(), DeviceError> {
    let args = c.script_args(event, action)?;
    let (t, p, e) = (args[1].clone(), args[11].clone(), args[3].clone());
    if let Some(s) = c.script() {
        let f = scripts.iter().find(|(n, _)| format!("/callouts/{}", n) == *s).unwrap().1;
        return c.cached_outcome(f(&t, &p, &e));
    }
    let paths = sort_scripts(scripts.iter().map(|(n, _)| format!("/callouts/{}", n)).collect());
    for path in paths {
        let f = scripts.iter().find(|(n, _)| format!("/callouts/{}", n) == path).unwrap().1;
        let code = f(&t, &p, &e);
        if classify_exit(code) == ScriptMatch::Matched {
            return match c.found_outcome(path, code) {
                Some(r) => r,
                None => continue,
            };
        }
    }
    Ok(())
}

fn invoke_with_scripts(scripts: &[Script], action: Action, parent: &str, mdev_type: &str) -> Result<(), DeviceError> {
    let mut d = MDev::new(parse_uuid(UUID).unwrap());
    d.parent = Some(parent.to_string());
    d.mdev_type = Some(mdev_type.to_string());
    let mut c = callout(d);
    let mut inv = c.begin_invoke(action, false)?;
    let pre = run_callout(&mut c, scripts, Event::Pre, action);
    let mut next = inv.step(&mut c, InvokeEvent::PreDone(pre));
    loop {
        next = match next {
            InvokeAction::RunPre => unreachable!(),
            InvokeAction::RunOperation { .. } => inv.step(&mut c, InvokeEvent::OperationDone(Ok(()))),
            InvokeAction::RunPost => {
                let _ = run_callout(&mut c, scripts, Event::Post, action);
                inv.step(&mut c, InvokeEvent::PostDone)
            }
            InvokeAction::RunNotify => inv.step(&mut c, InvokeEvent::Notified),
            InvokeAction::Finish(r) => return r,
        }
    }
}

#[test]
fn tests_test_callouts() {
    assert!(invoke_with_scripts(&[("rc0.sh", rc0)], Action::Test, "test_parent", "test_type").is_ok());
    assert!(invoke_with_scripts(&[("rc1.sh", rc1)], Action::Test, "test_parent", "test_type").is_err());
    // the script does not handle the device type: carry on without one
    assert!(invoke_with_scripts(&[("rc2.sh", rc2)], Action::Test, "test_parent", "test_type").is_ok());
    let abc: [Script; 3] = [("type-c.sh", type_c), ("type-a.sh", type_a), ("type-b.sh", type_b)];
    // the script for type_c is found and fails
    let e = invoke_with_scripts(&abc, Action::Test, "parent_c", "type_c").unwrap_err();
    assert_eq!(e.message(), "Script '\"/callouts/type-c.sh\"' failed with status '1'");
    // no script handles type_d
    assert!(invoke_with_scripts(&abc, Action::Test, "parent_d", "type_d").is_ok());
    assert!(invoke_with_scripts(&abc, Action::Define, "parent_a", "type_a").is_ok());
}

#[test]
fn get_attributes_without_script_is_null() {
    let mut c = callout(device());
    // no script claimed the device: the attributes are null
    assert!(run_callout(&mut c, &[("rc2.sh", rc2)], Event::Get, Action::Attributes).is_ok());
    assert!(c.script().is_none());
}

#[test]
fn notification_plan_runs_every_script_once() {
    let c = callout(device());
    let listings = vec![vec!["/a/n1", "/a/n2"], vec![], vec!["/b/n3"]];
    let (scripts, args) = c.notify_plan(listings, Action::Stop).unwrap();
    assert_eq!(scripts, vec!["/a/n1", "/a/n2", "/b/n3"]);
    assert_eq!(args, vec!["-t", "test_type", "-e", "notify", "-a", "stop", "-s", "none", "-u", UUID, "-p", "test_parent"]);
    let mut d = device();
    d.parent = None;
    let c = Callout::new(d);
    assert!(c.notify_plan(vec![vec!["/a/n1"]], Action::Stop).is_none());
}
