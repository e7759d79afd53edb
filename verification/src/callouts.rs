//! Callout scripts: the decisions around running device-specific scripts before and after an
//! operation. Running the scripts is left to the caller, which reports each outcome back.

use vstd::prelude::*;
use crate::error::DeviceError;
use crate::json::JsonValue;
use crate::mdev::MDev;
use crate::text::push_str;

verus! {

/// When a script runs relative to the operation.
#[derive(Clone, Copy, Debug, PartialEq, Eq, Structural)]
pub enum Event {
    Pre,
    Post,
    Notify,
    Get,
}

/// The operation a script is told about.
#[derive(Clone, Copy, Debug, PartialEq, Eq, Structural)]
pub enum Action {
    Start,
    Stop,
    Define,
    Undefine,
    Modify,
    Attributes,
    Test,
}

/// How the operation went, as far as the scripts are told.
#[derive(Clone, Copy, Debug, PartialEq, Eq, Structural)]
pub enum State {
    Unset,
    Success,
    Failure,
}

pub open spec fn event_text(e: Event) -> Seq<char> {
    match e {
        Event::Pre => "pre"@,
        Event::Post => "post"@,
        Event::Notify => "notify"@,
        Event::Get => "get"@,
    }
}

pub open spec fn action_text(a: Action) -> Seq<char> {
    match a {
        Action::Start => "start"@,
        Action::Stop => "stop"@,
        Action::Define => "define"@,
        Action::Undefine => "undefine"@,
        Action::Modify => "modify"@,
        Action::Attributes => "attributes"@,
        Action::Test => "test"@,
    }
}

pub open spec fn state_text(s: State) -> Seq<char> {
    match s {
        State::Unset => "none"@,
        State::Success => "success"@,
        State::Failure => "failure"@,
    }
}

impl Event {
    /// The word passed to scripts for this event.
    pub fn name(&self) -> (r: &'static str)
        ensures
            r@ == event_text(*self),
    {
        match self {
            Event::Pre => "pre",
            Event::Post => "post",
            Event::Notify => "notify",
            Event::Get => "get",
        }
    }
}

impl Action {
    /// The word passed to scripts for this action.
    pub fn name(&self) -> (r: &'static str)
        ensures
            r@ == action_text(*self),
    {
        match self {
            Action::Start => "start",
            Action::Stop => "stop",
            Action::Define => "define",
            Action::Undefine => "undefine",
            Action::Modify => "modify",
            Action::Attributes => "attributes",
            Action::Test => "test",
        }
    }
}

impl State {
    /// The word passed to scripts for this state.
    pub fn name(&self) -> (r: &'static str)
        ensures
            r@ == state_text(*self),
    {
        match self {
            State::Unset => "none",
            State::Success => "success",
            State::Failure => "failure",
        }
    }
}

/// The `Debug` rendering of a path (quoted, with special characters escaped).
pub uninterp spec fn debug_text(s: Seq<char>) -> Seq<char>;

/// `format!("{:?}", path)`: the `Debug` rendering of a path given as text.
#[verifier::external_body]
pub(crate) fn debug_quoted(s: &str) -> (r: String)
    ensures
        r@ == debug_text(s@),
{
    format!("{:?}", std::path::Path::new(s))
}

/// The error for a script that failed: it names the script's quoted path and its exit code
/// (or "unknown" when it has none).
pub fn invocation_failure(path: &str, code: Option<i32>) -> (e: DeviceError)
    ensures
        e matches DeviceError::ScriptFailed { script, code: c } && script@ == debug_text(path@) && c == code,
{
    DeviceError::ScriptFailed { script: debug_quoted(path), code }
}

/// What a script's exit says about whether it handles the device type.
#[derive(Clone, Copy, Debug, PartialEq, Eq, Structural)]
pub enum ScriptMatch {
    /// Killed by a signal: try the next script.
    Signalled,
    /// Exit code 2: the script does not handle this type; try the next script.
    Unmatched,
    /// Any other exit code: this is the device's script.
    Matched,
}

/// Classifies a script's exit code while looking for the device's script.
pub fn classify_exit(code: Option<i32>) -> (r: ScriptMatch)
    ensures
        code is None ==> r == ScriptMatch::Signalled,
        code == Some(2i32) ==> r == ScriptMatch::Unmatched,
        code is Some && code != Some(2i32) ==> r == ScriptMatch::Matched,
{
    match code {
        None => ScriptMatch::Signalled,
        Some(2) => ScriptMatch::Unmatched,
        Some(_) => ScriptMatch::Matched,
    }
}

/// A device together with the callout state of the operation on it: the state reported to
/// scripts and the script found to handle the device (once found, it is used for the rest of
/// the operation).
#[derive(Debug)]
pub struct Callout {
    state: State,
    script: Option<String>,
    pub dev: MDev,
}

/// Starts the callout handling for a device, which must have a type.
pub fn callout(dev: MDev) -> (c: Callout)
    requires
        dev.mdev_type is Some,
    ensures
        c.device() == dev,
        c.state_of() == State::Unset,
        c.script_of() is None,
{
    Callout::new(dev)
}

impl Callout {
    pub closed spec fn device(&self) -> MDev {
        self.dev
    }

    pub closed spec fn state_of(&self) -> State {
        self.state
    }

    pub closed spec fn script_of(&self) -> Option<Seq<char>> {
        match self.script {
            Some(s) => Some(s@),
            None => None,
        }
    }

    /// Starts the callout handling for a device, which must have a type.
    pub fn new(dev: MDev) -> (c: Callout)
        requires
            dev.mdev_type is Some,
        ensures
            c.device() == dev,
            c.state_of() == State::Unset,
            c.script_of() is None,
    {
        Callout { state: State::Unset, script: None, dev }
    }

    /// The script found to handle the device, if any yet.
    pub fn script(&self) -> (r: Option<&String>)
        ensures
            match r {
                Some(s) => self.script_of() == Some(s@),
                None => self.script_of() is None,
            },
    {
        self.script.as_ref()
    }

    /// The state reported to scripts.
    pub fn state(&self) -> (r: State)
        ensures
            r == self.state_of(),
    {
        self.state
    }

    /// The arguments a script is run with:
    /// `-t type -e event -a action -s state -u uuid -p parent`.
    pub fn script_args(&self, event: Event, action: Action) -> (r: Result<Vec<String>, DeviceError>)
        ensures
            self.device().mdev_type is None ==> r == Err::<Vec<String>, DeviceError>(DeviceError::MissingType { uuid: self.device().uuid }),
            self.device().mdev_type is Some && self.device().parent is None
                ==> r == Err::<Vec<String>, DeviceError>(DeviceError::MissingParent { uuid: self.device().uuid }),
            r is Ok <==> (self.device().mdev_type is Some && self.device().parent is Some),
            r matches Ok(args) ==> args@.map_values(|a: String| a@) == seq![
                "-t"@, self.device().mdev_type->0@, "-e"@, event_text(event), "-a"@, action_text(action),
                "-s"@, state_text(self.state_of()), "-u"@, crate::ids::hyphenated(self.device().uuid),
                "-p"@, self.device().parent->0@],
    {
        let mdev_type = self.dev.mdev_type()?;
        let mut args: Vec<String> = Vec::new();
        args.push("-t".to_owned());
        args.push(mdev_type.clone());
        args.push("-e".to_owned());
        args.push(event.name().to_owned());
        args.push("-a".to_owned());
        args.push(action.name().to_owned());
        args.push("-s".to_owned());
        args.push(self.state.name().to_owned());
        args.push("-u".to_owned());
        args.push(crate::ids::uuid_hyphenated(self.dev.uuid));
        args.push("-p".to_owned());
        let parent = self.dev.parent()?;
        args.push(parent.clone());
        assert(args@.map_values(|a: String| a@) =~= seq![
            "-t"@, self.dev.mdev_type->0@, "-e"@, event_text(event), "-a"@, action_text(action),
            "-s"@, state_text(self.state_of()), "-u"@, crate::ids::hyphenated(self.dev.uuid),
            "-p"@, self.dev.parent->0@]);
        Ok(args)
    }

    /// The notification scripts to run after an operation, with the arguments they get: every
    /// entry of every notification directory found (`listings`, in directory order), each once
    /// and in order, with the device's arguments for the notify event. A device without a type
    /// or a parent gets no notification scripts run.
    pub fn notify_plan<T>(&self, listings: Vec<Vec<T>>, action: Action) -> (r: Option<(Vec<T>, Vec<String>)>)
        ensures
            r is Some <==> (self.device().mdev_type is Some && self.device().parent is Some),
            r matches Some(plan) ==> plan.0@ == concat_listings(listings@)
                && plan.1@.map_values(|a: String| a@) == seq![
                "-t"@, self.device().mdev_type->0@, "-e"@, event_text(Event::Notify), "-a"@, action_text(action),
                "-s"@, state_text(self.state_of()), "-u"@, crate::ids::hyphenated(self.device().uuid),
                "-p"@, self.device().parent->0@],
    {
        let args = match self.script_args(Event::Notify, action) {
            Ok(a) => a,
            Err(_) => return None,
        };
        let ghost lv = listings@;
        let mut rest = listings;
        let mut scripts: Vec<T> = Vec::new();
        let n = rest.len();
        let mut i: usize = 0;
        assert(lv.take(0) =~= Seq::<Vec<T>>::empty());
        while i < n
            invariant
                n == lv.len(),
                0 <= i <= n,
                rest@ == lv.skip(i as int),
                scripts@ == concat_listings(lv.take(i as int)),
            decreases n - i,
        {
            let mut entries = rest.remove(0);
            assert(lv.skip(i as int)[0] == lv[i as int]);
            assert(rest@ =~= lv.skip(i + 1));
            assert(lv.take(i + 1).drop_last() =~= lv.take(i as int));
            assert(lv.take(i + 1).last() == lv[i as int]);
            scripts.append(&mut entries);
            i = i + 1;
        }
        assert(lv.take(n as int) =~= lv);
        Some((scripts, args))
    }

    /// The configuration passed to the pre and post scripts on their standard input: the
    /// device's configuration as compact JSON.
    pub fn config_text(&self) -> (r: Result<String, DeviceError>)
        ensures
            self.device().mdev_type is None ==> r == Err::<String, DeviceError>(DeviceError::MissingType { uuid: self.device().uuid }),
            self.device().mdev_type is Some ==> (r matches Ok(s) && s@ == crate::json::json_compact_text(crate::mdev::config_json(self.device()@))),
    {
        let j = self.dev.to_json(false)?;
        Ok(crate::json::serde_compact(&j))
    }

    /// The outcome of running the script already found: success unless it exited with a
    /// non-zero code.
    pub fn cached_outcome(&self, code: Option<i32>) -> (r: Result<(), DeviceError>)
        requires
            self.script_of() is Some,
        ensures
            (code is None || code == Some(0i32)) ==> r is Ok,
            code is Some && code != Some(0i32) ==> (r matches Err(DeviceError::ScriptFailed { script, code: c })
                && script@ == debug_text(self.script_of()->0) && c == code),
    {
        match code {
            None => Ok(()),
            Some(0) => Ok(()),
            Some(n) => {
                let p = match &self.script {
                    Some(p) => p,
                    None => {
                        assert(false);
                        return Ok(());
                    },
                };
                Err(invocation_failure(p.as_str(), Some(n)))
            },
        }
    }

    /// The outcome of the script at `path` that claimed the device during the search: exit 0
    /// makes it the device's script and succeeds; another code fails; no code (killed by a
    /// signal) means the search goes on.
    pub fn found_outcome(&mut self, path: String, code: Option<i32>) -> (r: Option<Result<(), DeviceError>>)
        ensures
            final(self).device() == old(self).device(),
            final(self).state_of() == old(self).state_of(),
            code == Some(0i32) ==> r == Some(Ok::<(), DeviceError>(())) && final(self).script_of() == Some(path@),
            code is Some && code != Some(0i32) ==> (r matches Some(Err(DeviceError::ScriptFailed { script, code: c }))
                && script@ == debug_text(path@) && c == code && final(self).script_of() == old(self).script_of()),
            code is None ==> r is None && final(self).script_of() == old(self).script_of(),
    {
        match code {
            Some(0) => {
                self.script = Some(path);
                Some(Ok(()))
            },
            Some(n) => Some(Err(invocation_failure(path.as_str(), Some(n)))),
            None => None,
        }
    }

    /// The device-specific attributes a `get` script printed: nothing printed means null,
    /// `[{}]` means no attributes, anything else is read as JSON once trailing NUL characters
    /// are removed. A script that did not succeed is reported as failed.
    pub fn attributes_from_output(&self, success: bool, code: Option<i32>, stdout: &[u8]) -> (r: Result<JsonValue, DeviceError>)
        requires
            !success ==> self.script_of() is Some,
        ensures
            !success ==> (r matches Err(DeviceError::ScriptFailed { script, code: c })
                && script@ == debug_text(self.script_of()->0) && c == code),
            success ==> ({
                let text = lossy_utf8(stdout@);
                if text.len() == 0 {
                    r matches Ok(j) && j@ == crate::json::JsonData::Null
                } else {
                    let t = crate::text::strip_trailing_nuls(if text == "[{}]"@ { "[]"@ } else { text });
                    match crate::json::json_parse(t) {
                        Some(d) => r matches Ok(j) && j@ == d,
                        None => r matches Err(DeviceError::InvalidCalloutJson),
                    }
                }
            }),
    {
        if !success {
            let p = match &self.script {
                Some(p) => p,
                None => {
                    assert(false);
                    return Ok(JsonValue::Null);
                },
            };
            return Err(invocation_failure(p.as_str(), code));
        }
        let st = utf8_lossy(stdout);
        if st.as_str().is_empty() {
            return Ok(JsonValue::Null);
        }
        let text = if crate::text::str_eq(st.as_str(), "[{}]") { "[]".to_owned() } else { st };
        let stripped = crate::text::trim_trailing_nuls(text.as_str());
        match crate::json::serde_parse(stripped.as_str()) {
            Ok(j) => Ok(j),
            Err(_) => Err(DeviceError::InvalidCalloutJson),
        }
    }
}

/// All entries of the listings, listing after listing.
pub open spec fn concat_listings<T>(l: Seq<Vec<T>>) -> Seq<T>
    decreases l.len(),
{
    if l.len() == 0 {
        Seq::empty()
    } else {
        concat_listings(l.drop_last()) + l.last()@
    }
}

/// Where an operation run under callout scripts stands.
#[derive(Clone, Copy, Debug, PartialEq, Eq, Structural)]
pub enum InvokePhase {
    /// Waiting for the outcome of the pre script.
    AwaitPre,
    /// Waiting for the outcome of the operation itself.
    AwaitOperation,
    /// Waiting for the post script to have run.
    AwaitPost,
    /// Waiting for the notification scripts to have run.
    AwaitNotify,
    /// Finished.
    Done,
}

/// What the caller reports back.
#[derive(Debug)]
pub enum InvokeEvent {
    /// The pre script's outcome (success when no script handles the device).
    PreDone(Result<(), DeviceError>),
    /// The operation's outcome.
    OperationDone(Result<(), DeviceError>),
    /// The post script has run (its outcome does not matter).
    PostDone,
    /// The notification scripts have run.
    Notified,
}

/// What the caller does next.
#[derive(Debug)]
pub enum InvokeAction {
    /// Run the pre script with the configuration on its standard input.
    RunPre,
    /// Perform the operation. `forced` tells that the pre script failed and the operation goes
    /// ahead because it was forced.
    RunOperation { forced: bool },
    /// Run the post script with the configuration on its standard input.
    RunPost,
    /// Run the notification scripts.
    RunNotify,
    /// Report this result.
    Finish(Result<(), DeviceError>),
}

/// Whether the machine in `phase` takes `ev`.
pub open spec fn invoke_accepts(phase: InvokePhase, ev: InvokeEvent) -> bool {
    match ev {
        InvokeEvent::PreDone(_) => phase == InvokePhase::AwaitPre,
        InvokeEvent::OperationDone(_) => phase == InvokePhase::AwaitOperation,
        InvokeEvent::PostDone => phase == InvokePhase::AwaitPost,
        InvokeEvent::Notified => phase == InvokePhase::AwaitNotify,
    }
}

/// The machine's state after a step, with the action to take.
pub struct InvokeStepResult {
    pub phase: InvokePhase,
    pub pending: Option<Result<(), DeviceError>>,
    pub state: State,
    pub action: InvokeAction,
}

/// One step of running an operation under callout scripts. A pre script that succeeded, or
/// failed on a forced operation, lets the operation run; a failure otherwise becomes the
/// result and only the notification scripts run. The operation's outcome becomes the result
/// and the state reported to the post script. The result is given once the notification
/// scripts have run.
pub open spec fn invoke_next(phase: InvokePhase, pending: Option<Result<(), DeviceError>>, force: bool, state: State,
    ev: InvokeEvent) -> InvokeStepResult
{
    match ev {
        InvokeEvent::PreDone(res) => match res {
            Ok(_) => InvokeStepResult { phase: InvokePhase::AwaitOperation, pending, state,
                action: InvokeAction::RunOperation { forced: false } },
            Err(e) => if force {
                InvokeStepResult { phase: InvokePhase::AwaitOperation, pending, state,
                    action: InvokeAction::RunOperation { forced: true } }
            } else {
                InvokeStepResult { phase: InvokePhase::AwaitNotify, pending: Some(Err(e)), state,
                    action: InvokeAction::RunNotify }
            },
        },
        InvokeEvent::OperationDone(res) => InvokeStepResult { phase: InvokePhase::AwaitPost, pending: Some(res),
            state: if res is Ok { State::Success } else { State::Failure }, action: InvokeAction::RunPost },
        InvokeEvent::PostDone => InvokeStepResult { phase: InvokePhase::AwaitNotify, pending, state,
            action: InvokeAction::RunNotify },
        InvokeEvent::Notified => InvokeStepResult { phase: InvokePhase::Done, pending: None, state,
            action: InvokeAction::Finish(match pending { Some(p) => p, None => Err(DeviceError::UnknownError) }) },
    }
}

/// An operation run under callout scripts ends with the operation's own result when the pre
/// script succeeded or the operation was forced, after the operation, the post script and the
/// notification scripts ran in that order; otherwise it ends with the pre script's failure,
/// the operation and the post script never run, and the notification scripts still run.
pub proof fn lemma_invoke_outcome(force: bool, state: State, pre: Result<(), DeviceError>, op: Result<(), DeviceError>)
    ensures
        ({
            let s1 = invoke_next(InvokePhase::AwaitPre, None, force, state, InvokeEvent::PreDone(pre));
            if pre is Ok || force {
                let s2 = invoke_next(s1.phase, s1.pending, force, s1.state, InvokeEvent::OperationDone(op));
                let s3 = invoke_next(s2.phase, s2.pending, force, s2.state, InvokeEvent::PostDone);
                let s4 = invoke_next(s3.phase, s3.pending, force, s3.state, InvokeEvent::Notified);
                &&& s1.action matches InvokeAction::RunOperation { .. }
                &&& invoke_accepts(s1.phase, InvokeEvent::OperationDone(op))
                &&& s2.action == InvokeAction::RunPost
                &&& s2.state == (if op is Ok { State::Success } else { State::Failure })
                &&& invoke_accepts(s2.phase, InvokeEvent::PostDone)
                &&& s3.action == InvokeAction::RunNotify
                &&& invoke_accepts(s3.phase, InvokeEvent::Notified)
                &&& s4.action == InvokeAction::Finish(op)
                &&& s4.phase == InvokePhase::Done
            } else {
                let s2 = invoke_next(s1.phase, s1.pending, force, s1.state, InvokeEvent::Notified);
                &&& s1.action == InvokeAction::RunNotify
                &&& invoke_accepts(s1.phase, InvokeEvent::Notified)
                &&& s2.action == InvokeAction::Finish(pre)
                &&& s2.phase == InvokePhase::Done
            }
        }),
{
}

/// An operation on a device run between its pre and post callout scripts, followed by the
/// notification scripts. A failed pre script stops the operation unless it is forced; the
/// result is the operation's, or the pre script's failure when the operation was stopped.
#[derive(Debug)]
pub struct Invocation {
    action: Action,
    force: bool,
    conf: String,
    phase: InvokePhase,
    pending: Option<Result<(), DeviceError>>,
}

impl Invocation {
    pub closed spec fn action_of(&self) -> Action {
        self.action
    }

    pub closed spec fn force_of(&self) -> bool {
        self.force
    }

    /// The operation being run.
    pub fn action(&self) -> (r: Action)
        ensures
            r == self.action_of(),
    {
        self.action
    }

    /// Whether the operation goes ahead despite a failed pre script.
    pub fn force(&self) -> (r: bool)
        ensures
            r == self.force_of(),
    {
        self.force
    }

    pub closed spec fn phase_of(&self) -> InvokePhase {
        self.phase
    }

    pub closed spec fn pending_of(&self) -> Option<Result<(), DeviceError>> {
        self.pending
    }

    pub closed spec fn conf_of(&self) -> Seq<char> {
        self.conf@
    }

    /// Where the invocation stands.
    pub fn phase(&self) -> (r: InvokePhase)
        ensures
            r == self.phase_of(),
    {
        self.phase
    }

    /// The configuration handed to the pre and post scripts.
    pub fn conf(&self) -> (r: &String)
        ensures
            r@ == self.conf_of(),
    {
        &self.conf
    }

    /// Takes the caller's report and says what to do next (see [`invoke_next`]).
    pub fn step(&mut self, c: &mut Callout, ev: InvokeEvent) -> (r: InvokeAction)
        requires
            invoke_accepts(old(self).phase_of(), ev),
        ensures
            final(self).action_of() == old(self).action_of(),
            final(self).force_of() == old(self).force_of(),
            final(self).conf_of() == old(self).conf_of(),
            final(c).device() == old(c).device(),
            final(c).script_of() == old(c).script_of(),
            invoke_next(old(self).phase_of(), old(self).pending_of(), old(self).force_of(), old(c).state_of(), ev)
                == (InvokeStepResult { phase: final(self).phase_of(), pending: final(self).pending_of(), state: final(c).state_of(), action: r }),
    {
        match ev {
            InvokeEvent::PreDone(res) => {
                match res {
                    Ok(_) => {
                        self.phase = InvokePhase::AwaitOperation;
                        InvokeAction::RunOperation { forced: false }
                    },
                    Err(e) => {
                        if self.force {
                            self.phase = InvokePhase::AwaitOperation;
                            InvokeAction::RunOperation { forced: true }
                        } else {
                            self.phase = InvokePhase::AwaitNotify;
                            self.pending = Some(Err(e));
                            InvokeAction::RunNotify
                        }
                    },
                }
            },
            InvokeEvent::OperationDone(res) => {
                c.state = match &res {
                    Ok(_) => State::Success,
                    Err(_) => State::Failure,
                };
                self.pending = Some(res);
                self.phase = InvokePhase::AwaitPost;
                InvokeAction::RunPost
            },
            InvokeEvent::PostDone => {
                self.phase = InvokePhase::AwaitNotify;
                InvokeAction::RunNotify
            },
            InvokeEvent::Notified => {
                self.phase = InvokePhase::Done;
                match self.pending.take() {
                    Some(p) => InvokeAction::Finish(p),
                    None => InvokeAction::Finish(Err(DeviceError::UnknownError)),
                }
            },
        }
    }
}

impl Callout {
    /// Begins an operation under callout scripts: the configuration handed to the scripts is
    /// prepared (a device without a type fails here, before any script runs) and the pre
    /// script is to run first.
    pub fn begin_invoke(&self, action: Action, force: bool) -> (r: Result<Invocation, DeviceError>)
        ensures
            self.device().mdev_type is None ==> r == Err::<Invocation, DeviceError>(DeviceError::MissingType { uuid: self.device().uuid }),
            self.device().mdev_type is Some ==> (r matches Ok(inv)
                && inv.action_of() == action && inv.force_of() == force
                && inv.phase_of() == InvokePhase::AwaitPre
                && inv.pending_of() is None
                && inv.conf_of() == crate::json::json_compact_text(crate::mdev::config_json(self.device()@))),
    {
        let conf = self.config_text()?;
        Ok(Invocation { action, force, conf, phase: InvokePhase::AwaitPre, pending: None })
    }
}

/// The text `String::from_utf8_lossy` makes of some bytes.
pub uninterp spec fn lossy_utf8(b: Seq<u8>) -> Seq<char>;

/// `String::from_utf8_lossy`: valid UTF-8 is decoded as is (invalid sequences become U+FFFD).
#[verifier::external_body]
pub(crate) fn utf8_lossy(b: &[u8]) -> (r: String)
    ensures
        r@ == lossy_utf8(b@),
        vstd::utf8::valid_utf8(b@) ==> r@ == vstd::utf8::decode_utf8(b@),
{
    String::from_utf8_lossy(b).to_string()
}

/// The candidate scripts of a directory in the order they are tried (sorted by path).
pub fn sort_scripts(paths: Vec<String>) -> (r: Vec<String>)
    ensures
        r@ == crate::sorting::stable_sort(paths@),
{
    crate::sorting::sort_by_key(paths)
}

} // verus!
