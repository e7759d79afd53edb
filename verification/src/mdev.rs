//! Mediated devices and device types.

use vstd::prelude::*;
use crate::error::DeviceError;
use crate::json::{JsonValue, JsonData, member, json_data, json_data_seq, json_entries, lemma_json_data_seq, lemma_json_entries};

verus! {

/// The content of an optional string.
pub open spec fn opt_view(o: Option<String>) -> Option<Seq<char>> {
    match o {
        Some(s) => Some(s@),
        None => None,
    }
}

/// The content of a list of (name, value) attributes.
pub open spec fn attrs_view(a: Seq<(String, String)>) -> Seq<(Seq<char>, Seq<char>)> {
    a.map_values(|p: (String, String)| (p.0@, p.1@))
}

/// Which listing a device's text line belongs to.
#[derive(Clone, Copy, Debug, PartialEq, Eq, Structural)]
pub enum FormatType {
    Active,
    Defined,
}

/// The mathematical content of an [`MDev`].
pub struct MDevView {
    pub uuid: u128,
    pub active: bool,
    pub autostart: bool,
    pub parent: Option<Seq<char>>,
    pub mdev_type: Option<Seq<char>>,
    pub attrs: Seq<(Seq<char>, Seq<char>)>,
}

/// Representation of a mediated device.
#[derive(Debug)]
pub struct MDev {
    pub uuid: u128,
    pub active: bool,
    pub autostart: bool,
    pub parent: Option<String>,
    pub mdev_type: Option<String>,
    pub attrs: Vec<(String, String)>,
}

impl Clone for MDev {
    /// A copy with the same content.
    fn clone(&self) -> (r: MDev)
        ensures
            r@ == self@,
    {
        let mut attrs: Vec<(String, String)> = Vec::new();
        let mut i: usize = 0;
        while i < self.attrs.len()
            invariant
                0 <= i <= self.attrs.len(),
                attrs_view(attrs@) == attrs_view(self.attrs@.take(i as int)),
            decreases self.attrs.len() - i,
        {
            let ghost before = attrs@;
            attrs.push((self.attrs[i].0.clone(), self.attrs[i].1.clone()));
            assert(attrs_view(attrs@) =~= attrs_view(self.attrs@.take(i + 1))) by {
                assert(self.attrs@.take(i + 1) =~= self.attrs@.take(i as int).push(self.attrs@[i as int]));
                assert(attrs_view(attrs@) =~= attrs_view(before).push((self.attrs@[i as int].0@, self.attrs@[i as int].1@)));
            }
            i = i + 1;
        }
        assert(self.attrs@.take(i as int) =~= self.attrs@);
        let parent = match &self.parent { Some(p) => Some(p.clone()), None => None };
        let mdev_type = match &self.mdev_type { Some(t) => Some(t.clone()), None => None };
        MDev { uuid: self.uuid, active: self.active, autostart: self.autostart, parent, mdev_type, attrs }
    }
}

impl View for MDev {
    type V = MDevView;

    open spec fn view(&self) -> MDevView {
        MDevView {
            uuid: self.uuid,
            active: self.active,
            autostart: self.autostart,
            parent: opt_view(self.parent),
            mdev_type: opt_view(self.mdev_type),
            attrs: attrs_view(self.attrs@),
        }
    }
}

/// Whether an attribute entry is an object with exactly one member.
pub open spec fn single_member(d: JsonData) -> bool {
    d matches JsonData::Object(es) && es.len() == 1
}

/// Whether an attribute entry is an object with exactly one member, whose value is a string.
pub open spec fn is_attr_pair(d: JsonData) -> bool {
    single_member(d) && d->Object_0[0].1 is Str
}

/// The (name, value) that an attribute entry stands for.
pub open spec fn attr_pair(d: JsonData) -> (Seq<char>, Seq<char>) {
    (d->Object_0[0].0, d->Object_0[0].1->Str_0)
}

/// The number of leading entries that are well-formed attributes.
pub open spec fn first_non_pair(e: Seq<JsonData>) -> nat
    decreases e.len(),
{
    if e.len() == 0 {
        0
    } else if !is_attr_pair(e[0]) {
        0
    } else {
        1 + first_non_pair(e.drop_first())
    }
}

pub proof fn lemma_first_non_pair(e: Seq<JsonData>)
    ensures
        first_non_pair(e) <= e.len(),
        forall|j: int| 0 <= j < first_non_pair(e) ==> is_attr_pair(#[trigger] e[j]),
        first_non_pair(e) < e.len() ==> !is_attr_pair(e[first_non_pair(e) as int]),
    decreases e.len(),
{
    if e.len() > 0 && is_attr_pair(e[0]) {
        let r = e.drop_first();
        lemma_first_non_pair(r);
        assert forall|j: int| 0 <= j < first_non_pair(e) implies is_attr_pair(#[trigger] e[j]) by {
            if j > 0 {
                assert(e[j] == r[j - 1]);
            }
        }
        if first_non_pair(e) < e.len() {
            assert(e[first_non_pair(e) as int] == r[first_non_pair(r) as int]);
        }
    }
}

/// How the attribute list of a configuration is judged.
pub enum AttrsCheck {
    Fine,
    NotArray,
    NotObject,
    TooManyFields,
}

/// The judgement on an `attrs` member: null or an array of single-member objects is fine;
/// otherwise the first offending entry decides.
pub open spec fn attrs_check(attrs: JsonData) -> AttrsCheck {
    match attrs {
        JsonData::Null => AttrsCheck::Fine,
        JsonData::Array(e) => {
            let k = first_non_pair(e);
            if k >= e.len() {
                AttrsCheck::Fine
            } else if !(e[k as int] is Object) {
                AttrsCheck::NotObject
            } else {
                AttrsCheck::TooManyFields
            }
        },
        _ => AttrsCheck::NotArray,
    }
}

/// The attributes read from an `attrs` member before the first offending entry.
pub open spec fn attrs_read(attrs: JsonData) -> Seq<(Seq<char>, Seq<char>)> {
    match attrs {
        JsonData::Array(e) => e.take(first_non_pair(e) as int).map_values(|d: JsonData| attr_pair(d)),
        _ => Seq::empty(),
    }
}

/// The inputs on which reading attributes does not abort: the first entry that is not a
/// well-formed attribute is not an object with exactly one (non-string) member.
pub open spec fn attrs_readable(attrs: JsonData) -> bool {
    attrs matches JsonData::Array(e) ==> (first_non_pair(e) < e.len() ==> !single_member(e[first_non_pair(e) as int]))
}

/// Whether `err` is the error that the judgement `c` calls for.
pub open spec fn attrs_error_is(err: DeviceError, c: AttrsCheck) -> bool {
    match c {
        AttrsCheck::NotArray => err is AttributesNotArray,
        AttrsCheck::NotObject => err is AttributeNotObject,
        AttrsCheck::TooManyFields => err is AttributeTooManyFields,
        AttrsCheck::Fine => false,
    }
}

/// Whether a configuration names both an mdev type and a start mode (neither is null).
pub open spec fn config_complete(json: JsonData) -> bool {
    !(member(json, "mdev_type"@) is Null) && !(member(json, "start"@) is Null)
}

/// The inputs on which loading a configuration does not abort: a present `mdev_type` is a
/// string and the attribute list is readable.
pub open spec fn config_readable(json: JsonData) -> bool {
    config_complete(json) ==> (member(json, "mdev_type"@) is Str && attrs_readable(member(json, "attrs"@)))
}

/// The device after loading configuration `json` under `parent`.
pub open spec fn loaded_config(old: MDevView, parent: Seq<char>, json: JsonData) -> MDevView {
    if config_complete(json) {
        MDevView {
            parent: Some(parent),
            mdev_type: Some(member(json, "mdev_type"@)->Str_0),
            autostart: member(json, "start"@) == JsonData::Str("auto"@),
            attrs: old.attrs + attrs_read(member(json, "attrs"@)),
            ..old
        }
    } else {
        MDevView { parent: Some(parent), ..old }
    }
}

/// Whether loading configuration `json` succeeds.
pub open spec fn config_loads(json: JsonData) -> bool {
    config_complete(json) && attrs_check(member(json, "attrs"@)) is Fine
}

/// Whether `err` is the error that loading configuration `json` reports.
pub open spec fn config_error_is(err: DeviceError, json: JsonData) -> bool {
    if config_complete(json) {
        attrs_error_is(err, attrs_check(member(json, "attrs"@)))
    } else {
        err is InvalidJson
    }
}

/// The JSON object for one attribute: `{name: value}`.
pub open spec fn attr_json(p: (Seq<char>, Seq<char>)) -> JsonData {
    JsonData::Object(seq![(p.0, JsonData::Str(p.1))])
}

/// The start mode word of a device.
pub open spec fn start_word(autostart: bool) -> Seq<char> {
    if autostart { "auto"@ } else { "manual"@ }
}

/// The stored configuration of a device (which must have a type):
/// `{"mdev_type": type, "start": "auto"|"manual", "attrs": [{name: value}, ..]}`.
pub open spec fn config_json(d: MDevView) -> JsonData {
    JsonData::Object(seq![
        ("mdev_type"@, JsonData::Str(d.mdev_type->0)),
        ("start"@, JsonData::Str(start_word(d.autostart))),
        ("attrs"@, JsonData::Array(d.attrs.map_values(|p: (Seq<char>, Seq<char>)| attr_json(p)))),
    ])
}

/// The configuration keyed by the device's UUID: `{uuid: config}`.
pub open spec fn keyed_config_json(d: MDevView) -> JsonData {
    JsonData::Object(seq![(crate::ids::hyphenated(d.uuid), config_json(d))])
}

/// One line of the attribute listing: `    @{i}: {"name":"value"}`.
pub open spec fn attr_line(i: nat, p: (Seq<char>, Seq<char>)) -> Seq<char> {
    "    @{"@ + crate::text::decimal(i) + "}: {\""@ + p.0 + "\":\""@ + p.1 + "\"}\n"@
}

/// The listing lines of the first `n` attributes.
pub open spec fn attr_lines(attrs: Seq<(Seq<char>, Seq<char>)>, n: nat) -> Seq<char>
    decreases n,
{
    if n == 0 {
        Seq::empty()
    } else {
        attr_lines(attrs, (n - 1) as nat) + attr_line((n - 1) as nat, attrs[n - 1])
    }
}

/// The attribute listing of a device: nothing when it has no attributes, else a heading line
/// and one numbered line per attribute.
pub open spec fn attrs_text(attrs: Seq<(Seq<char>, Seq<char>)>) -> Seq<char> {
    if attrs.len() == 0 {
        Seq::empty()
    } else {
        "  Attrs:\n"@ + attr_lines(attrs, attrs.len())
    }
}

/// The hint shown with an invalid attribute index.
pub open spec fn attribute_hint_text(d: MDevView) -> Seq<char> {
    if d.attrs.len() == 0 {
        "Device "@ + crate::ids::hyphenated(d.uuid) + " has no attributes"@
    } else {
        attrs_text(d.attrs)
    }
}

/// Whether `to_text` refuses the device: a defined listing needs a stored definition, an
/// active listing a running device.
pub open spec fn text_refused(d: MDevView, fmt: FormatType, defined: bool) -> bool {
    match fmt {
        FormatType::Defined => !defined,
        FormatType::Active => !d.active,
    }
}

/// The listing text of a device (which must have a parent and a type): `uuid parent type`,
/// then in the defined listing ` auto|manual` and ` (active)` for a running device, or in the
/// active listing ` (defined)` for a defined device; a newline, and in verbose mode the
/// attribute listing.
pub open spec fn device_text(d: MDevView, fmt: FormatType, verbose: bool, defined: bool) -> Seq<char> {
    crate::ids::hyphenated(d.uuid) + " "@ + d.parent->0 + " "@ + d.mdev_type->0
        + (match fmt {
            FormatType::Defined => " "@ + start_word(d.autostart)
                + if d.active { " (active)"@ } else { Seq::empty() },
            FormatType::Active => if defined { " (defined)"@ } else { Seq::empty() },
        })
        + "\n"@ + (if verbose { attrs_text(d.attrs) } else { Seq::empty() })
}

impl MDevView {
    pub open spec fn with_attrs(self, attrs: Seq<(Seq<char>, Seq<char>)>) -> MDevView {
        MDevView { attrs, ..self }
    }
}

impl MDev {
    /// A device with the given UUID and nothing else known: inactive, manual start, no parent,
    /// no type, no attributes.
    pub fn new(uuid: u128) -> (d: MDev)
        ensures
            d@ == (MDevView { uuid, active: false, autostart: false, parent: None, mdev_type: None, attrs: Seq::empty() }),
    {
        let d = MDev { uuid, active: false, autostart: false, parent: None, mdev_type: None, attrs: Vec::new() };
        assert(attrs_view(d.attrs@) =~= Seq::empty());
        d
    }

    /// The parent, or an error naming the device when it has none.
    pub fn parent(&self) -> (r: Result<&String, DeviceError>)
        ensures
            match r {
                Ok(p) => self.parent == Some(*p),
                Err(e) => self.parent is None && e == (DeviceError::MissingParent { uuid: self.uuid }),
            },
    {
        match &self.parent {
            Some(p) => Ok(p),
            None => Err(DeviceError::MissingParent { uuid: self.uuid }),
        }
    }

    /// The mdev type, or an error naming the device when it has none.
    pub fn mdev_type(&self) -> (r: Result<&String, DeviceError>)
        ensures
            match r {
                Ok(t) => self.mdev_type == Some(*t),
                Err(e) => self.mdev_type is None && e == (DeviceError::MissingType { uuid: self.uuid }),
            },
    {
        match &self.mdev_type {
            Some(t) => Ok(t),
            None => Err(DeviceError::MissingType { uuid: self.uuid }),
        }
    }

    /// Loads a stored configuration (`{"mdev_type": .., "start": .., "attrs": [..]}`) for
    /// this device under `parent`. The parent is set in every case. A configuration without a
    /// type or start mode is invalid; otherwise the type is taken, the device starts
    /// automatically exactly when `start` is "auto", and the attributes are appended.
    pub fn load_from_json(&mut self, parent: String, json: &JsonValue) -> (r: Result<(), DeviceError>)
        requires
            config_readable(json@),
        ensures
            final(self)@ == loaded_config(old(self)@, parent@, json@),
            r is Ok <==> config_loads(json@),
            r matches Err(e) ==> config_error_is(e, json@),
    {
        self.parent = Some(parent);
        let mt = json.member("mdev_type");
        let st = json.member("start");
        let mt_null = match mt { Some(v) => v.is_null(), None => true };
        let st_null = match st { Some(v) => v.is_null(), None => true };
        if mt_null || st_null {
            return Err(DeviceError::InvalidJson);
        }
        let mdev_type = match mt {
            Some(v) => match v.as_str() {
                Some(t) => t.to_owned(),
                None => {
                    assert(false);
                    return Err(DeviceError::InvalidJson);
                },
            },
            None => {
                assert(false);
                return Err(DeviceError::InvalidJson);
            },
        };
        self.mdev_type = Some(mdev_type);
        self.autostart = match st {
            Some(v) => match v.as_str() {
                Some(s) => crate::text::str_eq(s, "auto"),
                None => false,
            },
            None => false,
        };
        match json.member("attrs") {
            Some(a) => self.add_attributes(a),
            None => {
                let nothing = JsonValue::Null;
                self.add_attributes(&nothing)
            },
        }
    }

    /// The stored configuration of the device, optionally keyed by its UUID.
    pub fn to_json(&self, include_uuid: bool) -> (r: Result<JsonValue, DeviceError>)
        ensures
            r is Ok <==> self.mdev_type is Some,
            r matches Err(e) ==> e == (DeviceError::MissingType { uuid: self.uuid }),
            r matches Ok(j) ==> j@ == if include_uuid { keyed_config_json(self@) } else { config_json(self@) },
    {
        let mdev_type = self.mdev_type()?;
        let start = if self.autostart { "auto" } else { "manual" };
        let mut jattrs: Vec<JsonValue> = Vec::new();
        let mut i: usize = 0;
        while i < self.attrs.len()
            invariant
                0 <= i <= self.attrs.len(),
                jattrs@.len() == i,
                forall|j: int| 0 <= j < i ==> #[trigger] json_data(jattrs@[j]) == attr_json(self@.attrs[j]),
            decreases self.attrs.len() - i,
        {
            let mut entry: Vec<(String, JsonValue)> = Vec::new();
            entry.push((self.attrs[i].0.clone(), JsonValue::String(self.attrs[i].1.clone())));
            let obj = JsonValue::Object(entry);
            proof {
                lemma_json_entries(entry@);
                assert(json_entries(entry@) =~= seq![(self@.attrs[i as int].0, JsonData::Str(self@.attrs[i as int].1))]);
            }
            jattrs.push(obj);
            i = i + 1;
        }
        let mut partial: Vec<(String, JsonValue)> = Vec::new();
        partial.push(("mdev_type".to_owned(), JsonValue::String(mdev_type.clone())));
        partial.push(("start".to_owned(), JsonValue::String(start.to_owned())));
        let ghost ja = jattrs@;
        partial.push(("attrs".to_owned(), JsonValue::Array(jattrs)));
        proof {
            lemma_json_data_seq(ja);
            lemma_json_entries(partial@);
            assert(json_data_seq(ja) =~= self@.attrs.map_values(|p: (Seq<char>, Seq<char>)| attr_json(p)));
            assert(json_entries(partial@) =~= config_json(self@)->Object_0);
        }
        let partial = JsonValue::Object(partial);
        if include_uuid {
            let mut full: Vec<(String, JsonValue)> = Vec::new();
            full.push((crate::ids::uuid_hyphenated(self.uuid), partial));
            proof {
                lemma_json_entries(full@);
                assert(json_entries(full@) =~= keyed_config_json(self@)->Object_0);
            }
            Ok(JsonValue::Object(full))
        } else {
            Ok(partial)
        }
    }

    /// The listing text of the device; `defined` tells whether a stored definition exists.
    pub fn to_text(&self, fmt: FormatType, verbose: bool, defined: bool) -> (r: Result<String, DeviceError>)
        ensures
            match r {
                Ok(s) => !text_refused(self@, fmt, defined) && self.parent is Some && self.mdev_type is Some
                    && s@ == device_text(self@, fmt, verbose, defined),
                Err(e) => if text_refused(self@, fmt, defined) {
                    match fmt {
                        FormatType::Defined => e is NotDefined,
                        FormatType::Active => e is NotActive,
                    }
                } else if self.parent is None {
                    e == (DeviceError::MissingParent { uuid: self.uuid })
                } else {
                    self.mdev_type is None && e == (DeviceError::MissingType { uuid: self.uuid })
                },
            },
    {
        match fmt {
            FormatType::Defined => {
                if !defined {
                    return Err(DeviceError::NotDefined);
                }
            },
            FormatType::Active => {
                if !self.active {
                    return Err(DeviceError::NotActive);
                }
            },
        }
        let mut out = crate::ids::uuid_hyphenated(self.uuid);
        crate::text::push_str(&mut out, " ");
        let parent = self.parent()?;
        crate::text::push_str(&mut out, parent.as_str());
        crate::text::push_str(&mut out, " ");
        let mdev_type = self.mdev_type()?;
        crate::text::push_str(&mut out, mdev_type.as_str());
        match fmt {
            FormatType::Defined => {
                crate::text::push_str(&mut out, " ");
                crate::text::push_str(&mut out, if self.autostart { "auto" } else { "manual" });
                if self.active {
                    crate::text::push_str(&mut out, " (active)");
                }
            },
            FormatType::Active => {
                if defined {
                    crate::text::push_str(&mut out, " (defined)");
                }
            },
        }
        crate::text::push_str(&mut out, "\n");
        if verbose {
            let a = self.fmt_attrs();
            crate::text::push_str(&mut out, a.as_str());
        }
        assert(out@ =~= device_text(self@, fmt, verbose, defined));
        Ok(out)
    }

    /// The text of the device's stored definition: its configuration as pretty JSON.
    pub fn config_text(&self) -> (r: Result<String, DeviceError>)
        ensures
            r is Ok <==> self.mdev_type is Some,
            r matches Err(e) ==> e == (DeviceError::MissingType { uuid: self.uuid }),
            r matches Ok(s) ==> s@ == crate::json::json_pretty_text(config_json(self@)),
    {
        let j = self.to_json(false)?;
        Ok(crate::json::serde_pretty(&j))
    }

    /// The attribute listing: nothing when there are no attributes, else a heading and one
    /// line `    @{i}: {"name":"value"}` per attribute.
    pub fn fmt_attrs(&self) -> (s: String)
        ensures
            s@ == attrs_text(self@.attrs),
    {
        let mut out = String::new();
        if self.attrs.len() > 0 {
            crate::text::push_str(&mut out, "  Attrs:\n");
            let mut i: usize = 0;
            while i < self.attrs.len()
                invariant
                    0 <= i <= self.attrs.len(),
                    self@.attrs.len() == self.attrs.len(),
                    out@ == "  Attrs:\n"@ + attr_lines(self@.attrs, i as nat),
                decreases self.attrs.len() - i,
            {
                let ghost before = out@;
                crate::text::push_str(&mut out, "    @{");
                crate::text::push_decimal(&mut out, i as u64);
                crate::text::push_str(&mut out, "}: {\"");
                crate::text::push_str(&mut out, self.attrs[i].0.as_str());
                crate::text::push_str(&mut out, "\":\"");
                crate::text::push_str(&mut out, self.attrs[i].1.as_str());
                crate::text::push_str(&mut out, "\"}\n");
                proof {
                    let p = self@.attrs[i as int];
                    assert(p == (self.attrs@[i as int].0@, self.attrs@[i as int].1@));
                    assert(out@ =~= before + attr_line(i as nat, p));
                    assert(attr_lines(self@.attrs, (i + 1) as nat) == attr_lines(self@.attrs, i as nat) + attr_line(i as nat, p));
                }
                i = i + 1;
            }
        }
        out
    }

    /// The hint shown with an invalid attribute index: the attribute listing, or a note that
    /// the device has none.
    pub fn attribute_hint(&self) -> (s: String)
        ensures
            s@ == attribute_hint_text(self@),
    {
        if self.attrs.len() == 0 {
            let mut s = "Device ".to_owned();
            let u = crate::ids::uuid_hyphenated(self.uuid);
            crate::text::push_str(&mut s, u.as_str());
            crate::text::push_str(&mut s, " has no attributes");
            s
        } else {
            self.fmt_attrs()
        }
    }

    /// Inserts attribute (name, value) at `index`, or appends it when no index is given. An
    /// index beyond the end of the list is an error and leaves the device unchanged.
    pub fn add_attribute(&mut self, name: String, value: String, index: Option<usize>) -> (r: Result<(), DeviceError>)
        ensures
            match index {
                Some(i) => if i > old(self)@.attrs.len() {
                    &&& final(self)@ == old(self)@
                    &&& r matches Err(e) && e matches DeviceError::InvalidAttributeIndex { index: j, hint } && j == i && hint@ == attribute_hint_text(old(self)@)
                } else {
                    &&& r is Ok
                    &&& final(self)@ == old(self)@.with_attrs(old(self)@.attrs.insert(i as int, (name@, value@)))
                },
                None => r is Ok && final(self)@ == old(self)@.with_attrs(old(self)@.attrs.push((name@, value@))),
            },
    {
        match index {
            Some(i) => {
                if i > self.attrs.len() {
                    return Err(DeviceError::InvalidAttributeIndex { index: i, hint: self.attribute_hint() });
                }
                let ghost before = self.attrs@;
                self.attrs.insert(i, (name, value));
                assert(attrs_view(self.attrs@) =~= attrs_view(before).insert(i as int, (name@, value@)));
            },
            None => {
                let ghost before = self.attrs@;
                self.attrs.push((name, value));
                assert(attrs_view(self.attrs@) =~= attrs_view(before).push((name@, value@)));
            },
        }
        Ok(())
    }

    /// Removes the attribute at `index`, or the last one when no index is given (nothing
    /// happens when there are none). An index past the last attribute is an error and leaves
    /// the device unchanged.
    pub fn delete_attribute(&mut self, index: Option<usize>) -> (r: Result<(), DeviceError>)
        ensures
            match index {
                Some(i) => if i >= old(self)@.attrs.len() {
                    &&& final(self)@ == old(self)@
                    &&& r matches Err(e) && e matches DeviceError::InvalidAttributeIndex { index: j, hint } && j == i && hint@ == attribute_hint_text(old(self)@)
                } else {
                    &&& r is Ok
                    &&& final(self)@ == old(self)@.with_attrs(old(self)@.attrs.remove(i as int))
                },
                None => r is Ok && final(self)@ == old(self)@.with_attrs(
                    if old(self)@.attrs.len() == 0 { old(self)@.attrs } else { old(self)@.attrs.drop_last() }),
            },
    {
        match index {
            Some(i) => {
                if i >= self.attrs.len() {
                    return Err(DeviceError::InvalidAttributeIndex { index: i, hint: self.attribute_hint() });
                }
                let ghost before = self.attrs@;
                self.attrs.remove(i);
                assert(attrs_view(self.attrs@) =~= attrs_view(before).remove(i as int));
            },
            None => {
                let ghost before = self.attrs@;
                self.attrs.pop();
                assert(attrs_view(self.attrs@) =~= if before.len() == 0 { attrs_view(before) } else { attrs_view(before).drop_last() });
            },
        }
        Ok(())
    }

    /// Appends the attributes of a configuration's `attrs` member: null adds nothing, an array
    /// of single-member objects with string values adds one (name, value) per entry, in order.
    /// Anything else is an error; entries before the first offending one are still added.
    pub fn add_attributes(&mut self, attrs: &JsonValue) -> (r: Result<(), DeviceError>)
        requires
            attrs_readable(attrs@),
        ensures
            final(self)@ == old(self)@.with_attrs(old(self)@.attrs + attrs_read(attrs@)),
            r is Ok <==> attrs_check(attrs@) is Fine,
            r matches Err(e) ==> attrs_error_is(e, attrs_check(attrs@)),
    {
        match attrs {
            JsonValue::Null => {
                assert(old(self)@.attrs + Seq::empty() =~= old(self)@.attrs);
                Ok(())
            },
            JsonValue::Array(items) => {
                let ghost e = json_data_seq(items@);
                proof {
                    lemma_json_data_seq(items@);
                    lemma_first_non_pair(e);
                }
                let ghost k = first_non_pair(e);
                let ghost old_attrs = self@.attrs;
                let mut i: usize = 0;
                while i < items.len()
                    invariant
                        0 <= i <= items.len(),
                        e == json_data_seq(items@),
                        e.len() == items.len(),
                        forall|j: int| 0 <= j < items.len() ==> #[trigger] e[j] == json_data(items@[j]),
                        k == first_non_pair(e),
                        k <= e.len(),
                        forall|j: int| 0 <= j < k ==> is_attr_pair(#[trigger] e[j]),
                        k < e.len() ==> !is_attr_pair(e[k as int]),
                        k < e.len() ==> !single_member(e[k as int]),
                        i <= k,
                        attrs@ == JsonData::Array(e),
                        self@ == old(self)@.with_attrs(old_attrs + e.take(i as int).map_values(|d: JsonData| attr_pair(d))),
                        old_attrs == old(self)@.attrs,
                    decreases items.len() - i,
                {
                    let item = &items[i];
                    match item {
                        JsonValue::Object(es) => {
                            proof { lemma_json_entries(es@); }
                            if es.len() != 1 {
                                proof {
                                    assert(!is_attr_pair(e[i as int]));
                                    assert(k == i);
                                    assert(e.take(k as int) =~= e.take(i as int));
                                }
                                return Err(DeviceError::AttributeTooManyFields);
                            }
                            let key = &es[0].0;
                            match es[0].1.as_str() {
                                Some(val) => {
                                    let pair = (key.clone(), val.to_owned());
                                    let ghost before = self.attrs@;
                                    self.attrs.push(pair);
                                    proof {
                                        assert(is_attr_pair(e[i as int]));
                                        assert(i < k);
                                        assert(attr_pair(e[i as int]) == (pair.0@, pair.1@));
                                        assert(attrs_view(self.attrs@) =~= attrs_view(before).push((pair.0@, pair.1@)));
                                        assert(e.take(i + 1).map_values(|d: JsonData| attr_pair(d))
                                            =~= e.take(i as int).map_values(|d: JsonData| attr_pair(d)).push(attr_pair(e[i as int])));
                                        assert(old_attrs + e.take(i + 1).map_values(|d: JsonData| attr_pair(d))
                                            =~= (old_attrs + e.take(i as int).map_values(|d: JsonData| attr_pair(d))).push(attr_pair(e[i as int])));
                                    }
                                },
                                None => {
                                    proof {
                                        assert(!is_attr_pair(e[i as int]));
                                        assert(single_member(e[i as int]));
                                        assert(false);
                                    }
                                    return Err(DeviceError::AttributeTooManyFields);
                                },
                            }
                        },
                        _ => {
                            proof {
                                assert(!is_attr_pair(e[i as int]));
                                assert(k == i);
                                assert(e.take(k as int) =~= e.take(i as int));
                            }
                            return Err(DeviceError::AttributeNotObject);
                        },
                    }
                    i = i + 1;
                }
                proof {
                    assert(e.take(i as int) =~= e.take(k as int));
                }
                Ok(())
            },
            _ => {
                assert(old(self)@.attrs + Seq::empty() =~= old(self)@.attrs);
                Err(DeviceError::AttributesNotArray)
            },
        }
    }
}

/// The mathematical content of an [`MDevType`].
pub struct MDevTypeView {
    pub parent: Seq<char>,
    pub typename: Seq<char>,
    pub available_instances: i32,
    pub device_api: Seq<char>,
    pub name: Seq<char>,
    pub description: Seq<char>,
}

/// Representation of a mediated device type offered by a parent device.
#[derive(Debug)]
pub struct MDevType {
    pub parent: String,
    pub typename: String,
    pub available_instances: i32,
    pub device_api: String,
    pub name: String,
    pub description: String,
}

impl View for MDevType {
    type V = MDevTypeView;

    open spec fn view(&self) -> MDevTypeView {
        MDevTypeView {
            parent: self.parent@,
            typename: self.typename@,
            available_instances: self.available_instances,
            device_api: self.device_api@,
            name: self.name@,
            description: self.description@,
        }
    }
}

/// The JSON description of a type:
/// `{typename: {"available_instances": n, "device_api": api, "name": .., "description": ..}}`,
/// where name and description appear only when they are not empty.
pub open spec fn type_json(t: MDevTypeView) -> JsonData {
    let base = seq![
        ("available_instances"@, JsonData::Number(crate::json::json_int(t.available_instances as i64))),
        ("device_api"@, JsonData::Str(t.device_api)),
    ];
    let with_name = if t.name.len() > 0 { base.push(("name"@, JsonData::Str(t.name))) } else { base };
    let with_desc = if t.description.len() > 0 {
        with_name.push(("description"@, JsonData::Str(t.description)))
    } else {
        with_name
    };
    JsonData::Object(seq![(t.typename, JsonData::Object(with_desc))])
}

impl MDevType {
    /// A type with every text empty and no available instances.
    pub fn new() -> (t: MDevType)
        ensures
            t@ == (MDevTypeView {
                parent: Seq::empty(),
                typename: Seq::empty(),
                available_instances: 0,
                device_api: Seq::empty(),
                name: Seq::empty(),
                description: Seq::empty(),
            }),
    {
        MDevType {
            parent: String::new(),
            typename: String::new(),
            available_instances: 0,
            device_api: String::new(),
            name: String::new(),
            description: String::new(),
        }
    }

    /// A type found under `parent` in the sysfs directory `typename`, from the contents of its
    /// files: the device API, name and description are trimmed, and newlines in the description
    /// become ", "; a missing name or description is empty.
    pub fn from_sysfs(parent: String, typename: String, available_instances: i32, device_api: &str,
        name: Option<&str>, description: Option<&str>) -> (t: MDevType)
        ensures
            t@ == (MDevTypeView {
                parent: parent@,
                typename: typename@,
                available_instances,
                device_api: crate::text::trimmed(device_api@),
                name: match name { Some(n) => crate::text::trimmed(n@), None => Seq::empty() },
                description: match description {
                    Some(d) => crate::text::newlines_to_commas(crate::text::trimmed(d@)),
                    None => Seq::empty(),
                },
            }),
    {
        let mut t = MDevType::new();
        t.parent = parent;
        t.typename = typename;
        t.available_instances = available_instances;
        t.device_api = crate::text::trim(device_api);
        match name {
            Some(n) => { t.name = crate::text::trim(n); },
            None => {},
        }
        match description {
            Some(d) => {
                let trimmed = crate::text::trim(d);
                t.description = crate::text::replace_newlines(trimmed.as_str());
            },
            None => {},
        }
        t
    }

    /// The JSON description of the type; it never fails.
    pub fn to_json(&self) -> (r: Result<JsonValue, DeviceError>)
        ensures
            r matches Ok(j) && j@ == type_json(self@),
    {
        let mut obj: Vec<(String, JsonValue)> = Vec::new();
        obj.push(("available_instances".to_owned(), JsonValue::Number(crate::json::serde_int(self.available_instances as i64))));
        obj.push(("device_api".to_owned(), JsonValue::String(self.device_api.clone())));
        if !self.name.as_str().is_empty() {
            obj.push(("name".to_owned(), JsonValue::String(self.name.clone())));
        }
        if !self.description.as_str().is_empty() {
            obj.push(("description".to_owned(), JsonValue::String(self.description.clone())));
        }
        proof {
            lemma_json_entries(obj@);
            assert(json_entries(obj@) =~= type_json(self@)->Object_0[0].1->Object_0);
        }
        let mut full: Vec<(String, JsonValue)> = Vec::new();
        full.push((self.typename.clone(), JsonValue::Object(obj)));
        proof {
            lemma_json_entries(full@);
            assert(json_entries(full@) =~= type_json(self@)->Object_0);
        }
        Ok(JsonValue::Object(full))
    }
}

/// Whether two optional strings hold the same text.
pub fn opt_text_eq(a: &Option<String>, b: &Option<String>) -> (r: bool)
    ensures
        r == (opt_view(*a) == opt_view(*b)),
{
    match (a, b) {
        (Some(x), Some(y)) => crate::text::str_eq(x.as_str(), y.as_str()),
        (None, None) => true,
        _ => false,
    }
}

/// Reads a stored configuration (or any JSON document) from its text.
pub fn parse_config(text: &str) -> (r: Result<JsonValue, DeviceError>)
    ensures
        r is Ok <==> crate::json::json_parse(text@) is Some,
        r matches Ok(j) ==> crate::json::json_parse(text@) == Some(j@),
        r matches Err(e) ==> e is JsonSyntax,
{
    match crate::json::serde_parse(text) {
        Ok(j) => Ok(j),
        Err(e) => Err(DeviceError::JsonSyntax(e)),
    }
}

/// Whether a configuration can be loaded without aborting (see [`config_readable`]).
pub fn config_is_readable(json: &JsonValue) -> (r: bool)
    ensures
        r == config_readable(json@),
{
    let mt = json.member("mdev_type");
    let st = json.member("start");
    let mt_null = match mt { Some(v) => v.is_null(), None => true };
    let st_null = match st { Some(v) => v.is_null(), None => true };
    if mt_null || st_null {
        return true;
    }
    let mt_str = match mt { Some(v) => v.as_str().is_some(), None => false };
    if !mt_str {
        return false;
    }
    match json.member("attrs") {
        Some(a) => attrs_are_readable(a),
        None => true,
    }
}

/// Whether an attribute list can be read without aborting (see [`attrs_readable`]).
pub fn attrs_are_readable(attrs: &JsonValue) -> (r: bool)
    ensures
        r == attrs_readable(attrs@),
{
    match attrs {
        JsonValue::Array(items) => {
            let ghost e = json_data_seq(items@);
            proof {
                lemma_json_data_seq(items@);
                lemma_first_non_pair(e);
            }
            let mut i: usize = 0;
            while i < items.len()
                invariant
                    0 <= i <= items.len(),
                    e == json_data_seq(items@),
                    e.len() == items.len(),
                    forall|j: int| 0 <= j < items.len() ==> #[trigger] e[j] == json_data(items@[j]),
                    first_non_pair(e) <= e.len(),
                    forall|j: int| 0 <= j < first_non_pair(e) ==> is_attr_pair(#[trigger] e[j]),
                    first_non_pair(e) < e.len() ==> !is_attr_pair(e[first_non_pair(e) as int]),
                    i <= first_non_pair(e),
                    attrs@ == JsonData::Array(e),
                decreases items.len() - i,
            {
                match &items[i] {
                    JsonValue::Object(es) => {
                        proof { lemma_json_entries(es@); }
                        if es.len() != 1 {
                            assert(!is_attr_pair(e[i as int]));
                            assert(first_non_pair(e) == i);
                            return true;
                        }
                        if es[0].1.as_str().is_none() {
                            assert(e[i as int]->Object_0[0].1 == json_data(es@[0].1));
                            assert(!is_attr_pair(e[i as int]));
                            assert(first_non_pair(e) == i);
                            assert(single_member(e[i as int]));
                            return false;
                        }
                        assert(is_attr_pair(e[i as int]));
                    },
                    _ => {
                        assert(!is_attr_pair(e[i as int]));
                        assert(first_non_pair(e) == i);
                        assert(!single_member(e[i as int]));
                        return true;
                    },
                }
                i = i + 1;
            }
            true
        },
        _ => true,
    }
}

impl MDev {
    /// Whether a device that sysfs shows running under `parent` can be this device: it can
    /// unless this device names another parent.
    pub fn sysfs_parent_fits(&self, parent: &str) -> (r: bool)
        ensures
            r == (self.parent is None || self.parent->0@ == parent@),
    {
        match &self.parent {
            Some(p) => crate::text::str_eq(p.as_str(), parent),
            None => true,
        }
    }

    /// Takes over what sysfs shows of this running device (its parent and type), unless the
    /// device names another type, in which case it stays as it was.
    pub fn apply_sysfs(&mut self, parent: String, mdev_type: String)
        ensures
            if old(self).mdev_type is Some && old(self).mdev_type->0@ != mdev_type@ {
                final(self)@ == old(self)@
            } else {
                final(self)@ == (MDevView { mdev_type: Some(mdev_type@), parent: Some(parent@), active: true, ..old(self)@ })
            },
    {
        let differs = match &self.mdev_type {
            Some(t) => !crate::text::str_eq(t.as_str(), mdev_type.as_str()),
            None => false,
        };
        if differs {
            return;
        }
        self.mdev_type = Some(mdev_type);
        self.parent = Some(parent);
        self.active = true;
    }

    /// Refuses to create this device when sysfs already shows it running (`existing` is the
    /// device under this UUID as loaded from sysfs).
    pub fn check_not_running(&self, existing: &MDev) -> (r: Result<(), DeviceError>)
        ensures
            !existing.active ==> r is Ok,
            existing.active && existing@.parent != self@.parent ==> r == Err::<(), DeviceError>(DeviceError::ExistsUnderOtherParent),
            existing.active && existing@.parent == self@.parent && existing@.mdev_type != self@.mdev_type
                ==> r == Err::<(), DeviceError>(DeviceError::ExistsWithOtherType),
            existing.active && existing@.parent == self@.parent && existing@.mdev_type == self@.mdev_type
                ==> r == Err::<(), DeviceError>(DeviceError::AlreadyExists),
    {
        if existing.active {
            if !opt_text_eq(&existing.parent, &self.parent) {
                return Err(DeviceError::ExistsUnderOtherParent);
            }
            if !opt_text_eq(&existing.mdev_type, &self.mdev_type) {
                return Err(DeviceError::ExistsWithOtherType);
            }
            return Err(DeviceError::AlreadyExists);
        }
        Ok(())
    }

    /// Refuses to stop this device (as loaded from sysfs) unless it is running.
    pub fn check_running(&self) -> (r: Result<(), DeviceError>)
        ensures
            r is Ok <==> self.active,
            !self.active ==> r == Err::<(), DeviceError>(DeviceError::NotActiveMdev { uuid: self.uuid }),
    {
        if self.active {
            Ok(())
        } else {
            Err(DeviceError::NotActiveMdev { uuid: self.uuid })
        }
    }
}

/// The index of the first name equal to `target` once both are lowercased.
pub open spec fn first_case_match(names: Seq<Seq<char>>, target: Seq<char>) -> int
    decreases names.len(),
{
    if names.len() == 0 {
        -1
    } else if crate::text::lowercase_text(names[0]) == crate::text::lowercase_text(target) {
        0
    } else {
        let r = first_case_match(names.drop_first(), target);
        if r < 0 { -1 } else { r + 1 }
    }
}

proof fn lemma_first_case_match(names: Seq<Seq<char>>, target: Seq<char>, i: int)
    requires
        0 <= i <= names.len(),
        forall|j: int| 0 <= j < i ==> crate::text::lowercase_text(#[trigger] names[j]) != crate::text::lowercase_text(target),
    ensures
        i == names.len() ==> first_case_match(names, target) == -1,
        i < names.len() && crate::text::lowercase_text(names[i]) == crate::text::lowercase_text(target)
            ==> first_case_match(names, target) == i,
    decreases i,
{
    if i > 0 {
        let r = names.drop_first();
        assert forall|j: int| 0 <= j < i - 1 implies crate::text::lowercase_text(#[trigger] r[j]) != crate::text::lowercase_text(target) by {
            assert(r[j] == names[j + 1]);
        }
        if i < names.len() {
            assert(r[i - 1] == names[i]);
        }
        lemma_first_case_match(r, target, i - 1);
    }
}

/// The contents of a list of names.
pub open spec fn names_view(v: Seq<String>) -> Seq<Seq<char>> {
    v.map_values(|s: String| s@)
}

/// The error for a parent device that is not found: when a name among the existing parents
/// (in listing order) differs from it only in letter case, the first such name is suggested.
pub fn missing_parent_error(parent: &str, existing: &Vec<String>) -> (r: DeviceError)
    ensures
        first_case_match(names_view(existing@), parent@) < 0 ==> (r matches DeviceError::ParentNotFound { parent: p } && p@ == parent@),
        first_case_match(names_view(existing@), parent@) >= 0 ==> (r matches DeviceError::ParentNotFoundSuggest { parent: p, suggestion: s }
            && p@ == parent@ && s@ == existing@[first_case_match(names_view(existing@), parent@)]@),
{
    let wanted = crate::text::to_lowercase(parent);
    let mut i: usize = 0;
    while i < existing.len()
        invariant
            0 <= i <= existing.len(),
            wanted@ == crate::text::lowercase_text(parent@),
            forall|j: int| 0 <= j < i ==> crate::text::lowercase_text(#[trigger] names_view(existing@)[j]) != crate::text::lowercase_text(parent@),
        decreases existing.len() - i,
    {
        let lower = crate::text::to_lowercase(existing[i].as_str());
        assert(names_view(existing@)[i as int] == existing@[i as int]@);
        if crate::text::str_eq(lower.as_str(), wanted.as_str()) {
            proof { lemma_first_case_match(names_view(existing@), parent@, i as int); }
            return DeviceError::ParentNotFoundSuggest { parent: parent.to_owned(), suggestion: existing[i].clone() };
        }
        i = i + 1;
    }
    proof { lemma_first_case_match(names_view(existing@), parent@, i as int); }
    DeviceError::ParentNotFound { parent: parent.to_owned() }
}

/// Refuses a parent that is not registered with the mediated device framework, then a type
/// the parent does not offer.
pub fn check_type_support(parent: &str, mdev_type: &str, registered: bool, offered: bool) -> (r: Result<(), DeviceError>)
    ensures
        !registered ==> (r matches Err(DeviceError::ParentNotRegistered { parent: p }) && p@ == parent@),
        registered && !offered ==> (r matches Err(DeviceError::TypeNotSupported { parent: p, mdev_type: t })
            && p@ == parent@ && t@ == mdev_type@),
        registered && offered ==> r is Ok,
{
    if !registered {
        return Err(DeviceError::ParentNotRegistered { parent: parent.to_owned() });
    }
    if !offered {
        return Err(DeviceError::TypeNotSupported { parent: parent.to_owned(), mdev_type: mdev_type.to_owned() });
    }
    Ok(())
}

/// The number in an `available_instances` file: its trimmed text read as an `i32`.
pub fn parse_instances(text: &str) -> (r: Result<i32, DeviceError>)
    ensures
        match crate::text::parse_i32(crate::text::trimmed(text@)) {
            crate::text::IntParse::Value(v) => r == Ok::<i32, DeviceError>(v),
            k => r == Err::<i32, DeviceError>(DeviceError::ParseInt(k)),
        },
{
    let t = crate::text::trim(text);
    match crate::text::parse_int(t.as_str()) {
        crate::text::IntParse::Value(v) => Ok(v),
        k => Err(DeviceError::ParseInt(k)),
    }
}

/// The room left for a new device of `mdev_type` on `parent`, read from the text of its
/// `available_instances` file; none left is an error.
pub fn check_available(parent: &str, mdev_type: &str, text: &str) -> (r: Result<i32, DeviceError>)
    ensures
        match crate::text::parse_i32(crate::text::trimmed(text@)) {
            crate::text::IntParse::Value(v) => if v == 0 {
                r matches Err(DeviceError::NoAvailableInstances { mdev_type: t, parent: p }) && t@ == mdev_type@ && p@ == parent@
            } else {
                r == Ok::<i32, DeviceError>(v)
            },
            k => r == Err::<i32, DeviceError>(DeviceError::ParseInt(k)),
        },
{
    let avail = parse_instances(text)?;
    if avail == 0 {
        return Err(DeviceError::NoAvailableInstances { mdev_type: mdev_type.to_owned(), parent: parent.to_owned() });
    }
    Ok(avail)
}

/// A device known only by its UUID.
pub open spec fn fresh_device(uuid: u128) -> MDevView {
    MDevView { uuid, active: false, autostart: false, parent: None, mdev_type: None, attrs: Seq::empty() }
}

/// A stored definition reads back as the device it was written from: the configuration of a
/// device with a type can be loaded, and loading it under the device's parent into a device
/// known only by its UUID restores the parent, type, start mode and attributes (in order).
pub proof fn lemma_config_roundtrip(d: MDevView, parent: Seq<char>)
    requires
        d.mdev_type is Some,
    ensures
        config_readable(config_json(d)),
        config_loads(config_json(d)),
        loaded_config(fresh_device(d.uuid), parent, config_json(d)) == (MDevView { active: false, parent: Some(parent), ..d }),
{
    reveal_strlit("mdev_type");
    reveal_strlit("start");
    reveal_strlit("attrs");
    reveal_strlit("auto");
    reveal_strlit("manual");
    let j = config_json(d);
    let es = j->Object_0;
    let rest1 = es.subrange(1, es.len() as int);
    let rest2 = rest1.subrange(1, rest1.len() as int);
    assert("start"@ != "mdev_type"@) by { assert("start"@.len() != "mdev_type"@.len()); }
    assert("attrs"@ != "mdev_type"@) by { assert("attrs"@.len() != "mdev_type"@.len()); }
    assert("attrs"@ != "start"@) by { assert("attrs"@[0] != "start"@[0]); }
    assert("manual"@ != "auto"@) by { assert("manual"@.len() != "auto"@.len()); }
    assert(es.len() == 3);
    assert(rest1[0] == es[1]);
    assert(rest2[0] == es[2]);
    assert(es[0].0 == "mdev_type"@ && es[1].0 == "start"@ && es[2].0 == "attrs"@);
    assert(crate::json::entries_lookup(rest1, "start"@) == Some(es[1].1));
    assert(crate::json::entries_lookup(es, "start"@) == crate::json::entries_lookup(rest1, "start"@));
    assert(crate::json::entries_lookup(rest2, "attrs"@) == Some(es[2].1));
    assert(crate::json::entries_lookup(rest1, "attrs"@) == crate::json::entries_lookup(rest2, "attrs"@));
    assert(crate::json::entries_lookup(es, "attrs"@) == crate::json::entries_lookup(rest1, "attrs"@));
    assert(member(j, "mdev_type"@) == JsonData::Str(d.mdev_type->0));
    assert(member(j, "start"@) == JsonData::Str(start_word(d.autostart)));
    let e = d.attrs.map_values(|p: (Seq<char>, Seq<char>)| attr_json(p));
    assert(member(j, "attrs"@) == JsonData::Array(e));
    lemma_first_non_pair(e);
    if first_non_pair(e) < e.len() {
        assert(is_attr_pair(e[first_non_pair(e) as int]));
    }
    assert(first_non_pair(e) == e.len());
    assert(e.take(e.len() as int) =~= e);
    assert(e.map_values(|x: JsonData| attr_pair(x)) =~= d.attrs);
    assert(Seq::<(Seq<char>, Seq<char>)>::empty() + d.attrs =~= d.attrs);
}

/// In either listing, the verbose line of a device is its plain line followed by its attribute
/// listing; that listing is empty exactly when the device has no attributes, and otherwise is a
/// heading line `  Attrs:` followed by one line `    @{i}: {"name":"value"}` per attribute, in
/// order.
pub proof fn lemma_verbose_adds_attrs(d: MDevView, fmt: FormatType, defined: bool)
    ensures
        device_text(d, fmt, true, defined) == device_text(d, fmt, false, defined) + attrs_text(d.attrs),
        d.attrs.len() == 0 ==> attrs_text(d.attrs) == Seq::<char>::empty(),
        d.attrs.len() > 0 ==> attrs_text(d.attrs) == "  Attrs:\n"@ + attr_lines(d.attrs, d.attrs.len()),
        forall|i: nat| i < d.attrs.len() ==> #[trigger] attr_lines(d.attrs, i + 1)
            == attr_lines(d.attrs, i) + "    @{"@ + crate::text::decimal(i) + "}: {\""@ + d.attrs[i as int].0
                + "\":\""@ + d.attrs[i as int].1 + "\"}\n"@,
{
    assert(device_text(d, fmt, true, defined) =~= device_text(d, fmt, false, defined) + attrs_text(d.attrs));
    assert forall|i: nat| i < d.attrs.len() implies #[trigger] attr_lines(d.attrs, i + 1)
        == attr_lines(d.attrs, i) + "    @{"@ + crate::text::decimal(i) + "}: {\""@ + d.attrs[i as int].0
            + "\":\""@ + d.attrs[i as int].1 + "\"}\n"@ by {
        assert((i + 1 - 1) as nat == i);
    }
}

/// The JSON of a type is a single member named by the type, holding `available_instances` and
/// `device_api`, a `name` member holding the name exactly when the name is not empty, and a
/// `description` member holding the description exactly when the description is not empty;
/// neither depends on the other.
pub proof fn lemma_type_json_members(t: MDevTypeView)
    ensures
        type_json(t) is Object,
        type_json(t)->Object_0.len() == 1,
        type_json(t)->Object_0[0].0 == t.typename,
        ({
            let inner = member(type_json(t), t.typename);
            &&& inner is Object
            &&& member(inner, "available_instances"@) == JsonData::Number(crate::json::json_int(t.available_instances as i64))
            &&& member(inner, "device_api"@) == JsonData::Str(t.device_api)
            &&& t.name.len() > 0 ==> member(inner, "name"@) == JsonData::Str(t.name)
            &&& t.name.len() == 0 ==> crate::json::entries_lookup(inner->Object_0, "name"@) is None
            &&& t.description.len() > 0 ==> member(inner, "description"@) == JsonData::Str(t.description)
            &&& t.description.len() == 0 ==> crate::json::entries_lookup(inner->Object_0, "description"@) is None
        }),
{
    reveal_strlit("available_instances");
    reveal_strlit("device_api");
    reveal_strlit("name");
    reveal_strlit("description");
    let ai = "available_instances"@;
    let da = "device_api"@;
    let nm = "name"@;
    let ds = "description"@;
    assert(ai != da) by { assert(ai.len() != da.len()); }
    assert(ai != nm) by { assert(ai.len() != nm.len()); }
    assert(ai != ds) by { assert(ai.len() != ds.len()); }
    assert(da != nm) by { assert(da.len() != nm.len()); }
    assert(da != ds) by { assert(da.len() != ds.len()); }
    assert(nm != ds) by { assert(nm.len() != ds.len()); }
    let outer = type_json(t)->Object_0;
    assert(crate::json::entries_lookup(outer, t.typename) == Some(outer[0].1));
    let es = member(type_json(t), t.typename)->Object_0;
    assert(es[0].0 == ai && es[1].0 == da);
    assert(crate::json::entries_lookup(es, ai) == Some(es[0].1));
    assert(es.len() >= 2);
    let r1 = es.subrange(1, es.len() as int);
    assert(r1[0] == es[1]);
    assert(crate::json::entries_lookup(r1, da) == Some(r1[0].1));
    assert(crate::json::entries_lookup(es, da) == crate::json::entries_lookup(r1, da));
    assert(crate::json::entries_lookup(es, da) == Some(es[1].1));
    if t.name.len() > 0 {
        assert(es[2].0 == nm);
        crate::json::lemma_lookup_skip(es, nm, 2);
        assert(es.subrange(2, es.len() as int)[0] == es[2]);
        assert(crate::json::entries_lookup(es, nm) == Some(es[2].1));
    } else {
        assert forall|j: int| 0 <= j < es.len() implies es[j].0 != nm by {}
        crate::json::lemma_lookup_skip(es, nm, es.len() as int);
        assert(es.subrange(es.len() as int, es.len() as int).len() == 0);
    }
    if t.description.len() > 0 {
        let k = es.len() - 1;
        assert(es[k].0 == ds);
        assert forall|j: int| 0 <= j < k implies es[j].0 != ds by {}
        crate::json::lemma_lookup_skip(es, ds, k);
        assert(es.subrange(k, es.len() as int)[0] == es[k]);
        assert(crate::json::entries_lookup(es, ds) == Some(es[k].1));
    } else {
        assert forall|j: int| 0 <= j < es.len() implies es[j].0 != ds by {}
        crate::json::lemma_lookup_skip(es, ds, es.len() as int);
        assert(es.subrange(es.len() as int, es.len() as int).len() == 0);
    }
}

/// Adding an attribute and then deleting the attribute at the same place gives back the
/// device: at a given index (`modify --addattr --index` then `--delattr --index`), or at the
/// end when no index is given.
pub proof fn lemma_add_delete_attribute(d: MDevView, i: int, attr: (Seq<char>, Seq<char>))
    requires
        0 <= i <= d.attrs.len(),
    ensures
        d.with_attrs(d.attrs.insert(i, attr)).with_attrs(d.attrs.insert(i, attr).remove(i)) == d,
        d.with_attrs(d.attrs.push(attr)).with_attrs(d.attrs.push(attr).drop_last()) == d,
{
    assert(d.attrs.insert(i, attr).remove(i) =~= d.attrs);
    assert(d.attrs.push(attr).drop_last() =~= d.attrs);
}

impl crate::sorting::SortKey for MDev {
    open spec fn key_le(a: Self, b: Self) -> bool {
        a.uuid <= b.uuid
    }

    fn key_le_exec(&self, other: &Self) -> (r: bool) {
        self.uuid <= other.uuid
    }

    proof fn lemma_key_le_total(a: Self, b: Self) {
    }

    proof fn lemma_key_le_transitive(a: Self, b: Self, c: Self) {
    }
}

impl crate::sorting::SortKey for MDevType {
    open spec fn key_le(a: Self, b: Self) -> bool {
        crate::sorting::text_le(a.typename@, b.typename@)
    }

    fn key_le_exec(&self, other: &Self) -> (r: bool) {
        let c = crate::text::compare_text(other.typename.as_str(), self.typename.as_str());
        match c {
            crate::text::Cmp::Less => false,
            _ => true,
        }
    }

    proof fn lemma_key_le_total(a: Self, b: Self) {
        crate::sorting::lemma_text_le_total(a.typename@, b.typename@);
    }

    proof fn lemma_key_le_transitive(a: Self, b: Self, c: Self) {
        crate::sorting::lemma_text_le_transitive(a.typename@, b.typename@, c.typename@);
    }
}

} // verus!
