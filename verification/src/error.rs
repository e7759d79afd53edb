//! The errors that the library reports, and their text.

use vstd::prelude::*;
use crate::ids::hyphenated;
use crate::ids::uuid_hyphenated;
use crate::text::{decimal, signed_decimal, IntParse, push_str, push_decimal, push_signed_decimal};

verus! {

/// An error of the device management logic. [`DeviceError::message`] gives the text shown
/// to users.
#[derive(Debug)]
pub enum DeviceError {
    /// The device has no parent.
    MissingParent { uuid: u128 },
    /// The device has no mdev type.
    MissingType { uuid: u128 },
    /// A configuration's `attrs` member is neither an array nor null.
    AttributesNotArray,
    /// An attribute entry is not a JSON object.
    AttributeNotObject,
    /// An attribute entry does not have exactly one member.
    AttributeTooManyFields,
    /// A configuration lacks `mdev_type` or `start`.
    InvalidJson,
    /// A text is not a JSON document.
    JsonSyntax(serde_json::Error),
    /// The device has no stored definition.
    NotDefined,
    /// The device is not running.
    NotActive,
    /// The device to stop is not running.
    NotActiveMdev { uuid: u128 },
    /// An attribute index is out of range; `hint` describes the device's attributes.
    InvalidAttributeIndex { index: usize, hint: String },
    /// A number in a sysfs file could not be read.
    ParseInt(IntParse),
    /// A running device with this UUID has another parent.
    ExistsUnderOtherParent,
    /// A running device with this UUID has another type.
    ExistsWithOtherType,
    /// The device is already running.
    AlreadyExists,
    /// No parent device of this name exists.
    ParentNotFound { parent: String },
    /// No parent device of this name exists, but one differs only in letter case.
    ParentNotFoundSuggest { parent: String, suggestion: String },
    /// The parent does not take part in the mediated device framework.
    ParentNotRegistered { parent: String },
    /// The parent does not offer the type.
    TypeNotSupported { parent: String, mdev_type: String },
    /// The parent has no room for another device of the type.
    NoAvailableInstances { mdev_type: String, parent: String },
    /// The device has no stored definition to remove.
    UndefineUnknownPath { uuid: u128 },
    /// A callout script exited with a failure status (`script` is its quoted path).
    ScriptFailed { script: String, code: Option<i32> },
    /// A callout script printed something that is not JSON.
    InvalidCalloutJson,
    /// A required directory is missing (`path` is its quoted path).
    MissingDirectory { path: String },
    /// No running device matches.
    DeviceNotActive { uuid: u128, given_parent: Option<String> },
    /// Running devices with this UUID were found under several parents.
    MultipleParents { uuid: u128 },
    /// Several definitions match under one parent.
    MultipleDefinitions { parent: String, uuid: u128 },
    /// No definition matches.
    DeviceNotDefined { uuid: u128, given_parent: Option<String> },
    /// Definitions under several parents match and no parent was given.
    MultipleDefinitionsNoParent { uuid: u128 },
    /// A type was given together with a JSON file (`file` is its quoted path).
    TypeWithJsonFile { file: String },
    /// A JSON file was given without a parent (`file` is its quoted path).
    ParentRequiredForJsonFile { file: String },
    /// A definition for this device already exists.
    ConfigExists { parent: String, uuid: u128 },
    /// No parent was given or found.
    NoParent,
    /// No type was given or found.
    NoType,
    /// The device is already defined.
    AlreadyDefined { uuid: u128, parent: String },
    /// No definition matches the UUID.
    NoMatchingDevices,
    /// Removing some definition failed.
    UndefineFailed,
    /// The type of a running device cannot change.
    LiveTypeChange,
    /// The start mode of a running device cannot be set.
    LiveAutoChange,
    /// The start mode of a running device cannot be set.
    LiveManualChange,
    /// A JSON file for `modify` needs a parent.
    ParentRequiredForModifyJson,
    /// The parent of a running device cannot change.
    LiveParentChange,
    /// A live change needs a JSON file.
    LiveNeedsJsonFile,
    /// The running and the defined device have different types.
    LiveDefinedTypeMismatch,
    /// Automatic and manual start were both asked for.
    AutoManualExclusive,
    /// An attribute was added without a value.
    NoAttributeValue,
    /// A type was given together with a JSON file for `start`.
    StartTypeWithJsonFile,
    /// A JSON file for `start` needs a parent.
    ParentRequiredForStartJson,
    /// Definitions under several parents match the device to start.
    MultipleDefinitionsForStart { uuid: u128 },
    /// The defined device has another type than the one given.
    DefinedWithOtherType { uuid: u128, parent: String, mdev_type: String },
    /// A type was given without a parent.
    TypeWithoutParent,
    /// Parent or type is missing.
    InsufficientlySpecified,
    /// No device could be made.
    UnknownError,
    /// A listing of a single device found none.
    FailedToGetDevice,
    /// Definitions under more than one parent were found.
    MoreThanOneParent,
    /// Live modification through a callout script is not available.
    LiveUpdateUnsupported,
    /// A step performed outside the library (such as a file operation) failed, with its text.
    External { message: String },
}

/// The `Display` text of `str::parse::<i32>`'s error kinds.
pub open spec fn int_error_text(k: IntParse) -> Seq<char> {
    match k {
        IntParse::Empty => "cannot parse integer from empty string"@,
        IntParse::InvalidDigit => "invalid digit found in string"@,
        IntParse::PosOverflow => "number too large to fit in target type"@,
        IntParse::NegOverflow => "number too small to fit in target type"@,
        IntParse::Value(_) => Seq::empty(),
    }
}

/// "p/uuid" when a parent is given, else "uuid".
pub open spec fn located(parent: Option<String>, uuid: u128) -> Seq<char> {
    match parent {
        Some(p) => p@ + "/"@ + hyphenated(uuid),
        None => hyphenated(uuid),
    }
}

/// The status word of a failed script: its exit code, or "unknown".
pub open spec fn status_text(code: Option<i32>) -> Seq<char> {
    match code {
        Some(c) => signed_decimal(c as int),
        None => "unknown"@,
    }
}

/// The text of an error (for every kind but `JsonSyntax`, whose text `serde_json` makes).
pub open spec fn message_text(e: DeviceError) -> Seq<char> {
    match e {
        DeviceError::MissingParent { uuid } => "Device "@ + hyphenated(uuid) + " is missing a parent"@,
        DeviceError::MissingType { uuid } => "Device "@ + hyphenated(uuid) + " is missing a mdev_type"@,
        DeviceError::AttributesNotArray => "attributes field is not an array"@,
        DeviceError::AttributeNotObject => "invalid JSON format for attribute: not an object"@,
        DeviceError::AttributeTooManyFields => "invalid JSON format for attribute: too many fields"@,
        DeviceError::InvalidJson => "invalid json"@,
        DeviceError::JsonSyntax(_) => Seq::empty(),
        DeviceError::NotDefined => "Device is not defined"@,
        DeviceError::NotActive => "Device is not active"@,
        DeviceError::NotActiveMdev { uuid } => "Device "@ + hyphenated(uuid) + " is not an active mdev"@,
        DeviceError::InvalidAttributeIndex { index, hint } =>
            "Attribute index "@ + decimal(index as nat) + " is invalid\n"@ + hint@,
        DeviceError::ParseInt(k) => int_error_text(k),
        DeviceError::ExistsUnderOtherParent => "Device exists under different parent"@,
        DeviceError::ExistsWithOtherType => "Device exists with different type"@,
        DeviceError::AlreadyExists => "Device already exists"@,
        DeviceError::ParentNotFound { parent } => "Unable to find parent device '"@ + parent@ + "'"@,
        DeviceError::ParentNotFoundSuggest { parent, suggestion } =>
            "Unable to find parent device '"@ + parent@ + "'. Did you mean '"@ + suggestion@ + "'?"@,
        DeviceError::ParentNotRegistered { parent } =>
            "Parent "@ + parent@ + " is not currently registered for mdev support"@,
        DeviceError::TypeNotSupported { parent, mdev_type } =>
            "Parent "@ + parent@ + " does not support mdev type "@ + mdev_type@,
        DeviceError::NoAvailableInstances { mdev_type, parent } =>
            "No available instances of "@ + mdev_type@ + " on "@ + parent@,
        DeviceError::UndefineUnknownPath { uuid } => "Failed to undefine "@ + hyphenated(uuid),
        DeviceError::ScriptFailed { script, code } =>
            "Script '"@ + script@ + "' failed with status '"@ + status_text(code) + "'"@,
        DeviceError::InvalidCalloutJson => "Invalid JSON received from callout script"@,
        DeviceError::MissingDirectory { path } =>
            "Required directory "@ + path@ + " doesn't exist. This may indicate a packaging or installation error"@,
        DeviceError::DeviceNotActive { uuid, given_parent } =>
            "Mediated device "@ + located(given_parent, uuid) + " is not active"@,
        DeviceError::MultipleParents { uuid } =>
            "Multiple parents found for "@ + hyphenated(uuid) + ". System error?"@,
        DeviceError::MultipleDefinitions { parent, uuid } =>
            "Multiple definitions found for "@ + parent@ + "/"@ + hyphenated(uuid),
        DeviceError::DeviceNotDefined { uuid, given_parent } =>
            "Mediated device "@ + located(given_parent, uuid) + " is not defined"@,
        DeviceError::MultipleDefinitionsNoParent { uuid } =>
            "Multiple definitions found for "@ + hyphenated(uuid) + ", specify a parent"@,
        DeviceError::TypeWithJsonFile { file } => "Device type cannot be specified separately from "@ + file@,
        DeviceError::ParentRequiredForJsonFile { file } => "Parent device required to define device via "@ + file@,
        DeviceError::ConfigExists { parent, uuid } =>
            "Cowardly refusing to overwrite existing config for "@ + parent@ + "/"@ + hyphenated(uuid),
        DeviceError::NoParent => "No parent specified"@,
        DeviceError::NoType => "No type specified"@,
        DeviceError::AlreadyDefined { uuid, parent } =>
            "Device "@ + hyphenated(uuid) + " on "@ + parent@ + " already defined"@,
        DeviceError::NoMatchingDevices => "No devices match the specified uuid"@,
        DeviceError::UndefineFailed => "Undefine failed"@,
        DeviceError::LiveTypeChange => "'type' cannot be changed on active mdev"@,
        DeviceError::LiveAutoChange => "'auto' cannot be changed on active mdev"@,
        DeviceError::LiveManualChange => "'manual' cannot be changed on active mdev"@,
        DeviceError::ParentRequiredForModifyJson => "Parent device required to modify device via json file"@,
        DeviceError::LiveParentChange => "'parent' cannot be changed on active mdev"@,
        DeviceError::LiveNeedsJsonFile => "'live' option must be used with 'jsonfile' option"@,
        DeviceError::LiveDefinedTypeMismatch => "'type' of active and defined mdev does not match"@,
        DeviceError::AutoManualExclusive => "'auto' and 'manual' are mutually exclusive"@,
        DeviceError::NoAttributeValue => "No attribute value provided"@,
        DeviceError::StartTypeWithJsonFile => "Device type cannot be specified separately from json file"@,
        DeviceError::ParentRequiredForStartJson => "Parent device required to start device via json file"@,
        DeviceError::MultipleDefinitionsForStart { uuid } =>
            "Multiple definitions found for device "@ + hyphenated(uuid) + ". Please specify a parent."@,
        DeviceError::DefinedWithOtherType { uuid, parent, mdev_type } =>
            "Device "@ + hyphenated(uuid) + " already exists on parent "@ + parent@ + " with type "@ + mdev_type@,
        DeviceError::TypeWithoutParent => "can't provide type without parent"@,
        DeviceError::InsufficientlySpecified => "Device is insufficiently specified"@,
        DeviceError::UnknownError => "Unknown error"@,
        DeviceError::FailedToGetDevice => "Failed to get device"@,
        DeviceError::MoreThanOneParent => "More than one parent found"@,
        DeviceError::LiveUpdateUnsupported => "Live update of a running device is not supported"@,
        DeviceError::External { message } => message@,
    }
}

fn int_error_str(k: IntParse) -> (r: &'static str)
    ensures
        r@ == int_error_text(k),
{
    match k {
        IntParse::Empty => "cannot parse integer from empty string",
        IntParse::InvalidDigit => "invalid digit found in string",
        IntParse::PosOverflow => "number too large to fit in target type",
        IntParse::NegOverflow => "number too small to fit in target type",
        IntParse::Value(_) => {
            proof { reveal_strlit(""); }
            ""
        },
    }
}

fn push_located(s: &mut String, parent: &Option<String>, uuid: u128)
    ensures
        final(s)@ == old(s)@ + located(*parent, uuid),
{
    match parent {
        Some(p) => {
            push_str(s, p.as_str());
            push_str(s, "/");
        },
        None => {},
    }
    let u = uuid_hyphenated(uuid);
    push_str(s, u.as_str());
}

fn push_status(s: &mut String, code: Option<i32>)
    ensures
        final(s)@ == old(s)@ + status_text(code),
{
    match code {
        Some(c) => push_signed_decimal(s, c as i64),
        None => push_str(s, "unknown"),
    }
}

impl DeviceError {
    /// The text shown for the error (for `JsonSyntax`, the text of `serde_json`'s error).
    pub fn message(&self) -> (r: String)
        ensures
            !(self is JsonSyntax) ==> r@ == message_text(*self),
    {
        let r = match self {
            DeviceError::MissingParent { uuid } => {
                let mut s = "Device ".to_owned();
                let u = uuid_hyphenated(*uuid);
                push_str(&mut s, u.as_str());
                push_str(&mut s, " is missing a parent");
                s
            },
            DeviceError::MissingType { uuid } => {
                let mut s = "Device ".to_owned();
                let u = uuid_hyphenated(*uuid);
                push_str(&mut s, u.as_str());
                push_str(&mut s, " is missing a mdev_type");
                s
            },
            DeviceError::AttributesNotArray => {
                let mut s = "attributes field is not an array".to_owned();
                s
            },
            DeviceError::AttributeNotObject => {
                let mut s = "invalid JSON format for attribute: not an object".to_owned();
                s
            },
            DeviceError::AttributeTooManyFields => {
                let mut s = "invalid JSON format for attribute: too many fields".to_owned();
                s
            },
            DeviceError::InvalidJson => {
                let mut s = "invalid json".to_owned();
                s
            },
            DeviceError::JsonSyntax(e) => crate::json::serde_error_text(e),
            DeviceError::NotDefined => {
                let mut s = "Device is not defined".to_owned();
                s
            },
            DeviceError::NotActive => {
                let mut s = "Device is not active".to_owned();
                s
            },
            DeviceError::NotActiveMdev { uuid } => {
                let mut s = "Device ".to_owned();
                let u = uuid_hyphenated(*uuid);
                push_str(&mut s, u.as_str());
                push_str(&mut s, " is not an active mdev");
                s
            },
            DeviceError::InvalidAttributeIndex { index, hint } => {
                let mut s = "Attribute index ".to_owned();
                push_decimal(&mut s, *index as u64);
                push_str(&mut s, " is invalid\n");
                push_str(&mut s, hint.as_str());
                s
            },
            DeviceError::ParseInt(k) => {
                let mut s = String::new();
                push_str(&mut s, int_error_str(*k));
                s
            },
            DeviceError::ExistsUnderOtherParent => {
                let mut s = "Device exists under different parent".to_owned();
                s
            },
            DeviceError::ExistsWithOtherType => {
                let mut s = "Device exists with different type".to_owned();
                s
            },
            DeviceError::AlreadyExists => {
                let mut s = "Device already exists".to_owned();
                s
            },
            DeviceError::ParentNotFound { parent } => {
                let mut s = "Unable to find parent device '".to_owned();
                push_str(&mut s, parent.as_str());
                push_str(&mut s, "'");
                s
            },
            DeviceError::ParentNotFoundSuggest { parent, suggestion } => {
                let mut s = "Unable to find parent device '".to_owned();
                push_str(&mut s, parent.as_str());
                push_str(&mut s, "'. Did you mean '");
                push_str(&mut s, suggestion.as_str());
                push_str(&mut s, "'?");
                s
            },
            DeviceError::ParentNotRegistered { parent } => {
                let mut s = "Parent ".to_owned();
                push_str(&mut s, parent.as_str());
                push_str(&mut s, " is not currently registered for mdev support");
                s
            },
            DeviceError::TypeNotSupported { parent, mdev_type } => {
                let mut s = "Parent ".to_owned();
                push_str(&mut s, parent.as_str());
                push_str(&mut s, " does not support mdev type ");
                push_str(&mut s, mdev_type.as_str());
                s
            },
            DeviceError::NoAvailableInstances { mdev_type, parent } => {
                let mut s = "No available instances of ".to_owned();
                push_str(&mut s, mdev_type.as_str());
                push_str(&mut s, " on ");
                push_str(&mut s, parent.as_str());
                s
            },
            DeviceError::UndefineUnknownPath { uuid } => {
                let mut s = "Failed to undefine ".to_owned();
                let u = uuid_hyphenated(*uuid);
                push_str(&mut s, u.as_str());
                s
            },
            DeviceError::ScriptFailed { script, code } => {
                let mut s = "Script '".to_owned();
                push_str(&mut s, script.as_str());
                push_str(&mut s, "' failed with status '");
                push_status(&mut s, *code);
                push_str(&mut s, "'");
                s
            },
            DeviceError::InvalidCalloutJson => {
                let mut s = "Invalid JSON received from callout script".to_owned();
                s
            },
            DeviceError::MissingDirectory { path } => {
                let mut s = "Required directory ".to_owned();
                push_str(&mut s, path.as_str());
                push_str(&mut s, " doesn't exist. This may indicate a packaging or installation error");
                s
            },
            DeviceError::DeviceNotActive { uuid, given_parent } => {
                let mut s = "Mediated device ".to_owned();
                push_located(&mut s, given_parent, *uuid);
                push_str(&mut s, " is not active");
                s
            },
            DeviceError::MultipleParents { uuid } => {
                let mut s = "Multiple parents found for ".to_owned();
                let u = uuid_hyphenated(*uuid);
                push_str(&mut s, u.as_str());
                push_str(&mut s, ". System error?");
                s
            },
            DeviceError::MultipleDefinitions { parent, uuid } => {
                let mut s = "Multiple definitions found for ".to_owned();
                push_str(&mut s, parent.as_str());
                push_str(&mut s, "/");
                let u = uuid_hyphenated(*uuid);
                push_str(&mut s, u.as_str());
                s
            },
            DeviceError::DeviceNotDefined { uuid, given_parent } => {
                let mut s = "Mediated device ".to_owned();
                push_located(&mut s, given_parent, *uuid);
                push_str(&mut s, " is not defined");
                s
            },
            DeviceError::MultipleDefinitionsNoParent { uuid } => {
                let mut s = "Multiple definitions found for ".to_owned();
                let u = uuid_hyphenated(*uuid);
                push_str(&mut s, u.as_str());
                push_str(&mut s, ", specify a parent");
                s
            },
            DeviceError::TypeWithJsonFile { file } => {
                let mut s = "Device type cannot be specified separately from ".to_owned();
                push_str(&mut s, file.as_str());
                s
            },
            DeviceError::ParentRequiredForJsonFile { file } => {
                let mut s = "Parent device required to define device via ".to_owned();
                push_str(&mut s, file.as_str());
                s
            },
            DeviceError::ConfigExists { parent, uuid } => {
                let mut s = "Cowardly refusing to overwrite existing config for ".to_owned();
                push_str(&mut s, parent.as_str());
                push_str(&mut s, "/");
                let u = uuid_hyphenated(*uuid);
                push_str(&mut s, u.as_str());
                s
            },
            DeviceError::NoParent => {
                let mut s = "No parent specified".to_owned();
                s
            },
            DeviceError::NoType => {
                let mut s = "No type specified".to_owned();
                s
            },
            DeviceError::AlreadyDefined { uuid, parent } => {
                let mut s = "Device ".to_owned();
                let u = uuid_hyphenated(*uuid);
                push_str(&mut s, u.as_str());
                push_str(&mut s, " on ");
                push_str(&mut s, parent.as_str());
                push_str(&mut s, " already defined");
                s
            },
            DeviceError::NoMatchingDevices => {
                let mut s = "No devices match the specified uuid".to_owned();
                s
            },
            DeviceError::UndefineFailed => {
                let mut s = "Undefine failed".to_owned();
                s
            },
            DeviceError::LiveTypeChange => {
                let mut s = "'type' cannot be changed on active mdev".to_owned();
                s
            },
            DeviceError::LiveAutoChange => {
                let mut s = "'auto' cannot be changed on active mdev".to_owned();
                s
            },
            DeviceError::LiveManualChange => {
                let mut s = "'manual' cannot be changed on active mdev".to_owned();
                s
            },
            DeviceError::ParentRequiredForModifyJson => {
                let mut s = "Parent device required to modify device via json file".to_owned();
                s
            },
            DeviceError::LiveParentChange => {
                let mut s = "'parent' cannot be changed on active mdev".to_owned();
                s
            },
            DeviceError::LiveNeedsJsonFile => {
                let mut s = "'live' option must be used with 'jsonfile' option".to_owned();
                s
            },
            DeviceError::LiveDefinedTypeMismatch => {
                let mut s = "'type' of active and defined mdev does not match".to_owned();
                s
            },
            DeviceError::AutoManualExclusive => {
                let mut s = "'auto' and 'manual' are mutually exclusive".to_owned();
                s
            },
            DeviceError::NoAttributeValue => {
                let mut s = "No attribute value provided".to_owned();
                s
            },
            DeviceError::StartTypeWithJsonFile => {
                let mut s = "Device type cannot be specified separately from json file".to_owned();
                s
            },
            DeviceError::ParentRequiredForStartJson => {
                let mut s = "Parent device required to start device via json file".to_owned();
                s
            },
            DeviceError::MultipleDefinitionsForStart { uuid } => {
                let mut s = "Multiple definitions found for device ".to_owned();
                let u = uuid_hyphenated(*uuid);
                push_str(&mut s, u.as_str());
                push_str(&mut s, ". Please specify a parent.");
                s
            },
            DeviceError::DefinedWithOtherType { uuid, parent, mdev_type } => {
                let mut s = "Device ".to_owned();
                let u = uuid_hyphenated(*uuid);
                push_str(&mut s, u.as_str());
                push_str(&mut s, " already exists on parent ");
                push_str(&mut s, parent.as_str());
                push_str(&mut s, " with type ");
                push_str(&mut s, mdev_type.as_str());
                s
            },
            DeviceError::TypeWithoutParent => {
                let mut s = "can't provide type without parent".to_owned();
                s
            },
            DeviceError::InsufficientlySpecified => {
                let mut s = "Device is insufficiently specified".to_owned();
                s
            },
            DeviceError::UnknownError => {
                let mut s = "Unknown error".to_owned();
                s
            },
            DeviceError::FailedToGetDevice => {
                let mut s = "Failed to get device".to_owned();
                s
            },
            DeviceError::MoreThanOneParent => {
                let mut s = "More than one parent found".to_owned();
                s
            },
            DeviceError::External { message } => message.clone(),
            DeviceError::LiveUpdateUnsupported => {
                let mut s = "Live update of a running device is not supported".to_owned();
                s
            },
        };
        r
    }
}

} // verus!
