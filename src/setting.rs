use vstd::prelude::*;

verus! {

/// A payload written to a setting.
#[derive(Debug)]
pub enum Value {
    Toggle(bool),
    Select(String),
    Range(i32),
    Equalizer(Vec<i16>),
    /// Triggers an action; carries no payload.
    Action,
    /// Selects, creates or deletes a named profile.
    Profile(ProfileAction),
}

/// The mathematical value of a `Value`.
pub enum ValueView {
    Toggle(bool),
    Select(Seq<char>),
    Range(i32),
    Equalizer(Seq<i16>),
    Action,
    Profile(ProfileActionView),
}

impl View for Value {
    type V = ValueView;

    open spec fn view(&self) -> ValueView {
        match self {
            Value::Toggle(b) => ValueView::Toggle(*b),
            Value::Select(s) => ValueView::Select(s@),
            Value::Range(n) => ValueView::Range(*n),
            Value::Equalizer(v) => ValueView::Equalizer(v@),
            Value::Action => ValueView::Action,
            Value::Profile(a) => ValueView::Profile(a@),
        }
    }
}

/// Whether a profile name is usable: not empty, and not starting with `+` or `-`.
pub open spec fn valid_profile_name(n: Seq<char>) -> bool {
    n.len() > 0 && n[0] != '+' && n[0] != '-'
}

/// A change to the saved profiles.
#[derive(Debug)]
pub enum ProfileAction {
    /// Loads the profile with this name.
    Select(String),
    /// Saves the current values under this name.
    Create(String),
    /// Deletes the profile with this name.
    Delete(String),
}

/// The mathematical value of a `ProfileAction`.
pub enum ProfileActionView {
    Select(Seq<char>),
    Create(Seq<char>),
    Delete(Seq<char>),
}

impl View for ProfileAction {
    type V = ProfileActionView;

    open spec fn view(&self) -> ProfileActionView {
        match self {
            ProfileAction::Select(n) => ProfileActionView::Select(n@),
            ProfileAction::Create(n) => ProfileActionView::Create(n@),
            ProfileAction::Delete(n) => ProfileActionView::Delete(n@),
        }
    }
}

/// A setting as read for display.
#[derive(Debug)]
#[allow(inconsistent_fields)]
pub enum Setting {
    Toggle { value: bool },
    Select { options: Vec<String>, value: String },
    Range { min: i32, max: i32, step: i32, value: i32 },
    Equalizer { min: i16, max: i16, values: Vec<i16> },
    Information { value: String, translated_value: String },
    Action,
    /// The saved profiles, and the one the current values match, if any.
    Profiles { options: Vec<String>, value: Option<String> },
}

/// The mathematical value of a `Setting`.
#[allow(inconsistent_fields)]
pub enum SettingView {
    Toggle { value: bool },
    Select { options: Seq<Seq<char>>, value: Seq<char> },
    Range { min: i32, max: i32, step: i32, value: i32 },
    Equalizer { min: i16, max: i16, values: Seq<i16> },
    Information { value: Seq<char>, translated_value: Seq<char> },
    Action,
    Profiles { options: Seq<Seq<char>>, value: Option<Seq<char>> },
}

/// The texts of a vector of strings.
pub open spec fn texts(v: Seq<String>) -> Seq<Seq<char>> {
    v.map_values(|s: String| s@)
}

impl View for Setting {
    type V = SettingView;

    open spec fn view(&self) -> SettingView {
        match self {
            Setting::Toggle { value } => SettingView::Toggle { value: *value },
            Setting::Select { options, value } => SettingView::Select {
                options: texts(options@),
                value: value@,
            },
            Setting::Range { min, max, step, value } => SettingView::Range {
                min: *min,
                max: *max,
                step: *step,
                value: *value,
            },
            Setting::Equalizer { min, max, values } => SettingView::Equalizer {
                min: *min,
                max: *max,
                values: values@,
            },
            Setting::Information { value, translated_value } => SettingView::Information {
                value: value@,
                translated_value: translated_value@,
            },
            Setting::Action => SettingView::Action,
            Setting::Profiles { options, value } => SettingView::Profiles {
                options: texts(options@),
                value: match value {
                    Some(v) => Some(v@),
                    None => None,
                },
            },
        }
    }
}

/// The view of an optional setting.
pub open spec fn opt_view(r: Option<Setting>) -> Option<SettingView> {
    match r {
        Some(s) => Some(s@),
        None => None,
    }
}

/// Errors of a handler's write.
#[derive(Clone, Copy, Debug, PartialEq, Eq, Structural)]
pub enum HandlerError {
    /// The setting never accepts writes.
    ReadOnly,
    /// The value does not match the setting's shape, bounds or choices.
    InvalidValue,
    /// The device session failed to confirm the command.
    Device(DeviceErrorKind),
}

/// How a device session failed a command.
#[derive(Clone, Copy, Debug, PartialEq, Eq, Structural)]
pub enum DeviceErrorKind {
    Timeout,
    Rejected,
    Disconnected,
}

/// The answer of a device session to a command that was sent.
#[derive(Clone, Copy, Debug, PartialEq, Eq, Structural)]
pub enum Acknowledgement {
    Confirmed,
    Failed(DeviceErrorKind),
}

} // verus!
