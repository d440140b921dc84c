use vstd::prelude::*;
use vstd::string::StringExecFns;
use crate::battery::{
    battery_ids, battery_reading, dual_battery_ids, dual_battery_reading, BatterySettingHandler,
    SingleBatterySettingHandler,
};
use crate::model::{
    has_component, mode_name, profiles_view, Component, DeviceState, Profile, ProfileView, SettingId,
    SoundMode, StateView,
};
use crate::encoding::profile_name_ok;
use crate::setting::{
    opt_view, texts, valid_profile_name, Acknowledgement, HandlerError, ProfileAction,
    ProfileActionView, Setting, SettingView, Value, ValueView,
};

verus! {

/// A unit answering for a fixed group of settings over the state components it needs.
#[derive(Clone, Copy, Debug, PartialEq, Eq, Structural)]
#[allow(inconsistent_fields)]
pub enum Handler {
    /// Telemetry of a single battery.
    Battery(SingleBatterySettingHandler),
    /// Telemetry of a pair of batteries.
    DualBattery(BatterySettingHandler),
    /// The ambient sound mode, a selection.
    SoundMode,
    /// Wearing detection, a toggle.
    WearingDetection,
    /// The custom noise canceling level, from 0 to `max`.
    NoiseCanceling { max: u8 },
    /// Equalizer volume adjustments: `band_count` values, each from `min` to `max`.
    Equalizer { band_count: usize, min: i16, max: i16 },
    /// Resetting the buttons to the model's default mapping, an action.
    ResetButtons,
    /// Saved equalizer profiles: selecting one loads its values.
    Profiles,
}

/// A validated change, sent to the device and applied once it is confirmed.
#[derive(Debug)]
pub enum Command {
    SetSoundMode(SoundMode),
    SetWearingDetection(bool),
    SetNoiseCancelingLevel(u8),
    SetVolumeAdjustments(Vec<i16>),
    ResetButtons,
    SaveProfile(String, Vec<i16>),
    DeleteProfile(String),
}

/// The mathematical value of a `Command`.
pub enum CommandView {
    SetSoundMode(SoundMode),
    SetWearingDetection(bool),
    SetNoiseCancelingLevel(u8),
    SetVolumeAdjustments(Seq<i16>),
    ResetButtons,
    SaveProfile(Seq<char>, Seq<i16>),
    DeleteProfile(Seq<char>),
}

impl View for Command {
    type V = CommandView;

    open spec fn view(&self) -> CommandView {
        match self {
            Command::SetSoundMode(m) => CommandView::SetSoundMode(*m),
            Command::SetWearingDetection(b) => CommandView::SetWearingDetection(*b),
            Command::SetNoiseCancelingLevel(n) => CommandView::SetNoiseCancelingLevel(*n),
            Command::SetVolumeAdjustments(v) => CommandView::SetVolumeAdjustments(v@),
            Command::ResetButtons => CommandView::ResetButtons,
            Command::SaveProfile(n, v) => CommandView::SaveProfile(n@, v@),
            Command::DeleteProfile(n) => CommandView::DeleteProfile(n@),
        }
    }
}

/// The names of all ambient sound modes, in declaration order.
pub open spec fn mode_names() -> Seq<Seq<char>> {
    seq![
        mode_name(SoundMode::Normal),
        mode_name(SoundMode::Transparency),
        mode_name(SoundMode::NoiseCanceling),
    ]
}

/// The mode whose name is `t`, if any.
pub open spec fn mode_of_name(t: Seq<char>) -> Option<SoundMode> {
    if t == mode_name(SoundMode::Normal) {
        Some(SoundMode::Normal)
    } else if t == mode_name(SoundMode::Transparency) {
        Some(SoundMode::Transparency)
    } else if t == mode_name(SoundMode::NoiseCanceling) {
        Some(SoundMode::NoiseCanceling)
    } else {
        None
    }
}

/// Whether every value lies between `min` and `max`.
pub open spec fn all_within(v: Seq<i16>, min: i16, max: i16) -> bool {
    forall|i: int| 0 <= i < v.len() ==> min <= #[trigger] v[i] <= max
}

impl Handler {
    /// The settings this handler owns, in listing order.
    pub open spec fn owned(self) -> Seq<SettingId> {
        match self {
            Handler::Battery(_) => battery_ids(),
            Handler::DualBattery(_) => dual_battery_ids(),
            Handler::SoundMode => seq![SettingId::AmbientSoundMode],
            Handler::WearingDetection => seq![SettingId::WearingDetection],
            Handler::NoiseCanceling { .. } => seq![SettingId::CustomNoiseCanceling],
            Handler::Equalizer { .. } => seq![SettingId::VolumeAdjustments],
            Handler::ResetButtons => seq![SettingId::ResetButtonsToDefault],
            Handler::Profiles => seq![SettingId::CustomEqualizerProfile],
        }
    }

    /// The state components this handler needs.
    pub open spec fn required(self) -> Seq<Component> {
        match self {
            Handler::Battery(_) => seq![Component::Battery],
            Handler::DualBattery(_) => seq![Component::DualBattery],
            Handler::SoundMode => seq![Component::AmbientSoundMode],
            Handler::WearingDetection => seq![Component::WearingDetection],
            Handler::NoiseCanceling { .. } => seq![Component::NoiseCancelingLevel],
            Handler::Equalizer { .. } => seq![Component::Equalizer],
            Handler::ResetButtons => seq![Component::ButtonConfiguration],
            Handler::Profiles => seq![Component::Equalizer, Component::EqualizerProfiles],
        }
    }

    /// Whether a state provides every component this handler needs.
    pub open spec fn served_by(self, s: StateView) -> bool {
        forall|c: Component| #[trigger] self.required().contains(c) ==> has_component(s, c)
    }

    /// What reading `id` shows on state `s`.
    pub open spec fn reading(self, s: StateView, id: SettingId) -> Option<SettingView> {
        if !self.owned().contains(id) {
            None
        } else {
            match self {
                Handler::Battery(h) => battery_reading(h.max_level, s, id),
                Handler::DualBattery(h) => dual_battery_reading(h.max_level, s, id),
                Handler::SoundMode => Some(SettingView::Select {
                    options: mode_names(),
                    value: mode_name(s.sound_mode.unwrap()),
                }),
                Handler::WearingDetection => Some(SettingView::Toggle {
                    value: s.wearing_detection.unwrap(),
                }),
                Handler::NoiseCanceling { max } => Some(SettingView::Range {
                    min: 0,
                    max: max as i32,
                    step: 1,
                    value: s.noise_canceling_level.unwrap() as i32,
                }),
                Handler::Equalizer { min, max, .. } => Some(SettingView::Equalizer {
                    min,
                    max,
                    values: s.volume_adjustments.unwrap(),
                }),
                Handler::ResetButtons => Some(SettingView::Action),
                Handler::Profiles => {
                    let ps = s.profiles.unwrap();
                    Some(SettingView::Profiles {
                        options: profile_names(ps),
                        value: match index_matching(ps, s.volume_adjustments.unwrap()) {
                            Some(k) => Some(ps[k].name),
                            None => None,
                        },
                    })
                },
            }
        }
    }

    /// The command that writing `v` to `id` sends, or why the write is refused.
    pub open spec fn validation(self, s: StateView, id: SettingId, v: ValueView) -> Result<CommandView, HandlerError> {
        match self {
            Handler::Battery(_) => Err(HandlerError::ReadOnly),
            Handler::DualBattery(_) => Err(HandlerError::ReadOnly),
            _ => if !self.owned().contains(id) {
                Err(HandlerError::InvalidValue)
            } else {
                match (self, v) {
                    (Handler::SoundMode, ValueView::Select(t)) => match mode_of_name(t) {
                        Some(m) => Ok(CommandView::SetSoundMode(m)),
                        None => Err(HandlerError::InvalidValue),
                    },
                    (Handler::WearingDetection, ValueView::Toggle(b)) => Ok(
                        CommandView::SetWearingDetection(b),
                    ),
                    (Handler::NoiseCanceling { max }, ValueView::Range(n)) => if 0 <= n <= max {
                        Ok(CommandView::SetNoiseCancelingLevel(n as u8))
                    } else {
                        Err(HandlerError::InvalidValue)
                    },
                    (Handler::Equalizer { band_count, min, max }, ValueView::Equalizer(vs)) => if vs.len()
                        == band_count && all_within(vs, min, max) {
                        Ok(CommandView::SetVolumeAdjustments(vs))
                    } else {
                        Err(HandlerError::InvalidValue)
                    },
                    (Handler::ResetButtons, ValueView::Action) => Ok(CommandView::ResetButtons),
                    (Handler::Profiles, ValueView::Profile(a)) => {
                        let ps = s.profiles.unwrap();
                        match a {
                            ProfileActionView::Select(n) => match index_named(ps, n) {
                                Some(k) => Ok(CommandView::SetVolumeAdjustments(ps[k].values)),
                                None => Err(HandlerError::InvalidValue),
                            },
                            ProfileActionView::Create(n) => if valid_profile_name(n) {
                                Ok(CommandView::SaveProfile(n, s.volume_adjustments.unwrap()))
                            } else {
                                Err(HandlerError::InvalidValue)
                            },
                            ProfileActionView::Delete(n) => if valid_profile_name(n) {
                                Ok(CommandView::DeleteProfile(n))
                            } else {
                                Err(HandlerError::InvalidValue)
                            },
                        }
                    },
                    _ => Err(HandlerError::InvalidValue),
                }
            },
        }
    }

    /// Whether the values in `s` lie within this handler's declared bounds.
    pub open spec fn state_within_bounds(self, s: StateView) -> bool {
        match self {
            Handler::NoiseCanceling { max } => s.noise_canceling_level.unwrap() <= max,
            Handler::Equalizer { band_count, min, max } => s.volume_adjustments.unwrap().len()
                == band_count && all_within(s.volume_adjustments.unwrap(), min, max),
            Handler::Profiles => {
                let ps = s.profiles.unwrap();
                &&& forall|i: int| 0 <= i < ps.len() ==> valid_profile_name(#[trigger] ps[i].name)
                &&& forall|i: int, j: int|
                    0 <= i < ps.len() && 0 <= j < ps.len() && i != j ==> ps[i].name != ps[j].name
            },
            _ => true,
        }
    }

    /// The settings this handler owns.
    pub fn settings(&self) -> (r: Vec<SettingId>)
        ensures
            r@ == self.owned(),
    {
        match self {
            Handler::Battery(h) => h.settings(),
            Handler::DualBattery(h) => h.settings(),
            Handler::SoundMode => {
                let r = vec![SettingId::AmbientSoundMode];
                assert(r@ =~= self.owned());
                r
            },
            Handler::WearingDetection => {
                let r = vec![SettingId::WearingDetection];
                assert(r@ =~= self.owned());
                r
            },
            Handler::NoiseCanceling { .. } => {
                let r = vec![SettingId::CustomNoiseCanceling];
                assert(r@ =~= self.owned());
                r
            },
            Handler::Equalizer { .. } => {
                let r = vec![SettingId::VolumeAdjustments];
                assert(r@ =~= self.owned());
                r
            },
            Handler::ResetButtons => {
                let r = vec![SettingId::ResetButtonsToDefault];
                assert(r@ =~= self.owned());
                r
            },
            Handler::Profiles => {
                let r = vec![SettingId::CustomEqualizerProfile];
                assert(r@ =~= self.owned());
                r
            },
        }
    }

    /// The state components this handler needs.
    pub fn requirements(&self) -> (r: Vec<Component>)
        ensures
            r@ == self.required(),
    {
        if let Handler::Profiles = self {
            let r = vec![Component::Equalizer, Component::EqualizerProfiles];
            assert(r@ =~= self.required());
            return r;
        }
        let c = match self {
            Handler::Battery(_) => Component::Battery,
            Handler::DualBattery(_) => Component::DualBattery,
            Handler::SoundMode => Component::AmbientSoundMode,
            Handler::WearingDetection => Component::WearingDetection,
            Handler::NoiseCanceling { .. } => Component::NoiseCancelingLevel,
            Handler::Equalizer { .. } => Component::Equalizer,
            Handler::ResetButtons => Component::ButtonConfiguration,
            Handler::Profiles => Component::EqualizerProfiles,
        };
        let r = vec![c];
        assert(r@ =~= self.required());
        r
    }

    /// Reads one setting from a state that provides what this handler needs.
    pub fn read(&self, state: &DeviceState, id: SettingId) -> (r: Option<Setting>)
        requires
            self.served_by(state@),
        ensures
            opt_view(r) == self.reading(state@, id),
            r is Some <==> self.owned().contains(id),
    {
        assert(self.required().contains(self.required()[0]));
        assert(self.required().len() > 1 ==> self.required().contains(self.required()[1]));
        proof {
            if self.owned().contains(id) {
                let k = choose|k: int| 0 <= k < self.owned().len() && self.owned()[k] == id;
                assert(0 <= k < self.owned().len() && self.owned()[k] == id);
            }
        }
        match self {
            Handler::Battery(h) => {
                let r = h.get(state, &id);
                assert(self.owned().contains(id) <==> r is Some);
                r
            },
            Handler::DualBattery(h) => {
                let r = h.get(state, &id);
                assert(self.owned().contains(id) <==> r is Some);
                r
            },
            Handler::SoundMode => {
                if id != SettingId::AmbientSoundMode {
                    assert(!self.owned().contains(id));
                    return None;
                }
                assert(self.owned()[0] == id);
                let mode = *state.sound_mode.as_ref().unwrap();
                let options = vec![
                    String::from_str(SoundMode::Normal.name()),
                    String::from_str(SoundMode::Transparency.name()),
                    String::from_str(SoundMode::NoiseCanceling.name()),
                ];
                assert(texts(options@) =~= mode_names());
                Some(Setting::Select { options, value: String::from_str(mode.name()) })
            },
            Handler::WearingDetection => {
                if id != SettingId::WearingDetection {
                    assert(!self.owned().contains(id));
                    return None;
                }
                assert(self.owned()[0] == id);
                Some(Setting::Toggle { value: *state.wearing_detection.as_ref().unwrap() })
            },
            Handler::NoiseCanceling { max } => {
                if id != SettingId::CustomNoiseCanceling {
                    assert(!self.owned().contains(id));
                    return None;
                }
                assert(self.owned()[0] == id);
                Some(
                    Setting::Range {
                        min: 0,
                        max: *max as i32,
                        step: 1,
                        value: *state.noise_canceling_level.as_ref().unwrap() as i32,
                    },
                )
            },
            Handler::Equalizer { min, max, .. } => {
                if id != SettingId::VolumeAdjustments {
                    assert(!self.owned().contains(id));
                    return None;
                }
                assert(self.owned()[0] == id);
                let values = copy_values(state.volume_adjustments.as_ref().unwrap());
                Some(Setting::Equalizer { min: *min, max: *max, values })
            },
            Handler::ResetButtons => {
                if id != SettingId::ResetButtonsToDefault {
                    assert(!self.owned().contains(id));
                    return None;
                }
                assert(self.owned()[0] == id);
                Some(Setting::Action)
            },
            Handler::Profiles => {
                if id != SettingId::CustomEqualizerProfile {
                    assert(!self.owned().contains(id));
                    return None;
                }
                assert(self.owned()[0] == id);
                let ps = state.profiles.as_ref().unwrap();
                let adjustments = state.volume_adjustments.as_ref().unwrap();
                let options = names_of(ps);
                let value = match find_matching(ps, adjustments) {
                    Some(k) => Some(ps[k].name.clone()),
                    None => None,
                };
                Some(Setting::Profiles { options, value })
            },
        }
    }

    /// Checks a value written to `id` and turns it into the command to send.
    pub fn validate(&self, state: &DeviceState, id: SettingId, value: Value) -> (r: Result<Command, HandlerError>)
        requires
            self.served_by(state@),
        ensures
            match r {
                Ok(c) => self.validation(state@, id, value@) == Ok::<CommandView, HandlerError>(c@),
                Err(e) => self.validation(state@, id, value@) == Err::<CommandView, HandlerError>(e),
            },
    {
        match self {
            Handler::Battery(_) => return Err(HandlerError::ReadOnly),
            Handler::DualBattery(_) => return Err(HandlerError::ReadOnly),
            _ => {},
        }
        let owned = self.settings();
        let mut found = false;
        let mut i: usize = 0;
        while i < owned.len()
            invariant
                owned@ == self.owned(),
                i <= owned.len(),
                found == exists|j: int| 0 <= j < i && owned@[j] == id,
            decreases owned.len() - i,
        {
            if owned[i] == id {
                found = true;
            }
            i = i + 1;
        }
        if !found {
            return Err(HandlerError::InvalidValue);
        }
        match (self, value) {
            (Handler::SoundMode, Value::Select(t)) => match mode_from_text(&t) {
                Some(m) => Ok(Command::SetSoundMode(m)),
                None => Err(HandlerError::InvalidValue),
            },
            (Handler::WearingDetection, Value::Toggle(b)) => Ok(Command::SetWearingDetection(b)),
            (Handler::NoiseCanceling { max }, Value::Range(n)) => if 0 <= n && n <= *max as i32 {
                Ok(Command::SetNoiseCancelingLevel(n as u8))
            } else {
                Err(HandlerError::InvalidValue)
            },
            (Handler::Equalizer { band_count, min, max }, Value::Equalizer(vs)) => if vs.len()
                == *band_count && values_within(&vs, *min, *max) {
                Ok(Command::SetVolumeAdjustments(vs))
            } else {
                Err(HandlerError::InvalidValue)
            },
            (Handler::ResetButtons, Value::Action) => Ok(Command::ResetButtons),
            (Handler::Profiles, Value::Profile(a)) => {
                assert(self.required().contains(Component::Equalizer));
                assert(self.required().contains(Component::EqualizerProfiles));
                let ps = state.profiles.as_ref().unwrap();
                match a {
                    ProfileAction::Select(n) => match find_named(ps, &n) {
                        Some(k) => Ok(Command::SetVolumeAdjustments(copy_values(&ps[k].values))),
                        None => Err(HandlerError::InvalidValue),
                    },
                    ProfileAction::Create(n) => if profile_name_ok(n.as_str()) {
                        let values = copy_values(state.volume_adjustments.as_ref().unwrap());
                        Ok(Command::SaveProfile(n, values))
                    } else {
                        Err(HandlerError::InvalidValue)
                    },
                    ProfileAction::Delete(n) => if profile_name_ok(n.as_str()) {
                        Ok(Command::DeleteProfile(n))
                    } else {
                        Err(HandlerError::InvalidValue)
                    },
                }
            },
            _ => Err(HandlerError::InvalidValue),
        }
    }

    /// Writes `value` to `id`: validates it, and, once the session has answered `ack` to the
    /// command sent, commits it. The state changes only on a confirmed, valid write.
    pub fn write(&self, state: &mut DeviceState, id: SettingId, value: Value, ack: Acknowledgement) -> (r: Result<(), HandlerError>)
        requires
            self.served_by(old(state)@),
        ensures
            r == write_result(*self, old(state)@, id, value@, ack),
            final(state)@ == state_after_write(*self, old(state)@, id, value@, ack),
    {
        match self.validate(state, id, value) {
            Err(e) => Err(e),
            Ok(command) => commit(state, command, ack),
        }
    }
}

/// The state after a confirmed command.
pub open spec fn applied(s: StateView, c: CommandView) -> StateView {
    match c {
        CommandView::SetSoundMode(m) => StateView { sound_mode: Some(m), ..s },
        CommandView::SetWearingDetection(b) => StateView { wearing_detection: Some(b), ..s },
        CommandView::SetNoiseCancelingLevel(n) => StateView { noise_canceling_level: Some(n), ..s },
        CommandView::SetVolumeAdjustments(v) => StateView { volume_adjustments: Some(v), ..s },
        CommandView::ResetButtons => StateView { custom_buttons: Some(false), ..s },
        CommandView::SaveProfile(n, v) => StateView {
            profiles: Some(upsert(saved(s), ProfileView { name: n, values: v })),
            ..s
        },
        CommandView::DeleteProfile(n) => StateView { profiles: Some(without(saved(s), n)), ..s },
    }
}

/// The saved profiles of a state; none where it has no profile component.
pub open spec fn saved(s: StateView) -> Seq<ProfileView> {
    match s.profiles {
        Some(ps) => ps,
        None => Seq::empty(),
    }
}

/// The names of profiles, in order.
pub open spec fn profile_names(ps: Seq<ProfileView>) -> Seq<Seq<char>> {
    ps.map_values(|p: ProfileView| p.name)
}

/// The first index at or after `i` of a profile named `n`.
pub open spec fn index_named_from(ps: Seq<ProfileView>, n: Seq<char>, i: int) -> Option<int>
    decreases ps.len() - i,
{
    if i < 0 || i >= ps.len() {
        None
    } else if ps[i].name == n {
        Some(i)
    } else {
        index_named_from(ps, n, i + 1)
    }
}

/// The index of the first profile named `n`.
pub open spec fn index_named(ps: Seq<ProfileView>, n: Seq<char>) -> Option<int> {
    index_named_from(ps, n, 0)
}

/// The first index at or after `i` of a profile holding the values `v`.
pub open spec fn index_matching_from(ps: Seq<ProfileView>, v: Seq<i16>, i: int) -> Option<int>
    decreases ps.len() - i,
{
    if i < 0 || i >= ps.len() {
        None
    } else if ps[i].values == v {
        Some(i)
    } else {
        index_matching_from(ps, v, i + 1)
    }
}

/// The index of the first profile holding the values `v`.
pub open spec fn index_matching(ps: Seq<ProfileView>, v: Seq<i16>) -> Option<int> {
    index_matching_from(ps, v, 0)
}

/// The profiles with `p` saved: it replaces the first profile of its name, or comes last.
pub open spec fn upsert(ps: Seq<ProfileView>, p: ProfileView) -> Seq<ProfileView> {
    match index_named(ps, p.name) {
        Some(k) => ps.update(k, p),
        None => ps.push(p),
    }
}

/// The profiles without those named `n`, in order.
pub open spec fn without(ps: Seq<ProfileView>, n: Seq<char>) -> Seq<ProfileView>
    decreases ps.len(),
{
    if ps.len() == 0 {
        Seq::empty()
    } else if ps.last().name == n {
        without(ps.drop_last(), n)
    } else {
        without(ps.drop_last(), n).push(ps.last())
    }
}

/// The outcome of committing a sent command on the session's acknowledgement.
pub open spec fn commit_result(ack: Acknowledgement) -> Result<(), HandlerError> {
    match ack {
        Acknowledgement::Confirmed => Ok(()),
        Acknowledgement::Failed(k) => Err(HandlerError::Device(k)),
    }
}

/// The state after committing `c` on acknowledgement `ack`: changed only when confirmed.
pub open spec fn committed(s: StateView, c: CommandView, ack: Acknowledgement) -> StateView {
    match ack {
        Acknowledgement::Confirmed => applied(s, c),
        Acknowledgement::Failed(_) => s,
    }
}

/// The outcome of a write of `v` to `id` through `h`, with the session answering `ack`.
pub open spec fn write_result(
    h: Handler,
    s: StateView,
    id: SettingId,
    v: ValueView,
    ack: Acknowledgement,
) -> Result<(), HandlerError> {
    match h.validation(s, id, v) {
        Ok(_) => commit_result(ack),
        Err(e) => Err(e),
    }
}

/// The state after a write of `v` to `id` through `h`, with the session answering `ack`.
pub open spec fn state_after_write(
    h: Handler,
    s: StateView,
    id: SettingId,
    v: ValueView,
    ack: Acknowledgement,
) -> StateView {
    match h.validation(s, id, v) {
        Ok(c) => committed(s, c, ack),
        Err(_) => s,
    }
}

/// The mode named by `t`.
pub fn mode_from_text(t: &String) -> (r: Option<SoundMode>)
    ensures
        r == mode_of_name(t@),
{
    proof {
        reveal_strlit("Normal");
        reveal_strlit("Transparency");
        reveal_strlit("NoiseCanceling");
    }
    if *t == String::from_str(SoundMode::Normal.name()) {
        Some(SoundMode::Normal)
    } else if *t == String::from_str(SoundMode::Transparency.name()) {
        Some(SoundMode::Transparency)
    } else if *t == String::from_str(SoundMode::NoiseCanceling.name()) {
        Some(SoundMode::NoiseCanceling)
    } else {
        None
    }
}

/// Whether every value lies between `min` and `max`.
pub fn values_within(v: &Vec<i16>, min: i16, max: i16) -> (r: bool)
    ensures
        r == all_within(v@, min, max),
{
    let mut i: usize = 0;
    while i < v.len()
        invariant
            i <= v.len(),
            all_within(v@.take(i as int), min, max),
        decreases v.len() - i,
    {
        if v[i] < min || v[i] > max {
            return false;
        }
        i = i + 1;
        assert forall|j: int| 0 <= j < i implies min <= #[trigger] v@.take(i as int)[j] <= max by {
            if j < i - 1 {
                assert(v@.take(i as int)[j] == v@.take(i - 1)[j]);
            }
        }
    }
    assert(v@.take(i as int) =~= v@);
    true
}

/// Commits a sent command once the session has answered: the state changes only on confirmation.
pub fn commit(state: &mut DeviceState, command: Command, ack: Acknowledgement) -> (r: Result<(), HandlerError>)
    ensures
        r == commit_result(ack),
        final(state)@ == committed(old(state)@, command@, ack),
{
    match ack {
        Acknowledgement::Failed(kind) => Err(HandlerError::Device(kind)),
        Acknowledgement::Confirmed => {
            match command {
                Command::SetSoundMode(m) => state.sound_mode = Some(m),
                Command::SetWearingDetection(b) => state.wearing_detection = Some(b),
                Command::SetNoiseCancelingLevel(n) => state.noise_canceling_level = Some(n),
                Command::SetVolumeAdjustments(v) => state.volume_adjustments = Some(v),
                Command::ResetButtons => state.custom_buttons = Some(false),
                Command::SaveProfile(name, values) => {
                    let mut ps = match state.profiles.take() {
                        Some(ps) => ps,
                        None => Vec::new(),
                    };
                    let ghost before = profiles_view(ps@);
                    assert(before == saved(old(state)@));
                    let p = Profile { name, values };
                    match find_named(&ps, &p.name) {
                        Some(k) => {
                            ps.set(k, p);
                            assert(profiles_view(ps@) =~= before.update(k as int, p@));
                        },
                        None => {
                            ps.push(p);
                            assert(profiles_view(ps@) =~= before.push(p@));
                        },
                    }
                    state.profiles = Some(ps);
                },
                Command::DeleteProfile(name) => {
                    let ps = match state.profiles.take() {
                        Some(ps) => ps,
                        None => Vec::new(),
                    };
                    assert(profiles_view(ps@) == saved(old(state)@));
                    state.profiles = Some(remove_named(&ps, &name));
                },
            }
            Ok(())
        },
    }
}

/// Whether two vectors hold the same values.
pub fn same_values(a: &Vec<i16>, b: &Vec<i16>) -> (r: bool)
    ensures
        r == (a@ == b@),
{
    if a.len() != b.len() {
        return false;
    }
    let mut i: usize = 0;
    while i < a.len()
        invariant
            a.len() == b.len(),
            i <= a.len(),
            forall|k: int| 0 <= k < i ==> a@[k] == b@[k],
        decreases a.len() - i,
    {
        if a[i] != b[i] {
            return false;
        }
        i = i + 1;
    }
    assert(a@ =~= b@);
    true
}

/// The index of the first profile named `n`.
pub fn find_named(ps: &Vec<Profile>, n: &String) -> (r: Option<usize>)
    ensures
        match r {
            Some(k) => index_named(profiles_view(ps@), n@) == Some(k as int) && k < ps.len(),
            None => index_named(profiles_view(ps@), n@) is None,
        },
{
    let ghost pv = profiles_view(ps@);
    let mut i: usize = 0;
    while i < ps.len()
        invariant
            pv == profiles_view(ps@),
            i <= ps.len(),
            index_named(pv, n@) == index_named_from(pv, n@, i as int),
        decreases ps.len() - i,
    {
        assert(pv[i as int] == ps@[i as int]@);
        if ps[i].name == *n {
            return Some(i);
        }
        i = i + 1;
    }
    None
}

/// The index of the first profile holding the values `v`.
pub fn find_matching(ps: &Vec<Profile>, v: &Vec<i16>) -> (r: Option<usize>)
    ensures
        match r {
            Some(k) => index_matching(profiles_view(ps@), v@) == Some(k as int) && k < ps.len(),
            None => index_matching(profiles_view(ps@), v@) is None,
        },
{
    let ghost pv = profiles_view(ps@);
    let mut i: usize = 0;
    while i < ps.len()
        invariant
            pv == profiles_view(ps@),
            i <= ps.len(),
            index_matching(pv, v@) == index_matching_from(pv, v@, i as int),
        decreases ps.len() - i,
    {
        assert(pv[i as int] == ps@[i as int]@);
        if same_values(&ps[i].values, v) {
            return Some(i);
        }
        i = i + 1;
    }
    None
}

/// The names of the profiles, in order.
pub fn names_of(ps: &Vec<Profile>) -> (r: Vec<String>)
    ensures
        texts(r@) == profile_names(profiles_view(ps@)),
{
    let mut r: Vec<String> = Vec::new();
    let mut i: usize = 0;
    while i < ps.len()
        invariant
            i <= ps.len(),
            texts(r@) == profile_names(profiles_view(ps@)).take(i as int),
        decreases ps.len() - i,
    {
        let ghost before = r@;
        r.push(ps[i].name.clone());
        assert(profiles_view(ps@)[i as int] == ps@[i as int]@);
        assert(texts(r@) =~= texts(before).push(ps@[i as int].name@));
        i = i + 1;
        assert(texts(r@) =~= profile_names(profiles_view(ps@)).take(i as int));
    }
    assert(profile_names(profiles_view(ps@)).take(i as int) =~= profile_names(profiles_view(ps@)));
    r
}

/// The profiles without those named `n`.
pub fn remove_named(ps: &Vec<Profile>, n: &String) -> (r: Vec<Profile>)
    ensures
        profiles_view(r@) == without(profiles_view(ps@), n@),
{
    let ghost pv = profiles_view(ps@);
    let mut r: Vec<Profile> = Vec::new();
    let mut i: usize = 0;
    while i < ps.len()
        invariant
            pv == profiles_view(ps@),
            i <= ps.len(),
            profiles_view(r@) == without(pv.take(i as int), n@),
        decreases ps.len() - i,
    {
        assert(pv.take(i + 1).drop_last() =~= pv.take(i as int));
        assert(pv.take(i + 1).last() == ps@[i as int]@);
        if !(ps[i].name == *n) {
            let ghost before = r@;
            r.push(Profile { name: ps[i].name.clone(), values: copy_values(&ps[i].values) });
            assert(profiles_view(r@) =~= profiles_view(before).push(pv[i as int]));
        }
        i = i + 1;
    }
    assert(pv.take(i as int) =~= pv);
    r
}

/// A copy of a vector of adjustments.
pub fn copy_values(v: &Vec<i16>) -> (r: Vec<i16>)
    ensures
        r@ == v@,
{
    let mut r: Vec<i16> = Vec::new();
    let mut i: usize = 0;
    while i < v.len()
        invariant
            i <= v.len(),
            r@ == v@.take(i as int),
        decreases v.len() - i,
    {
        r.push(v[i]);
        i = i + 1;
        assert(r@ =~= v@.take(i as int));
    }
    assert(v@.take(i as int) =~= v@);
    r
}

/// What the first profile named `n` at or after `i` is.
pub proof fn lemma_index_named_found(ps: Seq<ProfileView>, n: Seq<char>, i: int)
    requires
        0 <= i,
    ensures
        match index_named_from(ps, n, i) {
            Some(k) => i <= k < ps.len() && ps[k].name == n && forall|j: int| i <= j < k ==> ps[j].name != n,
            None => forall|j: int| i <= j < ps.len() ==> ps[j].name != n,
        },
    decreases ps.len() - i,
{
    if i < ps.len() && ps[i].name != n {
        lemma_index_named_found(ps, n, i + 1);
    }
}

/// A profile named `n` with none of that name before it is the first of its name.
pub proof fn lemma_index_named_is(ps: Seq<ProfileView>, n: Seq<char>, i: int, k: int)
    requires
        0 <= i <= k < ps.len(),
        ps[k].name == n,
        forall|j: int| i <= j < k ==> ps[j].name != n,
    ensures
        index_named_from(ps, n, i) == Some(k),
    decreases k - i,
{
    if i < k {
        lemma_index_named_is(ps, n, i + 1, k);
    }
}

/// What the first profile holding `v` at or after `i` is.
pub proof fn lemma_index_matching_found(ps: Seq<ProfileView>, v: Seq<i16>, i: int)
    requires
        0 <= i,
    ensures
        match index_matching_from(ps, v, i) {
            Some(k) => i <= k < ps.len() && ps[k].values == v,
            None => true,
        },
    decreases ps.len() - i,
{
    if i < ps.len() && ps[i].values != v {
        lemma_index_matching_found(ps, v, i + 1);
    }
}

/// Saving the same profile twice saves it once.
pub proof fn lemma_upsert_idempotent(ps: Seq<ProfileView>, p: ProfileView)
    ensures
        upsert(upsert(ps, p), p) == upsert(ps, p),
{
    lemma_index_named_found(ps, p.name, 0);
    let q = upsert(ps, p);
    match index_named(ps, p.name) {
        Some(k) => {
            assert forall|j: int| 0 <= j < k implies q[j].name != p.name by {
                assert(q[j] == ps[j]);
            }
            lemma_index_named_is(q, p.name, 0, k);
            assert(q.update(k, p) =~= q);
        },
        None => {
            let k = ps.len() as int;
            assert forall|j: int| 0 <= j < k implies q[j].name != p.name by {
                assert(q[j] == ps[j]);
            }
            lemma_index_named_is(q, p.name, 0, k);
            assert(q.update(k, p) =~= q);
        },
    }
}

/// Deleting profiles of a name twice deletes them once.
pub proof fn lemma_without_idempotent(ps: Seq<ProfileView>, n: Seq<char>)
    ensures
        without(without(ps, n), n) == without(ps, n),
    decreases ps.len(),
{
    if ps.len() > 0 {
        lemma_without_idempotent(ps.drop_last(), n);
        if ps.last().name != n {
            let w = without(ps.drop_last(), n);
            assert(w.push(ps.last()).drop_last() =~= w);
        }
    }
}

} // verus!
