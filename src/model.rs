use vstd::prelude::*;

verus! {

/// The stable identifier of a setting.
#[derive(Clone, Copy, Debug, PartialEq, Eq, Structural)]
pub enum SettingId {
    BatteryLevel,
    IsCharging,
    IsChargingLeft,
    IsChargingRight,
    BatteryLevelLeft,
    BatteryLevelRight,
    AmbientSoundMode,
    WearingDetection,
    CustomNoiseCanceling,
    VolumeAdjustments,
    ResetButtonsToDefault,
    CustomEqualizerProfile,
}

/// The external name of a setting identifier.
pub open spec fn id_name(id: SettingId) -> Seq<char> {
    match id {
        SettingId::BatteryLevel => "batteryLevel"@,
        SettingId::IsCharging => "isCharging"@,
        SettingId::IsChargingLeft => "isChargingLeft"@,
        SettingId::IsChargingRight => "isChargingRight"@,
        SettingId::BatteryLevelLeft => "batteryLevelLeft"@,
        SettingId::BatteryLevelRight => "batteryLevelRight"@,
        SettingId::AmbientSoundMode => "ambientSoundMode"@,
        SettingId::WearingDetection => "wearingDetection"@,
        SettingId::CustomNoiseCanceling => "customNoiseCanceling"@,
        SettingId::VolumeAdjustments => "volumeAdjustments"@,
        SettingId::ResetButtonsToDefault => "resetButtonsToDefault"@,
        SettingId::CustomEqualizerProfile => "customEqualizerProfile"@,
    }
}

/// The group a setting is listed under.
#[derive(Clone, Copy, Debug, PartialEq, Eq, Structural)]
pub enum Category {
    Battery,
    SoundModes,
    Equalizer,
    Miscellaneous,
}

/// The category of a setting identifier.
pub open spec fn category_of(id: SettingId) -> Category {
    match id {
        SettingId::BatteryLevel | SettingId::IsCharging | SettingId::IsChargingLeft
        | SettingId::IsChargingRight | SettingId::BatteryLevelLeft
        | SettingId::BatteryLevelRight => Category::Battery,
        SettingId::AmbientSoundMode | SettingId::CustomNoiseCanceling => Category::SoundModes,
        SettingId::VolumeAdjustments | SettingId::CustomEqualizerProfile => Category::Equalizer,
        SettingId::WearingDetection | SettingId::ResetButtonsToDefault => Category::Miscellaneous,
    }
}

/// A component of device state that a model may or may not provide.
#[derive(Clone, Copy, Debug, PartialEq, Eq, Structural)]
pub enum Component {
    Battery,
    DualBattery,
    AmbientSoundMode,
    WearingDetection,
    NoiseCancelingLevel,
    Equalizer,
    ButtonConfiguration,
    EqualizerProfiles,
}

/// Ambient sound modes.
#[derive(Clone, Copy, Debug, PartialEq, Eq, Structural)]
pub enum SoundMode {
    Normal,
    Transparency,
    NoiseCanceling,
}

/// The enumerant name of an ambient sound mode.
pub open spec fn mode_name(m: SoundMode) -> Seq<char> {
    match m {
        SoundMode::Normal => "Normal"@,
        SoundMode::Transparency => "Transparency"@,
        SoundMode::NoiseCanceling => "NoiseCanceling"@,
    }
}

/// One battery: its raw level and whether it charges.
#[derive(Clone, Copy, Debug, PartialEq, Eq, Structural)]
pub struct Battery {
    pub level: u8,
    pub is_charging: bool,
}

/// The two batteries of a pair of earbuds.
#[derive(Clone, Copy, Debug, PartialEq, Eq, Structural)]
pub struct DualBattery {
    pub left: Battery,
    pub right: Battery,
}

/// A named equalizer profile.
#[derive(Debug)]
pub struct Profile {
    pub name: String,
    pub values: Vec<i16>,
}

/// The mathematical value of a profile.
pub struct ProfileView {
    pub name: Seq<char>,
    pub values: Seq<i16>,
}

impl View for Profile {
    type V = ProfileView;

    open spec fn view(&self) -> ProfileView {
        ProfileView { name: self.name@, values: self.values@ }
    }
}

/// The views of a sequence of profiles.
pub open spec fn profiles_view(ps: Seq<Profile>) -> Seq<ProfileView> {
    ps.map_values(|p: Profile| p@)
}

/// The state of a connected device; a component is `None` where the model lacks it.
#[derive(Debug)]
pub struct DeviceState {
    pub battery: Option<Battery>,
    pub dual_battery: Option<DualBattery>,
    pub sound_mode: Option<SoundMode>,
    pub wearing_detection: Option<bool>,
    pub noise_canceling_level: Option<u8>,
    pub volume_adjustments: Option<Vec<i16>>,
    /// Whether the buttons are mapped otherwise than the model's default.
    pub custom_buttons: Option<bool>,
    /// Saved equalizer profiles.
    pub profiles: Option<Vec<Profile>>,
}

/// The mathematical value of a device state.
pub struct StateView {
    pub battery: Option<Battery>,
    pub dual_battery: Option<DualBattery>,
    pub sound_mode: Option<SoundMode>,
    pub wearing_detection: Option<bool>,
    pub noise_canceling_level: Option<u8>,
    pub volume_adjustments: Option<Seq<i16>>,
    pub custom_buttons: Option<bool>,
    pub profiles: Option<Seq<ProfileView>>,
}

impl View for DeviceState {
    type V = StateView;

    open spec fn view(&self) -> StateView {
        StateView {
            battery: self.battery,
            dual_battery: self.dual_battery,
            sound_mode: self.sound_mode,
            wearing_detection: self.wearing_detection,
            noise_canceling_level: self.noise_canceling_level,
            volume_adjustments: match self.volume_adjustments {
                Some(v) => Some(v@),
                None => None,
            },
            custom_buttons: self.custom_buttons,
            profiles: match self.profiles {
                Some(ps) => Some(profiles_view(ps@)),
                None => None,
            },
        }
    }
}

/// Whether a state holds a component.
pub open spec fn has_component(s: StateView, c: Component) -> bool {
    match c {
        Component::Battery => s.battery is Some,
        Component::DualBattery => s.dual_battery is Some,
        Component::AmbientSoundMode => s.sound_mode is Some,
        Component::WearingDetection => s.wearing_detection is Some,
        Component::NoiseCancelingLevel => s.noise_canceling_level is Some,
        Component::Equalizer => s.volume_adjustments is Some,
        Component::ButtonConfiguration => s.custom_buttons is Some,
        Component::EqualizerProfiles => s.profiles is Some,
    }
}

/// Whether a state holds every component of a shape.
pub open spec fn state_provides(s: StateView, shape: Seq<Component>) -> bool {
    forall|c: Component| #[trigger] shape.contains(c) ==> has_component(s, c)
}

impl SettingId {
    /// The category this setting is listed under.
    pub fn category(&self) -> (r: Category)
        ensures
            r == category_of(*self),
    {
        match self {
            SettingId::BatteryLevel | SettingId::IsCharging | SettingId::IsChargingLeft
            | SettingId::IsChargingRight | SettingId::BatteryLevelLeft
            | SettingId::BatteryLevelRight => Category::Battery,
            SettingId::AmbientSoundMode | SettingId::CustomNoiseCanceling => Category::SoundModes,
            SettingId::VolumeAdjustments | SettingId::CustomEqualizerProfile => Category::Equalizer,
            SettingId::WearingDetection | SettingId::ResetButtonsToDefault => Category::Miscellaneous,
        }
    }

    /// The external name of this identifier.
    pub fn name(&self) -> (r: &'static str)
        ensures
            r@ == id_name(*self),
    {
        proof {
            reveal_strlit("batteryLevel");
            reveal_strlit("isCharging");
            reveal_strlit("isChargingLeft");
            reveal_strlit("isChargingRight");
            reveal_strlit("batteryLevelLeft");
            reveal_strlit("batteryLevelRight");
            reveal_strlit("ambientSoundMode");
            reveal_strlit("wearingDetection");
            reveal_strlit("customNoiseCanceling");
            reveal_strlit("volumeAdjustments");
            reveal_strlit("resetButtonsToDefault");
            reveal_strlit("customEqualizerProfile");
        }
        match self {
            SettingId::BatteryLevel => "batteryLevel",
            SettingId::IsCharging => "isCharging",
            SettingId::IsChargingLeft => "isChargingLeft",
            SettingId::IsChargingRight => "isChargingRight",
            SettingId::BatteryLevelLeft => "batteryLevelLeft",
            SettingId::BatteryLevelRight => "batteryLevelRight",
            SettingId::AmbientSoundMode => "ambientSoundMode",
            SettingId::WearingDetection => "wearingDetection",
            SettingId::CustomNoiseCanceling => "customNoiseCanceling",
            SettingId::VolumeAdjustments => "volumeAdjustments",
            SettingId::ResetButtonsToDefault => "resetButtonsToDefault",
            SettingId::CustomEqualizerProfile => "customEqualizerProfile",
        }
    }
}

impl SoundMode {
    /// The enumerant name of this mode.
    pub fn name(&self) -> (r: &'static str)
        ensures
            r@ == mode_name(*self),
    {
        proof {
            reveal_strlit("Normal");
            reveal_strlit("Transparency");
            reveal_strlit("NoiseCanceling");
        }
        match self {
            SoundMode::Normal => "Normal",
            SoundMode::Transparency => "Transparency",
            SoundMode::NoiseCanceling => "NoiseCanceling",
        }
    }
}

} // verus!
