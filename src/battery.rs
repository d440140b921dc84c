use vstd::prelude::*;
use vstd::string::StringExecFns;
use crate::model::{Battery, DeviceState, SettingId, StateView};
use crate::setting::{HandlerError, Setting, SettingView, Value};
use crate::text::{dec, push_dec};

verus! {

/// The percentage shown for a raw battery level out of `max`, rounded half up.
/// A level at or above the maximum shows as full.
pub open spec fn percentage(level: nat, max: nat) -> nat {
    if level >= max {
        if level == 0 { 0 } else { 100 }
    } else {
        (200 * level + max) / (2 * max)
    }
}

/// The display text of a charging flag.
pub open spec fn charging_text(c: bool) -> Seq<char> {
    if c { "Charging"@ } else { "Not Charging"@ }
}

/// The raw text of a boolean.
pub open spec fn bool_text(b: bool) -> Seq<char> {
    if b { "true"@ } else { "false"@ }
}

/// The display text of a battery level: `level/max (percent%)`.
pub open spec fn level_text(level: nat, max: nat) -> Seq<char> {
    dec(level) + "/"@ + dec(max) + " ("@ + dec(percentage(level, max)) + "%)"@
}

/// What reading a battery's charging flag shows.
pub open spec fn charging_setting(b: Battery) -> SettingView {
    SettingView::Information {
        value: bool_text(b.is_charging),
        translated_value: charging_text(b.is_charging),
    }
}

/// What reading a battery's level shows, out of `max`.
pub open spec fn level_setting(b: Battery, max: u8) -> SettingView {
    SettingView::Information {
        value: dec(b.level as nat),
        translated_value: level_text(b.level as nat, max as nat),
    }
}

/// The percentage of a raw battery level out of `max_level`, never above 100.
pub fn battery_percentage(level: u8, max_level: u8) -> (r: u8)
    ensures
        r as nat == percentage(level as nat, max_level as nat),
        r <= 100,
        level >= max_level && level > 0 ==> r == 100,
{
    if level >= max_level {
        if level == 0 { 0 } else { 100 }
    } else {
        let l = level as u32;
        let m = max_level as u32;
        assert((200 * l + m) / (2 * m) <= 100) by (nonlinear_arith)
            requires l < m, m > 0;
        ((200 * l + m) / (2 * m)) as u8
    }
}

/// The setting shown for a battery's charging flag.
pub fn charging_information(b: Battery) -> (r: Setting)
    ensures
        r@ == charging_setting(b),
{
    proof {
        reveal_strlit("true");
        reveal_strlit("false");
        reveal_strlit("Charging");
        reveal_strlit("Not Charging");
    }
    if b.is_charging {
        Setting::Information {
            value: String::from_str("true"),
            translated_value: String::from_str("Charging"),
        }
    } else {
        Setting::Information {
            value: String::from_str("false"),
            translated_value: String::from_str("Not Charging"),
        }
    }
}

/// The setting shown for a battery's level out of `max_level`.
pub fn level_information(b: Battery, max_level: u8) -> (r: Setting)
    ensures
        r@ == level_setting(b, max_level),
{
    proof {
        reveal_strlit("/");
        reveal_strlit(" (");
        reveal_strlit("%)");
    }
    let percent = battery_percentage(b.level, max_level);
    let mut value = String::new();
    push_dec(&mut value, b.level as u32);
    let mut text = String::new();
    push_dec(&mut text, b.level as u32);
    text.append("/");
    push_dec(&mut text, max_level as u32);
    text.append(" (");
    push_dec(&mut text, percent as u32);
    text.append("%)");
    assert(value@ =~= dec(b.level as nat));
    assert(text@ =~= level_text(b.level as nat, max_level as nat));
    Setting::Information { value, translated_value: text }
}

/// The settings of a single battery, in listing order.
pub open spec fn battery_ids() -> Seq<SettingId> {
    seq![SettingId::BatteryLevel, SettingId::IsCharging]
}

/// The settings of a pair of batteries, in listing order.
pub open spec fn dual_battery_ids() -> Seq<SettingId> {
    seq![
        SettingId::IsChargingLeft,
        SettingId::IsChargingRight,
        SettingId::BatteryLevelLeft,
        SettingId::BatteryLevelRight,
    ]
}

/// What a single battery shows for `id`, out of `max`.
pub open spec fn battery_reading(max: u8, s: StateView, id: SettingId) -> Option<SettingView> {
    let b = s.battery.unwrap();
    match id {
        SettingId::BatteryLevel => Some(level_setting(b, max)),
        SettingId::IsCharging => Some(charging_setting(b)),
        _ => None,
    }
}

/// What a pair of batteries shows for `id`, out of `max`.
pub open spec fn dual_battery_reading(max: u8, s: StateView, id: SettingId) -> Option<SettingView> {
    let d = s.dual_battery.unwrap();
    match id {
        SettingId::IsChargingLeft => Some(charging_setting(d.left)),
        SettingId::IsChargingRight => Some(charging_setting(d.right)),
        SettingId::BatteryLevelLeft => Some(level_setting(d.left, max)),
        SettingId::BatteryLevelRight => Some(level_setting(d.right, max)),
        _ => None,
    }
}

/// Read-only telemetry of a single battery.
#[derive(Clone, Copy, Debug, PartialEq, Eq, Structural)]
pub struct SingleBatterySettingHandler {
    pub max_level: u8,
}

impl SingleBatterySettingHandler {
    pub fn new(max_level: u8) -> (r: Self)
        ensures
            r.max_level == max_level,
    {
        Self { max_level }
    }

    /// The settings this handler answers for.
    pub fn settings(&self) -> (r: Vec<SettingId>)
        ensures
            r@ == battery_ids(),
    {
        let r = vec![SettingId::BatteryLevel, SettingId::IsCharging];
        assert(r@ =~= battery_ids());
        r
    }

    /// Reads one of this handler's settings.
    pub fn get(&self, state: &DeviceState, setting_id: &SettingId) -> (r: Option<Setting>)
        requires
            state.battery is Some,
        ensures
            crate::setting::opt_view(r) == battery_reading(self.max_level, state@, *setting_id),
    {
        let b = *state.battery.as_ref().unwrap();
        match setting_id {
            SettingId::BatteryLevel => Some(level_information(b, self.max_level)),
            SettingId::IsCharging => Some(charging_information(b)),
            _ => None,
        }
    }

    /// Telemetry is never writable.
    pub fn set(&self, state: &mut DeviceState, setting_id: &SettingId, value: Value) -> (r: Result<(), HandlerError>)
        ensures
            r == Err::<(), HandlerError>(HandlerError::ReadOnly),
            *final(state) == *old(state),
    {
        Err(HandlerError::ReadOnly)
    }
}

/// Read-only telemetry of the two batteries of a pair of earbuds.
#[derive(Clone, Copy, Debug, PartialEq, Eq, Structural)]
pub struct BatterySettingHandler {
    pub max_level: u8,
}

impl BatterySettingHandler {
    pub fn new(max_level: u8) -> (r: Self)
        ensures
            r.max_level == max_level,
    {
        Self { max_level }
    }

    /// The settings this handler answers for.
    pub fn settings(&self) -> (r: Vec<SettingId>)
        ensures
            r@ == dual_battery_ids(),
    {
        let r = vec![
            SettingId::IsChargingLeft,
            SettingId::IsChargingRight,
            SettingId::BatteryLevelLeft,
            SettingId::BatteryLevelRight,
        ];
        assert(r@ =~= dual_battery_ids());
        r
    }

    /// Reads one of this handler's settings.
    pub fn get(&self, state: &DeviceState, setting_id: &SettingId) -> (r: Option<Setting>)
        requires
            state.dual_battery is Some,
        ensures
            crate::setting::opt_view(r) == dual_battery_reading(self.max_level, state@, *setting_id),
    {
        let battery = *state.dual_battery.as_ref().unwrap();
        match setting_id {
            SettingId::IsChargingLeft => Some(charging_information(battery.left)),
            SettingId::IsChargingRight => Some(charging_information(battery.right)),
            SettingId::BatteryLevelLeft => Some(level_information(battery.left, self.max_level)),
            SettingId::BatteryLevelRight => Some(level_information(battery.right, self.max_level)),
            _ => None,
        }
    }

    /// Telemetry is never writable.
    pub fn set(&self, state: &mut DeviceState, setting_id: &SettingId, value: Value) -> (r: Result<(), HandlerError>)
        ensures
            r == Err::<(), HandlerError>(HandlerError::ReadOnly),
            *final(state) == *old(state),
    {
        Err(HandlerError::ReadOnly)
    }
}

} // verus!
