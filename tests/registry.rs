use openscq30_settings::battery::{
    battery_percentage, level_information, BatterySettingHandler, SingleBatterySettingHandler,
};
use openscq30_settings::encoding::{parse_value, split_assignment, ValueKind};
use openscq30_settings::handler::{Command, Handler};
use openscq30_settings::model::{
    Battery, Category, Component, DeviceState, DualBattery, Profile, SettingId, SoundMode,
};
use openscq30_settings::registry::{stops_batch, supports, CompositionError, Registry, RegistryError};
use openscq30_settings::setting::{
    Acknowledgement, DeviceErrorKind, HandlerError, ProfileAction, Setting, Value,
};

fn catalog() -> Vec<Handler> {
    vec![
        Handler::Battery(SingleBatterySettingHandler::new(5)),
        Handler::DualBattery(BatterySettingHandler::new(5)),
        Handler::SoundMode,
        Handler::WearingDetection,
        Handler::NoiseCanceling { max: 10 },
        Handler::Equalizer { band_count: 8, min: -120, max: 120 },
        Handler::ResetButtons,
        Handler::Profiles,
    ]
}

fn single_battery_shape() -> Vec<Component> {
    vec![
        Component::Battery,
        Component::AmbientSoundMode,
        Component::NoiseCancelingLevel,
        Component::Equalizer,
    ]
}

fn single_battery_state() -> DeviceState {
    DeviceState {
        battery: Some(Battery { level: 3, is_charging: true }),
        dual_battery: None,
        sound_mode: Some(SoundMode::Normal),
        wearing_detection: None,
        noise_canceling_level: Some(4),
        volume_adjustments: Some(vec![0, 10, 20, 30, -10, -20, 0, 120]),
        custom_buttons: None,
        profiles: None,
    }
}

fn dual_battery_shape() -> Vec<Component> {
    vec![
        Component::DualBattery,
        Component::AmbientSoundMode,
        Component::WearingDetection,
        Component::Equalizer,
        Component::ButtonConfiguration,
        Component::EqualizerProfiles,
    ]
}

fn dual_battery_state() -> DeviceState {
    DeviceState {
        battery: None,
        dual_battery: Some(DualBattery {
            left: Battery { level: 5, is_charging: false },
            right: Battery { level: 2, is_charging: true },
        }),
        sound_mode: Some(SoundMode::Transparency),
        wearing_detection: Some(false),
        noise_canceling_level: None,
        volume_adjustments: Some(vec![0, 0, 0, 0, 0, 0, 0, 0]),
        custom_buttons: Some(true),
        profiles: Some(vec![
            Profile { name: "Flat".to_string(), values: vec![0, 0, 0, 0, 0, 0, 0, 0] },
            Profile { name: "Bass".to_string(), values: vec![60, 40, 20, 0, 0, 0, 0, 0] },
        ]),
    }
}

fn information(s: &Setting) -> (String, String) {
    match s {
        Setting::Information { value, translated_value } => (value.clone(), translated_value.clone()),
        other => panic!("not information: {other:?}"),
    }
}

#[test]
fn single_battery_model_lists_only_single_battery_ids() {
    let reg = Registry::compose(&catalog(), &single_battery_shape()).unwrap();
    let ids = reg.setting_ids();
    assert_eq!(
        ids,
        vec![
            SettingId::BatteryLevel,
            SettingId::IsCharging,
            SettingId::AmbientSoundMode,
            SettingId::CustomNoiseCanceling,
            SettingId::VolumeAdjustments,
        ]
    );
    let state = single_battery_state();
    let listed = reg.list(&state);
    assert_eq!(listed.len(), 5);
    assert!(listed.iter().all(|(id, s)| *id != SettingId::BatteryLevelLeft
        && *id != SettingId::BatteryLevelRight
        && s.is_some()));
}

#[test]
fn dual_battery_model_lists_dual_ids_in_order() {
    let reg = Registry::compose(&catalog(), &dual_battery_shape()).unwrap();
    assert_eq!(
        reg.setting_ids(),
        vec![
            SettingId::IsChargingLeft,
            SettingId::IsChargingRight,
            SettingId::BatteryLevelLeft,
            SettingId::BatteryLevelRight,
            SettingId::AmbientSoundMode,
            SettingId::WearingDetection,
            SettingId::VolumeAdjustments,
            SettingId::ResetButtonsToDefault,
            SettingId::CustomEqualizerProfile,
        ]
    );
}

#[test]
fn duplicate_setting_fails_composition() {
    let candidates = vec![
        Handler::Battery(SingleBatterySettingHandler::new(5)),
        Handler::SoundMode,
        Handler::Battery(SingleBatterySettingHandler::new(10)),
    ];
    let r = Registry::compose(&candidates, &vec![Component::Battery, Component::AmbientSoundMode]);
    assert_eq!(r.unwrap_err(), CompositionError::DuplicateSetting(SettingId::BatteryLevel));
    // A duplicate among handlers the model cannot serve is discarded with them.
    let r = Registry::compose(&candidates, &vec![Component::AmbientSoundMode]);
    assert_eq!(r.unwrap().setting_ids(), vec![SettingId::AmbientSoundMode]);
}

#[test]
fn handler_settings_are_nonempty_and_stable() {
    for h in catalog() {
        let first = h.settings();
        assert!(!first.is_empty());
        assert_eq!(first, h.settings());
    }
}

#[test]
fn supports_checks_required_components() {
    assert!(supports(&single_battery_shape(), &Handler::SoundMode));
    assert!(!supports(&single_battery_shape(), &Handler::WearingDetection));
    assert!(!supports(&vec![], &Handler::Battery(SingleBatterySettingHandler::new(5))));
}

#[test]
fn percentage_at_maximum_is_full() {
    assert_eq!(battery_percentage(5, 5), 100);
}

#[test]
fn percentage_above_maximum_is_clamped() {
    assert_eq!(battery_percentage(7, 5), 100);
    assert_eq!(battery_percentage(255, 5), 100);
    assert_eq!(battery_percentage(255, 1), 100);
}

#[test]
fn percentage_rounds_half_up() {
    assert_eq!(battery_percentage(3, 5), 60);
    assert_eq!(battery_percentage(1, 8), 13);
    assert_eq!(battery_percentage(1, 3), 33);
    assert_eq!(battery_percentage(2, 3), 67);
    assert_eq!(battery_percentage(0, 5), 0);
    assert_eq!(battery_percentage(0, 0), 0);
}

#[test]
fn level_information_text() {
    let s = level_information(Battery { level: 3, is_charging: false }, 5);
    assert_eq!(information(&s), ("3".to_string(), "3/5 (60%)".to_string()));
    let s = level_information(Battery { level: 12, is_charging: false }, 10);
    assert_eq!(information(&s), ("12".to_string(), "12/10 (100%)".to_string()));
}

#[test]
fn dual_battery_handler_reads_both_sides() {
    let h = BatterySettingHandler::new(5);
    let state = dual_battery_state();
    let left = h.get(&state, &SettingId::BatteryLevelLeft).unwrap();
    assert_eq!(information(&left), ("5".to_string(), "5/5 (100%)".to_string()));
    let right = h.get(&state, &SettingId::BatteryLevelRight).unwrap();
    assert_eq!(information(&right), ("2".to_string(), "2/5 (40%)".to_string()));
    let charging = h.get(&state, &SettingId::IsChargingRight).unwrap();
    assert_eq!(information(&charging), ("true".to_string(), "Charging".to_string()));
    let charging = h.get(&state, &SettingId::IsChargingLeft).unwrap();
    assert_eq!(information(&charging), ("false".to_string(), "Not Charging".to_string()));
    assert!(h.get(&state, &SettingId::AmbientSoundMode).is_none());
}

#[test]
fn dual_battery_handler_refuses_writes() {
    let h = BatterySettingHandler::new(5);
    let mut state = dual_battery_state();
    let r = h.set(&mut state, &SettingId::BatteryLevelLeft, Value::Range(1));
    assert_eq!(r, Err(HandlerError::ReadOnly));
    assert_eq!(state.dual_battery.unwrap().left.level, 5);
}

#[test]
fn set_sound_mode_then_get_returns_it() {
    let reg = Registry::compose(&catalog(), &single_battery_shape()).unwrap();
    let mut state = single_battery_state();
    let value = parse_value(ValueKind::Select, "NoiseCanceling").unwrap();
    let r = reg.set(&mut state, SettingId::AmbientSoundMode, value, Acknowledgement::Confirmed);
    assert_eq!(r, Ok(()));
    match reg.get(&state, SettingId::AmbientSoundMode).unwrap() {
        Setting::Select { options, value } => {
            assert_eq!(value, "NoiseCanceling");
            assert_eq!(options, vec!["Normal", "Transparency", "NoiseCanceling"]);
        },
        other => panic!("not a selection: {other:?}"),
    }
}

#[test]
fn set_unknown_mode_is_invalid() {
    let reg = Registry::compose(&catalog(), &single_battery_shape()).unwrap();
    let mut state = single_battery_state();
    let r = reg.set(
        &mut state,
        SettingId::AmbientSoundMode,
        Value::Select("noisecanceling".to_string()),
        Acknowledgement::Confirmed,
    );
    assert_eq!(r, Err(RegistryError::InvalidValue));
    assert_eq!(state.sound_mode, Some(SoundMode::Normal));
}

#[test]
fn set_battery_level_left_is_read_only() {
    let reg = Registry::compose(&catalog(), &dual_battery_shape()).unwrap();
    let mut state = dual_battery_state();
    let r = reg.set(&mut state, SettingId::BatteryLevelLeft, Value::Range(1), Acknowledgement::Confirmed);
    assert_eq!(r, Err(RegistryError::ReadOnly));
    assert_eq!(state.dual_battery, dual_battery_state().dual_battery);
}

#[test]
fn set_volume_adjustments_with_declared_band_count() {
    let reg = Registry::compose(&catalog(), &dual_battery_shape()).unwrap();
    let mut state = dual_battery_state();
    let value = parse_value(ValueKind::Equalizer, "0,0,0,0,0,0,0,0").unwrap();
    let r = reg.set(&mut state, SettingId::VolumeAdjustments, value, Acknowledgement::Confirmed);
    assert_eq!(r, Ok(()));
    let value = parse_value(ValueKind::Equalizer, "1,-2,3,-4,5,-6,7,-120").unwrap();
    let r = reg.set(&mut state, SettingId::VolumeAdjustments, value, Acknowledgement::Confirmed);
    assert_eq!(r, Ok(()));
    assert_eq!(state.volume_adjustments, Some(vec![1, -2, 3, -4, 5, -6, 7, -120]));
}

#[test]
fn set_volume_adjustments_with_wrong_band_count_is_invalid() {
    let reg = Registry::compose(&catalog(), &dual_battery_shape()).unwrap();
    let mut state = dual_battery_state();
    let value = parse_value(ValueKind::Equalizer, "0,0,0,0,0,0,0").unwrap();
    let r = reg.set(&mut state, SettingId::VolumeAdjustments, value, Acknowledgement::Confirmed);
    assert_eq!(r, Err(RegistryError::InvalidValue));
    let value = parse_value(ValueKind::Equalizer, "0,0,0,0,0,0,0,0,0").unwrap();
    let r = reg.set(&mut state, SettingId::VolumeAdjustments, value, Acknowledgement::Confirmed);
    assert_eq!(r, Err(RegistryError::InvalidValue));
    let value = parse_value(ValueKind::Equalizer, "0,0,0,0,0,0,0,121").unwrap();
    let r = reg.set(&mut state, SettingId::VolumeAdjustments, value, Acknowledgement::Confirmed);
    assert_eq!(r, Err(RegistryError::InvalidValue));
    assert_eq!(state.volume_adjustments, Some(vec![0, 0, 0, 0, 0, 0, 0, 0]));
}

#[test]
fn unacknowledged_write_times_out_and_keeps_state() {
    let reg = Registry::compose(&catalog(), &single_battery_shape()).unwrap();
    let mut state = single_battery_state();
    let r = reg.set(
        &mut state,
        SettingId::CustomNoiseCanceling,
        Value::Range(7),
        Acknowledgement::Failed(DeviceErrorKind::Timeout),
    );
    assert_eq!(r, Err(RegistryError::Device(DeviceErrorKind::Timeout)));
    assert_eq!(state.noise_canceling_level, Some(4));
    let r = reg.set(
        &mut state,
        SettingId::CustomNoiseCanceling,
        Value::Range(7),
        Acknowledgement::Failed(DeviceErrorKind::Disconnected),
    );
    assert_eq!(r, Err(RegistryError::Device(DeviceErrorKind::Disconnected)));
    assert_eq!(state.noise_canceling_level, Some(4));
}

#[test]
fn writing_twice_is_idempotent() {
    let reg = Registry::compose(&catalog(), &single_battery_shape()).unwrap();
    let mut state = single_battery_state();
    let r = reg.set(&mut state, SettingId::CustomNoiseCanceling, Value::Range(9), Acknowledgement::Confirmed);
    assert_eq!(r, Ok(()));
    assert_eq!(state.noise_canceling_level, Some(9));
    let r = reg.set(&mut state, SettingId::CustomNoiseCanceling, Value::Range(9), Acknowledgement::Confirmed);
    assert_eq!(r, Ok(()));
    assert_eq!(state.noise_canceling_level, Some(9));
}

#[test]
fn range_bounds_and_shape_are_checked() {
    let reg = Registry::compose(&catalog(), &single_battery_shape()).unwrap();
    let mut state = single_battery_state();
    for v in [Value::Range(11), Value::Range(-1), Value::Toggle(true)] {
        let r = reg.set(&mut state, SettingId::CustomNoiseCanceling, v, Acknowledgement::Confirmed);
        assert_eq!(r, Err(RegistryError::InvalidValue));
    }
    assert_eq!(state.noise_canceling_level, Some(4));
}

#[test]
fn unknown_setting_is_not_found() {
    let reg = Registry::compose(&catalog(), &single_battery_shape()).unwrap();
    let mut state = single_battery_state();
    assert_eq!(reg.get(&state, SettingId::WearingDetection).unwrap_err(), RegistryError::NotFound);
    let r = reg.set(&mut state, SettingId::WearingDetection, Value::Toggle(true), Acknowledgement::Confirmed);
    assert_eq!(r, Err(RegistryError::NotFound));
    let many = reg.get_many(&state, &vec![SettingId::BatteryLevel, SettingId::WearingDetection]);
    assert_eq!(many.len(), 2);
    assert_eq!(information(many[0].as_ref().unwrap()), ("3".to_string(), "3/5 (60%)".to_string()));
    assert_eq!(*many[1].as_ref().unwrap_err(), RegistryError::NotFound);
}

#[test]
fn prepare_then_commit() {
    let reg = Registry::compose(&catalog(), &dual_battery_shape()).unwrap();
    let mut state = dual_battery_state();
    let command = reg.prepare(&state, SettingId::WearingDetection, Value::Toggle(true)).unwrap();
    assert!(matches!(command, Command::SetWearingDetection(true)));
    assert_eq!(state.wearing_detection, Some(false));
    let r = openscq30_settings::handler::commit(&mut state, command, Acknowledgement::Failed(DeviceErrorKind::Rejected));
    assert_eq!(r, Err(HandlerError::Device(DeviceErrorKind::Rejected)));
    assert_eq!(state.wearing_detection, Some(false));
    let command = reg.prepare(&state, SettingId::WearingDetection, Value::Toggle(true)).unwrap();
    let r = openscq30_settings::handler::commit(&mut state, command, Acknowledgement::Confirmed);
    assert_eq!(r, Ok(()));
    assert_eq!(state.wearing_detection, Some(true));
}

#[test]
fn write_form_round_trips() {
    let reg = Registry::compose(&catalog(), &single_battery_shape()).unwrap();
    let mut state = single_battery_state();
    for id in [SettingId::AmbientSoundMode, SettingId::CustomNoiseCanceling, SettingId::VolumeAdjustments] {
        let reading = reg.get(&state, id).unwrap();
        let text = reading.write_form().unwrap();
        let value = parse_value(reading.kind().unwrap(), &text).unwrap();
        assert_eq!(reg.set(&mut state, id, value, Acknowledgement::Confirmed), Ok(()));
        let again = reg.get(&state, id).unwrap();
        assert_eq!(again.write_form().unwrap(), text);
    }
    assert_eq!(state.volume_adjustments, Some(vec![0, 10, 20, 30, -10, -20, 0, 120]));
    let battery = reg.get(&state, SettingId::BatteryLevel).unwrap();
    assert!(battery.kind().is_none());
    assert!(battery.write_form().is_none());
}

#[test]
fn write_forms_of_each_kind() {
    assert_eq!(Setting::Toggle { value: true }.write_form().unwrap(), "true");
    let r = Setting::Range { min: -5, max: 5, step: 1, value: -5 };
    assert_eq!(r.write_form().unwrap(), "-5");
    let e = Setting::Equalizer { min: -120, max: 120, values: vec![0, -12, 120] };
    assert_eq!(e.write_form().unwrap(), "0,-12,120");
    let e = Setting::Equalizer { min: -120, max: 120, values: vec![] };
    assert_eq!(e.write_form().unwrap(), "");
}

#[test]
fn parse_values_of_each_kind() {
    assert!(matches!(parse_value(ValueKind::Toggle, "true"), Some(Value::Toggle(true))));
    assert!(matches!(parse_value(ValueKind::Toggle, "false"), Some(Value::Toggle(false))));
    assert!(parse_value(ValueKind::Toggle, "True").is_none());
    assert!(matches!(parse_value(ValueKind::Range, "-2147483648"), Some(Value::Range(-2147483648))));
    assert!(matches!(parse_value(ValueKind::Range, "2147483647"), Some(Value::Range(2147483647))));
    assert!(parse_value(ValueKind::Range, "2147483648").is_none());
    assert!(parse_value(ValueKind::Range, "05").is_none());
    assert!(parse_value(ValueKind::Range, "-0").is_none());
    assert!(parse_value(ValueKind::Range, "+5").is_none());
    assert!(parse_value(ValueKind::Range, "").is_none());
    assert!(matches!(parse_value(ValueKind::Range, "0"), Some(Value::Range(0))));
    match parse_value(ValueKind::Equalizer, "-32768,32767,0") {
        Some(Value::Equalizer(v)) => assert_eq!(v, vec![-32768, 32767, 0]),
        other => panic!("unexpected {other:?}"),
    }
    assert!(parse_value(ValueKind::Equalizer, "1,,2").is_none());
    assert!(parse_value(ValueKind::Equalizer, "1,2,").is_none());
    assert!(parse_value(ValueKind::Equalizer, "1, 2").is_none());
    assert!(parse_value(ValueKind::Equalizer, "32768").is_none());
    match parse_value(ValueKind::Select, "Normal") {
        Some(Value::Select(s)) => assert_eq!(s, "Normal"),
        other => panic!("unexpected {other:?}"),
    }
}

#[test]
fn setting_names() {
    assert_eq!(SettingId::BatteryLevelLeft.name(), "batteryLevelLeft");
    assert_eq!(SettingId::VolumeAdjustments.name(), "volumeAdjustments");
    assert_eq!(SoundMode::NoiseCanceling.name(), "NoiseCanceling");
}

#[test]
fn batch_goes_on_after_local_errors() {
    let reg = Registry::compose(&catalog(), &single_battery_shape()).unwrap();
    let mut state = single_battery_state();
    let writes = vec![
        (SettingId::BatteryLevel, Value::Range(1)),
        (SettingId::CustomNoiseCanceling, Value::Range(2)),
        (SettingId::WearingDetection, Value::Toggle(true)),
        (SettingId::AmbientSoundMode, Value::Select("Loud".to_string())),
        (SettingId::AmbientSoundMode, Value::Select("Transparency".to_string())),
    ];
    let acks = vec![Acknowledgement::Confirmed, Acknowledgement::Confirmed];
    let r = reg.set_batch(&mut state, writes, &acks);
    assert_eq!(
        r,
        vec![
            Some(Err(RegistryError::ReadOnly)),
            Some(Ok(())),
            Some(Err(RegistryError::NotFound)),
            Some(Err(RegistryError::InvalidValue)),
            Some(Ok(())),
        ]
    );
    assert_eq!(state.noise_canceling_level, Some(2));
    assert_eq!(state.sound_mode, Some(SoundMode::Transparency));
}

#[test]
fn batch_stops_at_first_device_error() {
    let reg = Registry::compose(&catalog(), &single_battery_shape()).unwrap();
    let mut state = single_battery_state();
    let writes = vec![
        (SettingId::CustomNoiseCanceling, Value::Range(2)),
        (SettingId::AmbientSoundMode, Value::Select("NoiseCanceling".to_string())),
        (SettingId::CustomNoiseCanceling, Value::Range(3)),
        (SettingId::BatteryLevel, Value::Range(1)),
    ];
    let acks = vec![Acknowledgement::Confirmed, Acknowledgement::Failed(DeviceErrorKind::Rejected)];
    let r = reg.set_batch(&mut state, writes, &acks);
    assert_eq!(
        r,
        vec![Some(Ok(())), Some(Err(RegistryError::Device(DeviceErrorKind::Rejected))), None, None]
    );
    assert_eq!(state.noise_canceling_level, Some(2));
    assert_eq!(state.sound_mode, Some(SoundMode::Normal));
}

#[test]
fn batch_without_answer_times_out() {
    let reg = Registry::compose(&catalog(), &single_battery_shape()).unwrap();
    let mut state = single_battery_state();
    let writes = vec![
        (SettingId::CustomNoiseCanceling, Value::Range(2)),
        (SettingId::CustomNoiseCanceling, Value::Range(3)),
    ];
    let r = reg.set_batch(&mut state, writes, &vec![]);
    assert_eq!(r, vec![Some(Err(RegistryError::Device(DeviceErrorKind::Timeout))), None]);
    assert_eq!(state.noise_canceling_level, Some(4));
    assert!(stops_batch(&Err(RegistryError::Device(DeviceErrorKind::Timeout))));
    assert!(!stops_batch(&Err(RegistryError::InvalidValue)));
    assert!(!stops_batch(&Ok(())));
}

#[test]
fn setting_ids_from_names() {
    assert_eq!(SettingId::from_name("ambientSoundMode"), Some(SettingId::AmbientSoundMode));
    assert_eq!(SettingId::from_name("batteryLevelRight"), Some(SettingId::BatteryLevelRight));
    assert_eq!(SettingId::from_name("AmbientSoundMode"), None);
    assert_eq!(SettingId::from_name(""), None);
}

#[test]
fn assignments_split_at_first_equals() {
    assert_eq!(
        split_assignment("ambientSoundMode=NoiseCanceling"),
        Some(("ambientSoundMode".to_string(), "NoiseCanceling".to_string()))
    );
    assert_eq!(split_assignment("a=b=c"), Some(("a".to_string(), "b=c".to_string())));
    assert_eq!(split_assignment("k="), Some(("k".to_string(), String::new())));
    assert_eq!(split_assignment("resetButtons"), None);
}

#[test]
fn action_resets_buttons() {
    let reg = Registry::compose(&catalog(), &dual_battery_shape()).unwrap();
    let mut state = dual_battery_state();
    let reading = reg.get(&state, SettingId::ResetButtonsToDefault).unwrap();
    assert!(matches!(reading, Setting::Action));
    assert_eq!(reading.kind(), Some(ValueKind::Action));
    assert_eq!(reading.write_form().unwrap(), "");
    let value = parse_value(ValueKind::Action, "").unwrap();
    let r = reg.set(&mut state, SettingId::ResetButtonsToDefault, value, Acknowledgement::Confirmed);
    assert_eq!(r, Ok(()));
    assert_eq!(state.custom_buttons, Some(false));
    assert!(parse_value(ValueKind::Action, "now").is_none());
    let r = reg.set(&mut state, SettingId::ResetButtonsToDefault, Value::Toggle(true), Acknowledgement::Confirmed);
    assert_eq!(r, Err(RegistryError::InvalidValue));
}

#[test]
fn setting_categories() {
    assert_eq!(SettingId::BatteryLevelLeft.category(), Category::Battery);
    assert_eq!(SettingId::AmbientSoundMode.category(), Category::SoundModes);
    assert_eq!(SettingId::CustomNoiseCanceling.category(), Category::SoundModes);
    assert_eq!(SettingId::VolumeAdjustments.category(), Category::Equalizer);
    assert_eq!(SettingId::ResetButtonsToDefault.category(), Category::Miscellaneous);
    assert_eq!(SettingId::from_name("resetButtonsToDefault"), Some(SettingId::ResetButtonsToDefault));
}

fn profile_reading(reg: &Registry, state: &DeviceState) -> (Vec<String>, Option<String>) {
    match reg.get(state, SettingId::CustomEqualizerProfile).unwrap() {
        Setting::Profiles { options, value } => (options, value),
        other => panic!("not profiles: {other:?}"),
    }
}

#[test]
fn profiles_read_current_match() {
    let reg = Registry::compose(&catalog(), &dual_battery_shape()).unwrap();
    let state = dual_battery_state();
    let (options, value) = profile_reading(&reg, &state);
    assert_eq!(options, vec!["Flat", "Bass"]);
    assert_eq!(value, Some("Flat".to_string()));
    let reading = reg.get(&state, SettingId::CustomEqualizerProfile).unwrap();
    assert_eq!(reading.kind(), Some(ValueKind::Profile));
    assert_eq!(reading.write_form(), Some("Flat".to_string()));
}

#[test]
fn select_profile_loads_its_values() {
    let reg = Registry::compose(&catalog(), &dual_battery_shape()).unwrap();
    let mut state = dual_battery_state();
    let value = parse_value(ValueKind::Profile, "Bass").unwrap();
    let r = reg.set(&mut state, SettingId::CustomEqualizerProfile, value, Acknowledgement::Confirmed);
    assert_eq!(r, Ok(()));
    assert_eq!(state.volume_adjustments, Some(vec![60, 40, 20, 0, 0, 0, 0, 0]));
    assert_eq!(profile_reading(&reg, &state).1, Some("Bass".to_string()));
    let value = parse_value(ValueKind::Profile, "Treble").unwrap();
    let r = reg.set(&mut state, SettingId::CustomEqualizerProfile, value, Acknowledgement::Confirmed);
    assert_eq!(r, Err(RegistryError::InvalidValue));
}

#[test]
fn create_and_delete_profiles() {
    let reg = Registry::compose(&catalog(), &dual_battery_shape()).unwrap();
    let mut state = dual_battery_state();
    let eq = parse_value(ValueKind::Equalizer, "1,2,3,4,5,6,7,8").unwrap();
    assert_eq!(reg.set(&mut state, SettingId::VolumeAdjustments, eq, Acknowledgement::Confirmed), Ok(()));
    assert_eq!(profile_reading(&reg, &state).1, None);
    let create = parse_value(ValueKind::Profile, "+Mine").unwrap();
    assert!(matches!(&create, Value::Profile(ProfileAction::Create(n)) if n == "Mine"));
    assert_eq!(reg.set(&mut state, SettingId::CustomEqualizerProfile, create, Acknowledgement::Confirmed), Ok(()));
    assert_eq!(profile_reading(&reg, &state), (
        vec!["Flat".to_string(), "Bass".to_string(), "Mine".to_string()],
        Some("Mine".to_string()),
    ));
    // Saving under an existing name replaces that profile's values.
    let again = Value::Profile(ProfileAction::Create("Flat".to_string()));
    assert_eq!(reg.set(&mut state, SettingId::CustomEqualizerProfile, again, Acknowledgement::Confirmed), Ok(()));
    assert_eq!(profile_reading(&reg, &state).0, vec!["Flat", "Bass", "Mine"]);
    let delete = parse_value(ValueKind::Profile, "-Bass").unwrap();
    assert_eq!(reg.set(&mut state, SettingId::CustomEqualizerProfile, delete, Acknowledgement::Confirmed), Ok(()));
    assert_eq!(profile_reading(&reg, &state).0, vec!["Flat", "Mine"]);
    let delete = parse_value(ValueKind::Profile, "-Bass").unwrap();
    assert_eq!(reg.set(&mut state, SettingId::CustomEqualizerProfile, delete, Acknowledgement::Confirmed), Ok(()));
    assert_eq!(profile_reading(&reg, &state).0, vec!["Flat", "Mine"]);
    let bad = Value::Profile(ProfileAction::Create(String::new()));
    assert_eq!(
        reg.set(&mut state, SettingId::CustomEqualizerProfile, bad, Acknowledgement::Confirmed),
        Err(RegistryError::InvalidValue)
    );
}

#[test]
fn profile_texts_parse_by_sigil() {
    assert!(matches!(parse_value(ValueKind::Profile, "-Old"), Some(Value::Profile(ProfileAction::Delete(n))) if n == "Old"));
    assert!(matches!(parse_value(ValueKind::Profile, "Name"), Some(Value::Profile(ProfileAction::Select(n))) if n == "Name"));
    assert!(parse_value(ValueKind::Profile, "").is_none());
    assert!(parse_value(ValueKind::Profile, "+").is_none());
    assert!(parse_value(ValueKind::Profile, "+-x").is_none());
}
