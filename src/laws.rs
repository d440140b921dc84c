use vstd::prelude::*;
use crate::battery::bool_text;
use crate::encoding::{
    kind_of, lemma_int_text_injective, lemma_join_injective, parses_to, write_text, ValueKind,
};
use crate::handler::{
    applied, index_matching, lemma_index_matching_found, lemma_index_named_is, lemma_upsert_idempotent,
    lemma_without_idempotent, mode_of_name, saved, CommandView, Handler,
};
use crate::model::{mode_name, Component, ProfileView, SettingId, SoundMode, StateView};
use crate::registry::{registry_state_after, registry_write_result, RegistryView};
use crate::setting::{
    valid_profile_name, Acknowledgement, HandlerError, ProfileActionView, SettingView, ValueView,
};

verus! {

/// Every handler answers for at least one setting, and for no setting twice;
/// `settings()` returns this same sequence on every call.
pub proof fn handler_settings_nonempty(h: Handler)
    ensures
        h.owned().len() > 0,
        h.owned().no_duplicates(),
{
}

/// Applying a command twice leaves the state as applying it once.
pub proof fn applied_idempotent(s: StateView, c: CommandView)
    ensures
        applied(applied(s, c), c) == applied(s, c),
{
    match c {
        CommandView::SaveProfile(n, v) => lemma_upsert_idempotent(saved(s), ProfileView { name: n, values: v }),
        CommandView::DeleteProfile(n) => lemma_without_idempotent(saved(s), n),
        _ => {},
    }
}

/// Writing the same value twice: if the first confirmed write succeeds, so does the
/// second, and the state after the second is the state after the first.
pub proof fn write_twice_idempotent(v: RegistryView, s: StateView, id: SettingId, value: ValueView)
    requires
        v.wf(),
        registry_write_result(v, s, id, value, Acknowledgement::Confirmed) is Ok,
    ensures
        registry_write_result(
            v,
            registry_state_after(v, s, id, value, Acknowledgement::Confirmed),
            id,
            value,
            Acknowledgement::Confirmed,
        ) is Ok,
        registry_state_after(
            v,
            registry_state_after(v, s, id, value, Acknowledgement::Confirmed),
            id,
            value,
            Acknowledgement::Confirmed,
        ) == registry_state_after(v, s, id, value, Acknowledgement::Confirmed),
{
    let h = v.owner(id);
    match h.validation(s, id, value) {
        Ok(c) => {
            applied_idempotent(s, c);
            let s1 = applied(s, c);
            if let (Handler::Profiles, ValueView::Profile(a)) = (h, value) {
                match a {
                    ProfileActionView::Create(n) => {
                        let p = ProfileView { name: n, values: s.volume_adjustments.unwrap() };
                        lemma_upsert_idempotent(saved(s), p);
                    },
                    ProfileActionView::Delete(n) => lemma_without_idempotent(saved(s), n),
                    ProfileActionView::Select(n) => {},
                }
            }
            assert(h.validation(s1, id, value) == Ok::<CommandView, HandlerError>(c));
        },
        Err(_) => {},
    }
}

/// A write that the session does not confirm leaves the state as it was.
pub proof fn unconfirmed_write_keeps_state(
    v: RegistryView,
    s: StateView,
    id: SettingId,
    value: ValueView,
    ack: Acknowledgement,
)
    requires
        v.wf(),
        ack != Acknowledgement::Confirmed,
    ensures
        registry_state_after(v, s, id, value, ack) == s,
        registry_write_result(v, s, id, value, ack) is Err,
{
}

/// The canonical write form of every writable reading parses as a value of its kind
/// (for profiles: where a profile with a usable name is current).
pub proof fn write_form_parses(st: SettingView)
    requires
        kind_of(st) is Some,
        st is Profiles ==> st->Profiles_value is Some && valid_profile_name(st->Profiles_value->Some_0),
    ensures
        write_text(st) is Some,
        exists|v: ValueView| parses_to(kind_of(st).unwrap(), write_text(st).unwrap(), v),
{
    match st {
        SettingView::Toggle { value } => assert(parses_to(kind_of(st).unwrap(), write_text(st).unwrap(), ValueView::Toggle(value))),
        SettingView::Select { value, .. } => assert(parses_to(kind_of(st).unwrap(), write_text(st).unwrap(), ValueView::Select(value))),
        SettingView::Range { value, .. } => assert(parses_to(kind_of(st).unwrap(), write_text(st).unwrap(), ValueView::Range(value))),
        SettingView::Equalizer { values, .. } => assert(parses_to(kind_of(st).unwrap(), write_text(st).unwrap(), ValueView::Equalizer(values))),
        SettingView::Information { .. } => {},
        SettingView::Action => assert(parses_to(kind_of(st).unwrap(), write_text(st).unwrap(), ValueView::Action)),
        SettingView::Profiles { value, .. } => assert(parses_to(
            kind_of(st).unwrap(),
            write_text(st).unwrap(),
            ValueView::Profile(ProfileActionView::Select(value->Some_0)),
        )),
    }
}

/// Round trip: a value parsed from the canonical write form of a writable reading is
/// accepted by the handler, and its confirmed write leaves that reading as it was.
pub proof fn write_form_round_trip(h: Handler, s: StateView, id: SettingId, v: ValueView)
    requires
        h.served_by(s),
        h.state_within_bounds(s),
        h.reading(s, id) is Some,
        kind_of(h.reading(s, id).unwrap()) is Some,
        write_text(h.reading(s, id).unwrap()) is Some,
        parses_to(kind_of(h.reading(s, id).unwrap()).unwrap(), write_text(h.reading(s, id).unwrap()).unwrap(), v),
    ensures
        h.validation(s, id, v) is Ok,
        h.reading(applied(s, h.validation(s, id, v)->Ok_0), id) == h.reading(s, id),
{
    reveal_strlit("Normal");
    reveal_strlit("Transparency");
    reveal_strlit("NoiseCanceling");
    reveal_strlit("true");
    reveal_strlit("false");
    match h {
        Handler::SoundMode => {
            assert("Normal"@.len() == 6 && "Transparency"@.len() == 12 && "NoiseCanceling"@.len() == 14);
            assert(mode_of_name(mode_name(SoundMode::Normal)) == Some(SoundMode::Normal));
            assert(mode_of_name(mode_name(SoundMode::Transparency)) == Some(SoundMode::Transparency));
            assert(mode_of_name(mode_name(SoundMode::NoiseCanceling)) == Some(SoundMode::NoiseCanceling));
        },
        Handler::WearingDetection => {
            assert("true"@.len() == 4 && "false"@.len() == 5);
            assert(bool_text(true) != bool_text(false));
        },
        Handler::NoiseCanceling { max } => {
            let level = s.noise_canceling_level->Some_0;
            if let ValueView::Range(n) = v {
                lemma_int_text_injective(n as int, level as i32 as int);
            }
        },
        Handler::Equalizer { .. } => {
            if let ValueView::Equalizer(vs) = v {
                lemma_join_injective(vs, s.volume_adjustments->Some_0);
            }
        },
        Handler::Profiles => {
            assert(h.required()[0] == Component::Equalizer);
            assert(h.required()[1] == Component::EqualizerProfiles);
            assert(h.required().contains(Component::Equalizer));
            assert(h.required().contains(Component::EqualizerProfiles));
            let ps = s.profiles->Some_0;
            let adj = s.volume_adjustments->Some_0;
            lemma_index_matching_found(ps, adj, 0);
            let k = index_matching(ps, adj)->Some_0;
            let n = ps[k].name;
            assert(v == ValueView::Profile(ProfileActionView::Select(n)));
            assert forall|j: int| 0 <= j < k implies ps[j].name != n by {
                assert(ps[j].name != ps[k].name);
            }
            lemma_index_named_is(ps, n, 0, k);
            assert(h.validation(s, id, v) == Ok::<CommandView, HandlerError>(CommandView::SetVolumeAdjustments(adj)));
            assert(applied(s, CommandView::SetVolumeAdjustments(adj)) == s);
        },
        _ => {},
    }
}

} // verus!
