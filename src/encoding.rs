use vstd::prelude::*;
use vstd::string::{StrSliceExecFns, StringExecFns};
use crate::battery::bool_text;
use crate::model::{id_name, SettingId};
use crate::setting::{
    valid_profile_name, ProfileAction, ProfileActionView, Setting, SettingView, Value, ValueView,
};
use crate::text::{dec, int_text, lemma_dec, magnitude, parse_int, push_dec};

verus! {

/// Each value's decimal text followed by a comma.
pub open spec fn terminated(vs: Seq<i16>) -> Seq<char>
    decreases vs.len(),
{
    if vs.len() == 0 {
        Seq::empty()
    } else {
        terminated(vs.drop_last()) + int_text(vs.last() as int) + seq![',']
    }
}

/// The canonical text of a sequence of values: their decimal texts joined by commas.
pub open spec fn join(vs: Seq<i16>) -> Seq<char> {
    if vs.len() == 0 {
        Seq::empty()
    } else {
        terminated(vs.drop_last()) + int_text(vs.last() as int)
    }
}

/// Whether `t` holds no comma from `a` up to `b`.
pub open spec fn comma_free(t: Seq<char>, a: int, b: int) -> bool {
    forall|j: int| a <= j < b ==> t[j] != ','
}

proof fn lemma_int_text(v: int)
    ensures
        int_text(v).len() > 0,
        !int_text(v).contains(','),
{
    lemma_dec(magnitude(v));
    let m = magnitude(v);
    if v < 0 {
        if int_text(v).contains(',') {
            let k = choose|k: int| 0 <= k < int_text(v).len() && int_text(v)[k] == ',';
            if k > 0 {
                assert(dec(m)[k - 1] == ',');
            }
        }
    }
}

pub proof fn lemma_int_text_injective(a: int, b: int)
    requires
        int_text(a) == int_text(b),
    ensures
        a == b,
{
    lemma_dec(magnitude(a));
    lemma_dec(magnitude(b));
    if a < 0 && b < 0 {
        assert(dec(magnitude(a)) =~= int_text(a).skip(1));
        assert(dec(magnitude(b)) =~= int_text(b).skip(1));
    } else if a < 0 {
        assert(int_text(a)[0] == '-');
    } else if b < 0 {
        assert(int_text(b)[0] == '-');
    }
}

proof fn lemma_terminated_step(ws: Seq<i16>, k: int)
    requires
        0 <= k < ws.len(),
    ensures
        terminated(ws.take(k + 1)) == terminated(ws.take(k)) + int_text(ws[k] as int) + seq![','],
{
    assert(ws.take(k + 1).drop_last() =~= ws.take(k));
}

proof fn lemma_terminated_prefix(ws: Seq<i16>, a: int, b: int)
    requires
        0 <= a <= b <= ws.len(),
    ensures
        terminated(ws.take(a)).len() <= terminated(ws.take(b)).len(),
        terminated(ws.take(b)).take(terminated(ws.take(a)).len() as int) == terminated(ws.take(a)),
    decreases b - a,
{
    if a < b {
        lemma_terminated_prefix(ws, a, b - 1);
        lemma_terminated_step(ws, b - 1);
        let x = terminated(ws.take(a));
        let y = terminated(ws.take(b - 1));
        assert((y + int_text(ws[b - 1] as int) + seq![',']).take(x.len() as int) =~= y.take(x.len() as int));
    } else {
        assert(terminated(ws.take(a)).take(terminated(ws.take(a)).len() as int) =~= terminated(ws.take(a)));
    }
}

/// Where the `k`-th value stands in the joined text of `ws`, and what follows it.
proof fn lemma_join_split(ws: Seq<i16>, k: int)
    requires
        0 <= k < ws.len(),
    ensures
        ({
            let p = terminated(ws.take(k));
            let w = int_text(ws[k] as int);
            &&& p.len() + w.len() <= join(ws).len()
            &&& join(ws).take(p.len() as int) == p
            &&& join(ws).subrange(p.len() as int, (p.len() + w.len()) as int) == w
            &&& k + 1 < ws.len() ==> p.len() + w.len() < join(ws).len()
            &&& k + 1 < ws.len() ==> join(ws)[(p.len() + w.len()) as int] == ','
            &&& k + 1 == ws.len() ==> join(ws).len() == p.len() + w.len()
        }),
{
    let n = ws.len() as int;
    let p = terminated(ws.take(k));
    let w = int_text(ws[k] as int);
    assert(ws.drop_last() =~= ws.take(n - 1));
    if k + 1 == n {
        assert(join(ws) == p + w);
        assert((p + w).take(p.len() as int) =~= p);
        assert((p + w).subrange(p.len() as int, (p.len() + w.len()) as int) =~= w);
    } else {
        lemma_terminated_step(ws, k);
        lemma_terminated_prefix(ws, k + 1, n - 1);
        let q = terminated(ws.take(k + 1));
        let r = terminated(ws.take(n - 1));
        let j = join(ws);
        assert(j == r + int_text(ws[n - 1] as int));
        assert(q == p + w + seq![',']);
        assert forall|i: int| 0 <= i < q.len() implies j[i] == q[i] by {
            assert(r.take(q.len() as int)[i] == q[i]);
        }
        assert(j.take(p.len() as int) =~= p);
        assert(j.subrange(p.len() as int, (p.len() + w.len()) as int) =~= w);
        assert(j[(p.len() + w.len()) as int] == q[(p.len() + w.len()) as int]);
    }
}

/// The characters of a string.
pub fn chars_of(s: &str) -> (r: Vec<char>)
    ensures
        r@ == s@,
{
    let n = s.unicode_len();
    let mut r: Vec<char> = Vec::new();
    let mut i: usize = 0;
    while i < n
        invariant
            n == s@.len(),
            i <= n,
            r@ == s@.take(i as int),
        decreases n - i,
    {
        r.push(s.get_char(i));
        i = i + 1;
        assert(r@ =~= s@.take(i as int));
    }
    assert(s@.take(i as int) =~= s@);
    r
}

/// Appends the decimal text of `v` to `s`.
pub fn push_int(s: &mut String, v: i32)
    ensures
        final(s)@ == old(s)@ + int_text(v as int),
{
    proof {
        reveal_strlit("-");
    }
    if v < 0 {
        s.append("-");
        let m: u32 = (-(v as i64)) as u32;
        push_dec(s, m);
        assert(final(s)@ =~= old(s)@ + int_text(v as int));
    } else {
        push_dec(s, v as u32);
    }
}

/// The canonical text of a sequence of values.
pub fn encode_list(vs: &Vec<i16>) -> (r: String)
    ensures
        r@ == join(vs@),
{
    proof {
        reveal_strlit(",");
        assert(","@ =~= seq![',']);
    }
    let mut r = String::new();
    if vs.len() == 0 {
        return r;
    }
    let n = vs.len() - 1;
    let mut i: usize = 0;
    while i < n
        invariant
            n + 1 == vs.len(),
            i <= n,
            r@ == terminated(vs@.take(i as int)),
        decreases n - i,
    {
        proof {
            lemma_terminated_step(vs@, i as int);
            reveal_strlit(",");
            assert(","@ =~= seq![',']);
        }
        push_int(&mut r, vs[i] as i32);
        r.append(",");
        i = i + 1;
        assert(r@ =~= terminated(vs@.take(i as int)));
    }
    push_int(&mut r, vs[n] as i32);
    assert(vs@.drop_last() =~= vs@.take(n as int));
    r
}

/// Parses the canonical text of a sequence of values.
pub fn parse_list(t: &Vec<char>) -> (r: Option<Vec<i16>>)
    ensures
        match r {
            Some(vs) => join(vs@) == t@,
            None => forall|ws: Seq<i16>| join(ws) != t@,
        },
{
    let mut vs: Vec<i16> = Vec::new();
    if t.len() == 0 {
        assert(join(vs@) =~= t@);
        return Some(vs);
    }
    let mut start: usize = 0;
    let mut i: usize = 0;
    loop
        invariant
            t.len() > 0,
            start <= i <= t.len(),
            t@.take(start as int) == terminated(vs@),
            comma_free(t@, start as int, i as int),
            forall|ws: Seq<i16>| #[trigger] join(ws) == t@ ==> ws.len() > vs.len() && ws.take(vs.len() as int) == vs@,
        decreases t.len() - i,
    {
        if i == t.len() || t[i] == ',' {
            let at_end = i == t.len();
            let parsed = parse_int(t, start, i, -32768, 32767);
            proof {
                assert forall|ws: Seq<i16>| #[trigger] join(ws) == t@ implies {
                    &&& t@.subrange(start as int, i as int) == int_text(ws[vs.len() as int] as int)
                    &&& (at_end <==> ws.len() == vs.len() + 1)
                } by {
                    let k = vs.len() as int;
                    lemma_join_split(ws, k);
                    lemma_int_text(ws[k] as int);
                    assert(ws.take(k) == vs@);
                    let p = terminated(ws.take(k));
                    let w = int_text(ws[k] as int);
                    assert(p.len() == start) by {
                        assert(t@.take(start as int).len() == start);
                    }
                    let e = start + w.len();
                    if e < i {
                        if k + 1 < ws.len() {
                            assert(t@[e] == ',');
                            assert(!comma_free(t@, start as int, i as int));
                        }
                    } else if e > i {
                        assert(t@.subrange(start as int, e)[i - start] == t@[i as int]);
                        assert(w[i - start] != ',');
                        assert(w.contains(t@[i as int]));
                    }
                    assert(e == i);
                    assert(t@.subrange(start as int, i as int) =~= join(ws).subrange(p.len() as int, e));
                }
            }
            match parsed {
                None => {
                    proof {
                        assert forall|ws: Seq<i16>| join(ws) != t@ by {
                            if join(ws) == t@ {
                                let v = ws[vs.len() as int];
                                assert(t@.subrange(start as int, i as int) == int_text(v as int));
                            }
                        }
                    }
                    return None;
                },
                Some(v) => {
                    let ghost before = vs@;
                    vs.push(v as i16);
                    proof {
                        assert(vs@.drop_last() =~= before);
                        assert(t@.subrange(start as int, i as int) == int_text(v as int));
                        assert forall|ws: Seq<i16>| #[trigger] join(ws) == t@ implies
                            (at_end <==> ws.len() == vs.len()) && ws.len() >= vs.len()
                                && ws.take(vs.len() as int) == vs@ by {
                            let k = before.len() as int;
                            lemma_int_text_injective(v as int, ws[k] as int);
                            assert(ws.take(k) == before);
                            assert(ws.take(k + 1) =~= ws.take(k).push(ws[k]));
                        }
                    }
                    if at_end {
                        proof {
                            assert(t@ =~= t@.take(start as int) + t@.subrange(start as int, i as int));
                            assert(vs@.drop_last() =~= before);
                        }
                        return Some(vs);
                    }
                    proof {
                        assert(terminated(vs@) == terminated(before) + int_text(v as int) + seq![',']);
                        assert(t@.take(i + 1) =~= t@.take(start as int) + t@.subrange(start as int, i as int)
                            + seq![',']);
                    }
                    start = i + 1;
                }
            }
        }
        i = i + 1;
    }
}

/// Joined texts of different sequences differ.
pub proof fn lemma_join_injective(a: Seq<i16>, b: Seq<i16>)
    requires
        join(a) == join(b),
    ensures
        a == b,
{
    if a.len() == 0 || b.len() == 0 {
        if a.len() > 0 {
            lemma_join_split(a, 0);
            lemma_int_text(a[0] as int);
        }
        if b.len() > 0 {
            lemma_join_split(b, 0);
            lemma_int_text(b[0] as int);
        }
        assert(a =~= b);
    } else {
        assert(a.take(0) =~= b.take(0));
        lemma_join_prefix(a, b, 0);
    }
}

proof fn lemma_join_prefix(a: Seq<i16>, b: Seq<i16>, k: int)
    requires
        join(a) == join(b),
        0 <= k < a.len(),
        k < b.len(),
        a.take(k) == b.take(k),
    ensures
        a == b,
    decreases a.len() - k,
{
    let t = join(a);
    lemma_join_split(a, k);
    lemma_join_split(b, k);
    lemma_int_text(a[k] as int);
    lemma_int_text(b[k] as int);
    let p = terminated(a.take(k));
    let wa = int_text(a[k] as int);
    let wb = int_text(b[k] as int);
    if wa.len() < wb.len() {
        let e = (p.len() + wa.len()) as int;
        assert(t.subrange(p.len() as int, (p.len() + wb.len()) as int)[wa.len() as int] == t[e]);
        assert(wb.contains(t[e]));
    } else if wb.len() < wa.len() {
        let e = (p.len() + wb.len()) as int;
        assert(t.subrange(p.len() as int, (p.len() + wa.len()) as int)[wb.len() as int] == t[e]);
        assert(wa.contains(t[e]));
    }
    assert(wa == wb);
    lemma_int_text_injective(a[k] as int, b[k] as int);
    assert(a.take(k + 1) =~= a.take(k).push(a[k]));
    assert(b.take(k + 1) =~= b.take(k).push(b[k]));
    if k + 1 < a.len() && k + 1 < b.len() {
        lemma_join_prefix(a, b, k + 1);
    } else if k + 1 == a.len() && k + 1 == b.len() {
        assert(a =~= a.take(k + 1));
        assert(b =~= b.take(k + 1));
    }
}

/// The shape of a writable value.
#[derive(Clone, Copy, Debug, PartialEq, Eq, Structural)]
pub enum ValueKind {
    Toggle,
    Select,
    Range,
    Equalizer,
    Action,
    Profile,
}

/// The kind of value that writes a setting, if it is writable.
pub open spec fn kind_of(s: SettingView) -> Option<ValueKind> {
    match s {
        SettingView::Toggle { .. } => Some(ValueKind::Toggle),
        SettingView::Select { .. } => Some(ValueKind::Select),
        SettingView::Range { .. } => Some(ValueKind::Range),
        SettingView::Equalizer { .. } => Some(ValueKind::Equalizer),
        SettingView::Information { .. } => None,
        SettingView::Action => Some(ValueKind::Action),
        SettingView::Profiles { .. } => Some(ValueKind::Profile),
    }
}

/// The canonical write form of a setting's current value, if it is writable.
pub open spec fn write_text(s: SettingView) -> Option<Seq<char>> {
    match s {
        SettingView::Toggle { value } => Some(bool_text(value)),
        SettingView::Select { value, .. } => Some(value),
        SettingView::Range { value, .. } => Some(int_text(value as int)),
        SettingView::Equalizer { values, .. } => Some(join(values)),
        SettingView::Information { .. } => None,
        SettingView::Action => Some(Seq::empty()),
        SettingView::Profiles { value, .. } => value,
    }
}

/// Whether `t` is the canonical write form of `v`, a value of kind `k`.
pub open spec fn parses_to(k: ValueKind, t: Seq<char>, v: ValueView) -> bool {
    match (k, v) {
        (ValueKind::Toggle, ValueView::Toggle(b)) => t == bool_text(b),
        (ValueKind::Select, ValueView::Select(name)) => t == name,
        (ValueKind::Range, ValueView::Range(n)) => t == int_text(n as int),
        (ValueKind::Equalizer, ValueView::Equalizer(vs)) => t == join(vs),
        (ValueKind::Action, ValueView::Action) => t.len() == 0,
        (ValueKind::Profile, ValueView::Profile(a)) => match a {
            ProfileActionView::Select(n) => t == n && valid_profile_name(n),
            ProfileActionView::Create(n) => t == seq!['+'] + n && valid_profile_name(n),
            ProfileActionView::Delete(n) => t == seq!['-'] + n && valid_profile_name(n),
        },
        _ => false,
    }
}

impl Setting {
    /// The kind of value that writes this setting; `None` for information.
    pub fn kind(&self) -> (r: Option<ValueKind>)
        ensures
            r == kind_of(self@),
    {
        match self {
            Setting::Toggle { .. } => Some(ValueKind::Toggle),
            Setting::Select { .. } => Some(ValueKind::Select),
            Setting::Range { .. } => Some(ValueKind::Range),
            Setting::Equalizer { .. } => Some(ValueKind::Equalizer),
            Setting::Information { .. } => None,
            Setting::Action => Some(ValueKind::Action),
            Setting::Profiles { .. } => Some(ValueKind::Profile),
        }
    }

    /// The canonical write form of this setting's current value; `None` for information.
    pub fn write_form(&self) -> (r: Option<String>)
        ensures
            match r {
                Some(t) => write_text(self@) == Some(t@),
                None => write_text(self@) is None,
            },
    {
        proof {
            reveal_strlit("true");
            reveal_strlit("false");
        }
        match self {
            Setting::Toggle { value } => Some(String::from_str(if *value { "true" } else { "false" })),
            Setting::Select { value, .. } => Some(value.clone()),
            Setting::Range { value, .. } => {
                let mut t = String::new();
                push_int(&mut t, *value);
                assert(t@ =~= int_text(*value as int));
                Some(t)
            },
            Setting::Equalizer { values, .. } => Some(encode_list(values)),
            Setting::Information { .. } => None,
            Setting::Action => Some(String::new()),
            Setting::Profiles { value, .. } => match value {
                Some(v) => Some(v.clone()),
                None => None,
            },
        }
    }
}

/// Whether two strings hold the same characters.
pub fn same_text(a: &str, b: &str) -> (r: bool)
    ensures
        r == (a@ == b@),
{
    let n = a.unicode_len();
    if n != b.unicode_len() {
        return false;
    }
    let mut i: usize = 0;
    while i < n
        invariant
            n == a@.len() == b@.len(),
            i <= n,
            forall|k: int| 0 <= k < i ==> a@[k] == b@[k],
        decreases n - i,
    {
        if a.get_char(i) != b.get_char(i) {
            return false;
        }
        i = i + 1;
    }
    assert(a@ =~= b@);
    true
}

/// Whether a profile name is usable.
pub fn profile_name_ok(n: &str) -> (r: bool)
    ensures
        r == valid_profile_name(n@),
{
    if n.unicode_len() == 0 {
        return false;
    }
    let c = n.get_char(0);
    c != '+' && c != '-'
}

/// Parses the canonical write form of a value of kind `kind`.
pub fn parse_value(kind: ValueKind, text: &str) -> (r: Option<Value>)
    ensures
        match r {
            Some(v) => parses_to(kind, text@, v@),
            None => forall|v: ValueView| !parses_to(kind, text@, v),
        },
{
    proof {
        reveal_strlit("true");
        reveal_strlit("false");
    }
    match kind {
        ValueKind::Toggle => {
            if same_text(text, "true") {
                Some(Value::Toggle(true))
            } else if same_text(text, "false") {
                Some(Value::Toggle(false))
            } else {
                None
            }
        },
        ValueKind::Select => Some(Value::Select(String::from_str(text))),
        ValueKind::Range => {
            let t = chars_of(text);
            match parse_int(&t, 0, t.len(), -2147483648, 2147483647) {
                Some(n) => {
                    assert(t@.subrange(0, t@.len() as int) =~= t@);
                    Some(Value::Range(n as i32))
                },
                None => {
                    assert(t@.subrange(0, t@.len() as int) =~= t@);
                    None
                },
            }
        },
        ValueKind::Equalizer => {
            let t = chars_of(text);
            match parse_list(&t) {
                Some(vs) => Some(Value::Equalizer(vs)),
                None => None,
            }
        },
        ValueKind::Action => {
            if text.unicode_len() == 0 {
                Some(Value::Action)
            } else {
                None
            }
        },
        ValueKind::Profile => {
            let n = text.unicode_len();
            if n == 0 {
                return None;
            }
            let first = text.get_char(0);
            if first == '+' || first == '-' {
                let name = text.substring_char(1, n);
                assert(text@ =~= seq![first] + name@);
                if !profile_name_ok(name) {
                    return None;
                }
                let name = String::from_str(name);
                if first == '+' {
                    Some(Value::Profile(ProfileAction::Create(name)))
                } else {
                    Some(Value::Profile(ProfileAction::Delete(name)))
                }
            } else {
                Some(Value::Profile(ProfileAction::Select(String::from_str(text))))
            }
        },
    }
}

impl SettingId {
    /// The identifier with the given external name.
    pub fn from_name(name: &str) -> (r: Option<SettingId>)
        ensures
            match r {
                Some(id) => id_name(id) == name@,
                None => forall|id: SettingId| id_name(id) != name@,
            },
    {
        let all = [
            SettingId::BatteryLevel,
            SettingId::IsCharging,
            SettingId::IsChargingLeft,
            SettingId::IsChargingRight,
            SettingId::BatteryLevelLeft,
            SettingId::BatteryLevelRight,
            SettingId::AmbientSoundMode,
            SettingId::WearingDetection,
            SettingId::CustomNoiseCanceling,
            SettingId::VolumeAdjustments,
            SettingId::ResetButtonsToDefault,
            SettingId::CustomEqualizerProfile,
        ];
        let mut i: usize = 0;
        while i < 12
            invariant
                i <= 12,
                all@ == seq![
                    SettingId::BatteryLevel,
                    SettingId::IsCharging,
                    SettingId::IsChargingLeft,
                    SettingId::IsChargingRight,
                    SettingId::BatteryLevelLeft,
                    SettingId::BatteryLevelRight,
                    SettingId::AmbientSoundMode,
                    SettingId::WearingDetection,
                    SettingId::CustomNoiseCanceling,
                    SettingId::VolumeAdjustments,
                    SettingId::ResetButtonsToDefault,
                    SettingId::CustomEqualizerProfile,
                ],
                forall|k: int| 0 <= k < i ==> id_name(#[trigger] all@[k]) != name@,
            decreases 12 - i,
        {
            let id = all[i];
            if same_text(name, id.name()) {
                return Some(id);
            }
            i = i + 1;
        }
        proof {
            assert forall|id: SettingId| id_name(id) != name@ by {
                match id {
                    SettingId::BatteryLevel => assert(id_name(all@[0]) != name@),
                    SettingId::IsCharging => assert(id_name(all@[1]) != name@),
                    SettingId::IsChargingLeft => assert(id_name(all@[2]) != name@),
                    SettingId::IsChargingRight => assert(id_name(all@[3]) != name@),
                    SettingId::BatteryLevelLeft => assert(id_name(all@[4]) != name@),
                    SettingId::BatteryLevelRight => assert(id_name(all@[5]) != name@),
                    SettingId::AmbientSoundMode => assert(id_name(all@[6]) != name@),
                    SettingId::WearingDetection => assert(id_name(all@[7]) != name@),
                    SettingId::CustomNoiseCanceling => assert(id_name(all@[8]) != name@),
                    SettingId::VolumeAdjustments => assert(id_name(all@[9]) != name@),
                    SettingId::ResetButtonsToDefault => assert(id_name(all@[10]) != name@),
                    SettingId::CustomEqualizerProfile => assert(id_name(all@[11]) != name@),
                }
            }
        }
        None
    }
}

/// Splits `key=value` at its first `=`.
pub fn split_assignment(text: &str) -> (r: Option<(String, String)>)
    ensures
        match r {
            Some((key, value)) => text@ == key@ + seq!['='] + value@ && !key@.contains('='),
            None => !text@.contains('='),
        },
{
    let n = text.unicode_len();
    let mut i: usize = 0;
    while i < n
        invariant
            n == text@.len(),
            i <= n,
            forall|k: int| 0 <= k < i ==> text@[k] != '=',
        decreases n - i,
    {
        if text.get_char(i) == '=' {
            let key = String::from_str(text.substring_char(0, i));
            let value = String::from_str(text.substring_char(i + 1, n));
            assert(text@ =~= key@ + seq!['='] + value@);
            assert(!key@.contains('=')) by {
                if key@.contains('=') {
                    let k = choose|k: int| 0 <= k < key@.len() && key@[k] == '=';
                    assert(text@[k] == '=');
                }
            }
            return Some((key, value));
        }
        i = i + 1;
    }
    None
}

} // verus!
