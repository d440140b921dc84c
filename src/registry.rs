use vstd::prelude::*;
use crate::handler::{commit, state_after_write, write_result, Command, CommandView, Handler};
use crate::model::{state_provides, Component, DeviceState, SettingId, StateView};
use crate::setting::{opt_view, Acknowledgement, DeviceErrorKind, HandlerError, Setting, SettingView, Value, ValueView};

verus! {

/// Whether a model of the given shape provides every component a handler needs.
pub open spec fn applicable(h: Handler, shape: Seq<Component>) -> bool {
    forall|c: Component| #[trigger] h.required().contains(c) ==> shape.contains(c)
}

/// The candidates that a model of the given shape can serve, in catalog order.
pub open spec fn chosen(candidates: Seq<Handler>, shape: Seq<Component>) -> Seq<Handler>
    decreases candidates.len(),
{
    if candidates.len() == 0 {
        Seq::empty()
    } else {
        let rest = chosen(candidates.drop_last(), shape);
        if applicable(candidates.last(), shape) {
            rest.push(candidates.last())
        } else {
            rest
        }
    }
}

/// The settings of a list of handlers, in order.
pub open spec fn all_ids(hs: Seq<Handler>) -> Seq<SettingId>
    decreases hs.len(),
{
    if hs.len() == 0 {
        Seq::empty()
    } else {
        all_ids(hs.drop_last()) + hs.last().owned()
    }
}

/// Why a set of handlers cannot be composed.
#[derive(Clone, Copy, Debug, PartialEq, Eq, Structural)]
pub enum CompositionError {
    /// Two handlers claim this setting.
    DuplicateSetting(SettingId),
}

/// Errors of the registry's operations.
#[derive(Clone, Copy, Debug, PartialEq, Eq, Structural)]
pub enum RegistryError {
    /// No handler of this device answers for the setting.
    NotFound,
    /// The setting never accepts writes.
    ReadOnly,
    /// The value does not match the setting's shape, bounds or choices.
    InvalidValue,
    /// The device session failed to confirm the command.
    Device(DeviceErrorKind),
}

/// The registry error for a handler error.
pub open spec fn lift_error(e: HandlerError) -> RegistryError {
    match e {
        HandlerError::ReadOnly => RegistryError::ReadOnly,
        HandlerError::InvalidValue => RegistryError::InvalidValue,
        HandlerError::Device(k) => RegistryError::Device(k),
    }
}

/// The registry outcome for a handler outcome.
pub open spec fn lift_result<T>(r: Result<T, HandlerError>) -> Result<T, RegistryError> {
    match r {
        Ok(t) => Ok(t),
        Err(e) => Err(lift_error(e)),
    }
}

fn lift(e: HandlerError) -> (r: RegistryError)
    ensures
        r == lift_error(e),
{
    match e {
        HandlerError::ReadOnly => RegistryError::ReadOnly,
        HandlerError::InvalidValue => RegistryError::InvalidValue,
        HandlerError::Device(k) => RegistryError::Device(k),
    }
}

/// The handlers of one device model and the table from each setting to its owner.
#[derive(Debug)]
pub struct Registry {
    handlers: Vec<Handler>,
    shape: Vec<Component>,
    ids: Vec<SettingId>,
    owners: Vec<usize>,
}

/// The mathematical value of a registry.
pub struct RegistryView {
    pub handlers: Seq<Handler>,
    pub shape: Seq<Component>,
    /// The settings, in composition order.
    pub ids: Seq<SettingId>,
    /// For each setting, the index of its handler.
    pub owners: Seq<usize>,
}

impl View for Registry {
    type V = RegistryView;

    closed spec fn view(&self) -> RegistryView {
        RegistryView {
            handlers: self.handlers@,
            shape: self.shape@,
            ids: self.ids@,
            owners: self.owners@,
        }
    }
}

impl RegistryView {
    /// The table's invariant: each setting has exactly one owner, which answers for it.
    pub open spec fn wf(self) -> bool {
        &&& self.ids.len() == self.owners.len()
        &&& self.ids == all_ids(self.handlers)
        &&& self.ids.no_duplicates()
        &&& forall|k: int|
            0 <= k < self.ids.len() ==> {
                &&& #[trigger] self.owners[k] < self.handlers.len()
                &&& self.handlers[self.owners[k] as int].owned().contains(self.ids[k])
            }
        &&& forall|i: int| 0 <= i < self.handlers.len() ==> applicable(#[trigger] self.handlers[i], self.shape)
    }

    /// The handler that owns `id`; meaningful where the table holds `id`.
    pub open spec fn owner(self, id: SettingId) -> Handler {
        self.handlers[self.owners[self.ids.index_of(id)] as int]
    }
}

/// Whether `x` begins with `p`.
pub open spec fn is_prefix<A>(p: Seq<A>, x: Seq<A>) -> bool {
    p.len() <= x.len() && x.take(p.len() as int) == p
}

proof fn lemma_chosen_step(c: Seq<Handler>, shape: Seq<Component>, i: int)
    requires
        0 <= i < c.len(),
    ensures
        chosen(c.take(i + 1), shape) == if applicable(c[i], shape) {
            chosen(c.take(i), shape).push(c[i])
        } else {
            chosen(c.take(i), shape)
        },
{
    assert(c.take(i + 1).drop_last() =~= c.take(i));
}

proof fn lemma_all_ids_push(hs: Seq<Handler>, h: Handler)
    ensures
        all_ids(hs.push(h)) == all_ids(hs) + h.owned(),
{
    assert(hs.push(h).drop_last() =~= hs);
}

proof fn lemma_ids_prefix(c: Seq<Handler>, shape: Seq<Component>, i: int, j: int)
    requires
        0 <= i <= j <= c.len(),
    ensures
        is_prefix(all_ids(chosen(c.take(i), shape)), all_ids(chosen(c.take(j), shape))),
    decreases j - i,
{
    if i < j {
        lemma_ids_prefix(c, shape, i, j - 1);
        lemma_chosen_step(c, shape, j - 1);
        let a = all_ids(chosen(c.take(i), shape));
        let b = all_ids(chosen(c.take(j - 1), shape));
        if applicable(c[j - 1], shape) {
            lemma_all_ids_push(chosen(c.take(j - 1), shape), c[j - 1]);
            assert((b + c[j - 1].owned()).take(a.len() as int) =~= b.take(a.len() as int));
        }
    } else {
        assert(all_ids(chosen(c.take(i), shape)).take(all_ids(chosen(c.take(i), shape)).len() as int)
            =~= all_ids(chosen(c.take(i), shape)));
    }
}

fn has_id(ids: &Vec<SettingId>, id: SettingId) -> (r: bool)
    ensures
        r == ids@.contains(id),
{
    let mut i: usize = 0;
    while i < ids.len()
        invariant
            i <= ids.len(),
            forall|k: int| 0 <= k < i ==> ids@[k] != id,
        decreases ids.len() - i,
    {
        if ids[i] == id {
            return true;
        }
        i = i + 1;
    }
    false
}

fn has_component(shape: &Vec<Component>, c: Component) -> (r: bool)
    ensures
        r == shape@.contains(c),
{
    let mut i: usize = 0;
    while i < shape.len()
        invariant
            i <= shape.len(),
            forall|k: int| 0 <= k < i ==> shape@[k] != c,
        decreases shape.len() - i,
    {
        if shape[i] == c {
            return true;
        }
        i = i + 1;
    }
    false
}

/// Whether a model of the given shape provides every component `h` needs.
pub fn supports(shape: &Vec<Component>, h: &Handler) -> (r: bool)
    ensures
        r == applicable(*h, shape@),
{
    let req = h.requirements();
    let mut i: usize = 0;
    while i < req.len()
        invariant
            req@ == h.required(),
            i <= req.len(),
            forall|k: int| 0 <= k < i ==> shape@.contains(#[trigger] req@[k]),
        decreases req.len() - i,
    {
        if !has_component(shape, req[i]) {
            assert(h.required().contains(req@[i as int]));
            return false;
        }
        i = i + 1;
    }
    true
}

impl Registry {
    /// Composes the registry of a model of the given shape: keeps the candidates whose
    /// needed components the shape provides, in order, and gathers their settings.
    /// Fails on the first setting that two kept handlers claim.
    pub fn compose(candidates: &Vec<Handler>, shape: &Vec<Component>) -> (r: Result<Registry, CompositionError>)
        ensures
            r is Ok <==> all_ids(chosen(candidates@, shape@)).no_duplicates(),
            match r {
                Ok(reg) => {
                    &&& reg@.wf()
                    &&& reg@.handlers == chosen(candidates@, shape@)
                    &&& reg@.ids == all_ids(chosen(candidates@, shape@))
                    &&& reg@.shape == shape@
                },
                Err(CompositionError::DuplicateSetting(id)) => exists|a: int, b: int|
                    0 <= a < b < all_ids(chosen(candidates@, shape@)).len()
                        && all_ids(chosen(candidates@, shape@))[a] == id
                        && all_ids(chosen(candidates@, shape@))[b] == id,
            },
    {
        let ghost full = all_ids(chosen(candidates@, shape@));
        let mut handlers: Vec<Handler> = Vec::new();
        let mut ids: Vec<SettingId> = Vec::new();
        let mut owners: Vec<usize> = Vec::new();
        let mut i: usize = 0;
        while i < candidates.len()
            invariant
                i <= candidates.len(),
                full == all_ids(chosen(candidates@, shape@)),
                handlers@ == chosen(candidates@.take(i as int), shape@),
                ids@ == all_ids(handlers@),
                ids.len() == owners.len(),
                ids@.no_duplicates(),
                forall|k: int|
                    0 <= k < ids.len() ==> {
                        &&& #[trigger] owners@[k] < handlers.len()
                        &&& handlers@[owners@[k] as int].owned().contains(ids@[k])
                    },
                forall|k: int| 0 <= k < handlers.len() ==> applicable(#[trigger] handlers@[k], shape@),
            decreases candidates.len() - i,
        {
            let h = candidates[i];
            proof {
                lemma_chosen_step(candidates@, shape@, i as int);
                lemma_ids_prefix(candidates@, shape@, i as int + 1, candidates.len() as int);
                assert(candidates@.take(candidates.len() as int) =~= candidates@);
            }
            if supports(shape, &h) {
                let ghost before = ids@;
                let ghost old_handlers = handlers@;
                let idx = handlers.len();
                handlers.push(h);
                proof {
                    lemma_all_ids_push(old_handlers, h);
                }
                let owned = h.settings();
                let mut j: usize = 0;
                while j < owned.len()
                    invariant
                        i < candidates.len(),
                        full == all_ids(chosen(candidates@, shape@)),
                        is_prefix(before + owned@, full),
                        owned@ == h.owned(),
                        j <= owned.len(),
                        idx == handlers.len() - 1,
                        handlers@[idx as int] == h,
                        ids@ == before + owned@.take(j as int),
                        ids.len() == owners.len(),
                        ids@.no_duplicates(),
                        forall|k: int|
                            0 <= k < ids.len() ==> {
                                &&& #[trigger] owners@[k] < handlers.len()
                                &&& handlers@[owners@[k] as int].owned().contains(ids@[k])
                            },
                    decreases owned.len() - j,
                {
                    let id = owned[j];
                    if has_id(&ids, id) {
                        proof {
                            let a = choose|a: int| 0 <= a < ids@.len() && ids@[a] == id;
                            let b = ids@.len() as int;
                            assert((before + owned@)[b] == id);
                            assert(full.take((before + owned@).len() as int)[a] == full[a]);
                            assert(full.take((before + owned@).len() as int)[b] == full[b]);
                            assert(0 <= a < b < full.len() && full[a] == id && full[b] == id);
                            assert(!full.no_duplicates());
                        }
                        return Err(CompositionError::DuplicateSetting(id));
                    }
                    ids.push(id);
                    owners.push(idx);
                    j = j + 1;
                    assert(ids@ =~= before + owned@.take(j as int));
                    assert(h.owned().contains(owned@[j - 1]));
                }
                assert(owned@.take(j as int) =~= owned@);
            }
            i = i + 1;
        }
        assert(candidates@.take(i as int) =~= candidates@);
        Ok(Registry { handlers, shape: shape.clone(), ids, owners })
    }
}

/// What reading `id` through the registry shows on state `s`.
pub open spec fn registry_reading(v: RegistryView, s: StateView, id: SettingId) -> Result<SettingView, RegistryError> {
    if !v.ids.contains(id) {
        Err(RegistryError::NotFound)
    } else {
        Ok(v.owner(id).reading(s, id).unwrap())
    }
}

/// The outcome of writing `value` to `id` through the registry, the session answering `ack`.
pub open spec fn registry_write_result(
    v: RegistryView,
    s: StateView,
    id: SettingId,
    value: ValueView,
    ack: Acknowledgement,
) -> Result<(), RegistryError> {
    if !v.ids.contains(id) {
        Err(RegistryError::NotFound)
    } else {
        lift_result(write_result(v.owner(id), s, id, value, ack))
    }
}

/// The state after writing `value` to `id` through the registry, the session answering `ack`.
pub open spec fn registry_state_after(
    v: RegistryView,
    s: StateView,
    id: SettingId,
    value: ValueView,
    ack: Acknowledgement,
) -> StateView {
    if !v.ids.contains(id) {
        s
    } else {
        state_after_write(v.owner(id), s, id, value, ack)
    }
}

impl Registry {
    /// The position of `id` in the table, if it is there.
    fn find(&self, id: SettingId) -> (r: Option<usize>)
        requires
            self@.wf(),
        ensures
            match r {
                Some(k) => k < self@.ids.len() && self@.ids[k as int] == id && self@.ids.index_of(id) == k,
                None => !self@.ids.contains(id),
            },
    {
        let mut i: usize = 0;
        while i < self.ids.len()
            invariant
                self@.wf(),
                i <= self.ids.len(),
                forall|k: int| 0 <= k < i ==> self.ids@[k] != id,
            decreases self.ids.len() - i,
        {
            if self.ids[i] == id {
                assert(self@.ids[i as int] == id);
                assert(self@.ids.contains(id));
                let ghost j = self@.ids.index_of(id);
                assert(0 <= j < self@.ids.len() && self@.ids[j] == id);
                assert(self@.ids[j] == self@.ids[i as int]);
                return Some(i);
            }
            i = i + 1;
        }
        None
    }

    /// The settings of this device, in composition order.
    pub fn setting_ids(&self) -> (r: Vec<SettingId>)
        ensures
            r@ == self@.ids,
    {
        self.ids.clone()
    }

    /// Reads one setting.
    pub fn get(&self, state: &DeviceState, id: SettingId) -> (r: Result<Setting, RegistryError>)
        requires
            self@.wf(),
            state_provides(state@, self@.shape),
        ensures
            match r {
                Ok(st) => registry_reading(self@, state@, id) == Ok::<SettingView, RegistryError>(st@),
                Err(e) => registry_reading(self@, state@, id) == Err::<SettingView, RegistryError>(e),
            },
    {
        match self.find(id) {
            None => Err(RegistryError::NotFound),
            Some(k) => {
                let h = self.handlers[self.owners[k]];
                proof {
                    assert(self@.owners[k as int] < self@.handlers.len());
                    assert(applicable(self@.handlers[self@.owners[k as int] as int], self@.shape));
                }
                match h.read(state, id) {
                    Some(st) => Ok(st),
                    None => Err(RegistryError::NotFound),
                }
            },
        }
    }

    /// Reads each of `ids`, one outcome per id.
    pub fn get_many(&self, state: &DeviceState, ids: &Vec<SettingId>) -> (r: Vec<Result<Setting, RegistryError>>)
        requires
            self@.wf(),
            state_provides(state@, self@.shape),
        ensures
            r.len() == ids.len(),
            forall|k: int|
                0 <= k < ids.len() ==> match #[trigger] r@[k] {
                    Ok(st) => registry_reading(self@, state@, ids@[k]) == Ok::<SettingView, RegistryError>(st@),
                    Err(e) => registry_reading(self@, state@, ids@[k]) == Err::<SettingView, RegistryError>(e),
                },
    {
        let mut r: Vec<Result<Setting, RegistryError>> = Vec::new();
        let mut i: usize = 0;
        while i < ids.len()
            invariant
                self@.wf(),
                state_provides(state@, self@.shape),
                i <= ids.len(),
                r.len() == i,
                forall|k: int|
                    0 <= k < i ==> match #[trigger] r@[k] {
                        Ok(st) => registry_reading(self@, state@, ids@[k]) == Ok::<SettingView, RegistryError>(st@),
                        Err(e) => registry_reading(self@, state@, ids@[k]) == Err::<SettingView, RegistryError>(e),
                    },
            decreases ids.len() - i,
        {
            let one = self.get(state, ids[i]);
            r.push(one);
            i = i + 1;
        }
        r
    }

    /// Lists every setting in composition order, each with what it reads now.
    pub fn list(&self, state: &DeviceState) -> (r: Vec<(SettingId, Option<Setting>)>)
        requires
            self@.wf(),
            state_provides(state@, self@.shape),
        ensures
            r.len() == self@.ids.len(),
            forall|k: int|
                0 <= k < r.len() ==> {
                    &&& (#[trigger] r@[k]).0 == self@.ids[k]
                    &&& opt_view(r@[k].1) == Some(self@.owner(self@.ids[k]).reading(state@, self@.ids[k]).unwrap())
                },
    {
        let mut r: Vec<(SettingId, Option<Setting>)> = Vec::new();
        let mut i: usize = 0;
        while i < self.ids.len()
            invariant
                self@.wf(),
                state_provides(state@, self@.shape),
                i <= self.ids.len(),
                r.len() == i,
                forall|k: int|
                    0 <= k < i ==> {
                        &&& (#[trigger] r@[k]).0 == self@.ids[k]
                        &&& opt_view(r@[k].1) == Some(self@.owner(self@.ids[k]).reading(state@, self@.ids[k]).unwrap())
                    },
            decreases self.ids.len() - i,
        {
            let id = self.ids[i];
            let h = self.handlers[self.owners[i]];
            proof {
                assert(self@.ids[i as int] == id);
                assert(self@.ids.contains(id));
                let j = self@.ids.index_of(id);
                assert(0 <= j < self@.ids.len() && self@.ids[j] == id);
                assert(self@.ids[j] == self@.ids[i as int]);
                assert(self@.owners[i as int] < self@.handlers.len());
                assert(applicable(self@.handlers[self@.owners[i as int] as int], self@.shape));
            }
            let st = h.read(state, id);
            r.push((id, st));
            i = i + 1;
        }
        r
    }

    /// Validates a write of `value` to `id` and gives the command to send to the device.
    pub fn prepare(&self, state: &DeviceState, id: SettingId, value: Value) -> (r: Result<Command, RegistryError>)
        requires
            self@.wf(),
            state_provides(state@, self@.shape),
        ensures
            !self@.ids.contains(id) ==> r == Err::<Command, RegistryError>(RegistryError::NotFound),
            self@.ids.contains(id) ==> match r {
                Ok(c) => self@.owner(id).validation(state@, id, value@) == Ok::<CommandView, HandlerError>(c@),
                Err(e) => lift_result(self@.owner(id).validation(state@, id, value@)) == Err::<
                    CommandView,
                    RegistryError,
                >(e),
            },
    {
        match self.find(id) {
            None => Err(RegistryError::NotFound),
            Some(k) => {
                let h = self.handlers[self.owners[k]];
                proof {
                    assert(self@.owners[k as int] < self@.handlers.len());
                    assert(applicable(self@.handlers[self@.owners[k as int] as int], self@.shape));
                }
                match h.validate(state, id, value) {
                    Ok(c) => Ok(c),
                    Err(e) => Err(lift(e)),
                }
            },
        }
    }

    /// Writes `value` to `id`: validates it, and, once the session has answered `ack` to the
    /// command sent, commits it. The exclusive borrow of `state` serializes writes to the device;
    /// the state changes only on a confirmed, valid write.
    pub fn set(&self, state: &mut DeviceState, id: SettingId, value: Value, ack: Acknowledgement) -> (r: Result<(), RegistryError>)
        requires
            self@.wf(),
            state_provides(old(state)@, self@.shape),
        ensures
            r == registry_write_result(self@, old(state)@, id, value@, ack),
            final(state)@ == registry_state_after(self@, old(state)@, id, value@, ack),
    {
        match self.find(id) {
            None => Err(RegistryError::NotFound),
            Some(k) => {
                let h = self.handlers[self.owners[k]];
                proof {
                    assert(self@.owners[k as int] < self@.handlers.len());
                    assert(applicable(self@.handlers[self@.owners[k as int] as int], self@.shape));
                }
                match h.write(state, id, value, ack) {
                    Ok(()) => Ok(()),
                    Err(e) => Err(lift(e)),
                }
            },
        }
    }
}

/// The view of a batch of writes.
pub open spec fn writes_view(ws: Seq<(SettingId, Value)>) -> Seq<(SettingId, ValueView)> {
    ws.map_values(|w: (SettingId, Value)| (w.0, w.1@))
}

/// The session's answer to the `j`-th command sent in a batch; a command with no answer
/// listed timed out.
pub open spec fn answer(acks: Seq<Acknowledgement>, j: nat) -> Acknowledgement {
    if j < acks.len() {
        acks[j as int]
    } else {
        Acknowledgement::Failed(DeviceErrorKind::Timeout)
    }
}

/// Whether a write passes the registry's local checks, so that a command is sent.
pub open spec fn sends(v: RegistryView, s: StateView, id: SettingId, value: ValueView) -> bool {
    v.ids.contains(id) && v.owner(id).validation(s, id, value) is Ok
}

/// Where a batch of writes stands after some of its entries.
pub struct BatchProgress {
    /// One outcome per entry so far; `None` for an entry not attempted.
    pub outcomes: Seq<Option<Result<(), RegistryError>>>,
    pub state: StateView,
    /// How many commands were sent.
    pub sent: nat,
    /// Whether a device error stopped the batch.
    pub stopped: bool,
}

/// A batch of writes applied in order. An entry that fails a local check reports its error
/// and the batch goes on; the first device error stops it, and later entries are not attempted.
/// Entries confirmed before a failure stay applied.
pub open spec fn batch(
    v: RegistryView,
    s: StateView,
    ws: Seq<(SettingId, ValueView)>,
    acks: Seq<Acknowledgement>,
) -> BatchProgress
    decreases ws.len(),
{
    if ws.len() == 0 {
        BatchProgress { outcomes: Seq::empty(), state: s, sent: 0, stopped: false }
    } else {
        let b = batch(v, s, ws.drop_last(), acks);
        let (id, value) = ws.last();
        if b.stopped {
            BatchProgress { outcomes: b.outcomes.push(None), ..b }
        } else if !sends(v, b.state, id, value) {
            BatchProgress {
                outcomes: b.outcomes.push(
                    Some(registry_write_result(v, b.state, id, value, Acknowledgement::Confirmed)),
                ),
                ..b
            }
        } else {
            let ack = answer(acks, b.sent);
            let r = registry_write_result(v, b.state, id, value, ack);
            BatchProgress {
                outcomes: b.outcomes.push(Some(r)),
                state: registry_state_after(v, b.state, id, value, ack),
                sent: b.sent + 1,
                stopped: r is Err,
            }
        }
    }
}

/// Whether an outcome stops a batch of writes: only a device error does.
pub fn stops_batch(r: &Result<(), RegistryError>) -> (b: bool)
    ensures
        b == (r matches Err(RegistryError::Device(_))),
{
    match r {
        Err(RegistryError::Device(_)) => true,
        _ => false,
    }
}

impl Registry {
    /// Applies a batch of writes in order; `acks` lists the session's answers to the
    /// commands sent, in order, and a command with no answer listed times out.
    pub fn set_batch(
        &self,
        state: &mut DeviceState,
        writes: Vec<(SettingId, Value)>,
        acks: &Vec<Acknowledgement>,
    ) -> (r: Vec<Option<Result<(), RegistryError>>>)
        requires
            self@.wf(),
            state_provides(old(state)@, self@.shape),
        ensures
            r@ == batch(self@, old(state)@, writes_view(writes@), acks@).outcomes,
            final(state)@ == batch(self@, old(state)@, writes_view(writes@), acks@).state,
    {
        let ghost all = writes_view(writes@);
        let ghost s0 = state@;
        let n = writes.len();
        let mut rest = writes;
        let mut out: Vec<Option<Result<(), RegistryError>>> = Vec::new();
        let mut sent: usize = 0;
        let mut stopped = false;
        let mut i: usize = 0;
        while i < n
            invariant
                self@.wf(),
                state_provides(state@, self@.shape),
                all.len() == n,
                i <= n,
                writes_view(rest@) == all.skip(i as int),
                rest.len() == n - i,
                out@ == batch(self@, s0, all.take(i as int), acks@).outcomes,
                state@ == batch(self@, s0, all.take(i as int), acks@).state,
                sent == batch(self@, s0, all.take(i as int), acks@).sent,
                stopped == batch(self@, s0, all.take(i as int), acks@).stopped,
                sent <= i,
            decreases n - i,
        {
            proof {
                assert(all.take(i + 1).drop_last() =~= all.take(i as int));
                assert(writes_view(rest@)[0] == all[i as int]);
            }
            let ghost restv = rest@;
            let ghost prev = batch(self@, s0, all.take(i as int), acks@);
            let (id, value) = rest.remove(0);
            proof {
                assert(rest@ =~= restv.skip(1));
                assert forall|j: int| 0 <= j < rest@.len() implies #[trigger] writes_view(rest@)[j] == all.skip(i + 1)[j] by {
                    assert(writes_view(restv)[j + 1] == all.skip(i as int)[j + 1]);
                    assert(rest@[j] == restv[j + 1]);
                }
                assert(writes_view(rest@) =~= all.skip(i + 1));
                assert(writes_view(restv)[0] == (restv[0].0, restv[0].1@));
                assert(id == all[i as int].0 && value@ == all[i as int].1);
                assert(all.take(i + 1).last() == all[i as int]);
            }
            if stopped {
                out.push(None);
            } else {
                match self.prepare(state, id, value) {
                    Err(e) => {
                        out.push(Some(Err(e)));
                    },
                    Ok(command) => {
                        let ack = if sent < acks.len() {
                            acks[sent]
                        } else {
                            Acknowledgement::Failed(DeviceErrorKind::Timeout)
                        };
                        let r = match commit(state, command, ack) {
                            Ok(()) => Ok(()),
                            Err(e) => Err(lift(e)),
                        };
                        stopped = r.is_err();
                        out.push(Some(r));
                        sent = sent + 1;
                    },
                }
            }
            i = i + 1;
        }
        assert(all.take(n as int) =~= all);
        out
    }
}

} // verus!
