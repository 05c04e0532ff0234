//! Controller for one kind of background fetch (artwork or lyrics).
//!
//! On every tick the caller reports the current identity (what should be on
//! screen). When it changes, the controller cancels the task in flight and
//! asks for a new one under a fresh task id; a finished task's result is
//! installed only when its id is still the active one, so a late result of a
//! superseded task is dropped.
use vstd::prelude::*;

verus! {

/// Where a fetch controller stands.
#[derive(Clone, Copy, Debug, PartialEq, Eq, Structural)]
pub enum FetchState {
    Idle,
    Loading,
    Ready,
    Failed,
}

/// What a fetch is for: a lookup key (an artwork URL, or a track title), a
/// qualifier (the artist, for lyrics) and a variant that also forces a new
/// fetch when it changes (the theme, for artwork).
#[derive(Clone, Debug)]
pub struct FetchKey {
    pub lookup: String,
    pub qualifier: String,
    pub variant: u64,
}

impl View for FetchKey {
    type V = (Seq<char>, Seq<char>, u64);

    open spec fn view(&self) -> (Seq<char>, Seq<char>, u64) {
        (self.lookup@, self.qualifier@, self.variant)
    }
}

impl FetchKey {
    /// Copies the key.
    pub fn duplicate(&self) -> (r: FetchKey)
        ensures
            r@ == self@,
    {
        FetchKey {
            lookup: self.lookup.clone(),
            qualifier: self.qualifier.clone(),
            variant: self.variant,
        }
    }
}

pub open spec fn key_view(k: Option<FetchKey>) -> Option<(Seq<char>, Seq<char>, u64)> {
    match k {
        Some(x) => Some(x@),
        None => None,
    }
}

/// Work for the caller after a tick.
pub struct TickPlan {
    /// Task to cancel; its result, should it still arrive, will be dropped.
    pub cancel: Option<u64>,
    /// Task to start: its id and what it fetches.
    pub start: Option<(u64, FetchKey)>,
}

/// Abstract state of a controller.
pub struct FetchModel<T> {
    pub identity: Option<(Seq<char>, Seq<char>, u64)>,
    pub state: FetchState,
    pub active: Option<u64>,
    pub next_id: u64,
    pub artifact: Option<T>,
}

pub open spec fn next_task_id(id: u64) -> u64 {
    if id == u64::MAX {
        0
    } else {
        (id + 1) as u64
    }
}

/// State after a tick that reports identity `id`.
pub open spec fn tick_model<T>(m: FetchModel<T>, id: Option<(Seq<char>, Seq<char>, u64)>) -> FetchModel<T> {
    if id == m.identity {
        m
    } else if id is None {
        FetchModel { identity: id, state: FetchState::Idle, active: None, artifact: None, ..m }
    } else {
        FetchModel {
            identity: id,
            state: FetchState::Loading,
            active: Some(m.next_id),
            next_id: next_task_id(m.next_id),
            artifact: None,
        }
    }
}

/// State after task `task` finished with `result` (`None` for a failure).
pub open spec fn complete_model<T>(m: FetchModel<T>, task: u64, result: Option<T>) -> FetchModel<T> {
    if m.active == Some(task) {
        match result {
            Some(x) => FetchModel {
                state: FetchState::Ready,
                active: None,
                artifact: Some(x),
                ..m
            },
            None => FetchModel { state: FetchState::Failed, active: None, artifact: None, ..m },
        }
    } else {
        m
    }
}

/// Consistency of a controller: a task is active exactly while loading, it is
/// the latest one issued, and only a ready controller holds an artifact.
pub open spec fn model_wf<T>(m: FetchModel<T>) -> bool {
    &&& (m.state == FetchState::Loading) == (m.active is Some)
    &&& (m.active is Some ==> next_task_id(m.active->0) == m.next_id)
    &&& (m.state == FetchState::Ready) == (m.artifact is Some)
    &&& (m.identity is None ==> m.state == FetchState::Idle)
}

/// Controller of one kind of fetch, holding the artifact it installed.
pub struct FetchOrchestrator<T> {
    identity: Option<FetchKey>,
    state: FetchState,
    active: Option<u64>,
    next_id: u64,
    artifact: Option<T>,
}

fn same_key(a: &Option<FetchKey>, b: &Option<FetchKey>) -> (r: bool)
    ensures
        r == (key_view(*a) == key_view(*b)),
{
    match (a, b) {
        (Some(x), Some(y)) => x.variant == y.variant && x.lookup == y.lookup && x.qualifier
            == y.qualifier,
        (None, None) => true,
        _ => false,
    }
}

impl<T> FetchOrchestrator<T> {
    pub closed spec fn model(&self) -> FetchModel<T> {
        FetchModel {
            identity: key_view(self.identity),
            state: self.state,
            active: self.active,
            next_id: self.next_id,
            artifact: self.artifact,
        }
    }

    pub open spec fn wf(&self) -> bool {
        model_wf(self.model())
    }

    /// An idle controller with nothing to show.
    pub fn new() -> (r: FetchOrchestrator<T>)
        ensures
            r.wf(),
            r.model().identity is None,
            r.model().state == FetchState::Idle,
            r.model().artifact is None,
    {
        FetchOrchestrator { identity: None, state: FetchState::Idle, active: None, next_id: 0, artifact: None }
    }

    /// Reports the identity that should be shown now. When it differs from
    /// the current one, the task in flight (if any) is to be cancelled, the
    /// artifact is dropped, and a new task is to be started unless the
    /// identity is absent (then the controller goes idle).
    pub fn tick(&mut self, identity: Option<FetchKey>) -> (r: TickPlan)
        requires
            old(self).wf(),
        ensures
            final(self).wf(),
            final(self).model() == tick_model(old(self).model(), key_view(identity)),
            key_view(identity) == old(self).model().identity ==> r.cancel is None && r.start is None,
            key_view(identity) != old(self).model().identity ==> r.cancel == old(self).model().active,
            key_view(identity) != old(self).model().identity && identity is Some ==> ({
                &&& r.start is Some
                &&& r.start.unwrap().0 == old(self).model().next_id
                &&& r.start.unwrap().1@ == identity.unwrap()@
            }),
            identity is None ==> r.start is None,
    {
        if same_key(&self.identity, &identity) {
            return TickPlan { cancel: None, start: None };
        }
        let cancel = self.active;
        self.artifact = None;
        match identity {
            None => {
                self.identity = None;
                self.state = FetchState::Idle;
                self.active = None;
                TickPlan { cancel, start: None }
            },
            Some(k) => {
                let id = self.next_id;
                self.next_id = if id == u64::MAX {
                    0
                } else {
                    id + 1
                };
                self.active = Some(id);
                self.state = FetchState::Loading;
                let task_key = k.duplicate();
                self.identity = Some(k);
                TickPlan { cancel, start: Some((id, task_key)) }
            },
        }
    }

    /// Reports that task `task` finished, with its artifact or `None` on
    /// failure. The result is installed, and `true` returned, only when
    /// `task` is the active task; otherwise nothing changes.
    pub fn complete(&mut self, task: u64, result: Option<T>) -> (installed: bool)
        requires
            old(self).wf(),
        ensures
            final(self).wf(),
            final(self).model() == complete_model(old(self).model(), task, result),
            installed == (old(self).model().active == Some(task)),
    {
        let is_active = match self.active {
            Some(a) => a == task,
            None => false,
        };
        if !is_active {
            return false;
        }
        self.active = None;
        match result {
            Some(x) => {
                self.state = FetchState::Ready;
                self.artifact = Some(x);
            },
            None => {
                self.state = FetchState::Failed;
                self.artifact = None;
            },
        }
        true
    }

    /// The current state.
    pub fn state(&self) -> (r: FetchState)
        ensures
            r == self.model().state,
    {
        self.state
    }

    /// The installed artifact, present exactly when the state is `Ready`.
    pub fn artifact(&self) -> (r: Option<&T>)
        ensures
            r == match self.model().artifact {
                Some(x) => Some(&x),
                None => None::<&T>,
            },
    {
        match &self.artifact {
            Some(x) => Some(x),
            None => None,
        }
    }

    /// The task whose result would be installed, if one is in flight.
    pub fn active_task(&self) -> (r: Option<u64>)
        ensures
            r == self.model().active,
    {
        self.active
    }
}

/// A fetch superseded before it finished never installs its result: after
/// switching from the identity of task `a` to any other identity, the late
/// completion of `a` leaves the controller as the switch left it.
pub proof fn lemma_superseded_result_dropped<T>(
    m: FetchModel<T>,
    a: u64,
    other: Option<(Seq<char>, Seq<char>, u64)>,
    late: Option<T>,
)
    requires
        model_wf(m),
        m.active == Some(a),
        other != m.identity,
    ensures
        complete_model(tick_model(m, other), a, late) == tick_model(m, other),
        tick_model(m, other).artifact is None,
{
}

} // verus!
