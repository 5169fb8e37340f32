use vstd::prelude::*;

verus! {

/// The phases of a tick, in the order in which they run.
/// `EventReset` is the terminal stage: event channels are cleared there, after
/// every other stage of the tick.
#[derive(PartialEq, Eq, Structural, PartialOrd, Ord, Clone, Copy, Debug)]
pub enum CoreStage {
    First,
    AssetLoad,
    AssetEvents,
    PreUpdate,
    Update,
    PostUpdate,
    PreRender,
    Render,
    Last,
    EventReset,
}

/// Number of stages.
pub const STAGE_COUNT: usize = 10;

impl CoreStage {
    /// Position of the stage in the execution order.
    pub open spec fn rank(self) -> nat {
        match self {
            CoreStage::First => 0,
            CoreStage::AssetLoad => 1,
            CoreStage::AssetEvents => 2,
            CoreStage::PreUpdate => 3,
            CoreStage::Update => 4,
            CoreStage::PostUpdate => 5,
            CoreStage::PreRender => 6,
            CoreStage::Render => 7,
            CoreStage::Last => 8,
            CoreStage::EventReset => 9,
        }
    }

    pub fn index(&self) -> (r: usize)
        ensures
            r == self.rank(),
            r < STAGE_COUNT,
    {
        match self {
            CoreStage::First => 0,
            CoreStage::AssetLoad => 1,
            CoreStage::AssetEvents => 2,
            CoreStage::PreUpdate => 3,
            CoreStage::Update => 4,
            CoreStage::PostUpdate => 5,
            CoreStage::PreRender => 6,
            CoreStage::Render => 7,
            CoreStage::Last => 8,
            CoreStage::EventReset => 9,
        }
    }
}

/// The application's modes.
#[derive(PartialEq, Eq, Structural, Clone, Copy, Debug)]
pub enum AppState {
    Preload,
    Play,
}

impl AppState {
    /// The state an application starts in.
    pub open spec fn initial() -> AppState {
        AppState::Preload
    }
}

impl Default for AppState {
    fn default() -> (r: AppState)
        ensures
            r == AppState::initial(),
    {
        AppState::Preload
    }
}

/// When a registered system runs.
#[derive(PartialEq, Eq, Structural, Clone, Copy, Debug)]
pub enum SystemType {
    /// Once, while the application is built.
    Startup,
    /// In every tick.
    Stateless,
    /// In every tick whose state is the given one.
    Stateful(AppState),
    /// When the given state is entered.
    OnEnter(AppState),
    /// When the given state is left.
    OnExit(AppState),
}

/// The current application state and the transition requested for the end
/// of the tick, if any.
#[derive(PartialEq, Eq, Structural, Clone, Copy, Debug)]
pub struct State {
    pub(crate) current: AppState,
    pub(crate) pending: Option<AppState>,
}

impl State {
    /// The state the application is in.
    pub open(crate) spec fn spec_current(&self) -> AppState {
        self.current
    }

    /// The transition requested for the end of the tick, if any.
    pub open(crate) spec fn spec_pending(&self) -> Option<AppState> {
        self.pending
    }

    /// The transition requested for the end of the tick, if any.
    pub fn get_pending(&self) -> (r: Option<AppState>)
        ensures
            r == self.spec_pending(),
    {
        self.pending
    }

    /// The initial state with no transition pending.
    pub fn new() -> (r: State)
        ensures
            r.spec_current() == AppState::initial(),
            r.spec_pending() is None,
    {
        State { current: AppState::Preload, pending: None }
    }

    pub fn get_current(&self) -> (r: AppState)
        ensures
            r == self.spec_current(),
    {
        self.current
    }

    /// Records a request to move to `new_state` at the end of the tick; a later
    /// request in the same tick replaces an earlier one.
    pub fn schedule_transition(&mut self, new_state: AppState)
        ensures
            final(self).spec_current() == old(self).spec_current(),
            final(self).spec_pending() == Some(new_state),
    {
        self.pending = Some(new_state);
    }
}

impl Default for State {
    fn default() -> (r: State)
        ensures
            r.spec_current() == AppState::initial(),
            r.spec_pending() is None,
    {
        State::new()
    }
}

} // verus!
