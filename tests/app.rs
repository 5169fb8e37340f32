use maze_walk::AppState::{Play, Preload};
use maze_walk::{App, AppState, CoreStage, Events, Resource, Storage, System, SystemList, World};
use CallType::{Enter, Exit, Startup, Update, UpdateState};

#[derive(Debug, PartialEq)]
struct Count(i32);

struct Counter {
    count: Resource<Count>,
}

impl Storage for Counter {
    fn end_tick(&mut self) {}
}

struct Increment;

impl System<World<Counter>> for Increment {
    fn run(&mut self, world: &mut World<Counter>) {
        world.resources.count.get_mut().0 += 1;
    }
    fn apply_buffers(&mut self, _world: &mut World<Counter>) {}
    fn new_archetype(&mut self, _archetype: usize) {}
}

fn count(app: &App<Counter, Increment>) -> i32 {
    app.world.resources.count.get().0
}

#[test]
fn update_ticks() {
    let mut builder = App::new(Counter { count: Resource::empty() });
    builder.world().resources.count.insert_resource(Count(0));
    let mut app = builder.add_system(Increment).build();

    assert_eq!(count(&app), 0);
    app.dispatch_update();
    assert_eq!(count(&app), 1);
    app.dispatch_update();
    assert_eq!(count(&app), 2);
}

#[test]
fn ticks_count_up_to_n() {
    for n in 0..20 {
        let mut app = App::new(Counter { count: Resource::new(Count(0)) }).add_system(Increment).build();
        for _ in 0..n {
            app.dispatch_update();
        }
        assert_eq!(count(&app), n);
    }
}

struct Evt(i32);

struct EventWorld {
    count: Resource<Count>,
    evt: Events<Evt>,
}

impl Storage for EventWorld {
    fn end_tick(&mut self) {}
}

enum EventSystem {
    Emit,
    Consume,
    Clear,
}

impl System<World<EventWorld>> for EventSystem {
    fn run(&mut self, world: &mut World<EventWorld>) {
        let r = &mut world.resources;
        match self {
            EventSystem::Emit => {
                if r.count.get().0 == 0 {
                    r.evt.send(Evt(5));
                }
            }
            EventSystem::Consume => {
                if let Some(val) = r.evt.iter().first().map(|e| e.0) {
                    r.count.get_mut().0 += val;
                }
            }
            EventSystem::Clear => r.evt.update(),
        }
    }
    fn apply_buffers(&mut self, _world: &mut World<EventWorld>) {}
    fn new_archetype(&mut self, _archetype: usize) {}
}

#[test]
fn event_cycle() {
    let mut builder = App::new(EventWorld { count: Resource::empty(), evt: Events::new() });
    builder.world().resources.count.insert_resource(Count(0));
    let mut app = builder
        .add_event(EventSystem::Clear)
        .add_system_list(
            CoreStage::Update,
            None,
            SystemList::new().with(EventSystem::Emit).with(EventSystem::Consume),
        )
        .build();

    app.dispatch_update();
    assert_eq!(app.world.resources.count.get().0, 5, "first frame");
    app.dispatch_update();
    assert_eq!(app.world.resources.count.get().0, 5, "second frame");
}

#[test]
fn events_are_cleared_at_the_end_of_the_tick() {
    let mut app = App::new(EventWorld { count: Resource::new(Count(0)), evt: Events::new() })
        .add_event(EventSystem::Clear)
        .add_system(EventSystem::Emit)
        .build();
    app.dispatch_update();
    assert!(app.world.resources.evt.is_empty());
    app.world.resources.evt.send(Evt(3));
    app.world.resources.evt.send(Evt(4));
    assert_eq!(app.world.resources.evt.len(), 2);
    let seen: Vec<i32> = app.world.resources.evt.iter().iter().map(|e| e.0).collect();
    assert_eq!(seen, vec![3, 4]);
    app.dispatch_update();
    assert_eq!(app.world.resources.evt.len(), 0);
}

#[derive(Default)]
struct Calls(Vec<i32>);

struct CallWorld {
    calls: Resource<Calls>,
}

impl Storage for CallWorld {
    fn end_tick(&mut self) {}
}

struct Push(i32);

impl System<World<CallWorld>> for Push {
    fn run(&mut self, world: &mut World<CallWorld>) {
        world.resources.calls.get_mut().0.push(self.0);
    }
    fn apply_buffers(&mut self, _world: &mut World<CallWorld>) {}
    fn new_archetype(&mut self, _archetype: usize) {}
}

#[test]
fn update_stages() {
    let mut builder = App::new(CallWorld { calls: Resource::empty() });
    builder.world().resources.calls.insert_resource(Calls::default());
    let mut app = builder
        .add_system_to_stage(CoreStage::First, Push(1))
        .add_system(Push(100))
        .add_system_to_stage(CoreStage::PreUpdate, Push(10))
        .build();
    app.dispatch_update();

    assert_eq!(&(app.world.resources.calls.get().0), &[1, 10, 100]);
}

#[test]
fn stages_run_in_order_and_registration_order_within_a_stage() {
    let mut app = App::new(CallWorld { calls: Resource::new(Calls::default()) })
        .add_event(Push(9))
        .add_system_to_stage(CoreStage::Last, Push(8))
        .add_system(Push(4))
        .add_system_to_stage(CoreStage::First, Push(0))
        .add_system(Push(5))
        .add_system_to_stage(CoreStage::Render, Push(7))
        .add_system_to_stage(CoreStage::PreUpdate, Push(3))
        .build();
    app.dispatch_update();
    app.dispatch_update();
    assert_eq!(app.world.resources.calls.get().0, vec![0, 3, 4, 5, 7, 8, 9, 0, 3, 4, 5, 7, 8, 9]);
}

#[test]
fn init_resource_keeps_an_existing_value() {
    let mut slot = Resource::new(Count(1));
    slot.init_resource(Count(7));
    assert_eq!(slot.get(), &Count(1));
    slot.insert_resource(Count(3));
    assert_eq!(slot.get(), &Count(3));
    let mut empty: Resource<Count> = Resource::empty();
    assert!(!empty.contains());
    empty.init_resource(Count(7));
    assert!(empty.contains());
    assert_eq!(empty.get(), &Count(7));
}

#[derive(Clone, Copy, PartialEq, Debug)]
enum CallType {
    Startup,
    UpdateState(AppState),
    Update,
    Enter(AppState),
    Exit(AppState),
}

struct TransitionWorld {
    calls: Resource<Vec<CallType>>,
}

impl Storage for TransitionWorld {
    fn end_tick(&mut self) {}
}

enum Recorder {
    Startup,
    Stateful,
    Update,
    Enter,
    Exit,
    EnterAndRequest(AppState),
    ExitAndRequest(AppState),
}

impl System<World<TransitionWorld>> for Recorder {
    fn run(&mut self, world: &mut World<TransitionWorld>) {
        let current = world.state.get_current();
        let call = match self {
            Recorder::Startup => CallType::Startup,
            Recorder::Stateful => CallType::UpdateState(current),
            Recorder::Update => CallType::Update,
            Recorder::Enter => CallType::Enter(current),
            Recorder::Exit => CallType::Exit(current),
            Recorder::EnterAndRequest(next) => {
                world.state.schedule_transition(*next);
                CallType::Enter(current)
            }
            Recorder::ExitAndRequest(next) => {
                world.state.schedule_transition(*next);
                CallType::Exit(current)
            }
        };
        world.resources.calls.get_mut().push(call);
    }
    fn apply_buffers(&mut self, _world: &mut World<TransitionWorld>) {}
    fn new_archetype(&mut self, _archetype: usize) {}
}

fn take_calls(app: &mut App<TransitionWorld, Recorder>) -> Vec<CallType> {
    app.world.resources.calls.get_mut().drain(..).collect::<Vec<_>>()
}

fn schedule_transition(app: &mut App<TransitionWorld, Recorder>, s: AppState) {
    app.world.state.schedule_transition(s);
}

#[test]
fn state_transition() {
    let mut builder = App::new(TransitionWorld { calls: Resource::empty() });
    builder.world().resources.calls.insert_resource(Vec::new());
    let mut app = builder
        .add_startup_system(Recorder::Startup)
        .add_system_stateful(CoreStage::Update, Play, Recorder::Stateful)
        .add_system_stateful(CoreStage::Update, Preload, Recorder::Stateful)
        .add_system(Recorder::Update)
        .on_enter_state(Preload, Recorder::Enter)
        .on_exit_state(Preload, Recorder::Exit)
        .on_enter_state(Play, Recorder::Enter)
        .on_exit_state(Play, Recorder::Exit)
        .build();

    assert_eq!(take_calls(&mut app), &[Startup, Enter(Preload)]);

    app.dispatch_update();
    assert_eq!(take_calls(&mut app), &[UpdateState(Preload), Update]);

    schedule_transition(&mut app, Play);
    app.dispatch_update();
    assert_eq!(
        take_calls(&mut app),
        &[UpdateState(Preload), Update, Exit(Preload), Enter(Play)]
    );

    schedule_transition(&mut app, Play);
    app.dispatch_update();
    assert_eq!(take_calls(&mut app), &[UpdateState(Play), Update, Exit(Play), Enter(Play)]);

    app.dispatch_update();
    assert_eq!(take_calls(&mut app), &[UpdateState(Play), Update]);
}

#[test]
fn transition_requested_by_a_listener_waits_for_the_next_tick() {
    let mut app = App::new(TransitionWorld { calls: Resource::new(Vec::new()) })
        .add_system(Recorder::Update)
        .on_enter_state(Play, Recorder::EnterAndRequest(Preload))
        .on_exit_state(Play, Recorder::Exit)
        .on_enter_state(Preload, Recorder::Enter)
        .build();
    assert_eq!(take_calls(&mut app), &[Enter(Preload)]);

    schedule_transition(&mut app, Play);
    app.dispatch_update();
    assert_eq!(take_calls(&mut app), &[Update, Enter(Play)]);
    assert_eq!(app.world.state.get_current(), Play);

    app.dispatch_update();
    assert_eq!(take_calls(&mut app), &[Update, Exit(Play), Enter(Preload)]);
    assert_eq!(app.world.state.get_current(), Preload);
}

#[test]
fn last_request_in_a_tick_wins() {
    let mut app = App::new(TransitionWorld { calls: Resource::new(Vec::new()) })
        .add_system(Recorder::Update)
        .build();
    schedule_transition(&mut app, Play);
    schedule_transition(&mut app, Preload);
    app.dispatch_update();
    assert_eq!(app.world.state.get_current(), Preload);
    assert_eq!(app.world.state.get_pending(), None);
}

#[derive(Clone, Copy, PartialEq, Debug)]
enum Component {
    I32,
    U32,
    U8,
}

struct EntityWorld {
    entities: Vec<Component>,
}

impl EntityWorld {
    fn single(&self, c: Component) -> Result<(), String> {
        match self.entities.iter().filter(|e| **e == c).count() {
            1 => Ok(()),
            n => Err(format!("{} entities with {:?}", n, c)),
        }
    }
}

impl Storage for EntityWorld {
    fn end_tick(&mut self) {}
}

fn spawn(world: &mut World<EntityWorld>, c: Component) {
    world.resources.entities.push(c);
    world.archetypes.observe(c as u64);
}

enum CommandSystem {
    Startup,
    OnEnter,
    UpdateFirst,
    UpdateSecond,
}

struct Commands {
    kind: CommandSystem,
    queued: Vec<Component>,
    archetypes_seen: Vec<usize>,
}

impl Commands {
    fn new(kind: CommandSystem) -> Self {
        Commands { kind, queued: Vec::new(), archetypes_seen: Vec::new() }
    }
}

impl System<World<EntityWorld>> for Commands {
    fn run(&mut self, world: &mut World<EntityWorld>) {
        let w = &world.resources;
        match self.kind {
            CommandSystem::Startup => self.queued.push(Component::I32),
            CommandSystem::OnEnter => {
                w.single(Component::I32).unwrap();
                self.queued.push(Component::U32);
            }
            CommandSystem::UpdateFirst => {
                w.single(Component::U32).unwrap();
                self.queued.push(Component::U8);
            }
            CommandSystem::UpdateSecond => w.single(Component::U8).unwrap(),
        }
    }
    fn apply_buffers(&mut self, world: &mut World<EntityWorld>) {
        for c in std::mem::take(&mut self.queued) {
            spawn(world, c);
        }
    }
    fn new_archetype(&mut self, archetype: usize) {
        self.archetypes_seen.push(archetype);
    }
}

#[test]
fn process_system_commands() {
    App::new(EntityWorld { entities: Vec::new() })
        .on_enter_state(AppState::Preload, Commands::new(CommandSystem::OnEnter))
        .add_startup_system(Commands::new(CommandSystem::Startup))
        .add_system(Commands::new(CommandSystem::UpdateFirst))
        .add_system(Commands::new(CommandSystem::UpdateSecond))
        .build()
        .dispatch_update();
}

struct ArchetypeWatcher {
    seen: std::rc::Rc<std::cell::RefCell<Vec<(u8, usize)>>>,
    id: u8,
    spawn: Option<Component>,
}

impl System<World<EntityWorld>> for ArchetypeWatcher {
    fn run(&mut self, world: &mut World<EntityWorld>) {
        if let Some(c) = self.spawn.take() {
            spawn(world, c);
        }
    }
    fn apply_buffers(&mut self, _world: &mut World<EntityWorld>) {}
    fn new_archetype(&mut self, archetype: usize) {
        self.seen.borrow_mut().push((self.id, archetype));
    }
}

#[test]
fn every_system_hears_of_each_new_archetype_once() {
    let seen = std::rc::Rc::new(std::cell::RefCell::new(Vec::new()));
    let mut builder = App::new(EntityWorld { entities: vec![Component::I32] });
    builder.world().archetypes.observe(Component::I32 as u64);
    let mut app = builder
        .add_system(ArchetypeWatcher { seen: seen.clone(), id: 0, spawn: Some(Component::U8) })
        .add_system(ArchetypeWatcher { seen: seen.clone(), id: 1, spawn: Some(Component::U8) })
        .build();
    app.dispatch_update();
    assert_eq!(*seen.borrow(), vec![(0, 0), (1, 0), (0, 1), (1, 1)]);
    app.dispatch_update();
    assert_eq!(seen.borrow().len(), 4);
    spawn(&mut app.world, Component::U32);
    app.dispatch_update();
    assert_eq!(seen.borrow()[4..].to_vec(), vec![(0, 2), (1, 2)]);
}

#[test]
fn run_hands_the_built_app_to_the_runner() {
    let mut builder = App::new(Counter { count: Resource::new(Count(0)) });
    builder.add_system(Increment);
    builder.run(|mut app| {
        for _ in 0..3 {
            app.dispatch_update();
        }
        assert_eq!(count(&app), 3);
    });
    assert!(builder.world.is_none());
}

#[test]
fn transition_requested_by_an_exit_listener_waits_for_the_next_tick() {
    let mut app = App::new(TransitionWorld { calls: Resource::new(Vec::new()) })
        .on_exit_state(Preload, Recorder::ExitAndRequest(Preload))
        .on_enter_state(Play, Recorder::Enter)
        .on_exit_state(Play, Recorder::Exit)
        .on_enter_state(Preload, Recorder::Enter)
        .build();
    assert_eq!(take_calls(&mut app), &[Enter(Preload)]);

    schedule_transition(&mut app, Play);
    app.dispatch_update();
    assert_eq!(take_calls(&mut app), &[Exit(Preload), Enter(Play)]);
    assert_eq!(app.world.state.get_current(), Play);
    assert_eq!(app.world.state.get_pending(), Some(Preload));

    app.dispatch_update();
    assert_eq!(take_calls(&mut app), &[Exit(Play), Enter(Preload)]);
    assert_eq!(app.world.state.get_pending(), None);

    app.dispatch_update();
    assert_eq!(take_calls(&mut app), &[]);
}

#[test]
fn archetypes_made_by_listeners_are_announced_in_the_same_tick() {
    let seen = std::rc::Rc::new(std::cell::RefCell::new(Vec::new()));
    let mut app = App::new(EntityWorld { entities: Vec::new() })
        .on_enter_state(Play, ArchetypeWatcher { seen: seen.clone(), id: 0, spawn: Some(Component::U8) })
        .build();
    app.dispatch_update();
    assert!(seen.borrow().is_empty());
    app.world.state.schedule_transition(Play);
    app.dispatch_update();
    assert_eq!(*seen.borrow(), vec![(0, 0)]);
}
