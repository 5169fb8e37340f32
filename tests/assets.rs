use maze_walk::{
    App, AssetEvent, AssetProcessor, Assets, CoreStage, Events, Handle, Storage, System, World,
};

#[test]
fn handles_compare_by_id() {
    let a: Handle<String> = Handle::new(3);
    let b = a.clone();
    assert_eq!(a.id(), 3);
    assert_eq!(b.id(), 3);
    assert!(a == b);
    assert!(a != Handle::new(4));
}

#[test]
fn asset_events_carry_their_handle() {
    let added: AssetEvent<u8> = AssetEvent::Added(Handle::new(1));
    let removed: AssetEvent<u8> = AssetEvent::Removed(Handle::new(1));
    assert_eq!(added, AssetEvent::Added(Handle::new(1)));
    assert_ne!(added, removed);
}

struct Unprocessed;

impl<T> AssetProcessor<T> for Unprocessed {
    fn process(&self, _bytes: Vec<u8>) -> Result<T, String> {
        Err("no processor".to_string())
    }
}

struct Suffix;

impl AssetProcessor<String> for Suffix {
    fn process(&self, bytes: Vec<u8>) -> Result<String, String> {
        Ok(format!("{} processed", String::from_utf8_lossy(&bytes)))
    }
}

struct Blank;

impl AssetProcessor<String> for Blank {
    fn process(&self, _bytes: Vec<u8>) -> Result<String, String> {
        Ok(String::new())
    }
}

struct AssetWorld<T, P> {
    assets: Assets<T, P>,
    events: Events<AssetEvent<T>>,
    int_events: Vec<i32>,
}

impl<T, P> Storage for AssetWorld<T, P> {
    fn end_tick(&mut self) {}
}

enum AssetSystem {
    Update,
    Log,
    Clear,
}

impl<T, P: AssetProcessor<T>> System<World<AssetWorld<T, P>>> for AssetSystem {
    fn run(&mut self, world: &mut World<AssetWorld<T, P>>) {
        let w = &mut world.resources;
        match self {
            AssetSystem::Update => w.assets.update_assets(&mut w.events),
            AssetSystem::Log => {
                let nums: Vec<i32> = w
                    .events
                    .iter()
                    .iter()
                    .map(|e| match e {
                        AssetEvent::Added(h) => h.id() as i32,
                        AssetEvent::Removed(h) => -(h.id() as i32),
                    })
                    .collect();
                w.int_events.extend(nums);
            }
            AssetSystem::Clear => w.events.update(),
        }
    }
    fn apply_buffers(&mut self, _world: &mut World<AssetWorld<T, P>>) {}
    fn new_archetype(&mut self, _archetype: usize) {}
}

fn asset_app<T, P: AssetProcessor<T>>(assets: Assets<T, P>) -> App<AssetWorld<T, P>, AssetSystem> {
    App::new(AssetWorld { assets, events: Events::new(), int_events: Vec::new() })
        .add_event(AssetSystem::Clear)
        .add_system_to_stage(CoreStage::AssetLoad, AssetSystem::Update)
        .add_system_to_stage(CoreStage::AssetEvents, AssetSystem::Log)
        .build()
}

#[test]
fn asset_lifecycle() {
    let app = &mut asset_app::<i32, Unprocessed>(Assets::new());
    let _one = app.world.resources.assets.add(1);
    {
        let two = app.world.resources.assets.add(2);
        let three = app.world.resources.assets.add(3);
        app.dispatch_update();
        assert_eq!(app.world.resources.int_events, &[1, 2, 3], "frame 1");
        app.world.resources.assets.release(two);
        app.world.resources.assets.release(three);
    }
    app.dispatch_update();
    app.dispatch_update();
    assert_eq!(app.world.resources.int_events, &[1, 2, 3, -2, -3], "frame 2");
}

#[test]
fn retained_handles_keep_their_asset() {
    let mut assets: Assets<i32, Unprocessed> = Assets::new();
    let mut events = Events::new();
    let one = assets.add(10);
    let again = assets.retain(&one);
    assets.release(one);
    assets.update_assets(&mut events);
    assert_eq!(assets.get(&again), Some(&10));
    assets.release(again);
    assets.update_assets(&mut events);
    assert_eq!(assets.get(&Handle::new(1)), None);
    let codes: Vec<(bool, u32)> = events
        .iter()
        .iter()
        .map(|e| match e {
            AssetEvent::Added(h) => (true, h.id()),
            AssetEvent::Removed(h) => (false, h.id()),
        })
        .collect();
    assert_eq!(codes, vec![(true, 1), (false, 1)]);
}

fn serve(assets: &mut Assets<String, Suffix>) {
    for request in assets.take_requests() {
        if request.path != "test_file" {
            panic!()
        }
        assets.file_loaded(request.handle, Ok("contents".into()));
    }
}

#[test]
fn file_loading() {
    let mut store: Assets<String, Suffix> = Assets::new();
    store.use_processor(Suffix);
    let mut app = asset_app(store);
    let handle = app.world.resources.assets.load("test_file");
    serve(&mut app.world.resources.assets);
    assert_eq!(app.world.resources.assets.everything_loaded(), false);
    app.dispatch_update();
    assert_eq!(app.world.resources.assets.everything_loaded(), true);
    assert_eq!(*app.world.resources.assets.get(&handle).unwrap(), "contents processed");
}

#[test]
fn delayed_loading() {
    fn assert_loaded(app: &App<AssetWorld<String, Blank>, AssetSystem>, loaded: bool, label: &str) {
        assert_eq!(app.world.resources.assets.everything_loaded(), loaded, "{}", label);
    }

    let mut store: Assets<String, Blank> = Assets::new();
    store.use_processor(Blank);
    let app = &mut asset_app(store);

    assert_loaded(app, true, "0");

    let handle_one = app.world.resources.assets.load("one");
    let handle_two = app.world.resources.assets.load("two");
    let requests = app.world.resources.assets.take_requests();
    assert_eq!(requests.len(), 2);
    assert_eq!(requests[0].path, "one");
    assert_eq!(requests[1].path, "two");

    assert_loaded(app, false, "1");
    app.dispatch_update();
    assert_loaded(app, false, "2");

    assert!(app.world.resources.assets.is_loading(requests[0].handle));
    app.world.resources.assets.file_loaded(requests[0].handle, Ok(vec![]));
    app.world.resources.assets.file_loaded(requests[1].handle, Err(String::new()));

    assert_loaded(app, false, "3");

    app.dispatch_update();

    assert_loaded(app, true, "4");
    assert!(app.world.resources.assets.get(&handle_one).is_some());
    assert!(app.world.resources.assets.get(&handle_two).is_none());
}
