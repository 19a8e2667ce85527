use pong::dispatch::{Access, DispatchError, Dispatcher, DispatcherBuilder, Mode};
use pong::entity::{EntityAllocator, StaleEntityError};
use pong::events::EventChannel;
use pong::storage::ComponentStorage;
use pong::world::World;

#[derive(Clone, Copy, Debug, PartialEq)]
struct Position {
    x: f32,
    y: f32,
}

#[derive(Clone, Copy, Debug, PartialEq)]
struct Ping;

const POSITION: u64 = 10;
const VELOCITY: u64 = 11;
const PINGS: u64 = 12;

fn write(resource: u64) -> Access {
    Access { resource, mode: Mode::Write }
}

fn read(resource: u64) -> Access {
    Access { resource, mode: Mode::Read }
}

fn names(list: &[&str]) -> Vec<String> {
    list.iter().map(|s| s.to_string()).collect()
}

#[test]
fn identifiers_differ_after_slot_reuse() {
    let mut alloc = EntityAllocator::new();
    let e1 = alloc.create();
    assert_eq!(alloc.destroy(e1), Ok(()));
    let e2 = alloc.create();
    assert_eq!(e2.index, e1.index);
    assert_ne!(e2.generation, e1.generation);
    assert_ne!(e1, e2);
    assert!(!alloc.is_alive(e1));
    assert!(alloc.is_alive(e2));
}

#[test]
fn fresh_slots_get_new_indices() {
    let mut alloc = EntityAllocator::new();
    let a = alloc.create();
    let b = alloc.create();
    assert_eq!(a.index, 0);
    assert_eq!(b.index, 1);
    assert_eq!(a.generation, 0);
}

#[test]
fn destroying_twice_is_stale() {
    let mut world = World::new();
    let e = world.create_entity();
    assert_eq!(world.destroy_entity(e), Ok(()));
    assert_eq!(world.destroy_entity(e), Err(StaleEntityError { entity: e }));
}

#[test]
fn insert_then_get_and_remove() {
    let mut alloc = EntityAllocator::new();
    let e = alloc.create();
    let mut storage: ComponentStorage<u32> = ComponentStorage::new();
    assert_eq!(storage.insert(e, 7), None);
    assert_eq!(storage.get(e), Some(&7));
    assert_eq!(storage.insert(e, 9), Some(7));
    assert_eq!(storage.get(e), Some(&9));
    assert_eq!(storage.remove(e), Some(9));
    assert_eq!(storage.get(e), None);
    assert_eq!(storage.remove(e), None);
}

#[test]
fn stale_identifier_does_not_see_new_component() {
    let mut world = World::new();
    let mut storage: ComponentStorage<u32> = ComponentStorage::new();
    let e1 = world.create_entity();
    assert_eq!(world.write(&mut storage, e1, 1), Ok(None));
    world.destroy_entity(e1).unwrap();
    assert_eq!(world.read(&storage, e1), Err(StaleEntityError { entity: e1 }));
    let e2 = world.create_entity();
    assert_eq!(e2.index, e1.index);
    assert_eq!(world.read(&storage, e2), Ok(None));
    assert_eq!(world.write(&mut storage, e2, 2), Ok(None));
    assert_eq!(world.read(&storage, e2), Ok(Some(&2)));
    assert_eq!(storage.get(e1), None);
    assert_eq!(world.write(&mut storage, e1, 3), Err(StaleEntityError { entity: e1 }));
    assert_eq!(world.remove(&mut storage, e1), Err(StaleEntityError { entity: e1 }));
    assert_eq!(world.get_mut(&mut storage, e1), Err(StaleEntityError { entity: e1 }));
    *world.get_mut(&mut storage, e2).unwrap().unwrap() = 5;
    assert_eq!(world.remove(&mut storage, e2), Ok(Some(5)));
    assert_eq!(world.get_mut(&mut storage, e2), Ok(None));
}

#[test]
fn entities_listed_in_slot_order() {
    let mut alloc = EntityAllocator::new();
    let a = alloc.create();
    let b = alloc.create();
    let c = alloc.create();
    let mut storage: ComponentStorage<u8> = ComponentStorage::new();
    storage.insert(c, 3);
    storage.insert(a, 1);
    assert_eq!(storage.entities(), vec![a, c]);
    storage.insert(b, 2);
    storage.remove(a);
    assert_eq!(storage.entities(), vec![b, c]);
}

#[test]
fn reads_concatenate_to_writes() {
    let mut channel: EventChannel<u32> = EventChannel::new(PINGS);
    channel.single_write(100);
    let r = channel.register_reader();
    let other = channel.register_reader();
    channel.single_write(1);
    channel.single_write(2);
    let first = channel.read(&r);
    assert_eq!(channel.read(&other), vec![1, 2]);
    channel.single_write(3);
    let second = channel.read(&r);
    let third = channel.read(&r);
    let mut all = first.clone();
    all.extend(second.iter());
    all.extend(third.iter());
    assert_eq!(first, vec![1, 2]);
    assert_eq!(all, vec![1, 2, 3]);
    assert!(third.is_empty());
}

#[test]
fn two_readers_each_see_one_ping() {
    let mut channel: EventChannel<Ping> = EventChannel::new(PINGS);
    let r1 = channel.register_reader();
    let r2 = channel.register_reader();
    channel.single_write(Ping);
    assert_eq!(channel.read(&r1), vec![Ping]);
    assert_eq!(channel.read(&r2), vec![Ping]);
    assert_eq!(channel.read(&r1), Vec::<Ping>::new());
}

#[test]
fn channel_without_readers_keeps_nothing() {
    let mut channel: EventChannel<u8> = EventChannel::new(PINGS);
    channel.single_write(1);
    channel.single_write(2);
    assert_eq!(channel.retained_len(), 0);
    let r = channel.register_reader();
    assert_eq!(channel.read(&r), Vec::<u8>::new());
}

#[test]
fn channel_keeps_events_for_slowest_reader() {
    let mut channel: EventChannel<u8> = EventChannel::new(PINGS);
    let fast = channel.register_reader();
    let slow = channel.register_reader();
    channel.single_write(1);
    channel.single_write(2);
    assert_eq!(channel.read(&fast), vec![1, 2]);
    assert_eq!(channel.retained_len(), 2);
    assert_eq!(channel.read(&slow), vec![1, 2]);
    assert_eq!(channel.retained_len(), 0);
    channel.single_write(3);
    assert_eq!(channel.retained_len(), 1);
    channel.drop_reader(slow);
    assert_eq!(channel.retained_len(), 1);
    assert_eq!(channel.read(&fast), vec![3]);
    assert_eq!(channel.retained_len(), 0);
    channel.drop_reader(fast);
    channel.single_write(4);
    assert_eq!(channel.retained_len(), 0);
}

fn stage_of(d: &Dispatcher, system: usize) -> usize {
    (0..d.num_stages()).find(|k| d.stage(*k).contains(&system)).unwrap()
}

#[test]
fn writer_and_reader_of_one_resource_are_separated() {
    let mut b = DispatcherBuilder::new();
    b.with(vec![write(POSITION)], "s1".to_string(), vec![]).unwrap();
    b.with(vec![read(POSITION)], "s2".to_string(), vec![]).unwrap();
    let d = b.build();
    assert_eq!(d.num_stages(), 2);
    assert_ne!(stage_of(&d, 0), stage_of(&d, 1));
}

#[test]
fn readers_share_a_stage() {
    let mut b = DispatcherBuilder::new();
    b.with(vec![read(POSITION)], "a".to_string(), vec![]).unwrap();
    b.with(vec![read(POSITION), write(VELOCITY)], "b".to_string(), vec![]).unwrap();
    b.with(vec![read(VELOCITY)], "c".to_string(), vec![]).unwrap();
    let d = b.build();
    assert_eq!(d.num_stages(), 2);
    assert_eq!(d.stage(0), vec![0, 1]);
    assert_eq!(d.stage(1), vec![2]);
}

#[test]
fn dependency_forces_a_later_stage() {
    let mut b = DispatcherBuilder::new();
    b.with(vec![write(POSITION)], "s1".to_string(), vec![]).unwrap();
    b.with(vec![write(VELOCITY)], "s2".to_string(), names(&["s1"])).unwrap();
    let d = b.build();
    assert_eq!(d.num_stages(), 2);
    assert_eq!(d.stage(0), vec![0]);
    assert_eq!(d.stage(1), vec![1]);
}

#[test]
fn builder_rejects_bad_registrations() {
    let mut b = DispatcherBuilder::new();
    b.with(vec![], "s1".to_string(), vec![]).unwrap();
    assert_eq!(b.with(vec![], "s1".to_string(), vec![]), Err(DispatchError::DuplicateName));
    assert_eq!(
        b.with(vec![], "s2".to_string(), names(&["s1", "nowhere"])),
        Err(DispatchError::UnknownDependency)
    );
    assert_eq!(b.with(vec![], "s3".to_string(), names(&["s3"])), Err(DispatchError::UnknownDependency));
    assert_eq!(b.with(vec![], "s2".to_string(), names(&["s1"])), Ok(()));
    assert_eq!(b.build().num_systems(), 2);
}

#[test]
fn setup_and_tick_state_machine() {
    let mut b = DispatcherBuilder::new();
    b.with(vec![write(PINGS)], "prod".to_string(), vec![]).unwrap();
    b.with(vec![read(PINGS)], "recv".to_string(), vec![]).unwrap();
    let mut d = b.build();
    let mut world = World::new();
    assert_eq!(d.begin_tick(), Err(DispatchError::NotSetUp));
    assert_eq!(d.setup(&world), Err(DispatchError::UnregisteredResource(PINGS)));
    world.register(PINGS);
    world.register(PINGS);
    assert!(world.is_registered(PINGS));
    assert_eq!(d.setup(&world), Ok(()));
    assert_eq!(d.finish_stage(None), Err(DispatchError::NoTickInProgress));
    assert_eq!(d.begin_tick(), Ok(()));
    assert_eq!(d.begin_tick(), Err(DispatchError::TickInProgress));
    assert_eq!(d.setup(&world), Err(DispatchError::TickInProgress));
    assert_eq!(d.running_systems(), vec![0]);
    assert_eq!(d.finish_stage(None), Ok(false));
    assert_eq!(d.running_systems(), vec![1]);
    assert_eq!(d.finish_stage(None), Ok(true));
    assert_eq!(d.begin_tick(), Ok(()));
    assert_eq!(d.finish_stage(Some(0)), Err(DispatchError::SystemFailure(0)));
    assert_eq!(d.begin_tick(), Ok(()));
}

#[test]
fn empty_dispatcher_completes_ticks() {
    let mut d = DispatcherBuilder::new().build();
    let world = World::new();
    assert_eq!(d.num_stages(), 0);
    assert_eq!(d.setup(&world), Ok(()));
    assert_eq!(d.begin_tick(), Ok(()));
    assert_eq!(d.running_systems(), Vec::<usize>::new());
    assert_eq!(d.finish_stage(None), Ok(true));
}

#[test]
fn position_moves_over_three_ticks() {
    let mut world = World::new();
    world.register(POSITION);
    let mut positions: ComponentStorage<Position> = ComponentStorage::new();
    let e = world.create_entity();
    world.write(&mut positions, e, Position { x: 0.0, y: 0.0 }).unwrap();
    let mut b = DispatcherBuilder::new();
    b.with(vec![write(POSITION)], "mover".to_string(), vec![]).unwrap();
    let mut d = b.build();
    d.setup(&world).unwrap();
    for _ in 0..3 {
        d.begin_tick().unwrap();
        loop {
            for _system in d.running_systems() {
                let p = *world.read(&positions, e).unwrap().unwrap();
                world.write(&mut positions, e, Position { x: p.x + 1.0, y: p.y + 2.0 }).unwrap();
            }
            if d.finish_stage(None).unwrap() {
                break;
            }
        }
    }
    assert_eq!(positions.get(e), Some(&Position { x: 3.0, y: 6.0 }));
}

#[test]
fn events_flow_from_producer_to_receiver() {
    let mut channel: EventChannel<u8> = EventChannel::new(PINGS);
    let mut b = DispatcherBuilder::new();
    b.with(vec![write(PINGS)], "prod_system".to_string(), vec![]).unwrap();
    b.with(vec![read(PINGS)], "recv_system".to_string(), vec![]).unwrap();
    let mut d = b.build();
    let mut world = World::new();
    world.register(PINGS);
    d.setup(&world).unwrap();
    let reader = channel.register_reader();
    let mut received = Vec::new();
    d.begin_tick().unwrap();
    loop {
        for system in d.running_systems() {
            if system == 0 {
                channel.single_write(b'A');
            } else {
                received.extend(channel.read(&reader));
            }
        }
        if d.finish_stage(None).unwrap() {
            break;
        }
    }
    assert_eq!(received, vec![b'A']);
}

#[test]
fn get_mut_changes_only_that_component() {
    let mut alloc = EntityAllocator::new();
    let a = alloc.create();
    let b = alloc.create();
    let mut storage: ComponentStorage<Position> = ComponentStorage::new();
    storage.insert(a, Position { x: 0.0, y: 0.0 });
    storage.insert(b, Position { x: 5.0, y: 5.0 });
    for _ in 0..3 {
        let p = storage.get_mut(a).unwrap();
        p.x += 1.0;
        p.y += 2.0;
    }
    assert_eq!(storage.get(a), Some(&Position { x: 3.0, y: 6.0 }));
    assert_eq!(storage.get(b), Some(&Position { x: 5.0, y: 5.0 }));
    alloc.destroy(b).unwrap();
    let c = alloc.create();
    assert!(storage.get_mut(c).is_none());
    assert!(storage.get_mut(b).is_some());
}

#[test]
fn destroyed_entity_is_cleared_from_storages() {
    let mut world = World::new();
    let mut storage: ComponentStorage<u32> = ComponentStorage::new();
    let a = world.create_entity();
    let b = world.create_entity();
    world.write(&mut storage, a, 1).unwrap();
    world.write(&mut storage, b, 2).unwrap();
    world.destroy_entity(a).unwrap();
    assert_eq!(world.live_entities(&storage), vec![b]);
    assert_eq!(storage.entities(), vec![a, b]);
    assert_eq!(world.detach(&mut storage, a), Some(1));
    assert_eq!(storage.get(a), None);
    assert_eq!(storage.entities(), vec![b]);
    assert_eq!(world.detach(&mut storage, a), None);
    assert_eq!(world.read(&storage, b), Ok(Some(&2)));
}

#[test]
fn readers_carry_their_channel() {
    let mut pings: EventChannel<u8> = EventChannel::new(PINGS);
    let mut other: EventChannel<u8> = EventChannel::new(VELOCITY);
    let r = pings.register_reader();
    let s = other.register_reader();
    pings.single_write(1);
    other.single_write(2);
    assert_eq!(pings.read(&r), vec![1]);
    assert_eq!(other.read(&s), vec![2]);
}
