use pong::dispatch::{Access, DispatcherBuilder, Mode, System};
use pong::pong::{PaddleSystem, Pong, Side, Trans, INPUT, PADDLE, TRANSFORM};

#[test]
fn escape_or_close_quits() {
    let mut game = Pong;
    assert_eq!(game.handle_event(true, false), Trans::Quit);
    assert_eq!(game.handle_event(false, true), Trans::Quit);
    assert_eq!(game.handle_event(true, true), Trans::Quit);
    assert_eq!(game.handle_event(false, false), Trans::Continue);
    assert_eq!(game.update(), Trans::Continue);
}

#[test]
fn paddle_axes_follow_side() {
    assert_eq!(PaddleSystem::axis_for(Side::Left), "left_paddle");
    assert_eq!(PaddleSystem::axis_for(Side::Right), "right_paddle");
}

#[test]
fn paddle_system_access_descriptor() {
    let acc = PaddleSystem.accesses();
    assert_eq!(
        acc,
        vec![
            Access { resource: TRANSFORM, mode: Mode::Write },
            Access { resource: PADDLE, mode: Mode::Read },
            Access { resource: INPUT, mode: Mode::Read },
        ]
    );
    let mut b = DispatcherBuilder::new();
    assert_eq!(acc.len(), 3);
    b.with_system(&PaddleSystem, "paddle_system".to_string(), vec![]).unwrap();
    b.with(vec![Access { resource: TRANSFORM, mode: Mode::Read }], "transform_system".to_string(), vec![])
        .unwrap();
    let d = b.build();
    assert_eq!(d.stage(0), vec![0]);
    assert_eq!(d.stage(1), vec![1]);
}
