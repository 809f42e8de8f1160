use motion::event_loop::{Action, EventLoop, EventLoopBuilder, EventLoopConfig};
use motion::scalar::Scalar;

fn f(x: Scalar) -> f32 {
    f32::from_bits(x.to_bits())
}

#[test]
fn sixty_frames_per_second() {
    let el = EventLoopBuilder::new().fps(60).build();
    assert_eq!(el.config.fps, 60);
    assert_eq!(f(el.config.delta_time), 1.0 / 60.0);
    assert!((f(el.config.delta_time) - 0.01667).abs() < 1.0e-5);
}

#[test]
fn default_is_sixty_frames_per_second() {
    let made = EventLoopBuilder::new().build();
    let default = EventLoopBuilder::default().build();
    assert_eq!(made.config.fps, 60);
    assert_eq!(default.config.fps, 60);
    assert_eq!(f(made.config.delta_time), 1.0 / 60.0);
    assert_eq!(f(default.config.delta_time), 1.0 / 60.0);
}

#[test]
fn frame_time_is_one_by_the_frame_rate() {
    for &fps in [1u32, 2, 24, 30, 59, 144, 1000, 16_777_217, u32::MAX].iter() {
        let el = EventLoopBuilder::new().fps(fps).build();
        assert_eq!(el.config.delta_time.to_bits(), (1.0 / fps as f32).to_bits(), "{fps}");
    }
    assert_eq!(f(EventLoopBuilder::new().fps(0).build().config.delta_time), f32::INFINITY);
}

#[test]
fn steps_and_sleeps_alternate() {
    let rounds = 25;
    let el = EventLoopBuilder::new().fps(60).build();
    let mut schedule = el.start();
    let mut steps = 0;
    let mut sleeps = 0;
    for _ in 0..rounds {
        match schedule.next() {
            Action::Step(config) => {
                assert_eq!(steps, sleeps);
                assert_eq!(config.fps, 60);
                assert_eq!(f(config.delta_time), 1.0 / 60.0);
                steps += 1;
            },
            Action::Sleep(_) => panic!("a sleep before its step"),
        }
        match schedule.next() {
            Action::Sleep(nanos) => {
                assert_eq!(steps, sleeps + 1);
                assert_eq!(nanos, 16_666_666);
                sleeps += 1;
            },
            Action::Step(_) => panic!("a step before the sleep was over"),
        }
    }
    assert_eq!(steps, rounds);
    assert_eq!(sleeps, rounds);
}

#[test]
fn sleep_keeps_the_fraction_of_a_second() {
    let periods = [(1u32, 1_000_000_000u64), (2, 500_000_000), (3, 333_333_333), (144, 6_944_444), (u32::MAX, 0)];
    for &(fps, nanos) in periods.iter() {
        let el = EventLoop::new(EventLoopConfig { fps, delta_time: Scalar::from_bits(0) });
        let mut schedule = el.start_mut();
        assert!(matches!(schedule.next(), Action::Step(_)));
        match schedule.next() {
            Action::Sleep(got) => assert_eq!(got, nanos),
            Action::Step(_) => panic!("a step where a sleep was due"),
        }
    }
}

#[test]
fn a_loop_keeps_its_configuration() {
    let config = EventLoopConfig { fps: 30, delta_time: Scalar::from_bits(0x3d08_8889) };
    let el = EventLoop::new(config);
    assert_eq!(el.config.fps, 30);
    assert_eq!(el.config.delta_time.to_bits(), 0x3d08_8889);
    let schedule = el.start();
    assert!(!schedule.stepped);
    assert_eq!(schedule.config.fps, 30);
}
