use chain_pendulum::chain::Chain;
use chain_pendulum::driver::{Action, Control, Driver, RunState};
use chain_pendulum::paint::{Cell, PaintOp, Style};
use chain_pendulum::scene::render;
use chain_pendulum::viewport::Viewport;

fn control(link_count: usize) -> Control {
    Control::new(link_count, Viewport::new(80, 24, 2)).unwrap()
}

fn snapshot(control: &Control) -> (RunState, usize, usize, Viewport) {
    (control.state(), control.link_count(), control.selected_link(), control.viewport())
}

fn viewport() -> Viewport {
    Viewport::new(80, 24, 2)
}

fn counter(links: usize) -> Driver<u64> {
    Driver::new(Chain::new(vec![0; links], vec![0; links]).unwrap(), viewport())
}

/// Counts the steps in the angle, and the calls for the link in the velocity.
fn count(link: usize, angle: &u64, velocity: &u64) -> (u64, u64) {
    (angle + 1, velocity + link as u64)
}

fn at_centre(_chain: &Chain<u64>, _link: usize, _extent: i32) -> (i16, i16) {
    (0, 0)
}

/// One step of one link of unit length under gravity, the angle first.
fn swing(_link: usize, angle: &f64, velocity: &f64) -> (f64, f64) {
    let (gravity, length, dt) = (-9.81, 1.0, 0.01);
    let angle = angle + velocity * dt;
    let velocity = velocity - (gravity / length) * f64::sin(angle) * dt;
    (angle, velocity)
}

fn hanging(_chain: &Chain<f64>, _link: usize, _extent: i32) -> (i16, i16) {
    (0, 1)
}

fn bits(chain: &Chain<f64>) -> (Vec<u64>, Vec<u64>) {
    (
        chain.angles().iter().map(|a| a.to_bits()).collect(),
        chain.angular_velocities().iter().map(|v| v.to_bits()).collect(),
    )
}

#[test]
fn a_state_machine_needs_a_link() {
    assert!(Control::new(0, Viewport::new(80, 24, 2)).is_none());
    assert!(Control::new(1, Viewport::new(0, 0, 0)).is_some());
}

#[test]
fn a_new_state_machine_runs_with_the_first_link_selected() {
    let control = control(3);
    assert_eq!(
        snapshot(&control),
        (RunState::Running, 3, 0, Viewport { width: 80, height: 24, margin: 2 })
    );
    assert!(!control.is_paused());
}

#[test]
fn pause_toggles() {
    let mut control = control(1);
    control.apply(Action::TogglePause);
    assert_eq!(control.state(), RunState::Paused);
    assert!(control.is_paused());
    control.apply(Action::TogglePause);
    assert_eq!(control.state(), RunState::Running);
    assert!(!control.is_paused());
}

#[test]
fn quit_terminates_from_every_state() {
    let mut running = control(1);
    running.apply(Action::Quit);
    assert_eq!(running.state(), RunState::Terminated);
    let mut paused = control(1);
    paused.apply(Action::TogglePause);
    paused.apply(Action::Quit);
    assert_eq!(paused.state(), RunState::Terminated);
    paused.apply(Action::Quit);
    assert_eq!(paused.state(), RunState::Terminated);
}

#[test]
fn nothing_leaves_terminated() {
    let mut control = control(3);
    control.apply(Action::SelectLink(1));
    control.apply(Action::Quit);
    let before = snapshot(&control);
    for action in [
        Action::TogglePause,
        Action::SelectLink(2),
        Action::Resize(10, 10),
        Action::Idle,
        Action::Quit,
    ] {
        control.apply(action);
        assert_eq!(snapshot(&control), before);
    }
}

#[test]
fn selecting_a_link_of_the_chain() {
    let mut control = control(3);
    control.apply(Action::SelectLink(2));
    assert_eq!(control.selected_link(), 2);
    control.apply(Action::SelectLink(0));
    assert_eq!(control.selected_link(), 0);
    control.apply(Action::TogglePause);
    control.apply(Action::SelectLink(1));
    assert_eq!(snapshot(&control).0, RunState::Paused);
    assert_eq!(control.selected_link(), 1);
}

#[test]
fn selecting_out_of_range_changes_nothing() {
    let mut control = control(3);
    control.apply(Action::SelectLink(1));
    let before = snapshot(&control);
    control.apply(Action::SelectLink(3));
    assert_eq!(snapshot(&control), before);
    control.apply(Action::SelectLink(usize::MAX));
    assert_eq!(snapshot(&control), before);
    assert_eq!(control.selected_link(), 1);
}

#[test]
fn idle_changes_nothing() {
    let mut control = control(2);
    control.apply(Action::TogglePause);
    let before = snapshot(&control);
    control.apply(Action::Idle);
    assert_eq!(snapshot(&control), before);
}

#[test]
fn resize_replaces_the_viewport_and_keeps_the_rest() {
    let mut control = control(2);
    control.apply(Action::SelectLink(1));
    control.apply(Action::TogglePause);
    control.apply(Action::Resize(120, 50));
    assert_eq!(
        snapshot(&control),
        (RunState::Paused, 2, 1, Viewport { width: 120, height: 50, margin: 2 })
    );
    assert_eq!(control.viewport().center(), Cell { col: 60, row: 25 });
    assert_eq!(control.viewport().render_extent(), 46);
}

#[test]
fn a_new_driver_runs_with_the_first_link_selected() {
    let driver = counter(3);
    assert_eq!(snapshot(driver.control()), (RunState::Running, 3, 0, viewport()));
    assert_eq!(driver.link_count(), 3);
    assert_eq!(driver.chain().angles(), &vec![0, 0, 0]);
}

#[test]
fn a_running_tick_steps_the_chain_once() {
    let mut driver = counter(3);
    let frame = driver.tick(Action::Idle, count, at_centre);
    assert!(frame.is_some());
    assert_eq!(driver.chain().angles(), &vec![1, 1, 1]);
    assert_eq!(driver.chain().angular_velocities(), &vec![0, 1, 2]);
    for _ in 0..9 {
        driver.tick(Action::Idle, count, at_centre);
    }
    assert_eq!(driver.chain().angles(), &vec![10, 10, 10]);
    assert_eq!(driver.chain().angular_velocities(), &vec![0, 10, 20]);
}

#[test]
fn selection_and_resize_do_not_hold_up_the_integration() {
    let mut driver = counter(2);
    driver.tick(Action::SelectLink(1), count, at_centre);
    driver.tick(Action::SelectLink(5), count, at_centre);
    driver.tick(Action::Resize(10, 10), count, at_centre);
    assert_eq!(driver.chain().angles(), &vec![3, 3]);
    assert_eq!(driver.control().selected_link(), 1);
    assert_eq!(driver.control().viewport(), Viewport { width: 10, height: 10, margin: 2 });
}

#[test]
fn the_tick_that_pauses_does_not_step_and_the_tick_that_resumes_does() {
    let mut driver = counter(1);
    driver.tick(Action::Idle, count, at_centre);
    driver.tick(Action::TogglePause, count, at_centre);
    assert_eq!(driver.chain().angles(), &vec![1]);
    driver.tick(Action::Idle, count, at_centre);
    assert_eq!(driver.chain().angles(), &vec![1]);
    driver.tick(Action::TogglePause, count, at_centre);
    assert_eq!(driver.chain().angles(), &vec![2]);
}

#[test]
fn paused_ticks_leave_the_chain_bit_for_bit() {
    let start = Chain::new(vec![1.0, -0.5], vec![0.0, 0.25]).unwrap();
    let mut driver = Driver::new(start, viewport());
    for _ in 0..5 {
        driver.tick(Action::Idle, swing, hanging);
    }
    driver.tick(Action::TogglePause, swing, hanging);
    let paused = bits(driver.chain());
    assert_ne!(paused, (vec![1.0f64.to_bits(), (-0.5f64).to_bits()], vec![0, 0.25f64.to_bits()]));
    for action in [Action::Idle, Action::SelectLink(1), Action::Resize(30, 30), Action::Idle] {
        let frame = driver.tick(action, swing, hanging);
        assert!(frame.is_some());
        assert_eq!(bits(driver.chain()), paused);
        assert_eq!(driver.control().state(), RunState::Paused);
    }
    for _ in 0..1000 {
        driver.tick(Action::Idle, swing, hanging);
    }
    assert_eq!(bits(driver.chain()), paused);
}

#[test]
fn resuming_continues_from_the_paused_chain() {
    // four ticks, a pause of any length, the tick that resumes and three more ...
    let mut driver = Driver::new(Chain::new(vec![1.0], vec![0.0]).unwrap(), viewport());
    for _ in 0..4 {
        driver.tick(Action::Idle, swing, hanging);
    }
    driver.tick(Action::TogglePause, swing, hanging);
    for _ in 0..17 {
        driver.tick(Action::Idle, swing, hanging);
    }
    driver.tick(Action::TogglePause, swing, hanging);
    for _ in 0..3 {
        driver.tick(Action::Idle, swing, hanging);
    }
    // ... are eight steps of the integrator
    let mut expected = Chain::new(vec![1.0], vec![0.0]).unwrap();
    for _ in 0..8 {
        expected.step(swing);
    }
    assert_eq!(bits(driver.chain()), bits(&expected));
}

#[test]
fn equal_runs_give_bitwise_equal_chains() {
    let mut first =
        Driver::new(Chain::new(vec![0.3, 2.0, -1.0], vec![0.0, -4.0, 0.5]).unwrap(), viewport());
    let mut second =
        Driver::new(Chain::new(vec![0.3, 2.0, -1.0], vec![0.0, -4.0, 0.5]).unwrap(), viewport());
    for _ in 0..500 {
        first.tick(Action::Idle, swing, hanging);
        second.tick(Action::Idle, swing, hanging);
        assert_eq!(bits(first.chain()), bits(second.chain()));
    }
}

#[test]
fn a_terminated_run_neither_steps_nor_draws() {
    let mut driver = counter(1);
    driver.tick(Action::Idle, count, at_centre);
    let frame = driver.tick(Action::Quit, count, at_centre);
    assert_eq!(frame, None);
    assert_eq!(driver.chain().angles(), &vec![1]);
    assert_eq!(driver.control().state(), RunState::Terminated);
    let frame = driver.tick(Action::Idle, count, at_centre);
    assert_eq!(frame, None);
    assert_eq!(driver.chain().angles(), &vec![1]);
}

#[test]
fn the_frame_shows_the_chain_after_the_step() {
    // The joint hangs as many cells below the centre as steps were taken.
    let below = |chain: &Chain<u64>, _: usize, _: i32| (0, chain.angles()[0] as i16);
    let mut driver = counter(1);
    driver.tick(Action::Idle, count, below);
    driver.tick(Action::Idle, count, below);
    let frame = driver.tick(Action::Idle, count, below);
    assert_eq!(frame, Some(render(&viewport(), &vec![(0, 3)], 0)));
    let frame = frame.unwrap();
    assert_eq!(frame[0], PaintOp { cell: Cell { col: 40, row: 12 }, style: Style::Segment });
    assert_eq!(frame[3], PaintOp { cell: Cell { col: 40, row: 15 }, style: Style::Segment });
    assert_eq!(frame[4], PaintOp { cell: Cell { col: 40, row: 17 }, style: Style::Highlighted });
}

#[test]
fn the_frame_asks_for_every_joint_in_order() {
    let asked = std::cell::RefCell::new(Vec::new());
    let locate = |_: &Chain<u64>, link: usize, extent: i32| {
        asked.borrow_mut().push((link, extent));
        (3 * link as i16, 2)
    };
    let mut driver = counter(3);
    let frame = driver.tick(Action::Idle, count, locate);
    assert_eq!(asked.into_inner(), vec![(0, 20), (1, 20), (2, 20)]);
    assert_eq!(frame, Some(render(&viewport(), &vec![(0, 2), (3, 2), (6, 2)], 0)));
}

#[test]
fn the_frame_after_a_resize_uses_the_new_center_and_extent() {
    // The joint is placed at the extent below the centre.
    let locate = |_: &Chain<u64>, _: usize, extent: i32| (0, extent as i16);
    let mut driver = counter(1);
    driver.tick(Action::TogglePause, count, locate);
    let before = driver.tick(Action::Idle, count, locate).unwrap();
    assert_eq!(before, render(&Viewport::new(80, 24, 2), &vec![(0, 20)], 0));
    assert_eq!(before[0].cell, Cell { col: 40, row: 12 });

    let after = driver.tick(Action::Resize(30, 40), count, locate).unwrap();
    assert_eq!(driver.chain().angles(), &vec![0]);
    assert_eq!(after, render(&Viewport::new(30, 40, 2), &vec![(0, 11)], 0));
    assert_eq!(after[0], PaintOp { cell: Cell { col: 15, row: 20 }, style: Style::Segment });
    assert_eq!(after[11], PaintOp { cell: Cell { col: 15, row: 31 }, style: Style::Segment });
    assert_ne!(after, before);
}

#[test]
fn the_frame_highlights_the_selected_link() {
    let locate = |_: &Chain<u64>, link: usize, _: i32| if link == 0 { (-6, 0) } else { (6, 0) };
    let mut driver = counter(2);
    let frame = driver.tick(Action::SelectLink(1), count, locate).unwrap();
    assert_eq!(frame, render(&viewport(), &vec![(-6, 0), (6, 0)], 1));
    assert!(frame.contains(&PaintOp { cell: Cell { col: 48, row: 12 }, style: Style::Highlighted }));
    assert!(frame.contains(&PaintOp { cell: Cell { col: 32, row: 12 }, style: Style::Normal }));
    let frame = driver.tick(Action::SelectLink(2), count, locate).unwrap();
    assert!(frame.contains(&PaintOp { cell: Cell { col: 48, row: 12 }, style: Style::Highlighted }));
}
