use raytracer::path::{Fate, Step};

#[test]
fn no_budget_is_black_at_once() {
    assert_eq!(Step::start(0), Step::Black);
    assert_eq!(Step::start(50), Step::Trace { bounces_left: 50 });
}

#[test]
fn escaped_ray_sees_the_sky() {
    assert_eq!(Step::start(3).after(Fate::Escaped), Step::Sky);
}

#[test]
fn absorbed_ray_is_black() {
    assert_eq!(Step::start(3).after(Fate::Absorbed), Step::Black);
}

#[test]
fn scattered_ray_goes_on_with_one_bounce_fewer() {
    assert_eq!(Step::start(3).after(Fate::Scattered), Step::Trace { bounces_left: 2 });
}

#[test]
fn last_bounce_scattered_is_black() {
    assert_eq!(Step::start(1).after(Fate::Scattered), Step::Black);
    assert_eq!(Step::Trace { bounces_left: 0 }.after(Fate::Scattered), Step::Black);
}

#[test]
fn path_that_always_scatters_ends_within_its_budget() {
    let depth = 50u32;
    let mut step = Step::start(depth);
    let mut traced = 0u32;
    while let Step::Trace { .. } = step {
        traced += 1;
        step = step.after(Fate::Scattered);
    }
    assert_eq!(traced, depth);
    assert_eq!(step, Step::Black);
}
