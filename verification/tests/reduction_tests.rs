use alchemy::lambda::error::LambdaCollisionError;
use alchemy::lambda::reduction::{can_step, reduce_with_limit, try_reduce_with_limit};
use alchemy::lambda::term::size;
use lambda_calculus::{abs, app, Term};

fn var(i: usize) -> Term {
    Term::Var(i)
}

fn identity() -> Term {
    abs(var(1))
}

fn apply_rule() -> Term {
    abs(abs(app(var(2), var(1))))
}

fn omega() -> Term {
    let half = abs(app(var(1), var(1)));
    app(half.clone(), half)
}

fn grower() -> Term {
    let third = abs(app(app(var(1), var(1)), var(1)));
    app(third.clone(), third)
}

#[test]
fn normal_form_takes_no_steps() {
    let mut t = identity();
    assert!(can_step(&t));
    assert_eq!(reduce_with_limit(&mut t, 10, 100), Ok(0));
    assert_eq!(t, identity());
}

#[test]
fn one_redex_takes_one_step() {
    let mut t = app(identity(), var(5));
    assert!(can_step(&t));
    assert_eq!(reduce_with_limit(&mut t, 10, 100), Ok(1));
    assert_eq!(t, var(5));
}

#[test]
fn application_rule_on_identities_takes_three_steps() {
    let mut t = app(app(apply_rule(), identity()), identity());
    assert_eq!(size(&t), 11);
    assert!(can_step(&t));
    assert_eq!(reduce_with_limit(&mut t, 10, 100), Ok(3));
    assert_eq!(t, identity());
}

#[test]
fn step_count_never_exceeds_the_limit() {
    for rlimit in 0..8 {
        let mut t = omega();
        assert!(can_step(&t));
        let n = reduce_with_limit(&mut t, rlimit, 100).unwrap();
        assert!(n <= rlimit);
        assert_eq!(n, rlimit);
    }
}

#[test]
fn limit_reached_exactly_looks_like_limit_exceeded() {
    let mut finished = app(app(apply_rule(), identity()), identity());
    assert_eq!(reduce_with_limit(&mut finished, 3, 100), Ok(3));
    assert_eq!(finished, identity());
    let mut unfinished = omega();
    assert_eq!(reduce_with_limit(&mut unfinished, 3, 100), Ok(3));
}

#[test]
fn limit_stops_a_reduction_half_way() {
    let mut t = app(app(apply_rule(), identity()), identity());
    assert_eq!(reduce_with_limit(&mut t, 2, 100), Ok(2));
    assert_ne!(t, identity());
}

#[test]
fn zero_steps_allowed_means_nothing_happens() {
    let mut t = app(identity(), var(5));
    assert_eq!(reduce_with_limit(&mut t, 0, 0), Ok(0));
    assert_eq!(t, app(identity(), var(5)));
}

#[test]
fn growing_term_breaks_the_size_limit_before_the_step_limit() {
    let mut t = grower();
    assert!(can_step(&t));
    assert_eq!(
        reduce_with_limit(&mut t, 1000, 20),
        Err(LambdaCollisionError::ExceedsDepthLimit)
    );
    assert!(size(&t) > 20);
}

#[test]
fn size_is_checked_after_every_step() {
    // One step leaves a term of 8 nodes; the normal form has 2.
    let mut t = app(app(apply_rule(), identity()), identity());
    assert_eq!(
        reduce_with_limit(&mut t, 10, 7),
        Err(LambdaCollisionError::ExceedsDepthLimit)
    );
    assert_eq!(size(&t), 8);
}

#[test]
fn size_of_the_start_is_not_checked() {
    let mut t = app(app(apply_rule(), identity()), identity());
    assert_eq!(reduce_with_limit(&mut t, 10, 8), Ok(3));
    let mut u = app(identity(), identity());
    assert_eq!(size(&u), 5);
    assert_eq!(reduce_with_limit(&mut u, 10, 2), Ok(1));
    assert_eq!(u, identity());
}

#[test]
fn step_is_refused_on_indices_near_the_top_of_the_range() {
    assert!(!can_step(&var(usize::MAX)));
    assert!(!can_step(&app(identity(), var(usize::MAX - 3))));
    assert!(can_step(&var(usize::MAX - 2)));
    assert!(can_step(&identity()));
    assert!(can_step(&var(5)));
}

#[test]
fn size_limit_may_be_the_largest_number() {
    let mut t = app(app(apply_rule(), identity()), identity());
    assert!(can_step(&t));
    assert_eq!(reduce_with_limit(&mut t, 10, usize::MAX), Ok(3));
    assert_eq!(t, identity());
    let mut open = app(identity(), var(7));
    assert_eq!(reduce_with_limit(&mut open, usize::MAX, usize::MAX), Ok(1));
    assert_eq!(open, var(7));
}

#[test]
fn reduction_ends_when_the_indices_leave_no_room() {
    // Each step doubles the term; the free index leaves room for few nodes.
    let top = usize::MAX - 40;
    let double = abs(app(app(var(1), var(1)), var(top + 1)));
    let mut t = app(double.clone(), double);
    assert!(can_step(&t));
    assert_eq!(
        reduce_with_limit(&mut t, 1000, usize::MAX),
        Err(LambdaCollisionError::ExceedsDepthLimit)
    );
    assert!(!can_step(&t));
}

#[test]
fn checked_reduction_answers_every_term() {
    let mut t = app(app(apply_rule(), identity()), identity());
    assert_eq!(try_reduce_with_limit(&mut t, 10, 100), Some(Ok(3)));
    assert_eq!(t, identity());
    let mut far = var(usize::MAX);
    assert_eq!(try_reduce_with_limit(&mut far, 10, 100), None);
    assert_eq!(far, var(usize::MAX));
    for rlimit in 0..6 {
        let mut o = omega();
        match try_reduce_with_limit(&mut o, rlimit, 100) {
            Some(Ok(n)) => assert!(n <= rlimit),
            other => panic!("unexpected outcome {:?}", other),
        }
    }
}
