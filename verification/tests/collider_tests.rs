use alchemy::config::Reactor;
use alchemy::lambda::collider::{AlchemyCollider, LambdaCollisionOk};
use alchemy::lambda::error::LambdaCollisionError;
use alchemy::lambda::parse::{parse_expressions, ParseFailure};
use alchemy::lambda::particle::LambdaParticle;
use alchemy::supercollider::{Collider, Residue};
use lambda_calculus::{abs, app, Term};

fn var(i: usize) -> Term {
    Term::Var(i)
}

fn identity() -> Term {
    abs(var(1))
}

fn konstant() -> Term {
    abs(abs(var(2)))
}

fn apply_rule() -> Term {
    abs(abs(app(var(2), var(1))))
}

fn take_left() -> Term {
    abs(abs(var(2)))
}

fn take_right() -> Term {
    abs(abs(var(1)))
}

fn settings(copy: bool, identity: bool, free: bool) -> Reactor {
    Reactor {
        rules: vec![String::from("\\x.\\y.x y")],
        discard_copy_actions: copy,
        discard_identity: identity,
        discard_free_variable_expressions: free,
        maintain_constant_population_size: false,
        discard_parents: false,
        reduction_cutoff: 100,
        size_cutoff: 100,
        seed: [0u8; 32],
    }
}

fn particle(t: Term) -> LambdaParticle {
    LambdaParticle { expr: t }
}

fn collide(
    collider: &AlchemyCollider,
    left: Term,
    right: Term,
) -> Result<LambdaCollisionOk, LambdaCollisionError> {
    let l = particle(left);
    let r = particle(right);
    assert!(collider.can_collide(&l, &r));
    collider.collide(l, r)
}

#[test]
fn rules_are_read_from_the_settings() {
    let from_text = AlchemyCollider::try_from_config(&settings(false, false, false)).unwrap();
    let from_terms = AlchemyCollider::with_rules(&settings(false, false, false), vec![apply_rule()]);
    assert_eq!(from_text, from_terms);
    assert_eq!(AlchemyCollider::from_config(&settings(false, false, false)), from_terms);
}

#[test]
fn bad_rule_is_reported_by_position() {
    let mut cfg = settings(false, false, false);
    cfg.rules = vec![String::from("\\x.x"), String::from("\\x.("), String::from(")")];
    assert_eq!(AlchemyCollider::try_from_config(&cfg), Err(ParseFailure { index: 1 }));
}

#[test]
fn texts_are_parsed_in_order() {
    let texts = vec![String::from("\\x.x"), String::from("\\x.\\y.x"), String::from("\\a.\\b.a b")];
    assert_eq!(parse_expressions(&texts), Ok(vec![identity(), konstant(), apply_rule()]));
    assert_eq!(parse_expressions(&vec![]), Ok(vec![]));
}

#[test]
fn first_text_that_is_no_term_is_reported() {
    let texts = vec![String::from("\\x.x"), String::from(""), String::from("\\x.x"), String::from("((")];
    assert_eq!(parse_expressions(&texts), Err(ParseFailure { index: 1 }));
    let free = vec![String::from("x")];
    assert_eq!(parse_expressions(&free), Err(ParseFailure { index: 0 }));
}

#[test]
fn application_of_identities_gives_the_identity() {
    let collider = AlchemyCollider::with_rules(&settings(false, false, false), vec![apply_rule()]);
    let residue = collide(&collider, identity(), identity()).unwrap();
    assert_eq!(residue.results, vec![particle(identity())]);
    assert_eq!(residue.reductions, vec![3]);
    assert_eq!(residue.sizes, vec![2]);
    assert_eq!(residue.left_size, 2);
    assert_eq!(residue.right_size, 2);
    assert_eq!(residue.count(), 1);
    assert_eq!(residue.particles(), vec![particle(identity())]);
}

#[test]
fn identity_is_discarded_when_asked() {
    let collider = AlchemyCollider::with_rules(&settings(false, true, false), vec![apply_rule()]);
    assert_eq!(
        collide(&collider, identity(), identity()),
        Err(LambdaCollisionError::IsIdentity)
    );
    assert_eq!(
        collide(&collider, konstant(), identity()).map(|r| r.results),
        Ok(vec![particle(abs(identity()))])
    );
}

#[test]
fn identity_goes_before_parent() {
    let collider = AlchemyCollider::with_rules(&settings(true, true, true), vec![apply_rule()]);
    assert_eq!(
        collide(&collider, identity(), identity()),
        Err(LambdaCollisionError::IsIdentity)
    );
}

#[test]
fn copy_of_the_left_operand_is_a_parent() {
    let collider = AlchemyCollider::with_rules(&settings(true, false, false), vec![take_left()]);
    assert_eq!(
        collide(&collider, konstant(), identity()),
        Err(LambdaCollisionError::IsParent)
    );
    assert_eq!(
        collide(&collider, identity(), konstant()),
        Err(LambdaCollisionError::IsParent)
    );
}

#[test]
fn copy_of_the_right_operand_is_a_parent() {
    let collider = AlchemyCollider::with_rules(&settings(true, false, false), vec![take_right()]);
    assert_eq!(
        collide(&collider, identity(), konstant()),
        Err(LambdaCollisionError::IsParent)
    );
}

#[test]
fn copies_are_kept_when_not_discarded() {
    let collider = AlchemyCollider::with_rules(&settings(false, false, false), vec![take_left()]);
    let residue = collide(&collider, konstant(), identity()).unwrap();
    assert_eq!(residue.results, vec![particle(konstant())]);
    assert_eq!(residue.sizes, vec![3]);
    assert_eq!(residue.left_size, 3);
    assert_eq!(residue.right_size, 2);
}

#[test]
fn free_variables_are_discarded_when_asked() {
    let strict = AlchemyCollider::with_rules(&settings(false, false, true), vec![take_left()]);
    assert_eq!(
        collide(&strict, abs(var(2)), identity()),
        Err(LambdaCollisionError::HasFreeVariables)
    );
    let lax = AlchemyCollider::with_rules(&settings(false, false, false), vec![take_left()]);
    assert_eq!(
        collide(&lax, abs(var(2)), identity()).map(|r| r.results),
        Ok(vec![particle(abs(var(2)))])
    );
}

#[test]
fn parent_goes_before_free_variables() {
    let collider = AlchemyCollider::with_rules(&settings(true, false, true), vec![take_left()]);
    assert_eq!(
        collide(&collider, abs(var(2)), identity()),
        Err(LambdaCollisionError::IsParent)
    );
}

#[test]
fn reduction_that_uses_up_its_steps_fails() {
    let mut cfg = settings(false, false, false);
    cfg.reduction_cutoff = 3;
    let tight = AlchemyCollider::with_rules(&cfg, vec![apply_rule()]);
    assert_eq!(
        collide(&tight, identity(), identity()),
        Err(LambdaCollisionError::ExceedsReductionLimit)
    );
    cfg.reduction_cutoff = 4;
    let enough = AlchemyCollider::with_rules(&cfg, vec![apply_rule()]);
    assert_eq!(collide(&enough, identity(), identity()).map(|r| r.reductions), Ok(vec![3]));
}

#[test]
fn endless_reduction_fails_at_the_step_limit() {
    let half = abs(app(var(1), var(1)));
    let collider = AlchemyCollider::with_rules(&settings(false, false, false), vec![apply_rule()]);
    assert_eq!(
        collide(&collider, half.clone(), half),
        Err(LambdaCollisionError::ExceedsReductionLimit)
    );
}

#[test]
fn growing_reduction_fails_at_the_size_limit() {
    let third = abs(app(app(var(1), var(1)), var(1)));
    let mut cfg = settings(false, false, false);
    cfg.reduction_cutoff = 100000;
    cfg.size_cutoff = 50;
    let collider = AlchemyCollider::with_rules(&cfg, vec![apply_rule()]);
    assert_eq!(
        collide(&collider, third.clone(), third),
        Err(LambdaCollisionError::ExceedsDepthLimit)
    );
}

#[test]
fn every_rule_gives_one_result_in_rule_order() {
    let rules = vec![take_left(), take_right(), apply_rule()];
    let collider = AlchemyCollider::with_rules(&settings(false, false, false), rules);
    let residue = collide(&collider, konstant(), identity()).unwrap();
    assert_eq!(
        residue.results,
        vec![particle(konstant()), particle(identity()), particle(abs(identity()))]
    );
    assert_eq!(residue.reductions.len(), 3);
    assert_eq!(residue.sizes, vec![3, 2, 3]);
    assert_eq!(residue.count(), 3);
}

#[test]
fn first_failing_rule_fails_the_whole_collision() {
    let rules = vec![apply_rule(), take_left(), take_right()];
    let collider = AlchemyCollider::with_rules(&settings(true, false, false), rules);
    assert_eq!(
        collide(&collider, konstant(), identity()),
        Err(LambdaCollisionError::IsParent)
    );
    let rules = vec![take_right(), take_left()];
    let collider = AlchemyCollider::with_rules(&settings(true, true, false), rules);
    assert_eq!(
        collide(&collider, konstant(), identity()),
        Err(LambdaCollisionError::IsIdentity)
    );
}

#[test]
fn collider_without_rules_leaves_an_empty_residue() {
    let collider = AlchemyCollider::with_rules(&settings(true, true, true), vec![]);
    let residue = collide(&collider, konstant(), identity()).unwrap();
    assert_eq!(residue.count(), 0);
    assert_eq!(residue.left_size, 3);
    assert_eq!(residue.right_size, 2);
}

#[test]
fn collider_refuses_indices_near_the_top_of_the_range() {
    let collider = AlchemyCollider::with_rules(&settings(false, false, false), vec![apply_rule()]);
    assert!(!collider.can_collide(&particle(var(usize::MAX)), &particle(identity())));
    assert!(collider.can_collide(&particle(var(7)), &particle(identity())));
}

#[test]
fn every_error_has_its_message() {
    assert_eq!(
        LambdaCollisionError::IsIdentity.message(),
        "collision result is identity function"
    );
    assert_eq!(
        LambdaCollisionError::IsParent.message(),
        "collision result is isomorphic to parent"
    );
    assert_eq!(
        LambdaCollisionError::ExceedsReductionLimit.message(),
        "collision exceeds reduction limit"
    );
    assert_eq!(
        LambdaCollisionError::NotEnoughExpressions.message(),
        "not enough expressions for further reactions"
    );
    assert_eq!(
        LambdaCollisionError::HasFreeVariables.message(),
        "collision result has free variables"
    );
    assert_eq!(
        LambdaCollisionError::ExceedsDepthLimit.message(),
        "expression exceeds depth limit during reduction"
    );
    assert_eq!(
        LambdaCollisionError::BadArgument.message(),
        "argument is truth-like or doesn't use all of own arguments"
    );
}

#[test]
fn policies_are_asked_in_turn() {
    let all = AlchemyCollider::with_rules(&settings(true, true, true), vec![apply_rule()]);
    let i = identity();
    let k = konstant();
    let open = abs(var(2));
    assert_eq!(all.judge(&i, 100, &i, &k), Err(LambdaCollisionError::ExceedsReductionLimit));
    assert_eq!(all.judge(&i, 99, &i, &k), Err(LambdaCollisionError::IsIdentity));
    assert_eq!(all.judge(&k, 0, &i, &k), Err(LambdaCollisionError::IsParent));
    assert_eq!(all.judge(&k, 0, &k, &i), Err(LambdaCollisionError::IsParent));
    assert_eq!(all.judge(&open, 0, &open, &k), Err(LambdaCollisionError::IsParent));
    assert_eq!(all.judge(&open, 0, &i, &k), Err(LambdaCollisionError::HasFreeVariables));
    assert_eq!(all.judge(&abs(i.clone()), 5, &i, &k), Ok(3));
    let none = AlchemyCollider::with_rules(&settings(false, false, false), vec![apply_rule()]);
    assert_eq!(none.judge(&i, 99, &i, &k), Ok(2));
    assert_eq!(none.judge(&k, 0, &i, &k), Ok(3));
    assert_eq!(none.judge(&open, 0, &i, &k), Ok(2));
    assert_eq!(none.judge(&i, 100, &i, &k), Err(LambdaCollisionError::ExceedsReductionLimit));
}

#[test]
fn checked_collision_answers_every_pair() {
    let collider = AlchemyCollider::with_rules(&settings(false, true, false), vec![apply_rule()]);
    assert_eq!(
        collider.try_collide(particle(identity()), particle(identity())),
        Some(Err(LambdaCollisionError::IsIdentity))
    );
    assert_eq!(
        collider.try_collide(particle(konstant()), particle(identity())).map(|r| r.map(|ok| ok.results)),
        Some(Ok(vec![particle(abs(identity()))]))
    );
    assert_eq!(collider.try_collide(particle(var(usize::MAX)), particle(identity())), None);
}

#[test]
fn products_pass_the_policies() {
    let rules = vec![take_left(), take_right(), apply_rule()];
    let collider = AlchemyCollider::with_rules(&settings(true, true, true), rules);
    let operands = vec![identity(), konstant(), abs(abs(var(1))), apply_rule(), abs(var(2))];
    for l in &operands {
        for r in &operands {
            if let Some(Ok(residue)) = collider.try_collide(particle(l.clone()), particle(r.clone())) {
                for p in &residue.results {
                    assert_ne!(p.expr, identity());
                    assert_ne!(&p.expr, l);
                    assert_ne!(&p.expr, r);
                    assert!(!p.expr.has_free_variables());
                }
                for n in &residue.reductions {
                    assert!(*n < 100);
                }
            }
        }
    }
}

#[test]
fn collider_takes_the_largest_size_limit() {
    let mut cfg = settings(false, false, false);
    cfg.size_cutoff = usize::MAX;
    cfg.reduction_cutoff = usize::MAX;
    let collider = AlchemyCollider::with_rules(&cfg, vec![apply_rule()]);
    let residue = collide(&collider, identity(), identity()).unwrap();
    assert_eq!(residue.results, vec![particle(identity())]);
    assert_eq!(residue.reductions, vec![3]);
}

#[test]
fn collider_and_residue_can_be_cloned() {
    let collider = AlchemyCollider::with_rules(&settings(false, false, false), vec![apply_rule()]);
    assert_eq!(collider.clone(), collider);
    let residue = collide(&collider, konstant(), identity()).unwrap();
    assert_eq!(residue.clone(), residue);
}
