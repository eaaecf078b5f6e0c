use alchemy::lambda::particle::LambdaParticle;
use alchemy::lambda::term::{
    has_free_variables, has_two_args, is_truthy, max_free_index, size, terms_isomorphic,
};
use alchemy::supercollider::Particle;
use lambda_calculus::{abs, app, parse, Classic, Term};

fn var(i: usize) -> Term {
    Term::Var(i)
}

fn identity() -> Term {
    abs(var(1))
}

fn konstant() -> Term {
    abs(abs(var(2)))
}

#[test]
fn has_two_args_needs_two_binders() {
    assert!(!has_two_args(&var(1)));
    assert!(!has_two_args(&app(var(1), var(2))));
    assert!(!has_two_args(&identity()));
    assert!(!has_two_args(&abs(app(var(1), var(1)))));
    assert!(has_two_args(&konstant()));
    assert!(has_two_args(&abs(abs(abs(var(1))))));
}

#[test]
fn has_two_args_ignores_the_body() {
    assert!(has_two_args(&abs(abs(app(var(2), var(1))))));
    assert!(has_two_args(&abs(abs(app(abs(var(1)), var(7))))));
    assert!(has_two_args(&abs(abs(var(0)))));
}

#[test]
fn has_two_args_looks_at_the_head_only() {
    assert!(!has_two_args(&app(konstant(), konstant())));
    assert!(!has_two_args(&abs(app(konstant(), var(1)))));
}

#[test]
fn is_truthy_accepts_the_innermost_bound_variable() {
    assert!(is_truthy(&abs(abs(var(1)))));
    assert!(is_truthy(&abs(abs(abs(var(1))))));
    assert!(is_truthy(&abs(abs(abs(abs(var(1)))))));
}

#[test]
fn is_truthy_refuses_other_variables() {
    assert!(!is_truthy(&abs(abs(var(2)))));
    assert!(!is_truthy(&abs(abs(abs(var(2))))));
    assert!(!is_truthy(&abs(abs(abs(abs(var(4)))))));
    assert!(!is_truthy(&abs(abs(var(9)))));
    assert!(!is_truthy(&abs(abs(var(0)))));
    assert!(!is_truthy(&abs(abs(var(3)))));
}

#[test]
fn is_truthy_refuses_fewer_binders() {
    assert!(!is_truthy(&var(1)));
    assert!(!is_truthy(&identity()));
    assert!(!is_truthy(&app(identity(), identity())));
}

#[test]
fn is_truthy_refuses_other_bodies() {
    assert!(!is_truthy(&abs(abs(app(var(2), var(1))))));
    assert!(!is_truthy(&abs(abs(abs(app(var(1), var(1)))))));
    assert!(!is_truthy(&abs(app(abs(abs(var(1))), var(1)))));
}

#[test]
fn size_counts_every_node() {
    assert_eq!(size(&var(1)), 1);
    assert_eq!(size(&var(0)), 1);
    assert_eq!(size(&identity()), 2);
    assert_eq!(size(&konstant()), 3);
    assert_eq!(size(&app(identity(), konstant())), 6);
    assert_eq!(size(&abs(abs(app(var(2), var(1))))), 5);
}

#[test]
fn isomorphism_is_reflexive_and_symmetric() {
    let terms = vec![var(1), identity(), konstant(), app(identity(), konstant()), abs(var(2))];
    for a in &terms {
        let pa = LambdaParticle { expr: a.clone() };
        assert!(pa.is_isomorphic_to(&pa));
        for b in &terms {
            let pb = LambdaParticle { expr: b.clone() };
            assert_eq!(pa.is_isomorphic_to(&pb), pb.is_isomorphic_to(&pa));
            assert_eq!(pa.is_isomorphic_to(&pb), a == b);
        }
    }
}

#[test]
fn isomorphism_tells_terms_apart() {
    let i = LambdaParticle { expr: identity() };
    let k = LambdaParticle { expr: konstant() };
    let open = LambdaParticle { expr: abs(var(2)) };
    assert!(!i.is_isomorphic_to(&k));
    assert!(!i.is_isomorphic_to(&open));
    assert!(!k.is_isomorphic_to(&open));
}

#[test]
fn parsing_the_same_text_twice_gives_isomorphic_particles() {
    let a = LambdaParticle { expr: parse("\\x.\\y.x y", Classic).unwrap() };
    let b = LambdaParticle { expr: parse("\\x.\\y.x y", Classic).unwrap() };
    assert!(a.is_isomorphic_to(&b));
    assert!(b.is_isomorphic_to(&a));
}

#[test]
fn names_of_bound_variables_do_not_matter() {
    let a = LambdaParticle { expr: parse("\\x.\\y.x y", Classic).unwrap() };
    let b = LambdaParticle { expr: parse("\\f.\\g.f g", Classic).unwrap() };
    assert!(a.is_isomorphic_to(&b));
}

#[test]
fn compose_applies_without_reducing() {
    let a = LambdaParticle { expr: identity() };
    let b = LambdaParticle { expr: konstant() };
    let c = a.compose(&b);
    assert_eq!(c.expr, app(identity(), konstant()));
    assert_eq!(size(&c.expr), size(&a.expr) + size(&b.expr) + 1);
    assert_eq!(a.expr, identity());
    assert_eq!(b.expr, konstant());
}

#[test]
fn particle_gives_its_term_and_its_text() {
    let p = LambdaParticle { expr: konstant() };
    assert_eq!(p.get_underlying_term(), &konstant());
    assert_eq!(p.to_text(), format!("{:?}", konstant()));
    assert_ne!(p.to_text(), LambdaParticle { expr: identity() }.to_text());
    assert_eq!(p.clone(), p);
}

#[test]
fn has_two_args_counts_nested_binders() {
    let bodies = vec![var(1), app(var(1), var(2)), app(identity(), konstant())];
    for body in bodies {
        let mut t = body;
        for binders in 0..5 {
            assert_eq!(has_two_args(&t), binders >= 2);
            t = abs(t);
        }
    }
}

#[test]
fn is_truthy_counts_nested_binders() {
    let mut projection = var(1);
    let mut other = app(var(1), var(1));
    for binders in 0..5 {
        assert_eq!(is_truthy(&projection), binders >= 2);
        assert!(!is_truthy(&other));
        projection = abs(projection);
        other = abs(other);
    }
}

fn sample_terms() -> Vec<Term> {
    vec![
        var(0),
        var(1),
        var(7),
        identity(),
        konstant(),
        abs(var(2)),
        abs(abs(var(5))),
        abs(abs(abs(var(3)))),
        app(var(2), abs(var(4))),
        app(abs(var(1)), abs(abs(var(1)))),
        abs(app(var(1), abs(app(var(2), var(9))))),
        abs(var(0)),
        var(usize::MAX),
        abs(var(usize::MAX)),
    ]
}

#[test]
fn free_variables_are_those_no_binder_reaches() {
    assert!(has_free_variables(&var(1)));
    assert!(has_free_variables(&var(0)));
    assert!(!has_free_variables(&identity()));
    assert!(!has_free_variables(&konstant()));
    assert!(has_free_variables(&abs(var(2))));
    assert!(has_free_variables(&abs(var(0))));
    assert!(has_free_variables(&app(identity(), var(1))));
    assert!(has_free_variables(&app(var(1), identity())));
    assert!(!has_free_variables(&app(identity(), konstant())));
    assert!(!has_free_variables(&abs(abs(abs(var(3))))));
    assert!(has_free_variables(&abs(abs(abs(var(4))))));
}

#[test]
fn largest_free_index_is_the_largest_excess_over_the_binders() {
    assert_eq!(max_free_index(&var(0)), 0);
    assert_eq!(max_free_index(&var(7)), 7);
    assert_eq!(max_free_index(&identity()), 0);
    assert_eq!(max_free_index(&abs(var(2))), 1);
    assert_eq!(max_free_index(&abs(abs(var(5)))), 3);
    assert_eq!(max_free_index(&app(var(2), abs(var(4)))), 3);
    assert_eq!(max_free_index(&app(abs(var(9)), var(2))), 8);
    assert_eq!(max_free_index(&var(usize::MAX)), usize::MAX);
    assert_eq!(max_free_index(&abs(var(usize::MAX))), usize::MAX - 1);
}

#[test]
fn isomorphism_compares_shape_and_indices() {
    assert!(terms_isomorphic(&abs(var(1)), &abs(var(1))));
    assert!(!terms_isomorphic(&abs(var(1)), &abs(var(2))));
    assert!(!terms_isomorphic(&var(1), &abs(var(1))));
    assert!(!terms_isomorphic(&abs(var(1)), &app(var(1), var(1))));
    assert!(terms_isomorphic(&app(var(1), abs(var(2))), &app(var(1), abs(var(2)))));
    assert!(!terms_isomorphic(&app(var(1), abs(var(2))), &app(var(1), abs(var(3)))));
    assert!(!terms_isomorphic(&app(var(2), abs(var(2))), &app(var(1), abs(var(2)))));
}

#[test]
fn term_measures_agree_with_the_lambda_calculus_crate() {
    let terms = sample_terms();
    for a in &terms {
        assert_eq!(has_free_variables(a), a.has_free_variables());
        assert_eq!(max_free_index(a), a.max_free_index());
        for b in &terms {
            assert_eq!(terms_isomorphic(a, b), a.is_isomorphic_to(b));
            assert_eq!(terms_isomorphic(a, b), a == b);
        }
    }
}
