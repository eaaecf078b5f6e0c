//! Lambda terms with De Bruijn indices: what the reactions measure of them,
//! and the operations of the `lambda_calculus` crate that the reactions use.

use lambda_calculus::parser::ParseError;
use lambda_calculus::Term;
use vstd::prelude::*;

verus! {

/// A lambda term of the `lambda_calculus` crate: a variable with a De Bruijn
/// index (counted from 1; index 0 stands for an undefined term), an
/// abstraction over a term, or an application of one term to another.
/// The three variants are public, and the verifier reads them from the crate.
#[verifier::external_type_specification]
pub struct ExTerm(Term);

/// The number of nodes of a term: one for each variable, abstraction and
/// application in it.
pub open spec fn term_size(t: Term) -> nat
    decreases t,
{
    match t {
        Term::Var(_) => 1,
        Term::Abs(body) => 1 + term_size(*body),
        Term::App(pair) => 1 + term_size(pair.0) + term_size(pair.1),
    }
}

/// Two terms have the same shape and the same index at every variable.
/// With De Bruijn indices this is equivalence up to the names of bound
/// variables.
pub open spec fn isomorphic(a: Term, b: Term) -> bool
    decreases a,
{
    match (a, b) {
        (Term::Var(x), Term::Var(y)) => x == y,
        (Term::Abs(p), Term::Abs(q)) => isomorphic(*p, *q),
        (Term::App(p), Term::App(q)) => isomorphic(p.0, q.0) && isomorphic(p.1, q.1),
        _ => false,
    }
}

/// Some variable of the term, seen from under `depth` binders, is bound by
/// none of them and by none inside the term, or is the undefined index 0.
pub open spec fn has_free_at(t: Term, depth: nat) -> bool
    decreases t,
{
    match t {
        Term::Var(x) => x > depth || x == 0,
        Term::Abs(body) => has_free_at(*body, depth + 1),
        Term::App(pair) => has_free_at(pair.0, depth) || has_free_at(pair.1, depth),
    }
}

/// The largest amount by which an index in the term exceeds the number of
/// binders around it, `depth` binders outside the term included; 0 if no
/// index does.
pub open spec fn max_free_at(t: Term, depth: nat) -> nat
    decreases t,
{
    match t {
        Term::Var(x) => if x > depth {
            (x - depth) as nat
        } else {
            0
        },
        Term::Abs(body) => max_free_at(*body, depth + 1),
        Term::App(pair) => if max_free_at(pair.0, depth) >= max_free_at(pair.1, depth) {
            max_free_at(pair.0, depth)
        } else {
            max_free_at(pair.1, depth)
        },
    }
}

/// The largest index of a free variable of the term, 0 if it has none.
pub open spec fn largest_free_index(t: Term) -> nat {
    max_free_at(t, 0)
}

/// The number of abstractions at the head of the term.
pub open spec fn leading_binders(t: Term) -> nat
    decreases t,
{
    match t {
        Term::Abs(body) => 1 + leading_binders(*body),
        _ => 0,
    }
}

/// What is left of the term under the abstractions at its head.
pub open spec fn innermost_body(t: Term) -> Term
    decreases t,
{
    match t {
        Term::Abs(body) => innermost_body(*body),
        _ => t,
    }
}

/// `body` under `n` abstractions.
pub open spec fn nested_abs(n: nat, body: Term) -> Term
    decreases n,
{
    if n == 0 {
        body
    } else {
        Term::Abs(Box::new(nested_abs((n - 1) as nat, body)))
    }
}

/// The application of `lhs` to `rhs`.
pub open spec fn applied(lhs: Term, rhs: Term) -> Term {
    Term::App(Box::new((lhs, rhs)))
}

/// The identity function: one abstraction whose body is its own variable.
pub open spec fn identity_term() -> Term {
    Term::Abs(Box::new(Term::Var(1)))
}

/// `Term::clone`, which the crate derives: the clone is the same term.
pub assume_specification[ <Term as Clone>::clone ](t: &Term) -> (r: Term)
    ensures
        r == *t,
;

/// `lambda_calculus::app` boxes its two arguments into an application,
/// without reducing anything.
pub assume_specification[ lambda_calculus::term::app ](lhs: Term, rhs: Term) -> (r: Term)
    ensures
        r == applied(lhs, rhs),
;

/// `lambda_calculus::abs` boxes its argument into an abstraction.
pub assume_specification[ lambda_calculus::term::abs ](term: Term) -> (r: Term)
    ensures
        r == Term::Abs(Box::new(term)),
;

/// The error of the crate's parser. What it holds is not looked into.
#[verifier::external_type_specification]
#[verifier::external_body]
pub struct ExParseError(ParseError);

/// The term that a text in classic notation denotes, or `None` if the text is
/// no term.
pub uninterp spec fn classic_parse(text: Seq<char>) -> Option<Term>;

/// The text of a term in De Bruijn notation.
pub uninterp spec fn debruijn_text(t: Term) -> Seq<char>;

/// `lambda_calculus::parse` in classic notation: the term that the text
/// denotes, or the parser's error. The result depends on the text alone.
#[verifier::external_body]
pub(crate) fn parse_classic(text: &str) -> (r: Result<Term, ParseError>)
    ensures
        match r {
            Ok(t) => classic_parse(text@) == Some(t),
            Err(_) => classic_parse(text@) is None,
        },
{
    lambda_calculus::parse(text, lambda_calculus::Classic)
}

/// The `Debug` form of a term, which is its text in De Bruijn notation. The
/// result depends on the term alone.
#[verifier::external_body]
pub(crate) fn format_debruijn(t: &Term) -> (text: String)
    ensures
        text@ == debruijn_text(*t),
{
    format!("{:?}", t)
}

/// Isomorphism holds of a term and itself.
pub proof fn lemma_isomorphic_reflexive(a: Term)
    ensures
        isomorphic(a, a),
    decreases a,
{
    match a {
        Term::Var(_) => {},
        Term::Abs(p) => {
            lemma_isomorphic_reflexive(*p);
        },
        Term::App(p) => {
            lemma_isomorphic_reflexive(p.0);
            lemma_isomorphic_reflexive(p.1);
        },
    }
}

/// Isomorphism does not depend on the order of the two terms.
pub proof fn lemma_isomorphic_symmetric(a: Term, b: Term)
    ensures
        isomorphic(a, b) == isomorphic(b, a),
    decreases a,
{
    match (a, b) {
        (Term::Abs(p), Term::Abs(q)) => {
            lemma_isomorphic_symmetric(*p, *q);
        },
        (Term::App(p), Term::App(q)) => {
            lemma_isomorphic_symmetric(p.0, q.0);
            lemma_isomorphic_symmetric(p.1, q.1);
        },
        _ => {},
    }
}

/// Isomorphic terms are the same term.
pub proof fn lemma_isomorphic_is_equality(a: Term, b: Term)
    ensures
        isomorphic(a, b) == (a == b),
    decreases a,
{
    match (a, b) {
        (Term::Abs(p), Term::Abs(q)) => {
            lemma_isomorphic_is_equality(*p, *q);
        },
        (Term::App(p), Term::App(q)) => {
            lemma_isomorphic_is_equality(p.0, q.0);
            lemma_isomorphic_is_equality(p.1, q.1);
        },
        _ => {},
    }
}

/// Isomorphism carries over from `a` and `b`, and `b` and `c`, to `a` and `c`.
pub proof fn lemma_isomorphic_transitive(a: Term, b: Term, c: Term)
    requires
        isomorphic(a, b),
        isomorphic(b, c),
    ensures
        isomorphic(a, c),
{
    lemma_isomorphic_is_equality(a, b);
    lemma_isomorphic_is_equality(b, c);
    lemma_isomorphic_reflexive(a);
}

/// Whether two terms have the same shape and the same index at every
/// variable: whether they are the same up to the names of bound variables.
pub fn terms_isomorphic(a: &Term, b: &Term) -> (r: bool)
    ensures
        r == isomorphic(*a, *b),
    decreases *a,
{
    match a {
        Term::Var(x) => match b {
            Term::Var(y) => *x == *y,
            _ => false,
        },
        Term::Abs(p) => match b {
            Term::Abs(q) => terms_isomorphic(p, q),
            _ => false,
        },
        Term::App(p) => match b {
            Term::App(q) => terms_isomorphic(&p.0, &q.0) && terms_isomorphic(&p.1, &q.1),
            _ => false,
        },
    }
}

/// Under as many binders as a machine word can count, or more, no index
/// exceeds the count: which of these depths it is makes no difference.
pub proof fn lemma_free_at_great_depth(t: Term, d1: nat, d2: nat)
    requires
        d1 >= usize::MAX,
        d2 >= usize::MAX,
    ensures
        has_free_at(t, d1) == has_free_at(t, d2),
        max_free_at(t, d1) == 0,
        max_free_at(t, d2) == 0,
    decreases t,
{
    match t {
        Term::Var(_) => {},
        Term::Abs(body) => {
            lemma_free_at_great_depth(*body, d1 + 1, d2 + 1);
        },
        Term::App(pair) => {
            lemma_free_at_great_depth(pair.0, d1, d2);
            lemma_free_at_great_depth(pair.1, d1, d2);
        },
    }
}

/// Whether the term, seen from under `depth` binders, has a variable that
/// none of them and none inside the term binds, or the undefined index 0.
fn has_free_under(t: &Term, depth: usize) -> (b: bool)
    ensures
        b == has_free_at(*t, depth as nat),
    decreases *t,
{
    match t {
        Term::Var(x) => *x > depth || *x == 0,
        Term::Abs(body) => {
            proof {
                if depth == usize::MAX {
                    lemma_free_at_great_depth(**body, depth as nat, (depth + 1) as nat);
                }
            }
            has_free_under(body, depth.saturating_add(1))
        },
        Term::App(pair) => has_free_under(&pair.0, depth) || has_free_under(&pair.1, depth),
    }
}

/// Whether the term has a free variable: an index that is larger than the
/// number of binders around it, or the undefined index 0.
pub fn has_free_variables(t: &Term) -> (b: bool)
    ensures
        b == has_free_at(*t, 0),
{
    has_free_under(t, 0)
}

/// The largest amount by which an index in the term exceeds the number of
/// binders around it, `depth` binders outside the term included.
fn max_free_under(t: &Term, depth: usize) -> (n: usize)
    ensures
        n == max_free_at(*t, depth as nat),
    decreases *t,
{
    match t {
        Term::Var(x) => if *x > depth {
            *x - depth
        } else {
            0
        },
        Term::Abs(body) => {
            proof {
                if depth == usize::MAX {
                    lemma_free_at_great_depth(**body, depth as nat, (depth + 1) as nat);
                }
            }
            max_free_under(body, depth.saturating_add(1))
        },
        Term::App(pair) => {
            let lhs = max_free_under(&pair.0, depth);
            let rhs = max_free_under(&pair.1, depth);
            if lhs >= rhs {
                lhs
            } else {
                rhs
            }
        },
    }
}

/// The largest index of a free variable of the term, 0 if it has none.
pub fn max_free_index(t: &Term) -> (n: usize)
    ensures
        n == largest_free_index(*t),
{
    max_free_under(t, 0)
}

/// An application has one node more than its two parts together.
pub proof fn lemma_size_of_application(lhs: Term, rhs: Term)
    ensures
        term_size(applied(lhs, rhs)) == term_size(lhs) + term_size(rhs) + 1,
{
}

/// Under `n` abstractions more, a term has `n` leading binders more, and the
/// same innermost body.
pub proof fn lemma_nested_abs_shape(n: nat, body: Term)
    ensures
        leading_binders(nested_abs(n, body)) == n + leading_binders(body),
        innermost_body(nested_abs(n, body)) == innermost_body(body),
    decreases n,
{
    if n > 0 {
        lemma_nested_abs_shape((n - 1) as nat, body);
    }
}

/// Every term is its innermost body under its leading binders.
pub proof fn lemma_term_is_nested_abs(t: Term)
    ensures
        t == nested_abs(leading_binders(t), innermost_body(t)),
        !(innermost_body(t) is Abs),
    decreases t,
{
    match t {
        Term::Abs(body) => {
            lemma_term_is_nested_abs(*body);
        },
        _ => {},
    }
}

/// A term has two or more leading binders exactly if it is some body under
/// two or more abstractions, whatever the body is.
pub proof fn lemma_two_args_shape(t: Term)
    ensures
        leading_binders(t) >= 2 <==> exists|n: nat, body: Term|
            n >= 2 && t == #[trigger] nested_abs(n, body),
{
    if leading_binders(t) >= 2 {
        lemma_term_is_nested_abs(t);
        assert(t == nested_abs(leading_binders(t), innermost_body(t)));
    }
    if exists|n: nat, body: Term| n >= 2 && t == #[trigger] nested_abs(n, body) {
        let (n, body) = choose|n: nat, body: Term| n >= 2 && t == #[trigger] nested_abs(n, body);
        lemma_nested_abs_shape(n, body);
    }
}

/// A term has two or more leading binders over the innermost bound variable
/// exactly if it is that variable, index 1, under two or more abstractions.
pub proof fn lemma_truthy_shape(t: Term)
    ensures
        (leading_binders(t) >= 2 && innermost_body(t) == Term::Var(1)) <==> exists|n: nat|
            n >= 2 && t == #[trigger] nested_abs(n, Term::Var(1)),
{
    if leading_binders(t) >= 2 && innermost_body(t) == Term::Var(1) {
        lemma_term_is_nested_abs(t);
        assert(t == nested_abs(leading_binders(t), Term::Var(1)));
    }
    if exists|n: nat| n >= 2 && t == #[trigger] nested_abs(n, Term::Var(1)) {
        let n = choose|n: nat| n >= 2 && t == #[trigger] nested_abs(n, Term::Var(1));
        lemma_nested_abs_shape(n, Term::Var(1));
    }
}

/// Whether the term binds at least two arguments at its head, whatever its
/// body is.
pub fn has_two_args(expr: &Term) -> (b: bool)
    ensures
        b == (leading_binders(*expr) >= 2),
{
    proof {
        reveal_with_fuel(leading_binders, 3);
    }
    match expr {
        Term::Abs(body) => match **body {
            Term::Abs(_) => true,
            _ => false,
        },
        _ => false,
    }
}

/// Whether the term is a projection on its last argument: two or more
/// abstractions whose body is exactly the innermost bound variable. Any other
/// body, a free variable or another bound one included, gives `false`.
pub fn is_truthy(expr: &Term) -> (b: bool)
    ensures
        b == (leading_binders(*expr) >= 2 && innermost_body(*expr) == Term::Var(1)),
    decreases *expr,
{
    proof {
        reveal_with_fuel(leading_binders, 3);
        reveal_with_fuel(innermost_body, 3);
    }
    match expr {
        Term::Abs(body) => {
            match **body {
                Term::Abs(ref var) => {
                    match **var {
                        Term::Var(index) => {
                            if index == 1 {
                                return true;
                            }
                        },
                        _ => {},
                    }
                },
                _ => {},
            }
            is_truthy(body)
        },
        _ => false,
    }
}

/// The number of nodes of a term as far as a machine word can count them.
pub open spec fn counted_size(t: Term) -> nat {
    if term_size(t) <= usize::MAX {
        term_size(t)
    } else {
        usize::MAX as nat
    }
}

/// The number of nodes of the term, or `usize::MAX` if there are more.
pub fn size(t: &Term) -> (n: usize)
    ensures
        n == counted_size(*t),
    decreases *t,
{
    match t {
        Term::Var(_) => 1,
        Term::Abs(body) => size(body).saturating_add(1),
        Term::App(pair) => size(&pair.0).saturating_add(size(&pair.1)).saturating_add(1),
    }
}

} // verus!
