//! Reading terms from text in classic notation.

use crate::lambda::term::{classic_parse, isomorphic, lemma_isomorphic_reflexive, parse_classic};
use lambda_calculus::Term;
use vstd::prelude::*;

verus! {

/// The position of the first of some texts that is not a term.
#[derive(Debug, Clone, Copy, PartialEq, Eq, Structural)]
pub struct ParseFailure {
    pub index: usize,
}

/// Every one of the texts is a term in classic notation.
pub open spec fn all_parse(texts: Seq<String>) -> bool {
    forall|i: int| 0 <= i < texts.len() ==> classic_parse(#[trigger] texts[i]@) is Some
}

/// The terms that the texts denote.
pub open spec fn parsed(texts: Seq<String>) -> Seq<Term> {
    Seq::new(texts.len(), |i: int| classic_parse(texts[i]@).unwrap())
}

/// The position of the first of the texts, from `from` on, that is not a
/// term; the number of texts if there is none.
pub open spec fn first_unparsable(texts: Seq<String>, from: int) -> int
    decreases texts.len() - from,
{
    if from < 0 || from >= texts.len() {
        texts.len() as int
    } else if classic_parse(texts[from]@) is None {
        from
    } else {
        first_unparsable(texts, from + 1)
    }
}

/// Parses each of the texts as a term in classic notation. The first text
/// that is not a term ends the work, and its position is returned.
pub fn parse_expressions(texts: &Vec<String>) -> (r: Result<Vec<Term>, ParseFailure>)
    ensures
        match r {
            Ok(terms) => all_parse(texts@) && terms@ == parsed(texts@),
            Err(failure) => {
                &&& failure.index < texts@.len()
                &&& failure.index == first_unparsable(texts@, 0)
                &&& classic_parse(texts@[failure.index as int]@) is None
            },
        },
{
    let mut terms: Vec<Term> = Vec::new();
    let mut k: usize = 0;
    while k < texts.len()
        invariant
            k <= texts.len(),
            terms@.len() == k,
            forall|i: int| 0 <= i < k ==> classic_parse(#[trigger] texts@[i]@) == Some(terms@[i]),
            first_unparsable(texts@, 0) == first_unparsable(texts@, k as int),
        decreases texts.len() - k,
    {
        match parse_classic(texts[k].as_str()) {
            Ok(term) => {
                terms.push(term);
            },
            Err(_) => {
                return Err(ParseFailure { index: k });
            },
        }
        k += 1;
    }
    assert(terms@ =~= parsed(texts@));
    Ok(terms)
}

/// Two terms read from the same text are isomorphic.
pub proof fn lemma_same_text_same_term(text: Seq<char>, a: Term, b: Term)
    requires
        classic_parse(text) == Some(a),
        classic_parse(text) == Some(b),
    ensures
        isomorphic(a, b),
{
    lemma_isomorphic_reflexive(a);
}

} // verus!
