use vstd::prelude::*;

use crate::action::AssignmentAction;
use crate::expression::{expression_infix_to_postfix, postfix_of, Expression};
use crate::issue::{is_fatal_issue, GeneralIssue, IssueBase, IssueLevel, IssuePosition};
use crate::relocator::{lemma_least_index_is, lemma_least_index_none, least_index};
use crate::token::{ContainerType, DecoratedToken, OperatorType};

verus! {

/// Holds at `i` where `tokens[i]` is a semicolon.
pub open spec fn semicolon_at(tokens: Seq<DecoratedToken>) -> spec_fn(int) -> bool {
    |i: int| tokens[i].is_container(ContainerType::Semicolon)
}

/// Index of the first semicolon.
pub open spec fn semicolon_index(tokens: Seq<DecoratedToken>) -> Option<int> {
    least_index(tokens.len() as int, semicolon_at(tokens))
}

/// The index of the first semicolon, if there is one.
pub fn find_next_semicolon(tokens: &Vec<DecoratedToken>) -> (r: Option<usize>)
    ensures
        match r {
            Some(i) => semicolon_index(tokens@) == Some(i as int),
            None => semicolon_index(tokens@) is None,
        },
{
    let ghost q = semicolon_at(tokens@);
    let mut i: usize = 0;
    while i < tokens.len()
        invariant
            q == semicolon_at(tokens@),
            i <= tokens@.len(),
            forall|k: int| 0 <= k < i ==> !#[trigger] q(k),
        decreases tokens@.len() - i,
    {
        if tokens[i].is_container(ContainerType::Semicolon) {
            proof {
                lemma_least_index_is(tokens@.len() as int, q, i as int);
            }
            return Some(i);
        }
        i += 1;
    }
    proof {
        lemma_least_index_none(tokens@.len() as int, q);
    }
    None
}

/// The tokens start an assignment `<identifier> = ... ;`.
pub open spec fn is_assignment_form(tokens: Seq<DecoratedToken>) -> bool {
    &&& semicolon_index(tokens) is Some
    &&& tokens.len() >= 2
    &&& tokens[0] is Identifier
    &&& tokens[1].is_operator_of(OperatorType::Assignment)
}

/// Recognises `<identifier> = <expression> ;` at the start of `tokens`. Gives the
/// assignment and the index of its semicolon; `None` when the tokens have another form;
/// fails when the expression between `=` and the semicolon is malformed.
pub fn assignment_block(tokens: Vec<DecoratedToken>) -> (r: Result<
    Option<(AssignmentAction, usize)>,
    GeneralIssue<String>,
>)
    ensures
        !is_assignment_form(tokens@) ==> r == Ok::<Option<(AssignmentAction, usize)>, GeneralIssue<String>>(None),
        is_assignment_form(tokens@) ==> {
            let p = semicolon_index(tokens@)->Some_0;
            match r {
                Ok(Some((a, end))) => end == p && a.identifier@ == tokens@[0]->Identifier_0@ && postfix_of(
                    tokens@.subrange(2, p),
                ) == Some(a.eval_expression.postfix_expr@),
                Ok(None) => false,
                Err(e) => postfix_of(tokens@.subrange(2, p)) is None && is_fatal_issue(
                    e,
                    IssuePosition::CodeGeneration,
                ),
            }
        },
{
    let next_semicolon_pos = match find_next_semicolon(&tokens) {
        Some(p) => p,
        None => {
            return Ok(None);
        },
    };
    if tokens.len() < 2 || !tokens[1].is_operator_of(OperatorType::Assignment) {
        return Ok(None);
    }
    let identifier = match &tokens[0] {
        DecoratedToken::Identifier(name) => name.clone(),
        _ => {
            return Ok(None);
        },
    };
    proof {
        let q = semicolon_at(tokens@);
        assert(q(next_semicolon_pos as int));
        if next_semicolon_pos < 2 {
            assert(!q(0));
            assert(!q(1));
        }
    }
    let mut expr_tokens: Vec<DecoratedToken> = Vec::new();
    let mut i: usize = 2;
    while i < next_semicolon_pos
        invariant
            2 <= i <= next_semicolon_pos,
            next_semicolon_pos < tokens@.len(),
            expr_tokens@ == tokens@.subrange(2, i as int),
        decreases next_semicolon_pos - i,
    {
        expr_tokens.push(tokens[i].clone());
        proof {
            assert(tokens@.subrange(2, i + 1) =~= tokens@.subrange(2, i as int).push(tokens@[i as int]));
        }
        i += 1;
    }
    match expression_infix_to_postfix(expr_tokens) {
        Ok(postfix_expr) => Ok(
            Some((AssignmentAction { identifier, eval_expression: Expression { postfix_expr } }, next_semicolon_pos)),
        ),
        Err(e) => Err(e),
    }
}

/// The tokens form `<keyword> <identifier> ;`.
pub open spec fn is_link_form(tokens: Seq<DecoratedToken>) -> bool {
    &&& tokens.len() >= 3
    &&& semicolon_index(tokens) == Some(2int)
    &&& tokens[0] is Keyword
    &&& tokens[1] is Identifier
}

/// Recognises a link statement `<keyword> <identifier> ;`, giving the linked name and
/// the index of the semicolon; otherwise an informational parsing issue.
pub fn link_statement_builder(tokens: &Vec<DecoratedToken>) -> (r: Result<(String, usize), GeneralIssue<String>>)
    ensures
        is_link_form(tokens@) <==> r is Ok,
        r matches Ok((name, end)) ==> end == 2 && name@ == tokens@[1]->Identifier_0@,
        r matches Err(e) ==> e.issues@.len() == 1 && e.issues@[0].level == IssueLevel::Info
            && e.issues@[0].position == IssuePosition::Parsing && e.issues@[0].code@ == Seq::<char>::empty()
            && e.issues@[0].detail@ == Seq::<char>::empty(),
{
    if tokens.len() >= 3 {
        let next_semicolon_pos = find_next_semicolon(tokens);
        if next_semicolon_pos == Some(2usize) && tokens[0].is_keyword() {
            match &tokens[1] {
                DecoratedToken::Identifier(name) => {
                    return Ok((name.clone(), 2));
                },
                _ => {},
            }
        }
    }
    let issue = IssueBase {
        level: IssueLevel::Info,
        position: IssuePosition::Parsing,
        code: String::new(),
        detail: String::new(),
    };
    Err(GeneralIssue { issues: vec![issue] })
}

} // verus!
