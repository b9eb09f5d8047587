use vstd::prelude::*;

use crate::issue::{fatal_issue, is_fatal_issue, GeneralIssue, IssuePosition};
use crate::lexer::{RawToken, RawTokenKind};
use crate::token::{
    CalculationOperator, ContainerType, DecoratedToken, KeywordType, LiteralType, LogicalOperator, Operator,
    RelationOperator,
};

verus! {

/// The keyword spelled by `t`, if any.
pub open spec fn keyword_of(t: Seq<char>) -> Option<KeywordType> {
    if t == seq!['d', 'e', 'c', 'l'] {
        Some(KeywordType::Decl)
    } else if t == seq!['v', 'a', 'r'] {
        Some(KeywordType::Var)
    } else if t == seq!['c', 'o', 'n', 's', 't'] {
        Some(KeywordType::Const)
    } else if t == seq!['i', 'f'] {
        Some(KeywordType::If)
    } else if t == seq!['e', 'l', 'i', 'f'] {
        Some(KeywordType::Elif)
    } else if t == seq!['e', 'l', 's', 'e'] {
        Some(KeywordType::Else)
    } else if t == seq!['w', 'h', 'i', 'l', 'e'] {
        Some(KeywordType::While)
    } else if t == seq!['l', 'o', 'o', 'p'] {
        Some(KeywordType::Loop)
    } else if t == seq!['b', 'r', 'e', 'a', 'k'] {
        Some(KeywordType::Break)
    } else if t == seq!['c', 'o', 'n', 't', 'i', 'n', 'u', 'e'] {
        Some(KeywordType::Continue)
    } else if t == seq!['r', 'e', 't', 'u', 'r', 'n'] {
        Some(KeywordType::Return)
    } else if t == seq!['s', 'w', 'i', 't', 'c', 'h'] {
        Some(KeywordType::Switch)
    } else if t == seq!['c', 'a', 's', 'e'] {
        Some(KeywordType::Case)
    } else if t == seq!['d', 'e', 'f', 'a', 'u', 'l', 't'] {
        Some(KeywordType::Default)
    } else if t == seq!['l', 'i', 'n', 'k'] {
        Some(KeywordType::Link)
    } else {
        None
    }
}

/// `true` or `false`.
pub open spec fn is_bool_text(t: Seq<char>) -> bool {
    t == seq!['t', 'r', 'u', 'e'] || t == seq!['f', 'a', 'l', 's', 'e']
}

/// The operator or container spelled by a symbol, if any.
pub open spec fn symbol_of(t: Seq<char>) -> Option<DecoratedToken> {
    if t == seq!['+'] {
        Some(DecoratedToken::Operator(Operator::Calculation(CalculationOperator::Plus)))
    } else if t == seq!['-'] {
        Some(DecoratedToken::Operator(Operator::Calculation(CalculationOperator::Minus)))
    } else if t == seq!['*'] {
        Some(DecoratedToken::Operator(Operator::Calculation(CalculationOperator::Times)))
    } else if t == seq!['/'] {
        Some(DecoratedToken::Operator(Operator::Calculation(CalculationOperator::Divide)))
    } else if t == seq!['%'] {
        Some(DecoratedToken::Operator(Operator::Calculation(CalculationOperator::Mod)))
    } else if t == seq!['<'] {
        Some(DecoratedToken::Operator(Operator::Relation(RelationOperator::Less)))
    } else if t == seq!['<', '='] {
        Some(DecoratedToken::Operator(Operator::Relation(RelationOperator::LessEqual)))
    } else if t == seq!['>'] {
        Some(DecoratedToken::Operator(Operator::Relation(RelationOperator::Greater)))
    } else if t == seq!['>', '='] {
        Some(DecoratedToken::Operator(Operator::Relation(RelationOperator::GreaterEqual)))
    } else if t == seq!['=', '='] {
        Some(DecoratedToken::Operator(Operator::Relation(RelationOperator::Equal)))
    } else if t == seq!['!', '='] {
        Some(DecoratedToken::Operator(Operator::Relation(RelationOperator::NotEqual)))
    } else if t == seq!['&', '&'] {
        Some(DecoratedToken::Operator(Operator::Logical(LogicalOperator::And)))
    } else if t == seq!['|', '|'] {
        Some(DecoratedToken::Operator(Operator::Logical(LogicalOperator::Or)))
    } else if t == seq!['!'] {
        Some(DecoratedToken::Operator(Operator::Logical(LogicalOperator::Not)))
    } else if t == seq!['='] {
        Some(DecoratedToken::Operator(Operator::Assignment))
    } else if t == seq!['('] {
        Some(DecoratedToken::Container(ContainerType::Bracket))
    } else if t == seq![')'] {
        Some(DecoratedToken::Container(ContainerType::AntiBracket))
    } else if t == seq!['{'] {
        Some(DecoratedToken::Container(ContainerType::Brace))
    } else if t == seq!['}'] {
        Some(DecoratedToken::Container(ContainerType::AntiBrace))
    } else if t == seq![','] {
        Some(DecoratedToken::Container(ContainerType::Comma))
    } else {
        None
    }
}

/// `tok` is the decoration of `raw`: a keyword when the word is reserved, a boolean
/// literal for `true` and `false`, an identifier for any other word; an integer or
/// decimal literal for a number; a string literal (quotes kept) for a string; the
/// operator or container that a symbol spells; a container for a semicolon.
pub open spec fn decorates(raw: RawToken, tok: DecoratedToken) -> bool {
    let t = raw.text@;
    match raw.kind {
        RawTokenKind::Word => match keyword_of(t) {
            Some(k) => tok == DecoratedToken::Keyword(k),
            None => if is_bool_text(t) {
                tok is Literal && tok->Literal_0 == LiteralType::Bool && tok->Literal_1@ == t
            } else {
                tok is Identifier && tok->Identifier_0@ == t
            },
        },
        RawTokenKind::Number => tok is Literal && tok->Literal_1@ == t && tok->Literal_0 == if t.contains('.') {
            LiteralType::Float
        } else {
            LiteralType::Int
        },
        RawTokenKind::Str => tok is Literal && tok->Literal_0 == LiteralType::Str && tok->Literal_1@ == t,
        RawTokenKind::Symbol => symbol_of(t) == Some(tok),
        RawTokenKind::Semicolon => tok == DecoratedToken::Container(ContainerType::Semicolon),
        RawTokenKind::Whitespace => false,
    }
}

/// `raw` has a decoration: anything but a whitespace run or an unknown symbol.
pub open spec fn decorable(raw: RawToken) -> bool {
    match raw.kind {
        RawTokenKind::Symbol => symbol_of(raw.text@) is Some,
        RawTokenKind::Whitespace => false,
        _ => true,
    }
}

/// `toks` decorates `raws` token by token, whitespace runs being dropped.
pub open spec fn decorated_as(raws: Seq<RawToken>, toks: Seq<DecoratedToken>) -> bool
    decreases raws.len(),
{
    if raws.len() == 0 {
        toks.len() == 0
    } else if raws.last().kind == RawTokenKind::Whitespace {
        decorated_as(raws.drop_last(), toks)
    } else {
        toks.len() > 0 && decorates(raws.last(), toks.last()) && decorated_as(raws.drop_last(), toks.drop_last())
    }
}

/// Relies on `String::from_iter` over characters: the string holds exactly those
/// characters, in order.
#[verifier::external_body]
fn chars_to_string(chars: &Vec<char>) -> (r: String)
    ensures
        r@ == chars@,
{
    String::from_iter(chars.iter())
}

fn text_is(text: &Vec<char>, word: &[char]) -> (r: bool)
    ensures
        r == (text@ == word@),
{
    if text.len() != word.len() {
        return false;
    }
    let mut i: usize = 0;
    while i < text.len()
        invariant
            i <= text@.len(),
            text@.len() == word@.len(),
            forall|k: int| 0 <= k < i ==> text@[k] == word@[k],
        decreases text@.len() - i,
    {
        if text[i] != word[i] {
            return false;
        }
        i += 1;
    }
    assert(text@ =~= word@);
    true
}

fn contains_dot(text: &Vec<char>) -> (r: bool)
    ensures
        r == text@.contains('.'),
{
    let mut i: usize = 0;
    while i < text.len()
        invariant
            i <= text@.len(),
            forall|k: int| 0 <= k < i ==> text@[k] != '.',
        decreases text@.len() - i,
    {
        if text[i] == '.' {
            return true;
        }
        i += 1;
    }
    false
}

fn keyword_lookup(text: &Vec<char>) -> (r: Option<KeywordType>)
    ensures
        r == keyword_of(text@),
{
    proof {
        assert(seq!['d', 'e', 'c', 'l'] =~= ['d', 'e', 'c', 'l']@);
        assert(seq!['v', 'a', 'r'] =~= ['v', 'a', 'r']@);
        assert(seq!['c', 'o', 'n', 's', 't'] =~= ['c', 'o', 'n', 's', 't']@);
        assert(seq!['i', 'f'] =~= ['i', 'f']@);
        assert(seq!['e', 'l', 'i', 'f'] =~= ['e', 'l', 'i', 'f']@);
        assert(seq!['e', 'l', 's', 'e'] =~= ['e', 'l', 's', 'e']@);
        assert(seq!['w', 'h', 'i', 'l', 'e'] =~= ['w', 'h', 'i', 'l', 'e']@);
        assert(seq!['l', 'o', 'o', 'p'] =~= ['l', 'o', 'o', 'p']@);
        assert(seq!['b', 'r', 'e', 'a', 'k'] =~= ['b', 'r', 'e', 'a', 'k']@);
        assert(seq!['c', 'o', 'n', 't', 'i', 'n', 'u', 'e'] =~= ['c', 'o', 'n', 't', 'i', 'n', 'u', 'e']@);
        assert(seq!['r', 'e', 't', 'u', 'r', 'n'] =~= ['r', 'e', 't', 'u', 'r', 'n']@);
        assert(seq!['s', 'w', 'i', 't', 'c', 'h'] =~= ['s', 'w', 'i', 't', 'c', 'h']@);
        assert(seq!['c', 'a', 's', 'e'] =~= ['c', 'a', 's', 'e']@);
        assert(seq!['d', 'e', 'f', 'a', 'u', 'l', 't'] =~= ['d', 'e', 'f', 'a', 'u', 'l', 't']@);
        assert(seq!['l', 'i', 'n', 'k'] =~= ['l', 'i', 'n', 'k']@);
    }
    if text_is(text, &['d', 'e', 'c', 'l']) {
        Some(KeywordType::Decl)
    } else if text_is(text, &['v', 'a', 'r']) {
        Some(KeywordType::Var)
    } else if text_is(text, &['c', 'o', 'n', 's', 't']) {
        Some(KeywordType::Const)
    } else if text_is(text, &['i', 'f']) {
        Some(KeywordType::If)
    } else if text_is(text, &['e', 'l', 'i', 'f']) {
        Some(KeywordType::Elif)
    } else if text_is(text, &['e', 'l', 's', 'e']) {
        Some(KeywordType::Else)
    } else if text_is(text, &['w', 'h', 'i', 'l', 'e']) {
        Some(KeywordType::While)
    } else if text_is(text, &['l', 'o', 'o', 'p']) {
        Some(KeywordType::Loop)
    } else if text_is(text, &['b', 'r', 'e', 'a', 'k']) {
        Some(KeywordType::Break)
    } else if text_is(text, &['c', 'o', 'n', 't', 'i', 'n', 'u', 'e']) {
        Some(KeywordType::Continue)
    } else if text_is(text, &['r', 'e', 't', 'u', 'r', 'n']) {
        Some(KeywordType::Return)
    } else if text_is(text, &['s', 'w', 'i', 't', 'c', 'h']) {
        Some(KeywordType::Switch)
    } else if text_is(text, &['c', 'a', 's', 'e']) {
        Some(KeywordType::Case)
    } else if text_is(text, &['d', 'e', 'f', 'a', 'u', 'l', 't']) {
        Some(KeywordType::Default)
    } else if text_is(text, &['l', 'i', 'n', 'k']) {
        Some(KeywordType::Link)
    } else {
        None
    }
}

fn symbol_lookup(text: &Vec<char>) -> (r: Option<DecoratedToken>)
    ensures
        r == symbol_of(text@),
{
    if text.len() == 1 {
        let c = text[0];
        proof {
            assert(text@ =~= seq![c]);
        }
        if c == '+' {
            Some(DecoratedToken::Operator(Operator::Calculation(CalculationOperator::Plus)))
        } else if c == '-' {
            Some(DecoratedToken::Operator(Operator::Calculation(CalculationOperator::Minus)))
        } else if c == '*' {
            Some(DecoratedToken::Operator(Operator::Calculation(CalculationOperator::Times)))
        } else if c == '/' {
            Some(DecoratedToken::Operator(Operator::Calculation(CalculationOperator::Divide)))
        } else if c == '%' {
            Some(DecoratedToken::Operator(Operator::Calculation(CalculationOperator::Mod)))
        } else if c == '<' {
            Some(DecoratedToken::Operator(Operator::Relation(RelationOperator::Less)))
        } else if c == '>' {
            Some(DecoratedToken::Operator(Operator::Relation(RelationOperator::Greater)))
        } else if c == '!' {
            Some(DecoratedToken::Operator(Operator::Logical(LogicalOperator::Not)))
        } else if c == '=' {
            Some(DecoratedToken::Operator(Operator::Assignment))
        } else if c == '(' {
            Some(DecoratedToken::Container(ContainerType::Bracket))
        } else if c == ')' {
            Some(DecoratedToken::Container(ContainerType::AntiBracket))
        } else if c == '{' {
            Some(DecoratedToken::Container(ContainerType::Brace))
        } else if c == '}' {
            Some(DecoratedToken::Container(ContainerType::AntiBrace))
        } else if c == ',' {
            Some(DecoratedToken::Container(ContainerType::Comma))
        } else {
            None
        }
    } else if text.len() == 2 {
        let a = text[0];
        let b = text[1];
        proof {
            assert(text@ =~= seq![a, b]);
        }
        if a == '<' && b == '=' {
            Some(DecoratedToken::Operator(Operator::Relation(RelationOperator::LessEqual)))
        } else if a == '>' && b == '=' {
            Some(DecoratedToken::Operator(Operator::Relation(RelationOperator::GreaterEqual)))
        } else if a == '=' && b == '=' {
            Some(DecoratedToken::Operator(Operator::Relation(RelationOperator::Equal)))
        } else if a == '!' && b == '=' {
            Some(DecoratedToken::Operator(Operator::Relation(RelationOperator::NotEqual)))
        } else if a == '&' && b == '&' {
            Some(DecoratedToken::Operator(Operator::Logical(LogicalOperator::And)))
        } else if a == '|' && b == '|' {
            Some(DecoratedToken::Operator(Operator::Logical(LogicalOperator::Or)))
        } else {
            None
        }
    } else {
        None
    }
}

fn decorate_one(raw: &RawToken) -> (r: Option<DecoratedToken>)
    requires
        raw.kind != RawTokenKind::Whitespace,
    ensures
        r is Some <==> decorable(*raw),
        r matches Some(t) ==> decorates(*raw, t),
{
    match raw.kind {
        RawTokenKind::Word => match keyword_lookup(&raw.text) {
            Some(k) => Some(DecoratedToken::Keyword(k)),
            None => {
                if text_is(&raw.text, &['t', 'r', 'u', 'e']) || text_is(&raw.text, &['f', 'a', 'l', 's', 'e']) {
                    proof {
                        assert(seq!['t', 'r', 'u', 'e'] =~= ['t', 'r', 'u', 'e']@);
                        assert(seq!['f', 'a', 'l', 's', 'e'] =~= ['f', 'a', 'l', 's', 'e']@);
                    }
                    Some(DecoratedToken::Literal(LiteralType::Bool, chars_to_string(&raw.text)))
                } else {
                    proof {
                        assert(seq!['t', 'r', 'u', 'e'] =~= ['t', 'r', 'u', 'e']@);
                        assert(seq!['f', 'a', 'l', 's', 'e'] =~= ['f', 'a', 'l', 's', 'e']@);
                    }
                    Some(DecoratedToken::Identifier(chars_to_string(&raw.text)))
                }
            },
        },
        RawTokenKind::Number => {
            let kind = if contains_dot(&raw.text) {
                LiteralType::Float
            } else {
                LiteralType::Int
            };
            Some(DecoratedToken::Literal(kind, chars_to_string(&raw.text)))
        },
        RawTokenKind::Str => Some(DecoratedToken::Literal(LiteralType::Str, chars_to_string(&raw.text))),
        RawTokenKind::Symbol => symbol_lookup(&raw.text),
        RawTokenKind::Semicolon => Some(DecoratedToken::Container(ContainerType::Semicolon)),
        RawTokenKind::Whitespace => None,
    }
}

/// Classifies raw tokens one by one, dropping whitespace runs: keywords, boolean
/// literals, identifiers, number and string literals, operators and containers. Fails
/// with an unexpected-token error on a symbol that spells none of them.
pub fn decorate_token(raws: Vec<RawToken>) -> (r: Result<Vec<DecoratedToken>, GeneralIssue<String>>)
    ensures
        r matches Ok(v) ==> decorated_as(raws@, v@),
        r is Err <==> exists|i: int|
            0 <= i < raws@.len() && (#[trigger] raws@[i]).kind != RawTokenKind::Whitespace && !decorable(raws@[i]),
        r matches Err(e) ==> is_fatal_issue(e, IssuePosition::Parsing),
{
    let mut result: Vec<DecoratedToken> = Vec::new();
    let mut i: usize = 0;
    while i < raws.len()
        invariant
            i <= raws@.len(),
            decorated_as(raws@.take(i as int), result@),
            forall|k: int|
                0 <= k < i ==> (#[trigger] raws@[k]).kind != RawTokenKind::Whitespace ==> decorable(raws@[k]),
        decreases raws@.len() - i,
    {
        proof {
            assert(raws@.take(i + 1).drop_last() =~= raws@.take(i as int));
        }
        if raws[i].kind != RawTokenKind::Whitespace {
            match decorate_one(&raws[i]) {
                Some(t) => {
                    let ghost before = result@;
                    result.push(t);
                    proof {
                        assert(result@.drop_last() =~= before);
                    }
                },
                None => {
                    return Err(fatal_issue(IssuePosition::Parsing, "unexpected_token", "unexpected token"));
                },
            }
        }
        i += 1;
    }
    proof {
        assert(raws@.take(i as int) =~= raws@);
    }
    Ok(result)
}

} // verus!
