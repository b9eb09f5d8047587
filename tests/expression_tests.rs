use carbon_lang_compiler::expression::{expression_infix_to_postfix, is_bracket, is_operator, priority_is_higher};
use carbon_lang_compiler::issue::{IssueLevel, IssuePosition};
use carbon_lang_compiler::parser::{assignment_block, find_next_semicolon, link_statement_builder};
use carbon_lang_compiler::token::{
    CalculationOperator, ContainerType, DecoratedToken, KeywordType, LiteralType, LogicalOperator, Operator,
    OperatorType, RelationOperator,
};

fn ident(name: &str) -> DecoratedToken {
    DecoratedToken::Identifier(name.to_string())
}

fn lit(value: &str) -> DecoratedToken {
    DecoratedToken::Literal(LiteralType::Int, value.to_string())
}

fn calc(c: CalculationOperator) -> DecoratedToken {
    DecoratedToken::Operator(Operator::Calculation(c))
}

fn rel(r: RelationOperator) -> DecoratedToken {
    DecoratedToken::Operator(Operator::Relation(r))
}

fn logic(l: LogicalOperator) -> DecoratedToken {
    DecoratedToken::Operator(Operator::Logical(l))
}

fn cont(c: ContainerType) -> DecoratedToken {
    DecoratedToken::Container(c)
}

fn render(tokens: &[DecoratedToken]) -> Vec<String> {
    tokens
        .iter()
        .map(|t| match t {
            DecoratedToken::Identifier(s) => s.clone(),
            DecoratedToken::Literal(_, s) => s.clone(),
            DecoratedToken::Operator(Operator::Calculation(CalculationOperator::Plus)) => "+".to_string(),
            DecoratedToken::Operator(Operator::Calculation(CalculationOperator::Minus)) => "-".to_string(),
            DecoratedToken::Operator(Operator::Calculation(CalculationOperator::Times)) => "*".to_string(),
            DecoratedToken::Operator(Operator::Calculation(CalculationOperator::Divide)) => "/".to_string(),
            DecoratedToken::Operator(Operator::Calculation(CalculationOperator::Mod)) => "%".to_string(),
            DecoratedToken::Operator(Operator::Relation(RelationOperator::Less)) => "<".to_string(),
            DecoratedToken::Operator(Operator::Relation(RelationOperator::Equal)) => "==".to_string(),
            DecoratedToken::Operator(Operator::Logical(LogicalOperator::And)) => "&&".to_string(),
            DecoratedToken::Operator(Operator::Logical(LogicalOperator::Or)) => "||".to_string(),
            other => format!("{:?}", other),
        })
        .collect()
}

#[test]
fn pure_expression_postfix_order() {
    let tokens = vec![lit("2"), calc(CalculationOperator::Plus), lit("3"), calc(CalculationOperator::Times), lit("4")];
    let out = expression_infix_to_postfix(tokens).unwrap();
    assert_eq!(render(&out), vec!["2", "3", "4", "*", "+"]);
}

#[test]
fn brackets_are_consumed() {
    let tokens = vec![
        cont(ContainerType::Bracket),
        lit("2"),
        calc(CalculationOperator::Plus),
        lit("3"),
        cont(ContainerType::AntiBracket),
        calc(CalculationOperator::Times),
        lit("4"),
    ];
    let out = expression_infix_to_postfix(tokens).unwrap();
    assert_eq!(render(&out), vec!["2", "3", "+", "4", "*"]);
}

#[test]
fn left_associative_subtraction() {
    let tokens = vec![lit("8"), calc(CalculationOperator::Minus), lit("3"), calc(CalculationOperator::Minus), lit("1")];
    let out = expression_infix_to_postfix(tokens).unwrap();
    assert_eq!(render(&out), vec!["8", "3", "-", "1", "-"]);
}

#[test]
fn classes_bind_calculation_relation_logical() {
    // a < b + 1 && c == d
    let tokens = vec![
        ident("a"),
        rel(RelationOperator::Less),
        ident("b"),
        calc(CalculationOperator::Plus),
        lit("1"),
        logic(LogicalOperator::And),
        ident("c"),
        rel(RelationOperator::Equal),
        ident("d"),
    ];
    let out = expression_infix_to_postfix(tokens).unwrap();
    assert_eq!(render(&out), vec!["a", "b", "1", "+", "<", "c", "d", "==", "&&"]);
}

#[test]
fn logical_operators_share_one_tier() {
    // a || b && c groups as (a || b) && c
    let tokens = vec![ident("a"), logic(LogicalOperator::Or), ident("b"), logic(LogicalOperator::And), ident("c")];
    let out = expression_infix_to_postfix(tokens).unwrap();
    assert_eq!(render(&out), vec!["a", "b", "||", "c", "&&"]);
}

#[test]
fn postfix_keeps_operand_and_operator_counts() {
    let tokens = vec![
        cont(ContainerType::Bracket),
        ident("a"),
        calc(CalculationOperator::Plus),
        ident("b"),
        cont(ContainerType::AntiBracket),
        calc(CalculationOperator::Mod),
        ident("c"),
        calc(CalculationOperator::Divide),
        lit("7"),
    ];
    let out = expression_infix_to_postfix(tokens).unwrap();
    let data = out.iter().filter(|t| t.is_data()).count();
    let ops = out.iter().filter(|t| is_operator(t)).count();
    let brackets = out.iter().filter(|t| is_bracket(t)).count();
    assert_eq!(data, 4);
    assert_eq!(ops, 3);
    assert_eq!(data, ops + 1);
    assert_eq!(brackets, 0);
    assert_eq!(out.len(), 7);
}

#[test]
fn single_operand_has_no_operator() {
    let out = expression_infix_to_postfix(vec![ident("x")]).unwrap();
    assert_eq!(render(&out), vec!["x"]);
}

#[test]
fn empty_expression_is_empty() {
    let out = expression_infix_to_postfix(vec![]).unwrap();
    assert!(out.is_empty());
}

#[test]
fn unmatched_closing_bracket_fails() {
    let tokens = vec![lit("2"), calc(CalculationOperator::Plus), lit("3"), cont(ContainerType::AntiBracket)];
    let err = expression_infix_to_postfix(tokens).unwrap_err();
    assert_eq!(err.issues.len(), 1);
    assert!(matches!(err.issues[0].level, IssueLevel::Error));
    assert!(matches!(err.issues[0].position, IssuePosition::CodeGeneration));
}

#[test]
fn unmatched_opening_bracket_fails() {
    let tokens = vec![cont(ContainerType::Bracket), lit("2"), calc(CalculationOperator::Plus), lit("3")];
    assert!(expression_infix_to_postfix(tokens).is_err());
}

#[test]
fn keyword_in_expression_fails() {
    let tokens = vec![lit("2"), DecoratedToken::Keyword(KeywordType::While)];
    assert!(expression_infix_to_postfix(tokens).is_err());
}

#[test]
fn assignment_operator_in_expression_fails() {
    let tokens = vec![ident("a"), DecoratedToken::Operator(Operator::Assignment), lit("1")];
    assert!(expression_infix_to_postfix(tokens).is_err());
}

#[test]
fn priority_comparisons() {
    let plus = calc(CalculationOperator::Plus);
    let times = calc(CalculationOperator::Times);
    let less = rel(RelationOperator::Less);
    let eq = rel(RelationOperator::Equal);
    let and = logic(LogicalOperator::And);
    assert!(priority_is_higher(&times, &plus));
    assert!(!priority_is_higher(&plus, &times));
    assert!(priority_is_higher(&plus, &plus));
    assert!(priority_is_higher(&plus, &less));
    assert!(!priority_is_higher(&less, &plus));
    assert!(priority_is_higher(&less, &eq));
    assert!(priority_is_higher(&eq, &less));
    assert!(priority_is_higher(&less, &and));
    assert!(!priority_is_higher(&and, &less));
}

#[test]
fn operator_and_bracket_classification() {
    assert!(is_operator(&calc(CalculationOperator::Mod)));
    assert!(!is_operator(&DecoratedToken::Operator(Operator::Assignment)));
    assert!(!is_operator(&ident("x")));
    assert!(is_bracket(&cont(ContainerType::Bracket)));
    assert!(is_bracket(&cont(ContainerType::AntiBracket)));
    assert!(!is_bracket(&cont(ContainerType::Brace)));
    assert_eq!(Operator::Relation(RelationOperator::Less).operator_type(), OperatorType::Relation);
}

#[test]
fn semicolon_search() {
    let tokens = vec![ident("a"), cont(ContainerType::Semicolon), ident("b"), cont(ContainerType::Semicolon)];
    assert_eq!(find_next_semicolon(&tokens), Some(1));
    assert_eq!(find_next_semicolon(&vec![ident("a")]), None);
}

#[test]
fn assignment_block_builds_postfix() {
    let tokens = vec![
        ident("foo"),
        DecoratedToken::Operator(Operator::Assignment),
        lit("2"),
        calc(CalculationOperator::Plus),
        lit("3"),
        calc(CalculationOperator::Times),
        lit("4"),
        cont(ContainerType::Semicolon),
        ident("rest"),
    ];
    let (action, end) = assignment_block(tokens).unwrap().unwrap();
    assert_eq!(end, 7);
    assert_eq!(action.identifier, "foo");
    assert_eq!(render(&action.eval_expression.postfix_expr), vec!["2", "3", "4", "*", "+"]);
}

#[test]
fn assignment_block_rejects_other_forms() {
    let call = vec![ident("foo"), cont(ContainerType::Bracket), cont(ContainerType::AntiBracket), cont(ContainerType::Semicolon)];
    assert!(assignment_block(call).unwrap().is_none());
    let no_semicolon = vec![ident("foo"), DecoratedToken::Operator(Operator::Assignment), lit("1")];
    assert!(assignment_block(no_semicolon).unwrap().is_none());
    let keyword_first = vec![
        DecoratedToken::Keyword(KeywordType::Return),
        DecoratedToken::Operator(Operator::Assignment),
        lit("1"),
        cont(ContainerType::Semicolon),
    ];
    assert!(assignment_block(keyword_first).unwrap().is_none());
}

#[test]
fn assignment_block_with_bad_expression_fails() {
    let tokens = vec![
        ident("foo"),
        DecoratedToken::Operator(Operator::Assignment),
        cont(ContainerType::Bracket),
        lit("1"),
        cont(ContainerType::Semicolon),
    ];
    assert!(assignment_block(tokens).is_err());
}

#[test]
fn link_statement_accepted() {
    let tokens = vec![DecoratedToken::Keyword(KeywordType::Link), ident("math"), cont(ContainerType::Semicolon)];
    let (name, end) = link_statement_builder(&tokens).unwrap();
    assert_eq!(name, "math");
    assert_eq!(end, 2);
}

#[test]
fn link_statement_rejected() {
    let tokens = vec![ident("math"), ident("x"), cont(ContainerType::Semicolon)];
    let err = link_statement_builder(&tokens).unwrap_err();
    assert_eq!(err.issues.len(), 1);
    assert!(matches!(err.issues[0].level, IssueLevel::Info));
    assert!(matches!(err.issues[0].position, IssuePosition::Parsing));
    assert_eq!(err.issues[0].code, "");
    assert_eq!(err.issues[0].detail, "");
    let short = vec![DecoratedToken::Keyword(KeywordType::Link), ident("math")];
    assert!(link_statement_builder(&short).is_err());
    let late = vec![DecoratedToken::Keyword(KeywordType::Link), ident("a"), ident("b"), cont(ContainerType::Semicolon)];
    assert!(link_statement_builder(&late).is_err());
}

#[test]
fn bracketed_infix_round_trip() {
    // ((a + b) * c) is the bracketed form of the postfix a b + c *
    let tokens = vec![
        cont(ContainerType::Bracket),
        cont(ContainerType::Bracket),
        ident("a"),
        calc(CalculationOperator::Plus),
        ident("b"),
        cont(ContainerType::AntiBracket),
        calc(CalculationOperator::Times),
        ident("c"),
        cont(ContainerType::AntiBracket),
    ];
    let out = expression_infix_to_postfix(tokens).unwrap();
    assert_eq!(render(&out), vec!["a", "b", "+", "c", "*"]);
}
