use carbon_lang_compiler::codegen::{action_command_builder, DataDeclarator, PackageMetadata};
use carbon_lang_compiler::action::{Action, ActionType};
use carbon_lang_compiler::decorator::decorate_token;
use carbon_lang_compiler::lexer::{tokenize, RawTokenKind};
use carbon_lang_compiler::parser::assignment_block;
use carbon_lang_compiler::token::{
    CalculationOperator, ContainerType, DecoratedToken, KeywordType, LiteralType, LogicalOperator, Operator,
    RelationOperator,
};

fn chars(s: &str) -> Vec<char> {
    s.chars().collect()
}

fn texts(source: &str, strip: bool) -> Vec<String> {
    tokenize(&chars(source), strip).iter().map(|t| t.text.iter().collect()).collect()
}

#[test]
fn lexer_splits_words_numbers_and_symbols() {
    assert_eq!(
        texts("foo = 2 + 3.5 * bar_1;", true),
        vec!["foo", "=", "2", "+", "3.5", "*", "bar_1", ";"]
    );
}

#[test]
fn lexer_keeps_whitespace_unless_stripped() {
    let tokens = tokenize(&chars("a  b"), false);
    assert_eq!(tokens.len(), 3);
    assert_eq!(tokens[1].kind, RawTokenKind::Whitespace);
    assert_eq!(tokens[1].position, 1);
    assert_eq!(tokens[2].position, 3);
    assert_eq!(tokenize(&chars("a  b"), true).len(), 2);
}

#[test]
fn lexer_two_character_operators() {
    assert_eq!(texts("a<=b==c!=d>=e&&f||g", true), vec!["a", "<=", "b", "==", "c", "!=", "d", ">=", "e", "&&", "f", "||", "g"]);
    assert_eq!(texts("a<b", true), vec!["a", "<", "b"]);
}

#[test]
fn lexer_string_with_escaped_quote() {
    let tokens = tokenize(&chars("x = \"a\\\"b\";"), true);
    assert_eq!(tokens[2].kind, RawTokenKind::Str);
    let text: String = tokens[2].text.iter().collect();
    assert_eq!(text, "\"a\\\"b\"");
    assert_eq!(tokens[3].kind, RawTokenKind::Semicolon);
}

#[test]
fn lexer_number_without_fraction_digits() {
    assert_eq!(texts("12.", true), vec!["12", "."]);
    assert_eq!(tokenize(&chars("12."), true)[1].kind, RawTokenKind::Symbol);
}

#[test]
fn lexer_never_fails_on_unknown_characters() {
    let tokens = tokenize(&chars("a # b"), true);
    assert_eq!(tokens.len(), 3);
    assert_eq!(tokens[1].kind, RawTokenKind::Symbol);
    assert!(tokenize(&chars(""), true).is_empty());
}

#[test]
fn decorator_classifies_tokens() {
    let tokens = decorate_token(tokenize(&chars("while (x >= 1.5 && true) { y = !z; } link"), true)).unwrap();
    assert!(matches!(tokens[0], DecoratedToken::Keyword(KeywordType::While)));
    assert!(matches!(tokens[1], DecoratedToken::Container(ContainerType::Bracket)));
    assert!(matches!(&tokens[2], DecoratedToken::Identifier(s) if s == "x"));
    assert!(matches!(tokens[3], DecoratedToken::Operator(Operator::Relation(RelationOperator::GreaterEqual))));
    assert!(matches!(&tokens[4], DecoratedToken::Literal(LiteralType::Float, s) if s == "1.5"));
    assert!(matches!(tokens[5], DecoratedToken::Operator(Operator::Logical(LogicalOperator::And))));
    assert!(matches!(&tokens[6], DecoratedToken::Literal(LiteralType::Bool, s) if s == "true"));
    assert!(matches!(tokens[7], DecoratedToken::Container(ContainerType::AntiBracket)));
    assert!(matches!(tokens[8], DecoratedToken::Container(ContainerType::Brace)));
    assert!(matches!(tokens[10], DecoratedToken::Operator(Operator::Assignment)));
    assert!(matches!(tokens[11], DecoratedToken::Operator(Operator::Logical(LogicalOperator::Not))));
    assert!(matches!(tokens[13], DecoratedToken::Container(ContainerType::Semicolon)));
    assert!(matches!(tokens[14], DecoratedToken::Container(ContainerType::AntiBrace)));
    assert!(matches!(tokens[15], DecoratedToken::Keyword(KeywordType::Link)));
    assert_eq!(tokens.len(), 16);
}

#[test]
fn decorator_drops_whitespace() {
    let tokens = decorate_token(tokenize(&chars("decl  var"), false)).unwrap();
    assert_eq!(tokens.len(), 2);
    assert!(matches!(tokens[1], DecoratedToken::Keyword(KeywordType::Var)));
}

#[test]
fn decorator_rejects_unknown_symbol() {
    let err = decorate_token(tokenize(&chars("a # b"), true)).unwrap_err();
    assert_eq!(err.issues.len(), 1);
}

#[test]
fn end_to_end_pure_expression() {
    let tokens = decorate_token(tokenize(&chars("foo = 2 + 3 * 4;"), true)).unwrap();
    let (assignment, end) = assignment_block(tokens).unwrap().unwrap();
    assert_eq!(end, 7);
    let order: Vec<String> = assignment
        .eval_expression
        .postfix_expr
        .iter()
        .map(|t| match t {
            DecoratedToken::Literal(_, s) => s.clone(),
            DecoratedToken::Operator(Operator::Calculation(CalculationOperator::Plus)) => "+".to_string(),
            DecoratedToken::Operator(Operator::Calculation(CalculationOperator::Times)) => "*".to_string(),
            _ => "?".to_string(),
        })
        .collect();
    assert_eq!(order, vec!["2", "3", "4", "*", "+"]);
    let action = Action {
        action_type: ActionType::AssignmentStatement,
        declaration_action: None,
        assignment_action: Some(assignment),
        call_action: None,
        return_action: None,
        if_action: None,
        while_action: None,
        loop_action: None,
        switch_action: None,
    };
    let metadata = PackageMetadata {
        variable_slot_alignment: 2,
        data_alignment: 8,
        command_alignment: 4,
        domain_layer_count_alignment: 2,
        address_alignment: 8,
        entry_point_offset: 5,
    };
    let data = vec![DataDeclarator { name: "foo".to_string(), slot: 3 }];
    let list = action_command_builder(&action, &data, &metadata).unwrap();
    assert!(list.descriptors.targets.is_empty());
    assert_eq!(list.commands.windows(2).filter(|w| w[0] == 0x05 && w[1] == 0x02).count(), 1);
    assert_eq!(&list.commands[list.commands.len() - 4..], &[0x05, 0x02, 0x00, 0x03]);
}
