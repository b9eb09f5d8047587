use carbon_lang_compiler::action::{
    Action, ActionBlock, ActionType, AssignmentAction, CallAction, ConditionBlock, DeclarationAction, IfAction,
    ReturnAction, SwitchAction,
};
use carbon_lang_compiler::codegen::{
    action_block_builder, action_command_builder, direct_jump_command_builder, if_command_builder, DataDeclarator,
    PackageMetadata,
};
use carbon_lang_compiler::expression::Expression;
use carbon_lang_compiler::package::build_package;
use carbon_lang_compiler::patch::{align_array_width, jump_command_address_placeholder_len};
use carbon_lang_compiler::relocation::{
    FunctionDescriptor, RelocatableCommandList, RelocationCredential, RelocationReference, RelocationReferenceType,
    RelocationTarget, RelocationTargetType, StringConstant,
};
use carbon_lang_compiler::token::{CalculationOperator, DecoratedToken, LiteralType, Operator, RelationOperator};

fn ident(name: &str) -> DecoratedToken {
    DecoratedToken::Identifier(name.to_string())
}

fn lit(value: &str) -> DecoratedToken {
    DecoratedToken::Literal(LiteralType::Int, value.to_string())
}

fn calc(c: CalculationOperator) -> DecoratedToken {
    DecoratedToken::Operator(Operator::Calculation(c))
}

fn rel(r: RelationOperator) -> DecoratedToken {
    DecoratedToken::Operator(Operator::Relation(r))
}

fn expr(tokens: Vec<DecoratedToken>) -> Expression {
    Expression { postfix_expr: tokens }
}

fn bare(action_type: ActionType) -> Action {
    Action {
        action_type,
        declaration_action: None,
        assignment_action: None,
        call_action: None,
        return_action: None,
        if_action: None,
        while_action: None,
        loop_action: None,
        switch_action: None,
    }
}

fn assign(name: &str, postfix: Vec<DecoratedToken>) -> Action {
    let mut a = bare(ActionType::AssignmentStatement);
    a.assignment_action = Some(AssignmentAction { identifier: name.to_string(), eval_expression: expr(postfix) });
    a
}

fn while_action(condition: Vec<DecoratedToken>, body: Vec<Action>) -> Action {
    let mut a = bare(ActionType::WhileStatement);
    a.while_action = Some(ConditionBlock { condition: expr(condition), body: ActionBlock { actions: body } });
    a
}

fn if_else(condition: Vec<DecoratedToken>, body: Vec<Action>, else_body: Option<Vec<Action>>) -> IfAction {
    IfAction {
        if_block: ConditionBlock { condition: expr(condition), body: ActionBlock { actions: body } },
        elif_collection: vec![],
        else_action: else_body.map(|actions| ActionBlock { actions }),
    }
}

fn if_statement(action: IfAction) -> Action {
    let mut a = bare(ActionType::IfStatement);
    a.if_action = Some(action);
    a
}

fn metadata() -> PackageMetadata {
    PackageMetadata {
        variable_slot_alignment: 2,
        data_alignment: 4,
        command_alignment: 2,
        domain_layer_count_alignment: 2,
        address_alignment: 4,
        entry_point_offset: 5,
    }
}

fn data() -> Vec<DataDeclarator> {
    vec![
        DataDeclarator { name: "foo".to_string(), slot: 0 },
        DataDeclarator { name: "bar".to_string(), slot: 1 },
    ]
}

fn refs_of(list: &RelocatableCommandList, pred: fn(&RelocationReferenceType) -> bool) -> Vec<usize> {
    list.descriptors.references.iter().filter(|r| pred(&r.ref_type)).map(|r| r.command_array_position).collect()
}

fn is_create(t: &RelocationReferenceType) -> bool {
    matches!(t, RelocationReferenceType::DomainCreate)
}

fn is_destroy(t: &RelocationReferenceType) -> bool {
    matches!(t, RelocationReferenceType::DomainDestroy)
}

fn target(kind: RelocationTargetType, pos: usize) -> RelocationTarget {
    RelocationTarget { relocation_type: kind, command_array_position: pos, offset: 2, relocated_address: 0 }
}

fn reference(kind: RelocationReferenceType, pos: usize) -> RelocationReference {
    RelocationReference { ref_type: kind, command_array_position: pos }
}

fn list_with(len: usize, targets: Vec<RelocationTarget>, references: Vec<RelocationReference>) -> RelocatableCommandList {
    let mut list = RelocatableCommandList::new_no_relocation(vec![0u8; len]);
    list.descriptors.targets = targets;
    list.descriptors.references = references;
    list
}

fn depth_never_negative_and_closed(list: &RelocatableCommandList) -> bool {
    let mut depth: i64 = 0;
    for r in &list.descriptors.references {
        match r.ref_type {
            RelocationReferenceType::DomainCreate => depth += 1,
            RelocationReferenceType::DomainDestroy => depth -= 1,
            _ => {}
        }
        if depth < 0 {
            return false;
        }
    }
    depth == 0
}

#[test]
fn pure_assignment_emits_no_relocation() {
    // foo = 2 + 3 * 4;
    let action = assign("foo", vec![lit("2"), lit("3"), lit("4"), calc(CalculationOperator::Times), calc(CalculationOperator::Plus)]);
    let list = action_command_builder(&action, &data(), &metadata()).unwrap();
    assert!(list.descriptors.targets.is_empty());
    assert!(list.descriptors.references.is_empty());
    let assigns = list.commands.windows(2).filter(|w| w[0] == 0x05 && w[1] == 0x02).count();
    assert_eq!(assigns, 1);
    // Three literal pushes (2 + 4 length bytes + 1 digit), two operators, one store (2 + 2 slot bytes).
    assert_eq!(list.commands.len(), 3 * 7 + 2 * 2 + 4);
}

#[test]
fn while_with_break() {
    // while (foo < 10) { foo = foo + 1; if (foo == 5) { break; } }
    let inner_if = if_else(
        vec![ident("foo"), lit("5"), rel(RelationOperator::Equal)],
        vec![bare(ActionType::BreakStatement)],
        None,
    );
    let w = while_action(
        vec![ident("foo"), lit("10"), rel(RelationOperator::Less)],
        vec![assign("foo", vec![ident("foo"), lit("1"), calc(CalculationOperator::Plus)]), if_statement(inner_if)],
    );
    let mut list = action_command_builder(&w, &data(), &metadata()).unwrap();
    assert!(depth_never_negative_and_closed(&list));
    let heads = refs_of(&list, |t| matches!(t, RelocationReferenceType::IterationHead));
    assert_eq!(heads, vec![0]);
    assert_eq!(refs_of(&list, is_create)[0], 0);
    let breaks: Vec<usize> = list
        .descriptors
        .targets
        .iter()
        .enumerate()
        .filter(|(_, t)| matches!(t.relocation_type, RelocationTargetType::BreakIteration))
        .map(|(i, _)| i)
        .collect();
    assert_eq!(breaks.len(), 1);
    let heads_targets = list
        .descriptors
        .targets
        .iter()
        .filter(|t| matches!(t.relocation_type, RelocationTargetType::DomainHead))
        .count();
    assert_eq!(heads_targets, 2);
    let while_end = *refs_of(&list, is_destroy).last().unwrap();
    assert_eq!(while_end, list.commands.len() - 2);
    list.calculate_ref_to_target().unwrap();
    let b = &list.descriptors.targets[breaks[0]];
    assert_eq!(b.relocated_address, while_end as i32 - b.command_array_position as i32);
    assert!(b.relocated_address > 0);
    let back = list
        .descriptors
        .targets
        .iter()
        .find(|t| matches!(t.relocation_type, RelocationTargetType::IterationHead))
        .unwrap();
    assert_eq!(back.relocated_address, -(back.command_array_position as i32));
}

#[test]
fn if_else_chain_layout() {
    // if (foo > 1202) { foo = foo + 1; } else { foo = foo + 2; }
    let action = if_else(
        vec![ident("foo"), lit("1202"), rel(RelationOperator::Greater)],
        vec![assign("foo", vec![ident("foo"), lit("1"), calc(CalculationOperator::Plus)])],
        Some(vec![assign("foo", vec![ident("foo"), lit("2"), calc(CalculationOperator::Plus)])]),
    );
    let mut list = if_command_builder(&action, &data(), &metadata()).unwrap();
    assert!(depth_never_negative_and_closed(&list));
    let if_end = refs_of(&list, is_destroy)[0] + 2;
    let break_domains: Vec<&RelocationTarget> = list
        .descriptors
        .targets
        .iter()
        .filter(|t| matches!(t.relocation_type, RelocationTargetType::BreakDomain(_)))
        .collect();
    assert_eq!(break_domains.len(), 1);
    assert!(matches!(break_domains[0].relocation_type, RelocationTargetType::BreakDomain(1)));
    assert_eq!(break_domains[0].command_array_position, if_end);
    let jump_len = 2 + jump_command_address_placeholder_len(4);
    let entrances = refs_of(&list, |t| matches!(t, RelocationReferenceType::ElseEntrance));
    let ends = refs_of(&list, |t| matches!(t, RelocationReferenceType::EndElse));
    assert_eq!(entrances, vec![if_end + jump_len]);
    assert_eq!(ends, vec![list.commands.len()]);
    list.calculate_ref_to_target().unwrap();
    let head = list
        .descriptors
        .targets
        .iter()
        .find(|t| matches!(t.relocation_type, RelocationTargetType::DomainHead))
        .unwrap();
    assert_eq!(head.command_array_position as i32 + head.relocated_address, (if_end - 2) as i32);
}

#[test]
fn if_without_alternatives_has_no_break_domain() {
    let action = if_else(vec![ident("foo")], vec![bare(ActionType::EmptyAction)], None);
    let list = if_command_builder(&action, &data(), &metadata()).unwrap();
    assert!(list.descriptors.targets.iter().all(|t| !matches!(t.relocation_type, RelocationTargetType::BreakDomain(_))));
    assert!(refs_of(&list, |t| matches!(t, RelocationReferenceType::ElseEntrance)).is_empty());
}

#[test]
fn elif_chain_counts_down() {
    let mut action = if_else(vec![ident("foo")], vec![], Some(vec![]));
    action.elif_collection.push(ConditionBlock { condition: expr(vec![ident("bar")]), body: ActionBlock { actions: vec![] } });
    action.elif_collection.push(ConditionBlock { condition: expr(vec![ident("bar")]), body: ActionBlock { actions: vec![] } });
    let list = if_command_builder(&action, &data(), &metadata()).unwrap();
    let counts: Vec<usize> = list
        .descriptors
        .targets
        .iter()
        .filter_map(|t| match t.relocation_type {
            RelocationTargetType::BreakDomain(n) => Some(n),
            _ => None,
        })
        .collect();
    assert_eq!(counts, vec![3, 2, 1]);
    assert!(depth_never_negative_and_closed(&list));
}

#[test]
fn nested_scope_domain_head() {
    // while (foo < bar) { if (foo > 0) { foo = foo - 1; } }
    let inner_if = if_else(
        vec![ident("foo"), lit("0"), rel(RelationOperator::Greater)],
        vec![assign("foo", vec![ident("foo"), lit("1"), calc(CalculationOperator::Minus)])],
        None,
    );
    let w = while_action(vec![ident("foo"), ident("bar"), rel(RelationOperator::Less)], vec![if_statement(inner_if)]);
    let mut list = action_command_builder(&w, &data(), &metadata()).unwrap();
    assert!(depth_never_negative_and_closed(&list));
    assert_eq!(refs_of(&list, is_create).len(), 2);
    assert_eq!(refs_of(&list, is_destroy).len(), 2);
    let destroys = refs_of(&list, is_destroy);
    list.calculate_ref_to_target().unwrap();
    let landing: Vec<i32> = list
        .descriptors
        .targets
        .iter()
        .filter(|t| matches!(t.relocation_type, RelocationTargetType::DomainHead))
        .map(|t| t.command_array_position as i32 + t.relocated_address)
        .collect();
    // The while's exit lands on the outer scope end, the if's on its own.
    assert_eq!(landing, vec![destroys[1] as i32, destroys[0] as i32]);
    assert!(destroys[0] < destroys[1]);
}

#[test]
fn function_call_patched_with_slot() {
    let mut call = bare(ActionType::CallStatement);
    call.call_action = Some(CallAction { function_name: "helper".to_string(), arguments: vec![expr(vec![lit("1")])] });
    let mut list = action_command_builder(&call, &data(), &metadata()).unwrap();
    list.function_table = vec![
        FunctionDescriptor { name: "main".to_string(), slot: 0 },
        FunctionDescriptor { name: "helper".to_string(), slot: 7 },
    ];
    list.calculate_ref_to_target().unwrap();
    list.apply_relocation(4).unwrap();
    let t = &list.descriptors.targets[0];
    assert!(matches!(t.relocation_type, RelocationTargetType::EnterFunction(_)));
    let at = t.command_array_position + t.offset;
    assert_eq!(&list.commands[at..at + 5], &[0x00, 0, 0, 0, 7]);
}

#[test]
fn call_to_unknown_function_fails() {
    let mut call = bare(ActionType::CallStatement);
    call.call_action = Some(CallAction { function_name: "nowhere".to_string(), arguments: vec![] });
    let mut list = action_command_builder(&call, &data(), &metadata()).unwrap();
    let before = list.commands.clone();
    assert!(list.apply_relocation(4).is_err());
    assert_eq!(list.commands, before);
}

#[test]
fn return_marks_function_end() {
    let mut ret = bare(ActionType::ReturnStatement);
    ret.return_action = Some(ReturnAction { value: expr(vec![ident("foo")]) });
    let list = action_command_builder(&ret, &data(), &metadata()).unwrap();
    let ends = refs_of(&list, |t| matches!(t, RelocationReferenceType::FunctionEnd));
    assert_eq!(ends, vec![list.commands.len() - 2]);
}

#[test]
fn switch_is_rejected() {
    let mut s = bare(ActionType::SwitchStatement);
    s.switch_action = Some(SwitchAction { condition: expr(vec![ident("foo")]), cases: vec![] });
    assert!(action_command_builder(&s, &data(), &metadata()).is_err());
}

#[test]
fn undeclared_variable_is_rejected() {
    let action = assign("nobody", vec![lit("1")]);
    assert!(action_command_builder(&action, &data(), &metadata()).is_err());
}

#[test]
fn block_as_domain_is_wrapped() {
    let block = ActionBlock { actions: vec![bare(ActionType::EmptyAction)] };
    let list = action_block_builder(&block, true, &data(), &metadata()).unwrap();
    assert_eq!(list.commands, vec![0x01, 0x01, 0x01, 0x02]);
    assert_eq!(refs_of(&list, is_create), vec![0]);
    assert_eq!(refs_of(&list, is_destroy), vec![2]);
    let open = action_block_builder(&block, false, &data(), &metadata()).unwrap();
    assert!(open.commands.is_empty());
}

#[test]
fn combine_shifts_positions() {
    let mut a = list_with(10, vec![target(RelocationTargetType::Relative(-3), 4)], vec![reference(RelocationReferenceType::DomainCreate, 1)]);
    a.command_entries = vec![0];
    let mut b = list_with(6, vec![target(RelocationTargetType::DomainHead, 2)], vec![reference(RelocationReferenceType::DomainDestroy, 5)]);
    b.command_entries = vec![0, 3];
    a.combine(b);
    assert_eq!(a.commands.len(), 16);
    assert_eq!(a.command_entries, vec![0, 10, 13]);
    assert_eq!(a.descriptors.targets[0].command_array_position, 4);
    assert!(matches!(a.descriptors.targets[0].relocation_type, RelocationTargetType::Relative(-3)));
    assert_eq!(a.descriptors.targets[1].command_array_position, 12);
    assert_eq!(a.descriptors.references[1].command_array_position, 15);
}

#[test]
fn combine_is_associative() {
    let make = |n: usize, p: usize| {
        list_with(n, vec![target(RelocationTargetType::Relative(1), p)], vec![reference(RelocationReferenceType::ElseEntrance, p)])
    };
    let mut left = make(3, 1);
    let mut bc = make(5, 2);
    bc.combine(make(7, 6));
    left.combine(bc);
    let mut right = make(3, 1);
    right.combine(make(5, 2));
    right.combine(make(7, 6));
    let pos = |l: &RelocatableCommandList| -> Vec<usize> {
        l.descriptors.targets.iter().map(|t| t.command_array_position).collect()
    };
    assert_eq!(left.commands, right.commands);
    assert_eq!(pos(&left), pos(&right));
    assert_eq!(pos(&left), vec![1, 5, 14]);
}

#[test]
fn append_commands_keeps_positions() {
    let mut list = RelocatableCommandList::new();
    list.append_commands(vec![1, 2, 3]);
    list.append_commands(vec![4]);
    assert_eq!(list.commands, vec![1, 2, 3, 4]);
    assert!(list.descriptors.targets.is_empty());
    let fresh = RelocationCredential::new();
    assert!(fresh.targets.is_empty() && fresh.references.is_empty());
    let r = RelocationReference::new(RelocationReferenceType::FunctionEnd);
    assert_eq!(r.command_array_position, 0);
}

#[test]
fn undefined_target_is_fatal() {
    let mut list = list_with(8, vec![target(RelocationTargetType::Undefined, 0)], vec![]);
    assert!(list.calculate_ref_to_target().is_err());
}

#[test]
fn iteration_head_without_loop_is_fatal() {
    let mut list = list_with(8, vec![target(RelocationTargetType::IterationHead, 4)], vec![]);
    assert!(list.calculate_ref_to_target().is_err());
}

#[test]
fn break_after_closed_loop_is_fatal() {
    let mut list = list_with(
        20,
        vec![target(RelocationTargetType::BreakIteration, 8)],
        vec![
            reference(RelocationReferenceType::IterationHead, 0),
            reference(RelocationReferenceType::IterationInterrupt, 5),
        ],
    );
    assert!(list.calculate_ref_to_target().is_err());
}

#[test]
fn loop_jumps_ignore_returns_inside_the_loop() {
    // Loop scope 0..20 with its head at 0, a return's function end at 5, a continue at 10
    // and a break at 14.
    let mut list = list_with(
        24,
        vec![target(RelocationTargetType::IterationHead, 10), target(RelocationTargetType::BreakIteration, 14)],
        vec![
            reference(RelocationReferenceType::DomainCreate, 0),
            reference(RelocationReferenceType::IterationHead, 0),
            reference(RelocationReferenceType::FunctionEnd, 5),
            reference(RelocationReferenceType::DomainDestroy, 20),
            reference(RelocationReferenceType::IterationInterrupt, 20),
        ],
    );
    list.calculate_ref_to_target().unwrap();
    assert_eq!(list.descriptors.targets[0].relocated_address, -10);
    assert_eq!(list.descriptors.targets[1].relocated_address, 6);
}

#[test]
fn continue_after_inner_loop_goes_to_outer_head() {
    // Outer loop 0..40 containing an inner loop 4..20, then a continue at 25 and a break at 30.
    let mut list = list_with(
        44,
        vec![target(RelocationTargetType::IterationHead, 25), target(RelocationTargetType::BreakIteration, 30)],
        vec![
            reference(RelocationReferenceType::IterationHead, 0),
            reference(RelocationReferenceType::IterationHead, 4),
            reference(RelocationReferenceType::IterationInterrupt, 20),
            reference(RelocationReferenceType::IterationInterrupt, 40),
        ],
    );
    list.calculate_ref_to_target().unwrap();
    assert_eq!(list.descriptors.targets[0].relocated_address, -25);
    assert_eq!(list.descriptors.targets[1].relocated_address, 10);
}

#[test]
fn return_inside_loop_then_continue_compiles() {
    // while (foo < 10) { if (foo == 5) { return 1; } continue; }
    let mut ret = bare(ActionType::ReturnStatement);
    ret.return_action = Some(ReturnAction { value: expr(vec![lit("1")]) });
    let inner_if = if_else(vec![ident("foo"), lit("5"), rel(RelationOperator::Equal)], vec![ret], None);
    let w = while_action(
        vec![ident("foo"), lit("10"), rel(RelationOperator::Less)],
        vec![if_statement(inner_if), bare(ActionType::ContinueStatement), bare(ActionType::BreakStatement)],
    );
    let mut list = action_command_builder(&w, &data(), &metadata()).unwrap();
    list.calculate_ref_to_target().unwrap();
    let end = *refs_of(&list, is_destroy).last().unwrap() as i32;
    for t in &list.descriptors.targets {
        let p = t.command_array_position as i32;
        match t.relocation_type {
            RelocationTargetType::IterationHead => assert_eq!(p + t.relocated_address, 0),
            RelocationTargetType::BreakIteration => assert_eq!(p + t.relocated_address, end),
            _ => {}
        }
    }
}

#[test]
fn ignore_domain_skips_complete_scopes() {
    let mut list = list_with(
        30,
        vec![target(RelocationTargetType::IgnoreDomain(2), 1)],
        vec![
            reference(RelocationReferenceType::DomainCreate, 4),
            reference(RelocationReferenceType::DomainCreate, 6),
            reference(RelocationReferenceType::DomainDestroy, 8),
            reference(RelocationReferenceType::DomainDestroy, 10),
            reference(RelocationReferenceType::DomainCreate, 12),
            reference(RelocationReferenceType::DomainDestroy, 20),
        ],
    );
    list.calculate_ref_to_target().unwrap();
    assert_eq!(list.descriptors.targets[0].relocated_address, 19);
    let mut none = list_with(30, vec![target(RelocationTargetType::IgnoreDomain(0), 1)], vec![]);
    assert!(none.calculate_ref_to_target().is_err());
}

#[test]
fn break_domain_uses_first_scope_end() {
    let mut list = list_with(
        30,
        vec![target(RelocationTargetType::BreakDomain(2), 20)],
        vec![reference(RelocationReferenceType::DomainDestroy, 5), reference(RelocationReferenceType::DomainDestroy, 25)],
    );
    list.calculate_ref_to_target().unwrap();
    assert_eq!(list.descriptors.targets[0].relocated_address, -15);
}

#[test]
fn relative_target_keeps_delta() {
    let mut list = list_with(10, vec![target(RelocationTargetType::Relative(-7), 8)], vec![]);
    list.calculate_ref_to_target().unwrap();
    assert_eq!(list.descriptors.targets[0].relocated_address, -7);
}

#[test]
fn patch_mode_bytes_and_length() {
    let mut list = list_with(
        20,
        vec![target(RelocationTargetType::Relative(-300), 0), target(RelocationTargetType::Relative(5), 8)],
        vec![],
    );
    list.calculate_ref_to_target().unwrap();
    list.apply_relocation(2).unwrap();
    assert_eq!(list.commands.len(), 20);
    assert_eq!(&list.commands[2..5], &[0x0B, 0x01, 0x2C]);
    assert_eq!(&list.commands[10..13], &[0x0F, 0x00, 0x05]);
    assert_eq!(list.commands[0], 0);
    assert_eq!(list.commands[5], 0);
    assert_eq!(list.commands[13], 0);
}

#[test]
fn apply_relocation_twice_is_same() {
    let mut list = list_with(
        24,
        vec![target(RelocationTargetType::Relative(9), 0), target(RelocationTargetType::Relative(-2), 10)],
        vec![],
    );
    list.calculate_ref_to_target().unwrap();
    list.apply_relocation(4).unwrap();
    let once = list.commands.clone();
    list.apply_relocation(4).unwrap();
    assert_eq!(list.commands, once);
}

#[test]
fn hole_outside_commands_is_rejected() {
    let mut list = list_with(4, vec![target(RelocationTargetType::Relative(1), 2)], vec![]);
    assert!(list.apply_relocation(4).is_err());
    assert_eq!(list.commands, vec![0, 0, 0, 0]);
}

#[test]
fn address_width_alignment() {
    assert_eq!(align_array_width(0x0102, 4), vec![0, 0, 1, 2]);
    assert_eq!(align_array_width(0x010203, 2), vec![2, 3]);
    assert!(align_array_width(9, 0).is_empty());
    assert_eq!(jump_command_address_placeholder_len(8), 9);
}

#[test]
fn string_pool_layout() {
    let mut list = RelocatableCommandList::new();
    list.string_pool = vec![StringConstant { value: "hi".to_string() }, StringConstant { value: "".to_string() }];
    assert_eq!(list.generate_string_pool(2), vec![0, 2, b'h', b'i', 0, 0]);
}

#[test]
fn package_header_bytes() {
    let m = PackageMetadata {
        variable_slot_alignment: 2,
        data_alignment: 8,
        command_alignment: 4,
        domain_layer_count_alignment: 2,
        address_alignment: 8,
        entry_point_offset: 5,
    };
    assert_eq!(m.serialize(), vec![2, 8, 4, 2, 8, 5]);
}

#[test]
fn direct_jump_layout() {
    let list = direct_jump_command_builder(RelocationTargetType::BreakIteration, &metadata());
    assert_eq!(list.commands, vec![0x02, 0x01, 0, 0, 0, 0, 0]);
    assert_eq!(list.descriptors.targets.len(), 1);
    assert_eq!(list.descriptors.targets[0].offset, 2);
}

#[test]
fn appending_keeps_first_pass_results() {
    let inner_if = if_else(
        vec![ident("foo"), lit("0"), rel(RelationOperator::Greater)],
        vec![bare(ActionType::ContinueStatement)],
        Some(vec![assign("foo", vec![ident("foo"), lit("1"), calc(CalculationOperator::Minus)])]),
    );
    let w = while_action(vec![ident("foo"), ident("bar"), rel(RelationOperator::Less)], vec![if_statement(inner_if)]);
    let mut alone = action_command_builder(&w, &data(), &metadata()).unwrap();
    alone.calculate_ref_to_target().unwrap();
    let mut joined = action_command_builder(&w, &data(), &metadata()).unwrap();
    let tail = action_command_builder(&w, &data(), &metadata()).unwrap();
    joined.combine(tail);
    joined.calculate_ref_to_target().unwrap();
    let n = alone.descriptors.targets.len();
    for k in 0..n {
        if matches!(alone.descriptors.targets[k].relocation_type, RelocationTargetType::BreakDomain(_)) {
            continue;
        }
        assert_eq!(joined.descriptors.targets[k].relocated_address, alone.descriptors.targets[k].relocated_address);
    }
    // The appended copy resolves to the same deltas, shifted with it.
    for k in 0..n {
        if matches!(alone.descriptors.targets[k].relocation_type, RelocationTargetType::BreakDomain(_)) {
            continue;
        }
        assert_eq!(joined.descriptors.targets[n + k].relocated_address, alone.descriptors.targets[k].relocated_address);
    }
}

fn declare(name: &str) -> Action {
    let mut a = bare(ActionType::DeclarationStatement);
    a.declaration_action =
        Some(DeclarationAction { is_variable: true, identifier: name.to_string(), data_type: "number".to_string() });
    a
}

#[test]
fn sample_program_package() {
    // decl var number foo; decl var number bar; foo = 0; bar = 2 + 4;
    // while (foo < bar) { foo = foo + 1; } foo = 4;
    // if (foo > 1202) { foo = foo + 1; } else { foo = foo + 2; }
    let actions = vec![
        declare("foo"),
        declare("bar"),
        assign("foo", vec![lit("0")]),
        assign("bar", vec![lit("2"), lit("4"), calc(CalculationOperator::Plus)]),
        while_action(
            vec![ident("foo"), ident("bar"), rel(RelationOperator::Less)],
            vec![assign("foo", vec![ident("foo"), lit("1"), calc(CalculationOperator::Plus)])],
        ),
        assign("foo", vec![lit("4")]),
        if_statement(if_else(
            vec![ident("foo"), lit("1202"), rel(RelationOperator::Greater)],
            vec![assign("foo", vec![ident("foo"), lit("1"), calc(CalculationOperator::Plus)])],
            Some(vec![assign("foo", vec![ident("foo"), lit("2"), calc(CalculationOperator::Plus)])]),
        )),
    ];
    let m = PackageMetadata {
        variable_slot_alignment: 2,
        data_alignment: 8,
        command_alignment: 4,
        domain_layer_count_alignment: 2,
        address_alignment: 8,
        entry_point_offset: 5,
    };
    let mut list = action_block_builder(&ActionBlock { actions }, false, &data(), &m).unwrap();
    assert!(depth_never_negative_and_closed(&list));
    let bytes = build_package(&m, &mut list).unwrap();
    assert_eq!(&bytes[..6], &m.serialize()[..]);
    assert_eq!((bytes.len() - 6) % 4, 0);
    assert_eq!(&bytes[6..6 + list.commands.len()], &list.commands[..]);
    assert!(bytes[6 + list.commands.len()..].iter().all(|b| *b == 0));
    for t in &list.descriptors.targets {
        let at = t.command_array_position + t.offset;
        let mode = list.commands[at];
        assert!(mode == 0x0B || mode == 0x0F);
        assert_eq!(mode == 0x0B, t.relocated_address < 0);
    }
}

#[test]
fn package_with_unknown_call_fails() {
    let mut call = bare(ActionType::CallStatement);
    call.call_action = Some(CallAction { function_name: "missing".to_string(), arguments: vec![] });
    let mut list = action_command_builder(&call, &data(), &metadata()).unwrap();
    assert!(build_package(&metadata(), &mut list).is_err());
}

#[test]
fn merged_scopes_stay_paired() {
    let a = list_with(
        10,
        vec![],
        vec![reference(RelocationReferenceType::DomainCreate, 0), reference(RelocationReferenceType::DomainDestroy, 8)],
    );
    let b = list_with(
        6,
        vec![],
        vec![
            reference(RelocationReferenceType::DomainCreate, 0),
            reference(RelocationReferenceType::DomainCreate, 1),
            reference(RelocationReferenceType::DomainDestroy, 2),
            reference(RelocationReferenceType::DomainDestroy, 4),
        ],
    );
    let mut merged = a;
    merged.combine(b);
    assert!(depth_never_negative_and_closed(&merged));
    assert_eq!(refs_of(&merged, is_create), vec![0, 10, 11]);
    assert_eq!(refs_of(&merged, is_destroy), vec![8, 12, 14]);
}

#[test]
fn prepending_keeps_first_pass_results() {
    let w = while_action(
        vec![ident("foo"), lit("10"), rel(RelationOperator::Less)],
        vec![bare(ActionType::BreakStatement), bare(ActionType::ContinueStatement)],
    );
    let mut alone = action_command_builder(&w, &data(), &metadata()).unwrap();
    alone.calculate_ref_to_target().unwrap();
    let mut joined = action_command_builder(&w, &data(), &metadata()).unwrap();
    let tail = action_command_builder(&w, &data(), &metadata()).unwrap();
    joined.combine(tail);
    joined.calculate_ref_to_target().unwrap();
    let n = alone.descriptors.targets.len();
    for k in 0..n {
        assert_eq!(joined.descriptors.targets[n + k].relocated_address, alone.descriptors.targets[k].relocated_address);
    }
}
