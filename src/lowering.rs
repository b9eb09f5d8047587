use vstd::prelude::*;

use crate::action::{Action, ActionBlock, ActionType, ConditionBlock, IfAction};
use crate::codegen::{
    DataDeclarator, PackageMetadata, DOMAIN_CREATE, DOMAIN_DESTROY, FUNCTION_CALL, FUNCTION_RETURN, JUMP_DIRECT,
    JUMP_IF_FALSE, PUSH_LITERAL, PUSH_VARIABLE, ROOT_DOMAIN, ROOT_FUNCTION, ROOT_JUMP, ROOT_OPERATOR, ROOT_STACK,
    ROOT_VARIABLE, VARIABLE_ASSIGN, VARIABLE_DECLARE,
};
use crate::expression::Expression;
use crate::patch::be_bytes;
use crate::relocation::{
    combined, CommandListModel, RelocationReference, RelocationReferenceType, RelocationTarget, RelocationTargetType,
};
use crate::relocator::least_index;
use crate::token::{CalculationOperator, DecoratedToken, LogicalOperator, Operator, RelationOperator};

verus! {

/// A list with nothing in it.
pub open spec fn empty_model() -> CommandListModel {
    CommandListModel {
        commands: Seq::empty(),
        command_entries: Seq::empty(),
        targets: Seq::empty(),
        references: Seq::empty(),
    }
}

/// Bytes with nothing to relocate.
pub open spec fn plain_model(bytes: Seq<u8>) -> CommandListModel {
    CommandListModel {
        commands: bytes,
        command_entries: Seq::empty(),
        targets: Seq::empty(),
        references: Seq::empty(),
    }
}

/// `m` with one more reference.
pub open spec fn with_reference(m: CommandListModel, r: RelocationReference) -> CommandListModel {
    CommandListModel {
        commands: m.commands,
        command_entries: m.command_entries,
        targets: m.targets,
        references: m.references.push(r),
    }
}

/// A command `(root, sub)`, a zeroed address placeholder, and one target on it.
pub open spec fn jump_model(root: u8, sub: u8, target: RelocationTargetType, md: PackageMetadata) -> CommandListModel {
    CommandListModel {
        commands: seq![root, sub] + Seq::new(md.address_alignment as nat + 1, |i: int| 0u8),
        command_entries: Seq::empty(),
        targets: seq![
            RelocationTarget { relocation_type: target, command_array_position: 0, offset: 2, relocated_address: 0 },
        ],
        references: Seq::empty(),
    }
}

/// `inner` inside a scope; a loop scope also marks its head and its end.
pub open spec fn scope_model(inner: CommandListModel, iteration: bool) -> CommandListModel {
    let l = combined(plain_model(seq![ROOT_DOMAIN, DOMAIN_CREATE]), inner);
    let end = l.commands.len() as usize;
    let open = RelocationReference { ref_type: RelocationReferenceType::DomainCreate, command_array_position: 0 };
    let close = RelocationReference { ref_type: RelocationReferenceType::DomainDestroy, command_array_position: end };
    let head = if iteration {
        seq![open, RelocationReference { ref_type: RelocationReferenceType::IterationHead, command_array_position: 0 }]
    } else {
        seq![open]
    };
    let tail = if iteration {
        seq![
            close,
            RelocationReference { ref_type: RelocationReferenceType::IterationInterrupt, command_array_position: end },
        ]
    } else {
        seq![close]
    };
    CommandListModel {
        commands: l.commands + seq![ROOT_DOMAIN, DOMAIN_DESTROY],
        command_entries: l.command_entries,
        targets: l.targets,
        references: head + l.references + tail,
    }
}

/// Holds at `i` where `data[i]` declares `name`.
pub open spec fn declares(data: Seq<DataDeclarator>, name: Seq<char>) -> spec_fn(int) -> bool {
    |i: int| data[i].name@ == name
}

/// The slot of the first declaration of `name`.
pub open spec fn slot_of(data: Seq<DataDeclarator>, name: Seq<char>) -> u64 {
    data[least_index(data.len() as int, declares(data, name))->Some_0].slot
}

/// The byte that names an operator in the command stream.
pub open spec fn operator_byte(op: Operator) -> u8 {
    match op {
        Operator::Calculation(CalculationOperator::Plus) => 0x01,
        Operator::Calculation(CalculationOperator::Minus) => 0x02,
        Operator::Calculation(CalculationOperator::Times) => 0x03,
        Operator::Calculation(CalculationOperator::Divide) => 0x04,
        Operator::Calculation(CalculationOperator::Mod) => 0x05,
        Operator::Relation(RelationOperator::Less) => 0x11,
        Operator::Relation(RelationOperator::LessEqual) => 0x12,
        Operator::Relation(RelationOperator::Greater) => 0x13,
        Operator::Relation(RelationOperator::GreaterEqual) => 0x14,
        Operator::Relation(RelationOperator::Equal) => 0x15,
        Operator::Relation(RelationOperator::NotEqual) => 0x16,
        Operator::Logical(LogicalOperator::And) => 0x21,
        Operator::Logical(LogicalOperator::Or) => 0x22,
        Operator::Logical(LogicalOperator::Not) => 0x23,
        Operator::Assignment => 0x00,
    }
}

/// The command of one postfix token: a variable push by slot, a literal push with its
/// UTF-8 length and bytes, or an operator.
pub open spec fn token_bytes(t: DecoratedToken, data: Seq<DataDeclarator>, md: PackageMetadata) -> Seq<u8> {
    match t {
        DecoratedToken::Identifier(n) => seq![ROOT_STACK, PUSH_VARIABLE] + be_bytes(
            slot_of(data, n@) as nat,
            md.variable_slot_alignment as nat,
        ),
        DecoratedToken::Literal(_, v) => {
            let raw = vstd::utf8::encode_utf8(v@);
            seq![ROOT_STACK, PUSH_LITERAL] + be_bytes(raw.len() as nat, md.data_alignment as nat) + raw
        },
        DecoratedToken::Operator(op) => seq![ROOT_OPERATOR, operator_byte(op)],
        _ => Seq::empty(),
    }
}

/// The commands of a postfix sequence, token by token.
pub open spec fn expression_bytes(tokens: Seq<DecoratedToken>, data: Seq<DataDeclarator>, md: PackageMetadata) -> Seq<
    u8,
>
    decreases tokens.len(),
{
    if tokens.len() == 0 {
        Seq::empty()
    } else {
        expression_bytes(tokens.drop_last(), data, md) + token_bytes(tokens.last(), data, md)
    }
}

/// The commands of an expression.
pub open spec fn expression_model(e: Expression, data: Seq<DataDeclarator>, md: PackageMetadata) -> CommandListModel {
    plain_model(expression_bytes(e.postfix_expr@, data, md))
}

/// A variable command on the slot of `name`.
pub open spec fn variable_model(sub: u8, name: Seq<char>, data: Seq<DataDeclarator>, md: PackageMetadata) -> CommandListModel {
    plain_model(seq![ROOT_VARIABLE, sub] + be_bytes(slot_of(data, name) as nat, md.variable_slot_alignment as nat))
}

/// The first `k` arguments of a call, one after the other.
pub open spec fn arguments_model(args: Seq<Expression>, data: Seq<DataDeclarator>, md: PackageMetadata, k: int) -> CommandListModel
    decreases k,
{
    if k <= 0 || k > args.len() {
        empty_model()
    } else {
        combined(arguments_model(args, data, md, k - 1), expression_model(args[k - 1], data, md))
    }
}

/// The end of a function: the return command and its reference.
pub open spec fn return_end_model() -> CommandListModel {
    with_reference(
        plain_model(seq![ROOT_FUNCTION, FUNCTION_RETURN]),
        RelocationReference { ref_type: RelocationReferenceType::FunctionEnd, command_array_position: 0 },
    )
}

/// What the code generator emits for a statement.
pub open spec fn action_model(a: Action, data: Seq<DataDeclarator>, md: PackageMetadata) -> CommandListModel
    decreases a, 0nat,
{
    match a.action_type {
        ActionType::DeclarationStatement => match a.declaration_action {
            Some(d) => variable_model(VARIABLE_DECLARE, d.identifier@, data, md),
            None => empty_model(),
        },
        ActionType::AssignmentStatement => match a.assignment_action {
            Some(x) => combined(
                expression_model(x.eval_expression, data, md),
                variable_model(VARIABLE_ASSIGN, x.identifier@, data, md),
            ),
            None => empty_model(),
        },
        ActionType::CallStatement => match a.call_action {
            Some(c) => combined(
                arguments_model(c.arguments@, data, md, c.arguments@.len() as int),
                jump_model(ROOT_FUNCTION, FUNCTION_CALL, RelocationTargetType::EnterFunction(c.function_name), md),
            ),
            None => empty_model(),
        },
        ActionType::ReturnStatement => match a.return_action {
            Some(v) => combined(expression_model(v.value, data, md), return_end_model()),
            None => empty_model(),
        },
        ActionType::IfStatement => match a.if_action {
            Some(i) => if_model(i, data, md),
            None => empty_model(),
        },
        ActionType::WhileStatement => match a.while_action {
            Some(w) => iteration_model(Some(w.condition), w.body, data, md),
            None => empty_model(),
        },
        ActionType::LoopStatement => match a.loop_action {
            Some(b) => iteration_model(None, b, data, md),
            None => empty_model(),
        },
        ActionType::BreakStatement => jump_model(ROOT_JUMP, JUMP_DIRECT, RelocationTargetType::BreakIteration, md),
        ActionType::ContinueStatement => jump_model(ROOT_JUMP, JUMP_DIRECT, RelocationTargetType::IterationHead, md),
        _ => empty_model(),
    }
}

/// The first `k` statements of a block, one after the other.
pub open spec fn block_prefix_model(b: ActionBlock, data: Seq<DataDeclarator>, md: PackageMetadata, k: nat) -> CommandListModel
    decreases b, k,
{
    if k == 0 || k > b.actions@.len() {
        empty_model()
    } else {
        combined(
            block_prefix_model(b, data, md, (k - 1) as nat),
            action_model(b.actions@[k - 1], data, md),
        )
    }
}

/// All statements of a block, one after the other.
pub open spec fn block_model(b: ActionBlock, data: Seq<DataDeclarator>, md: PackageMetadata) -> CommandListModel
    decreases b, b.actions@.len() + 1,
{
    block_prefix_model(b, data, md, b.actions@.len())
}

/// A guarded block: condition, exit jump, body, all inside one scope.
pub open spec fn condition_model(c: ConditionBlock, data: Seq<DataDeclarator>, md: PackageMetadata) -> CommandListModel
    decreases c, 0nat,
{
    scope_model(
        combined(
            combined(
                expression_model(c.condition, data, md),
                jump_model(ROOT_JUMP, JUMP_IF_FALSE, RelocationTargetType::DomainHead, md),
            ),
            block_model(c.body, data, md),
        ),
        false,
    )
}

/// A loop: optional condition with its exit jump, body, jump back, inside a loop scope.
pub open spec fn iteration_model(
    condition: Option<Expression>,
    body: ActionBlock,
    data: Seq<DataDeclarator>,
    md: PackageMetadata,
) -> CommandListModel
    decreases body, body.actions@.len() + 2,
{
    let pre = match condition {
        Some(c) => combined(
            combined(empty_model(), expression_model(c, data, md)),
            jump_model(ROOT_JUMP, JUMP_IF_FALSE, RelocationTargetType::DomainHead, md),
        ),
        None => empty_model(),
    };
    scope_model(
        combined(
            combined(pre, block_model(body, data, md)),
            jump_model(ROOT_JUMP, JUMP_DIRECT, RelocationTargetType::IterationHead, md),
        ),
        true,
    )
}

/// Number of alternatives after the `if` block.
pub open spec fn alternatives(i: IfAction) -> nat {
    i.elif_collection@.len() + if i.else_action is Some {
        1nat
    } else {
        0nat
    }
}

/// The `if` block, the jump out of the chain when alternatives follow, and the first
/// `m` elif blocks each with its jump out of the rest of the chain.
pub open spec fn elif_prefix_model(i: IfAction, data: Seq<DataDeclarator>, md: PackageMetadata, m: nat) -> CommandListModel
    decreases i, m,
{
    if m == 0 || m > i.elif_collection@.len() {
        let first = combined(empty_model(), condition_model(i.if_block, data, md));
        if alternatives(i) > 0 {
            combined(
                first,
                jump_model(ROOT_JUMP, JUMP_DIRECT, RelocationTargetType::BreakDomain(alternatives(i) as usize), md),
            )
        } else {
            first
        }
    } else {
        combined(
            combined(
                elif_prefix_model(i, data, md, (m - 1) as nat),
                condition_model(i.elif_collection@[m - 1], data, md),
            ),
            jump_model(
                ROOT_JUMP,
                JUMP_DIRECT,
                RelocationTargetType::BreakDomain((alternatives(i) - m) as usize),
                md,
            ),
        )
    }
}

/// What the code generator emits for an if/elif/else chain.
pub open spec fn if_model(i: IfAction, data: Seq<DataDeclarator>, md: PackageMetadata) -> CommandListModel
    decreases i, i.elif_collection@.len() + 1,
{
    let chain = elif_prefix_model(i, data, md, i.elif_collection@.len());
    match i.else_action {
        Some(b) => {
            let entered = with_reference(
                chain,
                RelocationReference {
                    ref_type: RelocationReferenceType::ElseEntrance,
                    command_array_position: chain.commands.len() as usize,
                },
            );
            let body = combined(entered, scope_model(block_model(b, data, md), false));
            with_reference(
                body,
                RelocationReference {
                    ref_type: RelocationReferenceType::EndElse,
                    command_array_position: body.commands.len() as usize,
                },
            )
        },
        None => chain,
    }
}

/// The emitted commands fit in the address space.
pub open spec fn fits(m: CommandListModel) -> bool {
    m.commands.len() <= usize::MAX
}

/// A block's first `k` statements emit no more than its first `n`, for `k <= n`.
pub proof fn lemma_block_prefix_grows(b: ActionBlock, data: Seq<DataDeclarator>, md: PackageMetadata, k: nat, n: nat)
    requires
        k <= n <= b.actions@.len(),
    ensures
        block_prefix_model(b, data, md, k).commands.len() <= block_prefix_model(b, data, md, n).commands.len(),
    decreases n - k,
{
    if k < n {
        lemma_block_prefix_grows(b, data, md, k, (n - 1) as nat);
    }
}

/// A call's first `k` arguments emit no more than its first `n`, for `k <= n`.
pub proof fn lemma_arguments_grow(args: Seq<Expression>, data: Seq<DataDeclarator>, md: PackageMetadata, k: int, n: int)
    requires
        0 <= k <= n <= args.len(),
    ensures
        arguments_model(args, data, md, k).commands.len() <= arguments_model(args, data, md, n).commands.len(),
    decreases n - k,
{
    if k < n {
        lemma_arguments_grow(args, data, md, k, n - 1);
    }
}

/// The if block and the first `m` elif blocks emit at least `m` bytes, and no more than
/// the first `n` elif blocks, for `m <= n`.
pub proof fn lemma_elif_prefix_grows(i: IfAction, data: Seq<DataDeclarator>, md: PackageMetadata, m: nat, n: nat)
    requires
        m <= n <= i.elif_collection@.len(),
    ensures
        elif_prefix_model(i, data, md, m).commands.len() <= elif_prefix_model(i, data, md, n).commands.len(),
        elif_prefix_model(i, data, md, n).commands.len() >= n,
    decreases n,
{
    if m < n {
        lemma_elif_prefix_grows(i, data, md, m, (n - 1) as nat);
    } else if n > 0 {
        lemma_elif_prefix_grows(i, data, md, (n - 1) as nat, (n - 1) as nat);
    }
}

} // verus!
