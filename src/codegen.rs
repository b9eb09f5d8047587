use vstd::prelude::*;

use crate::action::{Action, ActionBlock, ActionType, ConditionBlock, IfAction};
use crate::expression::Expression;
use crate::issue::{fatal_issue, is_fatal_issue, GeneralIssue, IssuePosition};
use crate::layout::{
    generated_well, lemma_combine_generated_well, lemma_push_reference_well, lemma_wrap_balanced,
};
use crate::patch::{align_array_width, jump_command_address_placeholder_len};
use crate::relocation::{
    combined, RelocatableCommandList, RelocationReference, RelocationReferenceType, RelocationTarget,
    RelocationTargetType,
};
use crate::lowering::{
    action_model, arguments_model, block_model, block_prefix_model, condition_model, declares, elif_prefix_model,
    empty_model, expression_bytes, expression_model, if_model, iteration_model, jump_model, operator_byte,
    plain_model, return_end_model, scope_model, slot_of, token_bytes, variable_model, fits, lemma_block_prefix_grows,
    lemma_arguments_grow, lemma_elif_prefix_grows,
};
use crate::relocator::{domain_depth, lemma_least_index_is};
use crate::token::{CalculationOperator, DecoratedToken, LogicalOperator, Operator, RelationOperator};

verus! {

// Every command starts with its opcode pair: a root byte, then a sub byte.
pub const ROOT_DOMAIN: u8 = 0x01;
pub const DOMAIN_CREATE: u8 = 0x01;
pub const DOMAIN_DESTROY: u8 = 0x02;
pub const ROOT_JUMP: u8 = 0x02;
pub const JUMP_DIRECT: u8 = 0x01;
pub const JUMP_IF_FALSE: u8 = 0x02;
pub const ROOT_STACK: u8 = 0x03;
pub const PUSH_VARIABLE: u8 = 0x01;
pub const PUSH_LITERAL: u8 = 0x02;
pub const ROOT_OPERATOR: u8 = 0x04;
pub const ROOT_VARIABLE: u8 = 0x05;
pub const VARIABLE_DECLARE: u8 = 0x01;
pub const VARIABLE_ASSIGN: u8 = 0x02;
pub const ROOT_FUNCTION: u8 = 0x06;
pub const FUNCTION_CALL: u8 = 0x01;
pub const FUNCTION_RETURN: u8 = 0x02;

/// Layout parameters of a package; serialised, they form its header.
#[derive(Clone, Copy, PartialEq, Eq, Structural, Debug)]
pub struct PackageMetadata {
    pub variable_slot_alignment: u8,
    pub data_alignment: u8,
    pub command_alignment: u8,
    pub domain_layer_count_alignment: u8,
    pub address_alignment: u8,
    pub entry_point_offset: u8,
}

impl PackageMetadata {
    /// The header bytes, one per field, in declaration order.
    pub fn serialize(&self) -> (r: Vec<u8>)
        ensures
            r@ == seq![
                self.variable_slot_alignment,
                self.data_alignment,
                self.command_alignment,
                self.domain_layer_count_alignment,
                self.address_alignment,
                self.entry_point_offset,
            ],
    {
        let r = vec![
            self.variable_slot_alignment,
            self.data_alignment,
            self.command_alignment,
            self.domain_layer_count_alignment,
            self.address_alignment,
            self.entry_point_offset,
        ];
        assert(r@ =~= seq![
            self.variable_slot_alignment,
            self.data_alignment,
            self.command_alignment,
            self.domain_layer_count_alignment,
            self.address_alignment,
            self.entry_point_offset,
        ]);
        r
    }
}

/// A variable visible to the code being generated and its slot.
#[derive(Clone, Debug)]
pub struct DataDeclarator {
    pub name: String,
    pub slot: u64,
}

/// A generating step either gives a well-generated list or fails with one error.
pub open spec fn generated(r: Result<RelocatableCommandList, GeneralIssue<String>>) -> bool {
    match r {
        Ok(l) => generated_well(l@),
        Err(e) => is_fatal_issue(e, IssuePosition::CodeGeneration),
    }
}

/// `name` is one of the declared variables.
pub open spec fn declared(data: Seq<DataDeclarator>, name: Seq<char>) -> bool {
    exists|i: int| 0 <= i < data.len() && (#[trigger] data[i]).name@ == name
}

/// A token that the code generator can lower inside an expression.
pub open spec fn token_generable(t: DecoratedToken, data: Seq<DataDeclarator>) -> bool {
    match t {
        DecoratedToken::Identifier(n) => declared(data, n@),
        DecoratedToken::Literal(_, _) => true,
        DecoratedToken::Operator(op) => !(op is Assignment),
        _ => false,
    }
}

/// Every token of the expression can be lowered.
pub open spec fn expression_generable(e: Expression, data: Seq<DataDeclarator>) -> bool {
    forall|i: int| 0 <= i < e.postfix_expr@.len() ==> token_generable(#[trigger] e.postfix_expr@[i], data)
}

/// The statement can be lowered: it carries the payload of its kind, every expression
/// in it can be lowered, every variable it names is declared, and it is not a switch.
pub open spec fn action_generable(a: Action, data: Seq<DataDeclarator>) -> bool
    decreases a,
{
    match a.action_type {
        ActionType::DeclarationStatement => match a.declaration_action {
            Some(d) => declared(data, d.identifier@),
            None => false,
        },
        ActionType::AssignmentStatement => match a.assignment_action {
            Some(x) => expression_generable(x.eval_expression, data) && declared(data, x.identifier@),
            None => false,
        },
        ActionType::CallStatement => match a.call_action {
            Some(c) => forall|i: int|
                0 <= i < c.arguments@.len() ==> expression_generable(#[trigger] c.arguments@[i], data),
            None => false,
        },
        ActionType::ReturnStatement => match a.return_action {
            Some(v) => expression_generable(v.value, data),
            None => false,
        },
        ActionType::IfStatement => match a.if_action {
            Some(i) => if_generable(i, data),
            None => false,
        },
        ActionType::WhileStatement => match a.while_action {
            Some(w) => condition_generable(w, data),
            None => false,
        },
        ActionType::LoopStatement => match a.loop_action {
            Some(b) => block_generable(b, data),
            None => false,
        },
        ActionType::SwitchStatement => false,
        _ => true,
    }
}

/// Every statement of the block can be lowered.
pub open spec fn block_generable(b: ActionBlock, data: Seq<DataDeclarator>) -> bool
    decreases b,
{
    forall|i: int| 0 <= i < b.actions@.len() ==> action_generable(#[trigger] b.actions@[i], data)
}

/// The condition and the body can be lowered.
pub open spec fn condition_generable(c: ConditionBlock, data: Seq<DataDeclarator>) -> bool
    decreases c,
{
    expression_generable(c.condition, data) && block_generable(c.body, data)
}

/// Every block of the chain can be lowered.
pub open spec fn if_generable(i: IfAction, data: Seq<DataDeclarator>) -> bool
    decreases i,
{
    &&& condition_generable(i.if_block, data)
    &&& forall|k: int| 0 <= k < i.elif_collection@.len() ==> condition_generable(#[trigger] i.elif_collection@[k], data)
    &&& match i.else_action {
        Some(b) => block_generable(b, data),
        None => true,
    }
}

/// The error raised when the emitted commands would outgrow the address space.
pub open spec fn is_size_error(e: GeneralIssue<String>) -> bool {
    e.issues@.len() == 1 && e.issues@[0].code@ == "too_large"@
}

/// A generating step succeeds exactly on input that can be lowered, save for running
/// out of address space; what it gives is well generated.
pub open spec fn generation_outcome(r: Result<RelocatableCommandList, GeneralIssue<String>>, ok: bool) -> bool {
    &&& generated(r)
    &&& r is Ok ==> ok
    &&& ok ==> (r is Ok || is_size_error(r->Err_0))
}

fn generation_error(code: &str, detail: &str) -> (r: GeneralIssue<String>)
    ensures
        is_fatal_issue(r, IssuePosition::CodeGeneration),
        r.issues@[0].code@ == code@,
{
    fatal_issue(IssuePosition::CodeGeneration, code, detail)
}

fn size_error() -> (r: GeneralIssue<String>)
    ensures
        is_fatal_issue(r, IssuePosition::CodeGeneration),
        is_size_error(r),
{
    generation_error("too_large", "command list exceeds the addressable size")
}

/// Appends `src` to `dst`, or fails when the result would not be addressable.
fn merge(dst: &mut RelocatableCommandList, src: RelocatableCommandList) -> (r: Result<(), GeneralIssue<String>>)
    requires
        generated_well(old(dst)@),
        generated_well(src@),
    ensures
        match r {
            Ok(()) => final(dst)@ == combined(old(dst)@, src@) && generated_well(final(dst)@),
            Err(e) => is_fatal_issue(e, IssuePosition::CodeGeneration) && is_size_error(e)
                && old(dst)@.commands.len() + src@.commands.len() > usize::MAX,
        },
{
    if dst.commands.len() > usize::MAX - src.commands.len() {
        return Err(size_error());
    }
    proof {
        lemma_combine_generated_well(dst@, src@);
    }
    dst.combine(src);
    Ok(())
}

/// Bytes with nothing to relocate.
fn plain_commands(bytes: Vec<u8>) -> (r: RelocatableCommandList)
    ensures
        r@.commands == bytes@,
        r@.command_entries.len() == 0,
        r@.targets.len() == 0,
        r@.references.len() == 0,
        r@ == plain_model(bytes@),
        generated_well(r@),
{
    let r = RelocatableCommandList::new_no_relocation(bytes);
    assert(r@.command_entries =~= Seq::<usize>::empty());
    assert(r@.targets =~= Seq::<RelocationTarget>::empty());
    assert(r@.references =~= Seq::<RelocationReference>::empty());
    assert(domain_depth(r@.references, 0, 0) == 0);
    r
}

/// An empty list.
fn empty_list() -> (r: RelocatableCommandList)
    ensures
        r@ == empty_model(),
        generated_well(r@),
{
    plain_commands(Vec::new())
}

/// A command `(root, sub)` followed by an address placeholder, with one target of the
/// given type on that placeholder.
fn jump_like_command(root: u8, sub: u8, target: RelocationTargetType, metadata: &PackageMetadata) -> (r:
    RelocatableCommandList)
    requires
        !(target is Undefined),
    ensures
        generated_well(r@),
        r@.references.len() == 0,
        r@.targets.len() == 1,
        r@.targets[0].relocation_type == target,
        r@.targets[0].command_array_position == 0,
        r@.targets[0].offset == 2,
        r@.commands.len() == 3 + metadata.address_alignment,
        r@ == jump_model(root, sub, target, *metadata),
{
    let placeholder_len = jump_command_address_placeholder_len(metadata.address_alignment);
    let mut bytes = vec![root, sub];
    let mut i: usize = 0;
    while i < placeholder_len
        invariant
            i <= placeholder_len,
            bytes@ =~= seq![root, sub] + Seq::new(i as nat, |k: int| 0u8),
        decreases placeholder_len - i,
    {
        bytes.push(0);
        i += 1;
    }
    let mut list = plain_commands(bytes);
    list.descriptors.targets.push(
        RelocationTarget { relocation_type: target, command_array_position: 0, offset: 2, relocated_address: 0 },
    );
    proof {
        assert(list@.references.len() == 0);
        assert(domain_depth(list@.references, 0, 0) == 0);
        assert(list@.targets.len() == 1);
        assert(list@.commands =~= jump_model(root, sub, target, *metadata).commands);
        assert(list@.targets =~= jump_model(root, sub, target, *metadata).targets);
    }
    list
}

/// An unconditional jump whose address the relocator fills in from `target`.
pub fn direct_jump_command_builder(target: RelocationTargetType, metadata: &PackageMetadata) -> (r:
    RelocatableCommandList)
    requires
        !(target is Undefined),
    ensures
        generated_well(r@),
        r@.references.len() == 0,
        r@.targets.len() == 1,
        r@.targets[0].relocation_type == target,
        r@.targets[0].command_array_position == 0,
        r@.commands.len() == 3 + metadata.address_alignment,
        r@ == jump_model(ROOT_JUMP, JUMP_DIRECT, target, *metadata),
{
    jump_like_command(ROOT_JUMP, JUMP_DIRECT, target, metadata)
}

/// Wraps `inner` in a scope: a scope-opening command before it and a scope-closing
/// command after it, each with its reference. For a loop the opening also marks the
/// loop head and the closing the loop end.
fn scope_builder(inner: RelocatableCommandList, iteration: bool) -> (r: Result<
    RelocatableCommandList,
    GeneralIssue<String>,
>)
    requires
        generated_well(inner@),
    ensures
        generated(r),
        r matches Err(e) ==> is_size_error(e),
        r matches Ok(l) ==> l@ == scope_model(inner@, iteration),
        fits(scope_model(inner@, iteration)) ==> r is Ok,
{
    let ghost inner_model = inner@;
    assert(scope_model(inner_model, iteration).commands.len() == inner_model.commands.len() + 4);
    let mut list = plain_commands(vec![ROOT_DOMAIN, DOMAIN_CREATE]);
    match merge(&mut list, inner) {
        Ok(()) => {},
        Err(e) => {
            return Err(e);
        },
    }
    let end = list.commands.len();
    if end > usize::MAX - 2 {
        return Err(size_error());
    }
    list.commands.push(ROOT_DOMAIN);
    list.commands.push(DOMAIN_DESTROY);
    let mut head: Vec<RelocationReference> = Vec::new();
    head.push(RelocationReference { ref_type: RelocationReferenceType::DomainCreate, command_array_position: 0 });
    if iteration {
        head.push(RelocationReference { ref_type: RelocationReferenceType::IterationHead, command_array_position: 0 });
    }
    let mut tail: Vec<RelocationReference> = Vec::new();
    tail.push(RelocationReference { ref_type: RelocationReferenceType::DomainDestroy, command_array_position: end });
    if iteration {
        tail.push(
            RelocationReference { ref_type: RelocationReferenceType::IterationInterrupt, command_array_position: end },
        );
    }
    let ghost x = head@;
    let ghost y = tail@;
    let ghost body = list@.references;
    proof {
        assert(domain_depth(x, 0, 0) == 0);
        assert(domain_depth(x, 0, 1) == 1);
        assert(domain_depth(x, 0, x.len() as int) == 1);
        assert(domain_depth(y, 0, 0) == 0);
        assert(domain_depth(y, 0, 1) == -1);
        assert(domain_depth(y, 0, y.len() as int) == -1);
        lemma_wrap_balanced(x, body, y);
    }
    let mut refs = head;
    refs.append(&mut list.descriptors.references);
    refs.append(&mut tail);
    list.descriptors.references = refs;
    proof {
        assert(list@.references =~= x + body + y);
        let m = scope_model(inner_model, iteration);
        assert(list@.commands =~= m.commands);
        assert(x =~= m.references.subrange(0, x.len() as int));
        assert(list@.references =~= m.references);
        assert forall|i: int| 0 <= i < list@.references.len() implies (#[trigger] list@.references[i]).command_array_position
            <= list@.commands.len() by {
            if i >= x.len() && i < x.len() + body.len() {
                assert(list@.references[i] == body[i - x.len()]);
            }
        }
    }
    Ok(list)
}

fn find_slot(defined_data: &Vec<DataDeclarator>, name: &String) -> (r: Option<u64>)
    ensures
        r matches Some(s) ==> exists|i: int|
            0 <= i < defined_data@.len() && (#[trigger] defined_data@[i]).name@ == name@ && defined_data@[i].slot
                == s,
        r matches Some(s) ==> s == slot_of(defined_data@, name@),
        r is Some <==> declared(defined_data@, name@),
{
    let mut i: usize = 0;
    while i < defined_data.len()
        invariant
            i <= defined_data@.len(),
            forall|k: int| 0 <= k < i ==> (#[trigger] defined_data@[k]).name@ != name@,
        decreases defined_data@.len() - i,
    {
        if defined_data[i].name == *name {
            proof {
                lemma_least_index_is(defined_data@.len() as int, declares(defined_data@, name@), i as int);
            }
            return Some(defined_data[i].slot);
        }
        i += 1;
    }
    None
}

fn operator_code(op: &Operator) -> (r: Option<u8>)
    ensures
        r is None <==> *op is Assignment,
        r matches Some(b) ==> b == operator_byte(*op),
{
    match op {
        Operator::Calculation(c) => Some(
            match c {
                CalculationOperator::Plus => 0x01,
                CalculationOperator::Minus => 0x02,
                CalculationOperator::Times => 0x03,
                CalculationOperator::Divide => 0x04,
                CalculationOperator::Mod => 0x05,
            },
        ),
        Operator::Relation(c) => Some(
            match c {
                RelationOperator::Less => 0x11,
                RelationOperator::LessEqual => 0x12,
                RelationOperator::Greater => 0x13,
                RelationOperator::GreaterEqual => 0x14,
                RelationOperator::Equal => 0x15,
                RelationOperator::NotEqual => 0x16,
            },
        ),
        Operator::Logical(c) => Some(
            match c {
                LogicalOperator::And => 0x21,
                LogicalOperator::Or => 0x22,
                LogicalOperator::Not => 0x23,
            },
        ),
        Operator::Assignment => None,
    }
}

/// Pushes the operands and applies the operators of a postfix expression, in order.
pub fn expression_command_builder(
    expr: &Expression,
    defined_data: &Vec<DataDeclarator>,
    metadata: &PackageMetadata,
) -> (r: Result<RelocatableCommandList, GeneralIssue<String>>)
    ensures
        generated(r),
        r is Ok <==> expression_generable(*expr, defined_data@),
        r matches Ok(l) ==> l@ == expression_model(*expr, defined_data@, *metadata),
{
    let ghost tokens = expr.postfix_expr@;
    let mut bytes: Vec<u8> = Vec::new();
    let mut i: usize = 0;
    while i < expr.postfix_expr.len()
        invariant
            i <= expr.postfix_expr@.len(),
            tokens == expr.postfix_expr@,
            bytes@ == expression_bytes(tokens.take(i as int), defined_data@, *metadata),
            forall|k: int| 0 <= k < i ==> token_generable(#[trigger] expr.postfix_expr@[k], defined_data@),
        decreases expr.postfix_expr@.len() - i,
    {
        let ghost before = bytes@;
        proof {
            assert(tokens.take(i + 1).drop_last() =~= tokens.take(i as int));
        }
        match &expr.postfix_expr[i] {
            DecoratedToken::Identifier(name) => {
                let slot = match find_slot(defined_data, name) {
                    Some(s) => s,
                    None => {
                        return Err(generation_error("undefined_variable", "variable is not declared"));
                    },
                };
                bytes.push(ROOT_STACK);
                bytes.push(PUSH_VARIABLE);
                let mut encoded = align_array_width(slot, metadata.variable_slot_alignment as usize);
                bytes.append(&mut encoded);
                proof {
                    assert(bytes@ =~= before + token_bytes(tokens[i as int], defined_data@, *metadata));
                }
            },
            DecoratedToken::Literal(_, value) => {
                let raw = value.as_str().as_bytes();
                bytes.push(ROOT_STACK);
                bytes.push(PUSH_LITERAL);
                let mut encoded = align_array_width(raw.len() as u64, metadata.data_alignment as usize);
                bytes.append(&mut encoded);
                let ghost header = bytes@;
                let mut k: usize = 0;
                while k < raw.len()
                    invariant
                        k <= raw@.len(),
                        bytes@ == header + raw@.take(k as int),
                    decreases raw@.len() - k,
                {
                    bytes.push(raw[k]);
                    proof {
                        assert(raw@.take(k + 1) =~= raw@.take(k as int).push(raw@[k as int]));
                    }
                    k += 1;
                }
                proof {
                    assert(raw@.take(k as int) =~= raw@);
                    assert(bytes@ =~= before + token_bytes(tokens[i as int], defined_data@, *metadata));
                }
            },
            DecoratedToken::Operator(op) => {
                match operator_code(op) {
                    Some(code) => {
                        bytes.push(ROOT_OPERATOR);
                        bytes.push(code);
                        proof {
                            assert(bytes@ =~= before + token_bytes(tokens[i as int], defined_data@, *metadata));
                        }
                    },
                    None => {
                        return Err(generation_error("illegal_token", "assignment inside an expression"));
                    },
                }
            },
            _ => {
                return Err(generation_error("illegal_token", "token cannot stand in an expression"));
            },
        }
        i += 1;
    }
    proof {
        assert(tokens.take(i as int) =~= tokens);
    }
    Ok(plain_commands(bytes))
}

/// A variable command `(ROOT_VARIABLE, sub)` on the slot of `name`.
fn variable_command(sub: u8, name: &String, defined_data: &Vec<DataDeclarator>, metadata: &PackageMetadata) -> (r:
    Result<RelocatableCommandList, GeneralIssue<String>>)
    ensures
        generated(r),
        r is Ok <==> declared(defined_data@, name@),
        r matches Ok(l) ==> l@ == variable_model(sub, name@, defined_data@, *metadata),
{
    let slot = match find_slot(defined_data, name) {
        Some(s) => s,
        None => {
            return Err(generation_error("undefined_variable", "variable is not declared"));
        },
    };
    let mut bytes = vec![ROOT_VARIABLE, sub];
    let mut encoded = align_array_width(slot, metadata.variable_slot_alignment as usize);
    bytes.append(&mut encoded);
    proof {
        assert(bytes@ =~= variable_model(sub, name@, defined_data@, *metadata).commands);
    }
    Ok(plain_commands(bytes))
}

/// A guarded block: inside one scope, the condition, a jump past the scope when it is
/// false, and the body.
pub fn condition_block_builder(
    block: &ConditionBlock,
    defined_data: &Vec<DataDeclarator>,
    metadata: &PackageMetadata,
) -> (r: Result<RelocatableCommandList, GeneralIssue<String>>)
    ensures
        generation_outcome(r, condition_generable(*block, defined_data@)),
        r matches Ok(l) ==> l@ == condition_model(*block, defined_data@, *metadata),
        condition_generable(*block, defined_data@) && fits(condition_model(*block, defined_data@, *metadata)) ==> r is Ok,
    decreases block, 1nat,
{
    let ghost e = expression_model(block.condition, defined_data@, *metadata);
    let ghost j = jump_model(ROOT_JUMP, JUMP_IF_FALSE, RelocationTargetType::DomainHead, *metadata);
    let ghost b = block_model(block.body, defined_data@, *metadata);
    assert(condition_model(*block, defined_data@, *metadata).commands.len() == e.commands.len() + j.commands.len()
        + b.commands.len() + 4);
    let mut inner = match expression_command_builder(&block.condition, defined_data, metadata) {
        Ok(l) => l,
        Err(e) => {
            return Err(e);
        },
    };
    let jump = jump_like_command(ROOT_JUMP, JUMP_IF_FALSE, RelocationTargetType::DomainHead, metadata);
    match merge(&mut inner, jump) {
        Ok(()) => {},
        Err(e) => {
            return Err(e);
        },
    }
    let body = match action_block_builder(&block.body, false, defined_data, metadata) {
        Ok(l) => l,
        Err(e) => {
            return Err(e);
        },
    };
    match merge(&mut inner, body) {
        Ok(()) => {},
        Err(e) => {
            return Err(e);
        },
    }
    scope_builder(inner, false)
}

/// A loop: inside one scope that marks the loop head and end, the optional condition
/// with its exit jump, the body, and a jump back to the head.
fn iteration_builder(
    condition: Option<&Expression>,
    body: &ActionBlock,
    defined_data: &Vec<DataDeclarator>,
    metadata: &PackageMetadata,
) -> (r: Result<RelocatableCommandList, GeneralIssue<String>>)
    ensures
        generation_outcome(
            r,
            (condition matches Some(c) ==> expression_generable(*c, defined_data@)) && block_generable(
                *body,
                defined_data@,
            ),
        ),
        r matches Ok(l) ==> l@ == iteration_model(
            match condition {
                Some(c) => Some(*c),
                None => None,
            },
            *body,
            defined_data@,
            *metadata,
        ),
        (condition matches Some(c) ==> expression_generable(*c, defined_data@)) && block_generable(*body, defined_data@)
            && fits(
            iteration_model(
                match condition {
                    Some(c) => Some(*c),
                    None => None,
                },
                *body,
                defined_data@,
                *metadata,
            ),
        ) ==> r is Ok,
    decreases body, 1nat,
{
    let ghost cond_model = match condition {
        Some(c) => Some(*c),
        None => None,
    };
    let ghost j = jump_model(ROOT_JUMP, JUMP_IF_FALSE, RelocationTargetType::DomainHead, *metadata);
    let ghost back_model = jump_model(ROOT_JUMP, JUMP_DIRECT, RelocationTargetType::IterationHead, *metadata);
    let ghost b = block_model(*body, defined_data@, *metadata);
    let ghost pre_len: int = match condition {
        Some(c) => (expression_model(*c, defined_data@, *metadata).commands.len() + j.commands.len()) as int,
        None => 0int,
    };
    assert(iteration_model(cond_model, *body, defined_data@, *metadata).commands.len() == pre_len
        + b.commands.len() + back_model.commands.len() + 4);
    let mut inner = empty_list();
    match condition {
        Some(c) => {
            let cond = match expression_command_builder(c, defined_data, metadata) {
                Ok(l) => l,
                Err(e) => {
                    return Err(e);
                },
            };
            match merge(&mut inner, cond) {
                Ok(()) => {},
                Err(e) => {
                    return Err(e);
                },
            }
            let exit = jump_like_command(ROOT_JUMP, JUMP_IF_FALSE, RelocationTargetType::DomainHead, metadata);
            match merge(&mut inner, exit) {
                Ok(()) => {},
                Err(e) => {
                    return Err(e);
                },
            }
        },
        None => {},
    }
    let code = match action_block_builder(body, false, defined_data, metadata) {
        Ok(l) => l,
        Err(e) => {
            return Err(e);
        },
    };
    match merge(&mut inner, code) {
        Ok(()) => {},
        Err(e) => {
            return Err(e);
        },
    }
    let back = direct_jump_command_builder(RelocationTargetType::IterationHead, metadata);
    match merge(&mut inner, back) {
        Ok(()) => {},
        Err(e) => {
            return Err(e);
        },
    }
    scope_builder(inner, true)
}

/// A call: the arguments in source order, then the call command, whose address is the
/// slot of the named function.
fn call_command_builder(
    function_name: &String,
    arguments: &Vec<Expression>,
    defined_data: &Vec<DataDeclarator>,
    metadata: &PackageMetadata,
) -> (r: Result<RelocatableCommandList, GeneralIssue<String>>)
    ensures
        generation_outcome(
            r,
            forall|i: int| 0 <= i < arguments@.len() ==> expression_generable(#[trigger] arguments@[i], defined_data@),
        ),
        r matches Ok(l) ==> l@ == combined(
            arguments_model(arguments@, defined_data@, *metadata, arguments@.len() as int),
            jump_model(ROOT_FUNCTION, FUNCTION_CALL, RelocationTargetType::EnterFunction(*function_name), *metadata),
        ),
        (forall|i: int| 0 <= i < arguments@.len() ==> expression_generable(#[trigger] arguments@[i], defined_data@))
            && fits(
            combined(
                arguments_model(arguments@, defined_data@, *metadata, arguments@.len() as int),
                jump_model(ROOT_FUNCTION, FUNCTION_CALL, RelocationTargetType::EnterFunction(*function_name), *metadata),
            ),
        ) ==> r is Ok,
{
    let ghost total = combined(
        arguments_model(arguments@, defined_data@, *metadata, arguments@.len() as int),
        jump_model(ROOT_FUNCTION, FUNCTION_CALL, RelocationTargetType::EnterFunction(*function_name), *metadata),
    ).commands.len();
    let mut list = empty_list();
    let mut i: usize = 0;
    while i < arguments.len()
        invariant
            total == combined(
                arguments_model(arguments@, defined_data@, *metadata, arguments@.len() as int),
                jump_model(ROOT_FUNCTION, FUNCTION_CALL, RelocationTargetType::EnterFunction(*function_name), *metadata),
            ).commands.len(),
            i <= arguments@.len(),
            generated_well(list@),
            list@ == arguments_model(arguments@, defined_data@, *metadata, i as int),
            forall|k: int| 0 <= k < i ==> expression_generable(#[trigger] arguments@[k], defined_data@),
        decreases arguments@.len() - i,
    {
        proof {
            lemma_arguments_grow(arguments@, defined_data@, *metadata, i + 1, arguments@.len() as int);
        }
        let arg = match expression_command_builder(&arguments[i], defined_data, metadata) {
            Ok(l) => l,
            Err(e) => {
                return Err(e);
            },
        };
        match merge(&mut list, arg) {
            Ok(()) => {},
            Err(e) => {
                return Err(e);
            },
        }
        i += 1;
    }
    let call = jump_like_command(
        ROOT_FUNCTION,
        FUNCTION_CALL,
        RelocationTargetType::EnterFunction(function_name.clone()),
        metadata,
    );
    match merge(&mut list, call) {
        Ok(()) => {},
        Err(e) => {
            return Err(e);
        },
    }
    Ok(list)
}

/// A return: the value, then the function-end command with its reference.
fn return_command_builder(value: &Expression, defined_data: &Vec<DataDeclarator>, metadata: &PackageMetadata) -> (r:
    Result<RelocatableCommandList, GeneralIssue<String>>)
    ensures
        generation_outcome(r, expression_generable(*value, defined_data@)),
        r matches Ok(l) ==> l@ == combined(expression_model(*value, defined_data@, *metadata), return_end_model()),
        expression_generable(*value, defined_data@) && fits(
            combined(expression_model(*value, defined_data@, *metadata), return_end_model()),
        ) ==> r is Ok,
{
    let mut list = match expression_command_builder(value, defined_data, metadata) {
        Ok(l) => l,
        Err(e) => {
            return Err(e);
        },
    };
    let mut end = plain_commands(vec![ROOT_FUNCTION, FUNCTION_RETURN]);
    let mark = RelocationReference { ref_type: RelocationReferenceType::FunctionEnd, command_array_position: 0 };
    proof {
        lemma_push_reference_well(end@, mark);
    }
    end.descriptors.references.push(mark);
    match merge(&mut list, end) {
        Ok(()) => {},
        Err(e) => {
            return Err(e);
        },
    }
    Ok(list)
}

/// The commands of one statement.
pub fn action_command_builder(
    action: &Action,
    defined_data: &Vec<DataDeclarator>,
    metadata: &PackageMetadata,
) -> (r: Result<RelocatableCommandList, GeneralIssue<String>>)
    ensures
        generation_outcome(r, action_generable(*action, defined_data@)),
        r matches Ok(l) ==> l@ == action_model(*action, defined_data@, *metadata),
        action_generable(*action, defined_data@) && fits(action_model(*action, defined_data@, *metadata)) ==> r is Ok,
    decreases action, 0nat,
{
    let missing = "statement has no payload of its kind";
    match action.action_type {
        ActionType::DeclarationStatement => match &action.declaration_action {
            Some(d) => variable_command(VARIABLE_DECLARE, &d.identifier, defined_data, metadata),
            None => Err(generation_error("malformed_statement", missing)),
        },
        ActionType::AssignmentStatement => match &action.assignment_action {
            Some(a) => {
                let mut list = match expression_command_builder(&a.eval_expression, defined_data, metadata) {
                    Ok(l) => l,
                    Err(e) => {
                        return Err(e);
                    },
                };
                let store = match variable_command(VARIABLE_ASSIGN, &a.identifier, defined_data, metadata) {
                    Ok(l) => l,
                    Err(e) => {
                        return Err(e);
                    },
                };
                match merge(&mut list, store) {
                    Ok(()) => Ok(list),
                    Err(e) => Err(e),
                }
            },
            None => Err(generation_error("malformed_statement", missing)),
        },
        ActionType::CallStatement => match &action.call_action {
            Some(c) => call_command_builder(&c.function_name, &c.arguments, defined_data, metadata),
            None => Err(generation_error("malformed_statement", missing)),
        },
        ActionType::ReturnStatement => match &action.return_action {
            Some(v) => return_command_builder(&v.value, defined_data, metadata),
            None => Err(generation_error("malformed_statement", missing)),
        },
        ActionType::IfStatement => match &action.if_action {
            Some(i) => if_command_builder(i, defined_data, metadata),
            None => Err(generation_error("malformed_statement", missing)),
        },
        ActionType::WhileStatement => match &action.while_action {
            Some(w) => iteration_builder(Some(&w.condition), &w.body, defined_data, metadata),
            None => Err(generation_error("malformed_statement", missing)),
        },
        ActionType::LoopStatement => match &action.loop_action {
            Some(b) => iteration_builder(None, b, defined_data, metadata),
            None => Err(generation_error("malformed_statement", missing)),
        },
        ActionType::BreakStatement => Ok(
            direct_jump_command_builder(RelocationTargetType::BreakIteration, metadata),
        ),
        ActionType::ContinueStatement => Ok(
            direct_jump_command_builder(RelocationTargetType::IterationHead, metadata),
        ),
        ActionType::SwitchStatement => Err(generation_error("unsupported_statement", "switch is not supported by the code generator")),
        ActionType::EmptyAction => Ok(empty_list()),
    }
}

/// The commands of a block's statements in order, wrapped in a scope when `as_domain`.
pub fn action_block_builder(
    block: &ActionBlock,
    as_domain: bool,
    defined_data: &Vec<DataDeclarator>,
    metadata: &PackageMetadata,
) -> (r: Result<RelocatableCommandList, GeneralIssue<String>>)
    ensures
        generation_outcome(r, block_generable(*block, defined_data@)),
        r matches Ok(l) ==> l@ == if as_domain {
            scope_model(block_model(*block, defined_data@, *metadata), false)
        } else {
            block_model(*block, defined_data@, *metadata)
        },
        block_generable(*block, defined_data@) && fits(
            if as_domain {
                scope_model(block_model(*block, defined_data@, *metadata), false)
            } else {
                block_model(*block, defined_data@, *metadata)
            },
        ) ==> r is Ok,
    decreases block, 0nat,
{
    let ghost full = block_model(*block, defined_data@, *metadata);
    assert(scope_model(full, false).commands.len() == full.commands.len() + 4);
    let mut list = empty_list();
    let mut i: usize = 0;
    while i < block.actions.len()
        invariant
            i <= block.actions@.len(),
            generated_well(list@),
            forall|k: int| 0 <= k < i ==> action_generable(#[trigger] block.actions@[k], defined_data@),
            list@ == block_prefix_model(*block, defined_data@, *metadata, i as nat),
            full == block_model(*block, defined_data@, *metadata),
            scope_model(full, false).commands.len() == full.commands.len() + 4,
        decreases block.actions@.len() - i,
    {
        proof {
            assert(decreases_to!(block => block.actions));
            vstd::std_specs::vec::axiom_vec_index_decreases(block.actions, i as int);
            lemma_block_prefix_grows(*block, defined_data@, *metadata, (i + 1) as nat, block.actions@.len());
        }
        let code = match action_command_builder(&block.actions[i], defined_data, metadata) {
            Ok(l) => l,
            Err(e) => {
                return Err(e);
            },
        };
        match merge(&mut list, code) {
            Ok(()) => {},
            Err(e) => {
                return Err(e);
            },
        }
        i += 1;
    }
    if as_domain {
        scope_builder(list, false)
    } else {
        Ok(list)
    }
}

/// An if/elif/else chain: the `if` block, then, when alternatives follow, a jump out of
/// the chain; each `elif` block followed by a jump out of the rest of the chain; and the
/// `else` body as a scope between an else-entrance and an end-else reference.
pub fn if_command_builder(
    action: &IfAction,
    defined_data: &Vec<DataDeclarator>,
    metadata: &PackageMetadata,
) -> (r: Result<RelocatableCommandList, GeneralIssue<String>>)
    ensures
        generation_outcome(r, if_generable(*action, defined_data@)),
        r matches Ok(l) ==> l@ == if_model(*action, defined_data@, *metadata),
        if_generable(*action, defined_data@) && fits(if_model(*action, defined_data@, *metadata)) ==> r is Ok,
    decreases action, 2nat,
{
    let ghost total = if_model(*action, defined_data@, *metadata).commands.len();
    let ghost chain = elif_prefix_model(*action, defined_data@, *metadata, action.elif_collection@.len());
    proof {
        if action.else_action is Some {
            let b = action.else_action->Some_0;
            let sm = scope_model(block_model(b, defined_data@, *metadata), false);
            assert(sm.commands.len() >= 4);
            assert(total == chain.commands.len() + sm.commands.len());
        }
        lemma_elif_prefix_grows(*action, defined_data@, *metadata, 0, action.elif_collection@.len());
    }
    let mut result = empty_list();
    let n = action.elif_collection.len();
    let has_else = action.else_action.is_some();
    if has_else && n == usize::MAX {
        return Err(size_error());
    }
    let mut remaining_domain_count: usize = if has_else { n + 1 } else { n };
    let first = match condition_block_builder(&action.if_block, defined_data, metadata) {
        Ok(l) => l,
        Err(e) => {
            return Err(e);
        },
    };
    match merge(&mut result, first) {
        Ok(()) => {},
        Err(e) => {
            return Err(e);
        },
    }
    if remaining_domain_count > 0 {
        let out = direct_jump_command_builder(RelocationTargetType::BreakDomain(remaining_domain_count), metadata);
        match merge(&mut result, out) {
            Ok(()) => {},
            Err(e) => {
                return Err(e);
            },
        }
    }
    let mut i: usize = 0;
    while i < n
        invariant
            i <= n,
            n == action.elif_collection@.len(),
            remaining_domain_count == n - i + (if has_else { 1int } else { 0int }),
            generated_well(result@),
            has_else == action.else_action is Some,
            condition_generable(action.if_block, defined_data@),
            forall|k: int| 0 <= k < i ==> condition_generable(#[trigger] action.elif_collection@[k], defined_data@),
            result@ == elif_prefix_model(*action, defined_data@, *metadata, i as nat),
            total == if_model(*action, defined_data@, *metadata).commands.len(),
            chain == elif_prefix_model(*action, defined_data@, *metadata, n as nat),
            total >= chain.commands.len(),
        decreases n - i,
    {
        proof {
            lemma_elif_prefix_grows(*action, defined_data@, *metadata, (i + 1) as nat, n as nat);
            assert(decreases_to!(action => action.elif_collection));
            vstd::std_specs::vec::axiom_vec_index_decreases(action.elif_collection, i as int);
        }
        let block = match condition_block_builder(&action.elif_collection[i], defined_data, metadata) {
            Ok(l) => l,
            Err(e) => {
                return Err(e);
            },
        };
        match merge(&mut result, block) {
            Ok(()) => {},
            Err(e) => {
                return Err(e);
            },
        }
        remaining_domain_count = remaining_domain_count - 1;
        let out = direct_jump_command_builder(RelocationTargetType::BreakDomain(remaining_domain_count), metadata);
        match merge(&mut result, out) {
            Ok(()) => {},
            Err(e) => {
                return Err(e);
            },
        }
        i += 1;
    }
    match &action.else_action {
        Some(else_block) => {
            let entrance = RelocationReference {
                ref_type: RelocationReferenceType::ElseEntrance,
                command_array_position: result.commands.len(),
            };
            proof {
                lemma_push_reference_well(result@, entrance);
            }
            result.descriptors.references.push(entrance);
            let body = match action_block_builder(else_block, true, defined_data, metadata) {
                Ok(l) => l,
                Err(e) => {
                    return Err(e);
                },
            };
            match merge(&mut result, body) {
                Ok(()) => {},
                Err(e) => {
                    return Err(e);
                },
            }
            let end = RelocationReference {
                ref_type: RelocationReferenceType::EndElse,
                command_array_position: result.commands.len(),
            };
            proof {
                lemma_push_reference_well(result@, end);
            }
            result.descriptors.references.push(end);
        },
        None => {},
    }
    Ok(result)
}

} // verus!
