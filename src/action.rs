use vstd::prelude::*;

use crate::expression::Expression;

verus! {

/// The kind of a statement.
#[derive(Clone, Copy, PartialEq, Eq, Structural, Debug)]
pub enum ActionType {
    DeclarationStatement,
    AssignmentStatement,
    CallStatement,
    ReturnStatement,
    IfStatement,
    WhileStatement,
    LoopStatement,
    SwitchStatement,
    BreakStatement,
    ContinueStatement,
    EmptyAction,
}

/// A statement: its kind, and the payload that belongs to that kind. `break` and
/// `continue` carry no payload.
#[derive(Debug)]
pub struct Action {
    pub action_type: ActionType,
    pub declaration_action: Option<DeclarationAction>,
    pub assignment_action: Option<AssignmentAction>,
    pub call_action: Option<CallAction>,
    pub return_action: Option<ReturnAction>,
    pub if_action: Option<IfAction>,
    pub while_action: Option<ConditionBlock>,
    pub loop_action: Option<ActionBlock>,
    pub switch_action: Option<SwitchAction>,
}

/// An ordered sequence of statements forming one scope.
#[derive(Debug)]
pub struct ActionBlock {
    pub actions: Vec<Action>,
}

/// A condition with the body it guards (while, if, elif).
#[derive(Debug)]
pub struct ConditionBlock {
    pub condition: Expression,
    pub body: ActionBlock,
}

/// `decl var|const <type> <name>;`
#[derive(Clone, Debug)]
pub struct DeclarationAction {
    pub is_variable: bool,
    pub identifier: String,
    pub data_type: String,
}

/// `<name> = <expression>;`
#[derive(Clone, Debug)]
pub struct AssignmentAction {
    pub identifier: String,
    pub eval_expression: Expression,
}

/// `<function>(<arguments>);`
#[derive(Clone, Debug)]
pub struct CallAction {
    pub function_name: String,
    pub arguments: Vec<Expression>,
}

/// `return <expression>;`
#[derive(Clone, Debug)]
pub struct ReturnAction {
    pub value: Expression,
}

/// An `if` block, its `elif` blocks in order, and an optional `else` body.
#[derive(Debug)]
pub struct IfAction {
    pub if_block: ConditionBlock,
    pub elif_collection: Vec<ConditionBlock>,
    pub else_action: Option<ActionBlock>,
}

/// A `switch` over a condition.
#[derive(Debug)]
pub struct SwitchAction {
    pub condition: Expression,
    pub cases: Vec<SwitchCase>,
}

/// One `case` (or the `default`) of a switch.
#[derive(Debug)]
pub struct SwitchCase {
    pub is_default: bool,
    pub value: String,
    pub actions: ActionBlock,
}

} // verus!
