use vstd::prelude::*;

use crate::issue::{fatal_issue, is_fatal_issue, GeneralIssue, IssuePosition};
use crate::token::{CalculationOperator, ContainerType, DecoratedToken, Operator, OperatorType};

verus! {

/// An expression in postfix (reverse-Polish) order; brackets have been consumed.
#[derive(Clone, Debug)]
pub struct Expression {
    pub postfix_expr: Vec<DecoratedToken>,
}

/// Operators that may stand inside an expression: every class but assignment.
pub open spec fn spec_is_operator(token: DecoratedToken) -> bool {
    token is Operator && !(token->Operator_0 is Assignment)
}

/// An opening or a closing round bracket.
pub open spec fn spec_is_bracket(token: DecoratedToken) -> bool {
    token.is_container(ContainerType::Bracket) || token.is_container(ContainerType::AntiBracket)
}

/// Binding strength: calculation above relation above logical, and inside calculation
/// the multiplicative operators above the additive ones.
pub open spec fn operator_priority(op: Operator) -> int {
    match op {
        Operator::Calculation(CalculationOperator::Plus) => 3,
        Operator::Calculation(CalculationOperator::Minus) => 3,
        Operator::Calculation(_) => 4,
        Operator::Relation(_) => 2,
        Operator::Logical(_) => 1,
        Operator::Assignment => 0,
    }
}

/// `a` binds at least as strongly as `b`.
pub open spec fn spec_priority_is_higher(a: DecoratedToken, b: DecoratedToken) -> bool {
    operator_priority(a->Operator_0) >= operator_priority(b->Operator_0)
}

/// Moves operators from the top of the stack to the output while they bind at least
/// as strongly as `op`; stops at an opening bracket.
pub open spec fn pop_higher(out: Seq<DecoratedToken>, stack: Seq<DecoratedToken>, op: DecoratedToken) -> (
    Seq<DecoratedToken>,
    Seq<DecoratedToken>,
)
    decreases stack.len(),
{
    if stack.len() > 0 && spec_is_operator(stack.last()) && spec_priority_is_higher(stack.last(), op) {
        pop_higher(out.push(stack.last()), stack.drop_last(), op)
    } else {
        (out, stack)
    }
}

/// Moves operators to the output up to the nearest opening bracket, which is dropped;
/// `None` when the stack holds no opening bracket.
pub open spec fn pop_to_bracket(out: Seq<DecoratedToken>, stack: Seq<DecoratedToken>) -> Option<
    (Seq<DecoratedToken>, Seq<DecoratedToken>),
>
    decreases stack.len(),
{
    if stack.len() == 0 {
        None
    } else if stack.last().is_container(ContainerType::Bracket) {
        Some((out, stack.drop_last()))
    } else {
        pop_to_bracket(out.push(stack.last()), stack.drop_last())
    }
}

/// One token of the conversion, on the pair (output, operator stack).
pub open spec fn shunt_step(
    state: Option<(Seq<DecoratedToken>, Seq<DecoratedToken>)>,
    token: DecoratedToken,
) -> Option<(Seq<DecoratedToken>, Seq<DecoratedToken>)> {
    match state {
        None => None,
        Some((out, stack)) => {
            if token.is_data() {
                Some((out.push(token), stack))
            } else if token.is_container(ContainerType::Bracket) {
                Some((out, stack.push(token)))
            } else if token.is_container(ContainerType::AntiBracket) {
                pop_to_bracket(out, stack)
            } else if spec_is_operator(token) {
                let (o, s) = pop_higher(out, stack, token);
                Some((o, s.push(token)))
            } else {
                None
            }
        },
    }
}

/// The (output, operator stack) pair after reading all of `tokens`.
pub open spec fn shunt(tokens: Seq<DecoratedToken>) -> Option<(Seq<DecoratedToken>, Seq<DecoratedToken>)>
    decreases tokens.len(),
{
    if tokens.len() == 0 {
        Some((Seq::empty(), Seq::empty()))
    } else {
        shunt_step(shunt(tokens.drop_last()), tokens.last())
    }
}

/// Moves the rest of the stack to the output, top first; an opening bracket left
/// there has no partner.
pub open spec fn flush(out: Seq<DecoratedToken>, stack: Seq<DecoratedToken>) -> Option<Seq<DecoratedToken>>
    decreases stack.len(),
{
    if stack.len() == 0 {
        Some(out)
    } else if stack.last().is_container(ContainerType::Bracket) {
        None
    } else {
        flush(out.push(stack.last()), stack.drop_last())
    }
}

/// The postfix form of an infix token sequence; `None` for an illegal token or
/// unbalanced brackets.
pub open spec fn postfix_of(tokens: Seq<DecoratedToken>) -> Option<Seq<DecoratedToken>> {
    match shunt(tokens) {
        None => None,
        Some((out, stack)) => flush(out, stack),
    }
}

/// How many tokens of `s` satisfy `f`.
pub open spec fn count_where(s: Seq<DecoratedToken>, f: spec_fn(DecoratedToken) -> bool) -> nat
    decreases s.len(),
{
    if s.len() == 0 {
        0
    } else {
        count_where(s.drop_last(), f) + if f(s.last()) {
            1nat
        } else {
            0nat
        }
    }
}

/// Operand tokens: identifiers and literals.
pub open spec fn data_token() -> spec_fn(DecoratedToken) -> bool {
    |t: DecoratedToken| t.is_data()
}

/// Operator tokens that may stand in an expression.
pub open spec fn operator_token() -> spec_fn(DecoratedToken) -> bool {
    |t: DecoratedToken| spec_is_operator(t)
}

/// Round brackets, opening or closing.
pub open spec fn bracket_token() -> spec_fn(DecoratedToken) -> bool {
    |t: DecoratedToken| spec_is_bracket(t)
}

proof fn lemma_count_push(s: Seq<DecoratedToken>, x: DecoratedToken, f: spec_fn(DecoratedToken) -> bool)
    ensures
        count_where(s.push(x), f) == count_where(s, f) + if f(x) {
            1nat
        } else {
            0nat
        },
{
    assert(s.push(x).drop_last() =~= s);
}

/// What holds of an (output, stack) pair during the conversion of `prefix`.
pub open spec fn shunt_counts(prefix: Seq<DecoratedToken>, out: Seq<DecoratedToken>, stack: Seq<DecoratedToken>) -> bool {
    &&& count_where(out, data_token()) == count_where(prefix, data_token())
    &&& count_where(stack, data_token()) == 0
    &&& count_where(out, operator_token()) + count_where(stack, operator_token()) == count_where(
        prefix,
        operator_token(),
    )
    &&& count_where(out, bracket_token()) == 0
    &&& forall|i: int| 0 <= i < out.len() ==> (#[trigger] out[i]).is_data() || spec_is_operator(out[i])
    &&& forall|i: int|
        0 <= i < stack.len() ==> spec_is_operator(#[trigger] stack[i]) || stack[i].is_container(
            ContainerType::Bracket,
        )
}

proof fn lemma_pop_higher_counts(
    prefix: Seq<DecoratedToken>,
    out: Seq<DecoratedToken>,
    stack: Seq<DecoratedToken>,
    op: DecoratedToken,
)
    requires
        shunt_counts(prefix, out, stack),
    ensures
        shunt_counts(prefix, pop_higher(out, stack, op).0, pop_higher(out, stack, op).1),
    decreases stack.len(),
{
    if stack.len() > 0 && spec_is_operator(stack.last()) && spec_priority_is_higher(stack.last(), op) {
        let x = stack.last();
        assert(stack.drop_last().push(x) =~= stack);
        lemma_count_push(stack.drop_last(), x, data_token());
        lemma_count_push(stack.drop_last(), x, operator_token());
        lemma_count_push(out, x, data_token());
        lemma_count_push(out, x, operator_token());
        lemma_count_push(out, x, bracket_token());
        lemma_pop_higher_counts(prefix, out.push(x), stack.drop_last(), op);
    }
}

proof fn lemma_pop_to_bracket_counts(
    prefix: Seq<DecoratedToken>,
    out: Seq<DecoratedToken>,
    stack: Seq<DecoratedToken>,
)
    requires
        shunt_counts(prefix, out, stack),
        pop_to_bracket(out, stack) is Some,
    ensures
        shunt_counts(prefix, pop_to_bracket(out, stack)->Some_0.0, pop_to_bracket(out, stack)->Some_0.1),
    decreases stack.len(),
{
    let x = stack.last();
    assert(stack.drop_last().push(x) =~= stack);
    lemma_count_push(stack.drop_last(), x, data_token());
    lemma_count_push(stack.drop_last(), x, operator_token());
    if !x.is_container(ContainerType::Bracket) {
        lemma_count_push(out, x, data_token());
        lemma_count_push(out, x, operator_token());
        lemma_count_push(out, x, bracket_token());
        lemma_pop_to_bracket_counts(prefix, out.push(x), stack.drop_last());
    }
}

proof fn lemma_flush_counts(prefix: Seq<DecoratedToken>, out: Seq<DecoratedToken>, stack: Seq<DecoratedToken>)
    requires
        shunt_counts(prefix, out, stack),
        flush(out, stack) is Some,
    ensures
        shunt_counts(prefix, flush(out, stack)->Some_0, Seq::empty()),
    decreases stack.len(),
{
    if stack.len() > 0 {
        let x = stack.last();
        assert(stack.drop_last().push(x) =~= stack);
        lemma_count_push(stack.drop_last(), x, data_token());
        lemma_count_push(stack.drop_last(), x, operator_token());
        lemma_count_push(out, x, data_token());
        lemma_count_push(out, x, operator_token());
        lemma_count_push(out, x, bracket_token());
        lemma_flush_counts(prefix, out.push(x), stack.drop_last());
    }
}

proof fn lemma_shunt_counts(tokens: Seq<DecoratedToken>)
    requires
        shunt(tokens) is Some,
    ensures
        shunt_counts(tokens, shunt(tokens)->Some_0.0, shunt(tokens)->Some_0.1),
    decreases tokens.len(),
{
    if tokens.len() > 0 {
        let prev = tokens.drop_last();
        let x = tokens.last();
        assert(prev.push(x) =~= tokens);
        lemma_shunt_counts(prev);
        let (out, stack) = shunt(prev)->Some_0;
        lemma_count_push(prev, x, data_token());
        lemma_count_push(prev, x, operator_token());
        if x.is_data() {
            lemma_count_push(out, x, data_token());
            lemma_count_push(out, x, operator_token());
            lemma_count_push(out, x, bracket_token());
        } else if x.is_container(ContainerType::Bracket) {
            lemma_count_push(stack, x, data_token());
            lemma_count_push(stack, x, operator_token());
        } else if x.is_container(ContainerType::AntiBracket) {
            assert(shunt_counts(tokens, out, stack));
            lemma_pop_to_bracket_counts(tokens, out, stack);
        } else {
            lemma_pop_higher_counts(prev, out, stack, x);
            let (o, st) = pop_higher(out, stack, x);
            lemma_count_push(st, x, data_token());
            lemma_count_push(st, x, operator_token());
            assert(shunt_counts(tokens, o, st.push(x)));
        }
    }
}

/// The postfix form keeps every operand and every operator of the infix form, each
/// exactly as often, and holds no bracket.
pub proof fn lemma_postfix_keeps_tokens(tokens: Seq<DecoratedToken>)
    requires
        postfix_of(tokens) is Some,
    ensures
        count_where(postfix_of(tokens)->Some_0, data_token()) == count_where(tokens, data_token()),
        count_where(postfix_of(tokens)->Some_0, operator_token()) == count_where(tokens, operator_token()),
        count_where(postfix_of(tokens)->Some_0, bracket_token()) == 0,
{
    lemma_shunt_counts(tokens);
    let (out, stack) = shunt(tokens)->Some_0;
    lemma_flush_counts(tokens, out, stack);
}

/// An expression tree, the form from which both the infix and the postfix sequence of
/// an expression are read.
pub enum ExpressionTree {
    Leaf(DecoratedToken),
    Node(Box<ExpressionTree>, DecoratedToken, Box<ExpressionTree>),
}

/// Leaves are operands and inner nodes are operators.
pub open spec fn tree_well_formed(t: ExpressionTree) -> bool
    decreases t,
{
    match t {
        ExpressionTree::Leaf(d) => d.is_data(),
        ExpressionTree::Node(l, op, r) => spec_is_operator(op) && tree_well_formed(*l) && tree_well_formed(*r),
    }
}

/// The postfix sequence of a tree.
pub open spec fn tree_postfix(t: ExpressionTree) -> Seq<DecoratedToken>
    decreases t,
{
    match t {
        ExpressionTree::Leaf(d) => seq![d],
        ExpressionTree::Node(l, op, r) => tree_postfix(*l) + tree_postfix(*r) + seq![op],
    }
}

/// The fully bracketed infix sequence of a tree: the inverse of the conversion.
pub open spec fn tree_infix(t: ExpressionTree) -> Seq<DecoratedToken>
    decreases t,
{
    match t {
        ExpressionTree::Leaf(d) => seq![d],
        ExpressionTree::Node(l, op, r) => seq![DecoratedToken::Container(ContainerType::Bracket)] + tree_infix(*l)
            + seq![op] + tree_infix(*r) + seq![DecoratedToken::Container(ContainerType::AntiBracket)],
    }
}

/// The conversion continued from `state` over `tokens`.
pub open spec fn shunt_run(
    state: Option<(Seq<DecoratedToken>, Seq<DecoratedToken>)>,
    tokens: Seq<DecoratedToken>,
) -> Option<(Seq<DecoratedToken>, Seq<DecoratedToken>)>
    decreases tokens.len(),
{
    if tokens.len() == 0 {
        state
    } else {
        shunt_step(shunt_run(state, tokens.drop_last()), tokens.last())
    }
}

proof fn lemma_shunt_concat(s: Seq<DecoratedToken>, f: Seq<DecoratedToken>)
    ensures
        shunt(s + f) == shunt_run(shunt(s), f),
    decreases f.len(),
{
    if f.len() == 0 {
        assert(s + f =~= s);
    } else {
        assert((s + f).drop_last() =~= s + f.drop_last());
        assert((s + f).last() == f.last());
        lemma_shunt_concat(s, f.drop_last());
    }
}

proof fn lemma_run_concat(
    state: Option<(Seq<DecoratedToken>, Seq<DecoratedToken>)>,
    a: Seq<DecoratedToken>,
    b: Seq<DecoratedToken>,
)
    ensures
        shunt_run(state, a + b) == shunt_run(shunt_run(state, a), b),
    decreases b.len(),
{
    if b.len() == 0 {
        assert(a + b =~= a);
    } else {
        assert((a + b).drop_last() =~= a + b.drop_last());
        assert((a + b).last() == b.last());
        lemma_run_concat(state, a, b.drop_last());
    }
}

proof fn lemma_run_single(state: Option<(Seq<DecoratedToken>, Seq<DecoratedToken>)>, t: DecoratedToken)
    ensures
        shunt_run(state, seq![t]) == shunt_step(state, t),
{
    let e = Seq::<DecoratedToken>::empty();
    assert(seq![t].drop_last() =~= e);
    assert(shunt_run(state, e) == state);
    assert(seq![t].last() == t);
}

proof fn lemma_run_tree(t: ExpressionTree, out: Seq<DecoratedToken>, stack: Seq<DecoratedToken>)
    requires
        tree_well_formed(t),
    ensures
        shunt_run(Some((out, stack)), tree_infix(t)) == Some((out + tree_postfix(t), stack)),
    decreases t,
{
    match t {
        ExpressionTree::Leaf(d) => {
            lemma_run_single(Some((out, stack)), d);
        },
        ExpressionTree::Node(l, op, r) => {
            let open = seq![DecoratedToken::Container(ContainerType::Bracket)];
            let close = seq![DecoratedToken::Container(ContainerType::AntiBracket)];
            let il = tree_infix(*l);
            let ir = tree_infix(*r);
            let st0 = Some((out, stack));
            lemma_run_concat(st0, open + il + seq![op] + ir, close);
            lemma_run_concat(st0, open + il + seq![op], ir);
            lemma_run_concat(st0, open + il, seq![op]);
            lemma_run_concat(st0, open, il);
            lemma_run_single(st0, open[0]);
            let stack1 = stack.push(open[0]);
            lemma_run_tree(*l, out, stack1);
            let out2 = out + tree_postfix(*l);
            lemma_run_single(Some((out2, stack1)), op);
            assert(pop_higher(out2, stack1, op) == (out2, stack1));
            let stack2 = stack1.push(op);
            lemma_run_tree(*r, out2, stack2);
            let out3 = out2 + tree_postfix(*r);
            lemma_run_single(Some((out3, stack2)), close[0]);
            assert(stack2.drop_last() =~= stack1);
            assert(stack1.drop_last() =~= stack);
            assert(pop_to_bracket(out3, stack2) == pop_to_bracket(out3.push(op), stack1));
            assert(out3.push(op) =~= out + tree_postfix(t));
        },
    }
}

/// Round trip: converting the fully bracketed infix form of any well-formed expression
/// tree gives back exactly the tree's postfix sequence.
pub proof fn lemma_postfix_of_infix(t: ExpressionTree)
    requires
        tree_well_formed(t),
    ensures
        postfix_of(tree_infix(t)) == Some(tree_postfix(t)),
{
    let e = Seq::<DecoratedToken>::empty();
    lemma_shunt_concat(e, tree_infix(t));
    assert(e + tree_infix(t) =~= tree_infix(t));
    lemma_run_tree(t, e, e);
    assert(e + tree_postfix(t) =~= tree_postfix(t));
}

proof fn lemma_count_concat(a: Seq<DecoratedToken>, b: Seq<DecoratedToken>, f: spec_fn(DecoratedToken) -> bool)
    ensures
        count_where(a + b, f) == count_where(a, f) + count_where(b, f),
    decreases b.len(),
{
    if b.len() == 0 {
        assert(a + b =~= a);
    } else {
        assert((a + b).drop_last() =~= a + b.drop_last());
        assert((a + b).last() == b.last());
        lemma_count_concat(a, b.drop_last(), f);
    }
}

proof fn lemma_tree_counts(t: ExpressionTree)
    requires
        tree_well_formed(t),
    ensures
        count_where(tree_postfix(t), data_token()) == count_where(tree_postfix(t), operator_token()) + 1,
    decreases t,
{
    match t {
        ExpressionTree::Leaf(d) => {
            lemma_count_push(Seq::empty(), d, data_token());
            lemma_count_push(Seq::empty(), d, operator_token());
            assert(Seq::<DecoratedToken>::empty().push(d) =~= seq![d]);
        },
        ExpressionTree::Node(l, op, r) => {
            lemma_tree_counts(*l);
            lemma_tree_counts(*r);
            let lr = tree_postfix(*l) + tree_postfix(*r);
            lemma_count_concat(tree_postfix(*l), tree_postfix(*r), data_token());
            lemma_count_concat(tree_postfix(*l), tree_postfix(*r), operator_token());
            lemma_count_push(lr, op, data_token());
            lemma_count_push(lr, op, operator_token());
            assert(lr.push(op) =~= tree_postfix(t));
        },
    }
}

/// For a well-formed expression, the postfix form holds exactly one operand more than
/// it holds operators, every operator of the input, and no bracket.
pub proof fn lemma_postfix_operand_count(t: ExpressionTree)
    requires
        tree_well_formed(t),
    ensures
        postfix_of(tree_infix(t)) is Some,
        count_where(postfix_of(tree_infix(t))->Some_0, data_token()) == count_where(
            postfix_of(tree_infix(t))->Some_0,
            operator_token(),
        ) + 1,
        count_where(postfix_of(tree_infix(t))->Some_0, operator_token()) == count_where(
            tree_infix(t),
            operator_token(),
        ),
        count_where(postfix_of(tree_infix(t))->Some_0, bracket_token()) == 0,
{
    lemma_postfix_of_infix(t);
    lemma_tree_counts(t);
    lemma_postfix_keeps_tokens(tree_infix(t));
}

/// `s` without its round brackets.
pub open spec fn strip_brackets(s: Seq<DecoratedToken>) -> Seq<DecoratedToken>
    decreases s.len(),
{
    if s.len() == 0 {
        s
    } else if spec_is_bracket(s.last()) {
        strip_brackets(s.drop_last())
    } else {
        strip_brackets(s.drop_last()).push(s.last())
    }
}

/// Operands and operators alternate, starting and ending with an operand.
pub open spec fn alternating(s: Seq<DecoratedToken>) -> bool {
    &&& s.len() % 2 == 1
    &&& forall|i: int| 0 <= i < s.len() ==> (i % 2 == 0 ==> (#[trigger] s[i]).is_data()) && (i % 2 == 1
        ==> spec_is_operator(s[i]))
}

proof fn lemma_strip_keeps_counts(s: Seq<DecoratedToken>)
    ensures
        count_where(strip_brackets(s), data_token()) == count_where(s, data_token()),
        count_where(strip_brackets(s), operator_token()) == count_where(s, operator_token()),
    decreases s.len(),
{
    if s.len() > 0 {
        lemma_strip_keeps_counts(s.drop_last());
        if !spec_is_bracket(s.last()) {
            lemma_count_push(strip_brackets(s.drop_last()), s.last(), data_token());
            lemma_count_push(strip_brackets(s.drop_last()), s.last(), operator_token());
        }
    }
}

proof fn lemma_alternating_counts(t: Seq<DecoratedToken>, k: int)
    requires
        alternating(t),
        0 <= k <= t.len(),
    ensures
        count_where(t.take(k), data_token()) == (k + 1) / 2,
        count_where(t.take(k), operator_token()) == k / 2,
    decreases k,
{
    if k == 0 {
        assert(t.take(0) =~= Seq::<DecoratedToken>::empty());
    } else {
        lemma_alternating_counts(t, k - 1);
        assert(t.take(k) =~= t.take(k - 1).push(t[k - 1]));
        lemma_count_push(t.take(k - 1), t[k - 1], data_token());
        lemma_count_push(t.take(k - 1), t[k - 1], operator_token());
    }
}

proof fn lemma_count_partition(s: Seq<DecoratedToken>)
    requires
        forall|i: int| 0 <= i < s.len() ==> (#[trigger] s[i]).is_data() || spec_is_operator(s[i]),
    ensures
        count_where(s, data_token()) + count_where(s, operator_token()) == s.len(),
    decreases s.len(),
{
    if s.len() > 0 {
        lemma_count_partition(s.drop_last());
    }
}

/// For a well-formed infix expression (operands and operators alternating once round
/// brackets are set aside) that converts, the postfix form holds the expression's `n`
/// operators, `n + 1` operands and nothing else.
pub proof fn lemma_well_formed_infix_counts(tokens: Seq<DecoratedToken>)
    requires
        alternating(strip_brackets(tokens)),
        postfix_of(tokens) is Some,
    ensures
        ({
            let out = postfix_of(tokens)->Some_0;
            let n = count_where(tokens, operator_token());
            &&& count_where(out, data_token()) == n + 1
            &&& count_where(out, operator_token()) == n
            &&& out.len() == 2 * n + 1
        }),
{
    let t = strip_brackets(tokens);
    lemma_strip_keeps_counts(tokens);
    lemma_alternating_counts(t, t.len() as int);
    assert(t.take(t.len() as int) =~= t);
    lemma_postfix_keeps_tokens(tokens);
    lemma_shunt_counts(tokens);
    let (o, st) = shunt(tokens)->Some_0;
    lemma_flush_counts(tokens, o, st);
    lemma_count_partition(postfix_of(tokens)->Some_0);
}

/// Opening round brackets.
pub open spec fn open_bracket_token() -> spec_fn(DecoratedToken) -> bool {
    |t: DecoratedToken| t.is_container(ContainerType::Bracket)
}

/// Closing round brackets.
pub open spec fn close_bracket_token() -> spec_fn(DecoratedToken) -> bool {
    |t: DecoratedToken| t.is_container(ContainerType::AntiBracket)
}

/// No prefix closes more brackets than it opens, and the whole opens as many as it closes.
pub open spec fn brackets_balanced(s: Seq<DecoratedToken>) -> bool {
    &&& forall|k: int| 0 <= k <= s.len() ==> count_where(#[trigger] s.take(k), open_bracket_token())
        >= count_where(s.take(k), close_bracket_token())
    &&& count_where(s, open_bracket_token()) == count_where(s, close_bracket_token())
}

/// A well-formed infix expression: operands, operators and round brackets only, the
/// brackets balanced, and operands and operators alternating once brackets are set aside.
pub open spec fn well_formed_infix(s: Seq<DecoratedToken>) -> bool {
    &&& forall|i: int| 0 <= i < s.len() ==> (#[trigger] s[i]).is_data() || spec_is_operator(s[i])
        || spec_is_bracket(s[i])
    &&& brackets_balanced(s)
    &&& alternating(strip_brackets(s))
}

/// Every element of a stack is an operator or an opening bracket.
pub open spec fn stack_shape(stack: Seq<DecoratedToken>) -> bool {
    forall|i: int| 0 <= i < stack.len() ==> spec_is_operator(#[trigger] stack[i]) || stack[i].is_container(
        ContainerType::Bracket,
    )
}

proof fn lemma_pop_higher_keeps_opens(out: Seq<DecoratedToken>, stack: Seq<DecoratedToken>, op: DecoratedToken)
    requires
        stack_shape(stack),
    ensures
        stack_shape(pop_higher(out, stack, op).1),
        count_where(pop_higher(out, stack, op).1, open_bracket_token()) == count_where(stack, open_bracket_token()),
    decreases stack.len(),
{
    if stack.len() > 0 && spec_is_operator(stack.last()) && spec_priority_is_higher(stack.last(), op) {
        let x = stack.last();
        assert(stack.drop_last().push(x) =~= stack);
        lemma_count_push(stack.drop_last(), x, open_bracket_token());
        lemma_pop_higher_keeps_opens(out.push(x), stack.drop_last(), op);
    }
}

proof fn lemma_pop_to_bracket_some(out: Seq<DecoratedToken>, stack: Seq<DecoratedToken>)
    requires
        stack_shape(stack),
        count_where(stack, open_bracket_token()) >= 1,
    ensures
        pop_to_bracket(out, stack) is Some,
        stack_shape(pop_to_bracket(out, stack)->Some_0.1),
        count_where(pop_to_bracket(out, stack)->Some_0.1, open_bracket_token()) + 1 == count_where(
            stack,
            open_bracket_token(),
        ),
    decreases stack.len(),
{
    if stack.len() == 0 {
        assert(count_where(stack, open_bracket_token()) == 0);
    } else {
        let x = stack.last();
        assert(stack.drop_last().push(x) =~= stack);
        lemma_count_push(stack.drop_last(), x, open_bracket_token());
        if !x.is_container(ContainerType::Bracket) {
            lemma_pop_to_bracket_some(out.push(x), stack.drop_last());
        }
    }
}

proof fn lemma_flush_some(out: Seq<DecoratedToken>, stack: Seq<DecoratedToken>)
    requires
        stack_shape(stack),
        count_where(stack, open_bracket_token()) == 0,
    ensures
        flush(out, stack) is Some,
    decreases stack.len(),
{
    if stack.len() > 0 {
        let x = stack.last();
        assert(stack.drop_last().push(x) =~= stack);
        lemma_count_push(stack.drop_last(), x, open_bracket_token());
        lemma_flush_some(out.push(x), stack.drop_last());
    }
}

proof fn lemma_shunt_some(tokens: Seq<DecoratedToken>, k: int)
    requires
        well_formed_infix(tokens),
        0 <= k <= tokens.len(),
    ensures
        shunt(tokens.take(k)) is Some,
        stack_shape(shunt(tokens.take(k))->Some_0.1),
        count_where(shunt(tokens.take(k))->Some_0.1, open_bracket_token()) == count_where(
            tokens.take(k),
            open_bracket_token(),
        ) - count_where(tokens.take(k), close_bracket_token()),
    decreases k,
{
    if k == 0 {
        assert(tokens.take(0) =~= Seq::<DecoratedToken>::empty());
    } else {
        lemma_shunt_some(tokens, k - 1);
        let prev = tokens.take(k - 1);
        let x = tokens[k - 1];
        assert(tokens.take(k).drop_last() =~= prev);
        assert(tokens.take(k).last() == x);
        assert(prev.push(x) =~= tokens.take(k));
        lemma_count_push(prev, x, open_bracket_token());
        lemma_count_push(prev, x, close_bracket_token());
        let (out, stack) = shunt(prev)->Some_0;
        assert(spec_is_bracket(x) || x.is_data() || spec_is_operator(x));
        if x.is_data() {
        } else if x.is_container(ContainerType::Bracket) {
            lemma_count_push(stack, x, open_bracket_token());
        } else if x.is_container(ContainerType::AntiBracket) {
            assert(count_where(tokens.take(k), open_bracket_token()) >= count_where(
                tokens.take(k),
                close_bracket_token(),
            ));
            lemma_pop_to_bracket_some(out, stack);
        } else {
            lemma_pop_higher_keeps_opens(out, stack, x);
            let (o, st) = pop_higher(out, stack, x);
            lemma_count_push(st, x, open_bracket_token());
        }
    }
}

/// Every well-formed infix expression converts, and its postfix form holds the
/// expression's `n` operators, `n + 1` operands and nothing else.
pub proof fn lemma_well_formed_infix_converts(tokens: Seq<DecoratedToken>)
    requires
        well_formed_infix(tokens),
    ensures
        postfix_of(tokens) is Some,
        ({
            let out = postfix_of(tokens)->Some_0;
            let n = count_where(tokens, operator_token());
            &&& count_where(out, data_token()) == n + 1
            &&& count_where(out, operator_token()) == n
            &&& out.len() == 2 * n + 1
        }),
{
    lemma_shunt_some(tokens, tokens.len() as int);
    assert(tokens.take(tokens.len() as int) =~= tokens);
    let (out, stack) = shunt(tokens)->Some_0;
    lemma_flush_some(out, stack);
    lemma_well_formed_infix_counts(tokens);
}

/// Converts an infix token sequence to postfix order (shunting-yard, left-associative).
pub fn expression_infix_to_postfix(tokens: Vec<DecoratedToken>) -> (r: Result<
    Vec<DecoratedToken>,
    GeneralIssue<String>,
>)
    ensures
        match r {
            Ok(v) => postfix_of(tokens@) == Some(v@),
            Err(e) => postfix_of(tokens@) is None && is_fatal_issue(e, IssuePosition::CodeGeneration),
        },
{
    let mut result: Vec<DecoratedToken> = Vec::new();
    let mut operator_stack: Vec<DecoratedToken> = Vec::new();
    let n = tokens.len();
    let mut i: usize = 0;
    while i < n
        invariant
            i <= n,
            n == tokens@.len(),
            shunt(tokens@.take(i as int)) == Some((result@, operator_stack@)),
        decreases n - i,
    {
        let token = tokens[i].clone();
        proof {
            assert(tokens@.take(i + 1).drop_last() =~= tokens@.take(i as int));
        }
        if token.is_data() {
            result.push(token);
        } else if is_bracket(&token) {
            if token.is_container(ContainerType::Bracket) {
                operator_stack.push(token);
            } else {
                let ghost goal = pop_to_bracket(result@, operator_stack@);
                assert(goal == shunt(tokens@.take(i + 1)));
                loop
                    invariant_except_break
                        pop_to_bracket(result@, operator_stack@) == goal,
                    invariant
                        i < n,
                        n == tokens@.len(),
                        goal == shunt(tokens@.take(i + 1)),
                    ensures
                        goal == Some((result@, operator_stack@)),
                    decreases operator_stack.len(),
                {
                    if operator_stack.len() == 0 {
                        proof {
                            lemma_shunt_none_extends(tokens@, i + 1);
                        }
                        return Err(fatal_issue(IssuePosition::CodeGeneration, "unbalanced", "closing bracket without opening bracket"));
                    }
                    let top = operator_stack.pop().unwrap();
                    if top.is_container(ContainerType::Bracket) {
                        break;
                    }
                    result.push(top);
                }
            }
        } else if is_operator(&token) {
            let ghost goal = pop_higher(result@, operator_stack@, token);
            loop
                invariant_except_break
                    pop_higher(result@, operator_stack@, token) == goal,
                invariant
                    spec_is_operator(token),
                ensures
                    goal == (result@, operator_stack@),
                decreases operator_stack.len(),
            {
                let len = operator_stack.len();
                if len == 0 {
                    break;
                }
                let higher = is_operator(&operator_stack[len - 1]) && priority_is_higher(
                    &operator_stack[len - 1],
                    &token,
                );
                if !higher {
                    break;
                }
                let top = operator_stack.pop().unwrap();
                result.push(top);
            }
            operator_stack.push(token);
        } else {
            proof {
                lemma_shunt_none_extends(tokens@, i + 1);
            }
            return Err(fatal_issue(IssuePosition::CodeGeneration, "illegal_token", "token cannot stand in an expression"));
        }
        i += 1;
    }
    proof {
        assert(tokens@.take(n as int) =~= tokens@);
    }
    let ghost goal = flush(result@, operator_stack@);
    while operator_stack.len() > 0
        invariant
            flush(result@, operator_stack@) == goal,
            goal == postfix_of(tokens@),
        decreases operator_stack.len(),
    {
        let top = operator_stack.pop().unwrap();
        if top.is_container(ContainerType::Bracket) {
            return Err(fatal_issue(IssuePosition::CodeGeneration, "unbalanced", "opening bracket without closing bracket"));
        }
        result.push(top);
    }
    Ok(result)
}

/// Once the conversion has failed on a prefix, it fails on the whole sequence.
proof fn lemma_shunt_none_extends(tokens: Seq<DecoratedToken>, k: int)
    requires
        0 <= k <= tokens.len(),
        shunt(tokens.take(k)) is None,
    ensures
        postfix_of(tokens) is None,
    decreases tokens.len() - k,
{
    if k == tokens.len() {
        assert(tokens.take(k) =~= tokens);
    } else {
        assert(tokens.take(k + 1).drop_last() =~= tokens.take(k));
        lemma_shunt_none_extends(tokens, k + 1);
    }
}

/// An operator of calculation, relation or logic (not assignment).
pub fn is_operator(token: &DecoratedToken) -> (r: bool)
    ensures
        r == spec_is_operator(*token),
{
    match token {
        DecoratedToken::Operator(op) => {
            let t = op.operator_type();
            t == OperatorType::Calculation || t == OperatorType::Relation || t == OperatorType::Logical
        },
        _ => false,
    }
}

/// An opening or closing round bracket.
pub fn is_bracket(token: &DecoratedToken) -> (r: bool)
    ensures
        r == spec_is_bracket(*token),
{
    token.is_container(ContainerType::Bracket) || token.is_container(ContainerType::AntiBracket)
}

fn class_priority(t: OperatorType) -> (r: u8)
    requires
        t != OperatorType::Assignment,
    ensures
        t == OperatorType::Logical ==> r == 1,
        t == OperatorType::Relation ==> r == 2,
        t == OperatorType::Calculation ==> r == 3,
{
    match t {
        OperatorType::Logical => 1,
        OperatorType::Relation => 2,
        _ => 3,
    }
}

fn calculation_priority(c: CalculationOperator) -> (r: u8)
    ensures
        r == (if c == CalculationOperator::Plus || c == CalculationOperator::Minus { 1u8 } else { 2u8 }),
{
    match c {
        CalculationOperator::Plus | CalculationOperator::Minus => 1,
        _ => 2,
    }
}

/// Whether `a` binds at least as strongly as `b`: first by operator class, then, for
/// two calculation operators, by sub-kind.
pub fn priority_is_higher(a: &DecoratedToken, b: &DecoratedToken) -> (r: bool)
    requires
        spec_is_operator(*a),
        spec_is_operator(*b),
    ensures
        r == spec_priority_is_higher(*a, *b),
{
    match (a, b) {
        (DecoratedToken::Operator(x), DecoratedToken::Operator(y)) => {
            let tx = x.operator_type();
            let ty = y.operator_type();
            if tx != ty {
                class_priority(tx) >= class_priority(ty)
            } else {
                match (x, y) {
                    (Operator::Calculation(cx), Operator::Calculation(cy)) => {
                        calculation_priority(*cx) >= calculation_priority(*cy)
                    },
                    _ => true,
                }
            }
        },
        _ => false,
    }
}

} // verus!
