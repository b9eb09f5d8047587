use vstd::prelude::*;

verus! {

/// Reserved words of the source language.
#[derive(Clone, Copy, PartialEq, Eq, Structural, Debug)]
pub enum KeywordType {
    Decl,
    Var,
    Const,
    If,
    Elif,
    Else,
    While,
    Loop,
    Break,
    Continue,
    Return,
    Switch,
    Case,
    Default,
    Link,
}

/// The kind of a literal token.
#[derive(Clone, Copy, PartialEq, Eq, Structural, Debug)]
pub enum LiteralType {
    Int,
    Float,
    Bool,
    Str,
}

#[derive(Clone, Copy, PartialEq, Eq, Structural, Debug)]
pub enum CalculationOperator {
    Plus,
    Minus,
    Times,
    Divide,
    Mod,
}

#[derive(Clone, Copy, PartialEq, Eq, Structural, Debug)]
pub enum RelationOperator {
    Less,
    LessEqual,
    Greater,
    GreaterEqual,
    Equal,
    NotEqual,
}

#[derive(Clone, Copy, PartialEq, Eq, Structural, Debug)]
pub enum LogicalOperator {
    And,
    Or,
    Not,
}

/// The class of an operator, without its sub-kind.
#[derive(Clone, Copy, PartialEq, Eq, Structural, Debug)]
pub enum OperatorType {
    Calculation,
    Relation,
    Logical,
    Assignment,
}

/// An operator: its class together with the sub-kind inside that class.
#[derive(Clone, Copy, PartialEq, Eq, Structural, Debug)]
pub enum Operator {
    Calculation(CalculationOperator),
    Relation(RelationOperator),
    Logical(LogicalOperator),
    Assignment,
}

impl Operator {
    pub open spec fn spec_operator_type(&self) -> OperatorType {
        match self {
            Operator::Calculation(_) => OperatorType::Calculation,
            Operator::Relation(_) => OperatorType::Relation,
            Operator::Logical(_) => OperatorType::Logical,
            Operator::Assignment => OperatorType::Assignment,
        }
    }

    #[verifier::when_used_as_spec(spec_operator_type)]
    pub fn operator_type(&self) -> (r: OperatorType)
        ensures
            r == self.spec_operator_type(),
    {
        match self {
            Operator::Calculation(_) => OperatorType::Calculation,
            Operator::Relation(_) => OperatorType::Relation,
            Operator::Logical(_) => OperatorType::Logical,
            Operator::Assignment => OperatorType::Assignment,
        }
    }
}

/// Punctuation that groups or separates other tokens.
#[derive(Clone, Copy, PartialEq, Eq, Structural, Debug)]
pub enum ContainerType {
    Bracket,
    AntiBracket,
    Brace,
    AntiBrace,
    Comma,
    Semicolon,
}

/// A token whose class has been determined.
#[derive(Debug)]
pub enum DecoratedToken {
    Keyword(KeywordType),
    Identifier(String),
    Literal(LiteralType, String),
    Operator(Operator),
    Container(ContainerType),
}

impl Clone for DecoratedToken {
    fn clone(&self) -> (r: Self)
        ensures
            r == *self,
    {
        match self {
            DecoratedToken::Keyword(k) => DecoratedToken::Keyword(*k),
            DecoratedToken::Identifier(s) => DecoratedToken::Identifier(s.clone()),
            DecoratedToken::Literal(k, v) => DecoratedToken::Literal(*k, v.clone()),
            DecoratedToken::Operator(o) => DecoratedToken::Operator(*o),
            DecoratedToken::Container(c) => DecoratedToken::Container(*c),
        }
    }
}

impl DecoratedToken {
    /// Identifiers and literals: the operands of an expression.
    pub open spec fn spec_is_data(&self) -> bool {
        self is Identifier || self is Literal
    }

    #[verifier::when_used_as_spec(spec_is_data)]
    pub fn is_data(&self) -> (r: bool)
        ensures
            r == self.spec_is_data(),
    {
        match self {
            DecoratedToken::Identifier(_) | DecoratedToken::Literal(_, _) => true,
            _ => false,
        }
    }

    pub open spec fn spec_is_valid_identifier(&self) -> bool {
        self is Identifier
    }

    #[verifier::when_used_as_spec(spec_is_valid_identifier)]
    pub fn is_valid_identifier(&self) -> (r: bool)
        ensures
            r == self.spec_is_valid_identifier(),
    {
        match self {
            DecoratedToken::Identifier(_) => true,
            _ => false,
        }
    }

    pub open spec fn spec_is_keyword(&self) -> bool {
        self is Keyword
    }

    #[verifier::when_used_as_spec(spec_is_keyword)]
    pub fn is_keyword(&self) -> (r: bool)
        ensures
            r == self.spec_is_keyword(),
    {
        match self {
            DecoratedToken::Keyword(_) => true,
            _ => false,
        }
    }

    pub open spec fn spec_is_container(&self, c: ContainerType) -> bool {
        self is Container && self->Container_0 == c
    }

    #[verifier::when_used_as_spec(spec_is_container)]
    pub fn is_container(&self, c: ContainerType) -> (r: bool)
        ensures
            r == self.spec_is_container(c),
    {
        match self {
            DecoratedToken::Container(x) => *x == c,
            _ => false,
        }
    }

    pub open spec fn spec_is_operator_of(&self, t: OperatorType) -> bool {
        self is Operator && self->Operator_0.spec_operator_type() == t
    }

    #[verifier::when_used_as_spec(spec_is_operator_of)]
    pub fn is_operator_of(&self, t: OperatorType) -> (r: bool)
        ensures
            r == self.spec_is_operator_of(t),
    {
        match self {
            DecoratedToken::Operator(o) => o.operator_type() == t,
            _ => false,
        }
    }
}

} // verus!
