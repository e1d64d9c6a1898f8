//! Literal values, the types of the language, and its operators.

use vstd::prelude::*;
use vstd::std_specs::ops::BitAndSpecImpl;

verus! {

/// The value of a numeric literal.
#[derive(Debug, Clone, Copy, PartialEq, Eq, Structural)]
pub enum LexerDigitalData {
    Integer(i64),
    /// A real number, held as the 64 bits of its IEEE 754 double.
    Float(u64),
}

/// The type of a variable or of an expression. The payload is present once
/// the variable has been given a value.
#[derive(Debug, Clone, Copy, PartialEq, Eq, Structural)]
pub enum ProgramTypes {
    Integer(Option<i64>),
    Float(Option<u64>),
    Boolean(Option<bool>),
}

/// The three types of the language, without payload.
#[derive(Debug, Clone, Copy, PartialEq, Eq, Structural)]
pub enum Kind {
    Integer,
    Real,
    Boolean,
}

impl ProgramTypes {
    /// The type without its payload.
    pub open spec fn kind(self) -> Kind {
        match self {
            ProgramTypes::Integer(_) => Kind::Integer,
            ProgramTypes::Float(_) => Kind::Real,
            ProgramTypes::Boolean(_) => Kind::Boolean,
        }
    }

    /// Whether a value has been stored.
    pub open spec fn has_value(self) -> bool {
        match self {
            ProgramTypes::Integer(v) => v.is_some(),
            ProgramTypes::Float(v) => v.is_some(),
            ProgramTypes::Boolean(v) => v.is_some(),
        }
    }

    /// The name of the type in the language.
    pub open spec fn name(self) -> Seq<char> {
        match self {
            ProgramTypes::Boolean(_) => "boolean"@,
            ProgramTypes::Float(_) => "real"@,
            ProgramTypes::Integer(_) => "integer"@,
        }
    }

    /// Executable form of [`ProgramTypes::kind`].
    pub fn get_kind(&self) -> (r: Kind)
        ensures
            r == self.kind(),
    {
        match self {
            ProgramTypes::Integer(_) => Kind::Integer,
            ProgramTypes::Float(_) => Kind::Real,
            ProgramTypes::Boolean(_) => Kind::Boolean,
        }
    }

    /// Executable form of [`ProgramTypes::name`].
    pub fn as_text(&self) -> (r: &'static str)
        ensures
            r@ == self.name(),
    {
        match self {
            ProgramTypes::Boolean(_) => "boolean",
            ProgramTypes::Float(_) => "real",
            ProgramTypes::Integer(_) => "integer",
        }
    }
}

impl BitAndSpecImpl for ProgramTypes {
    open spec fn obeys_bitand_spec() -> bool {
        true
    }

    open spec fn bitand_req(self, rhs: ProgramTypes) -> bool {
        true
    }

    open spec fn bitand_spec(self, rhs: ProgramTypes) -> bool {
        self.kind() == rhs.kind()
    }
}

impl std::ops::BitAnd for ProgramTypes {
    type Output = bool;

    /// `a & b` holds when both are the same type, whatever their payloads.
    fn bitand(self, rhs: ProgramTypes) -> (r: bool)
        ensures
            r == (self.kind() == rhs.kind()),
    {
        let a: u8 = match self {
            ProgramTypes::Integer(_) => 0,
            ProgramTypes::Float(_) => 1,
            ProgramTypes::Boolean(_) => 2,
        };
        let b: u8 = match rhs {
            ProgramTypes::Integer(_) => 0,
            ProgramTypes::Float(_) => 1,
            ProgramTypes::Boolean(_) => 2,
        };
        a == b
    }
}

/// The comparison operators.
#[derive(Debug, Clone, Copy, PartialEq, Eq, Structural)]
pub enum RelationOperations {
    NotEqual,
    Equal,
    Less,
    Greater,
    LessEqual,
    GreaterEqual,
}

impl RelationOperations {
    /// The operator as it is written in the language.
    pub open spec fn symbol(self) -> Seq<char> {
        match self {
            RelationOperations::Equal => "=="@,
            RelationOperations::Greater => ">"@,
            RelationOperations::GreaterEqual => ">="@,
            RelationOperations::Less => "<"@,
            RelationOperations::LessEqual => "<="@,
            RelationOperations::NotEqual => "!="@,
        }
    }

    /// Executable form of [`RelationOperations::symbol`].
    pub fn into(self) -> (r: String)
        ensures
            r@ == self.symbol(),
    {
        match self {
            RelationOperations::Equal => "==",
            RelationOperations::Greater => ">",
            RelationOperations::GreaterEqual => ">=",
            RelationOperations::Less => "<",
            RelationOperations::LessEqual => "<=",
            RelationOperations::NotEqual => "!=",
        }.to_owned()
    }
}

/// The operators that join terms.
#[derive(Debug, Clone, Copy, PartialEq, Eq, Structural)]
pub enum AdditionOperations {
    Addition,
    Subtraction,
    Or,
}

impl AdditionOperations {
    /// The operator as it is written in the language.
    pub open spec fn symbol(self) -> Seq<char> {
        match self {
            AdditionOperations::Addition => "+"@,
            AdditionOperations::Subtraction => "-"@,
            AdditionOperations::Or => "||"@,
        }
    }

    /// Executable form of [`AdditionOperations::symbol`].
    pub fn sign(&self) -> (r: &'static str)
        ensures
            r@ == self.symbol(),
    {
        match self {
            AdditionOperations::Addition => "+",
            AdditionOperations::Subtraction => "-",
            AdditionOperations::Or => "||",
        }
    }
}

/// The operators that join multipliers.
#[derive(Debug, Clone, Copy, PartialEq, Eq, Structural)]
pub enum MultiplicationOperations {
    Multiplication,
    Division,
    And,
}

impl MultiplicationOperations {
    /// The operator as it is written in the language.
    pub open spec fn symbol(self) -> Seq<char> {
        match self {
            MultiplicationOperations::Multiplication => "*"@,
            MultiplicationOperations::Division => "/"@,
            MultiplicationOperations::And => "&&"@,
        }
    }

    /// Executable form of [`MultiplicationOperations::symbol`].
    pub fn sign(&self) -> (r: &'static str)
        ensures
            r@ == self.symbol(),
    {
        match self {
            MultiplicationOperations::Multiplication => "*",
            MultiplicationOperations::Division => "/",
            MultiplicationOperations::And => "&&",
        }
    }
}

} // verus!
