//! The failures of each layer.

use vstd::prelude::*;
use vstd::string::StringExecFns;
use crate::ast::{debug_text, Stmt, StmtView};
use crate::number::{format_natural, natural_text};
use crate::text::push_char;
use crate::token::{kind_name, TokenType};

verus! {

/// Why a source text could not be split into tokens.
#[derive(Debug, PartialEq, Eq, Clone, Copy, Structural)]
pub enum LexerError {
    /// A character that starts no token.
    UnexpectedCharacter(char),
}

impl LexerError {
    /// The failure in words.
    pub open spec fn message_text(self) -> Seq<char> {
        match self {
            LexerError::UnexpectedCharacter(c) => "Unexpected character "@.push(c),
        }
    }

    /// The failure in words.
    pub fn message(&self) -> (text: String)
        ensures
            text@ == self.message_text(),
    {
        match self {
            LexerError::UnexpectedCharacter(c) => {
                let mut text = "Unexpected character ".to_owned();
                push_char(&mut text, *c);
                text
            },
        }
    }
}

/// Why a token stream is no program.
#[derive(Debug, PartialEq)]
pub enum ParseError {
    /// A token of the first kind was required where one of the second kind
    /// stood. The text says what was being parsed.
    ExpectedCharacter(TokenType, TokenType, String),
    /// A token was required where the stream had ended.
    ExpectedToken,
    /// A parameter of a function declaration that is no bare name.
    ExpectedParameterToBeString(Stmt),
    /// A token of a kind that starts no expression.
    UnsupportedTokenType(TokenType),
    /// A dot that no name follows.
    NoDotOperatorWithoutRhsIdentifier,
    /// A constant declared without a value.
    ConstValueRequired,
}

/// A parser failure as a mathematical value.
pub enum ParseErrorView {
    ExpectedCharacter(TokenType, TokenType, Seq<char>),
    ExpectedToken,
    ExpectedParameterToBeString(StmtView),
    UnsupportedTokenType(TokenType),
    NoDotOperatorWithoutRhsIdentifier,
    ConstValueRequired,
}

impl View for ParseError {
    type V = ParseErrorView;

    open spec fn view(&self) -> ParseErrorView {
        match self {
            ParseError::ExpectedCharacter(expected, found, context) => {
                ParseErrorView::ExpectedCharacter(*expected, *found, context@)
            },
            ParseError::ExpectedToken => ParseErrorView::ExpectedToken,
            ParseError::ExpectedParameterToBeString(stmt) => {
                ParseErrorView::ExpectedParameterToBeString(stmt@)
            },
            ParseError::UnsupportedTokenType(kind) => ParseErrorView::UnsupportedTokenType(*kind),
            ParseError::NoDotOperatorWithoutRhsIdentifier => {
                ParseErrorView::NoDotOperatorWithoutRhsIdentifier
            },
            ParseError::ConstValueRequired => ParseErrorView::ConstValueRequired,
        }
    }
}

impl ParseErrorView {
    /// The failure in words.
    pub open spec fn message(self) -> Seq<char> {
        match self {
            ParseErrorView::ExpectedCharacter(expected, found, context) => "\nExpected "@
                + kind_name(expected) + " but got "@ + kind_name(found) + ".\n"@ + context,
            ParseErrorView::ExpectedToken => "Expected a token but it returned nothing"@,
            ParseErrorView::ExpectedParameterToBeString(stmt) => "Expected parameter type "@
                + debug_text(stmt) + " to be of type string"@,
            ParseErrorView::UnsupportedTokenType(kind) => "Unsupported token "@ + kind_name(kind),
            ParseErrorView::NoDotOperatorWithoutRhsIdentifier => {
                "Cannot use dot operator without rhs being an identifier"@
            },
            ParseErrorView::ConstValueRequired => "A value is required for const assignment"@,
        }
    }
}

impl ParseError {
    /// The failure in words.
    pub fn message(&self) -> (text: String)
        ensures
            text@ == self@.message(),
    {
        match self {
            ParseError::ExpectedCharacter(expected, found, context) => {
                "\nExpected ".to_owned().concat(expected.name()).concat(" but got ").concat(
                    found.name(),
                ).concat(".\n").concat(context.as_str())
            },
            ParseError::ExpectedToken => "Expected a token but it returned nothing".to_owned(),
            ParseError::ExpectedParameterToBeString(stmt) => {
                "Expected parameter type ".to_owned().concat(stmt.debug().as_str()).concat(
                    " to be of type string",
                )
            },
            ParseError::UnsupportedTokenType(kind) => {
                "Unsupported token ".to_owned().concat(kind.name())
            },
            ParseError::NoDotOperatorWithoutRhsIdentifier => {
                "Cannot use dot operator without rhs being an identifier".to_owned()
            },
            ParseError::ConstValueRequired => {
                "A value is required for const assignment".to_owned()
            },
        }
    }
}

/// Why a scope refused an operation. Each failure names the variable.
#[derive(Debug, PartialEq, Eq)]
pub enum EnvError {
    /// The name is already declared in this scope.
    RedeclareVariable(String),
    /// The name resolves to a constant.
    ReassignVariable(String),
    /// No scope of the chain declares the name.
    VariableNotFound(String),
}

/// A scope failure as a mathematical value.
pub enum EnvErrorView {
    RedeclareVariable(Seq<char>),
    ReassignVariable(Seq<char>),
    VariableNotFound(Seq<char>),
}

impl View for EnvError {
    type V = EnvErrorView;

    open spec fn view(&self) -> EnvErrorView {
        match self {
            EnvError::RedeclareVariable(name) => EnvErrorView::RedeclareVariable(name@),
            EnvError::ReassignVariable(name) => EnvErrorView::ReassignVariable(name@),
            EnvError::VariableNotFound(name) => EnvErrorView::VariableNotFound(name@),
        }
    }
}

impl EnvErrorView {
    /// The failure in words.
    pub open spec fn message(self) -> Seq<char> {
        match self {
            EnvErrorView::RedeclareVariable(name) => "Cannot redeclare variable "@ + name,
            EnvErrorView::ReassignVariable(name) => "Cannot reassign to constant "@ + name,
            EnvErrorView::VariableNotFound(name) => "Cannot resolve "@ + name
                + " since it doesnt exist"@,
        }
    }
}

impl EnvError {
    /// The failure in words.
    pub fn message(&self) -> (text: String)
        ensures
            text@ == self@.message(),
    {
        match self {
            EnvError::RedeclareVariable(name) => {
                "Cannot redeclare variable ".to_owned().concat(name.as_str())
            },
            EnvError::ReassignVariable(name) => {
                "Cannot reassign to constant ".to_owned().concat(name.as_str())
            },
            EnvError::VariableNotFound(name) => {
                "Cannot resolve ".to_owned().concat(name.as_str()).concat(" since it doesnt exist")
            },
        }
    }
}

/// Why an expression has no value.
#[derive(Debug, PartialEq)]
pub enum EvalError {
    /// The target of an assignment is no bare name.
    InvalidAssignment,
    /// A binary operator that arithmetic does not know.
    InvalidOperator(String),
    /// A call of what is neither a function nor a native function. The
    /// node is the expression that was called.
    ValueNotAFunction(Stmt),
    /// A call with another number of arguments than the function has
    /// parameters.
    ArityMismatch { expected: usize, found: usize },
    /// A division or a remainder by zero.
    DivisionByZero,
    /// An operand whose text is no 64-bit signed integer.
    InvalidNumber(String),
    /// A result outside the 64-bit signed integers.
    ArithmeticOverflow,
    /// Calls nested deeper than the limit allows.
    CallDepthExceeded,
}

/// An evaluation failure as a mathematical value.
pub enum EvalErrorView {
    InvalidAssignment,
    InvalidOperator(Seq<char>),
    ValueNotAFunction(StmtView),
    ArityMismatch { expected: nat, found: nat },
    DivisionByZero,
    InvalidNumber(Seq<char>),
    ArithmeticOverflow,
    CallDepthExceeded,
}

impl View for EvalError {
    type V = EvalErrorView;

    open spec fn view(&self) -> EvalErrorView {
        match self {
            EvalError::InvalidAssignment => EvalErrorView::InvalidAssignment,
            EvalError::InvalidOperator(operator) => EvalErrorView::InvalidOperator(operator@),
            EvalError::ValueNotAFunction(stmt) => EvalErrorView::ValueNotAFunction(stmt@),
            EvalError::ArityMismatch { expected, found } => EvalErrorView::ArityMismatch {
                expected: *expected as nat,
                found: *found as nat,
            },
            EvalError::DivisionByZero => EvalErrorView::DivisionByZero,
            EvalError::InvalidNumber(text) => EvalErrorView::InvalidNumber(text@),
            EvalError::ArithmeticOverflow => EvalErrorView::ArithmeticOverflow,
            EvalError::CallDepthExceeded => EvalErrorView::CallDepthExceeded,
        }
    }
}

impl EvalErrorView {
    /// The failure in words.
    pub open spec fn message(self) -> Seq<char> {
        match self {
            EvalErrorView::InvalidAssignment => "Invalid assignment"@,
            EvalErrorView::InvalidOperator(operator) => "Unsupported binary operator "@
                + operator,
            EvalErrorView::ValueNotAFunction(stmt) => "Value "@ + debug_text(stmt)
                + " is not a function"@,
            EvalErrorView::ArityMismatch { expected, found } => "Expected "@ + natural_text(
                expected,
            ) + " arguments but got "@ + natural_text(found),
            EvalErrorView::DivisionByZero => "Division by zero"@,
            EvalErrorView::InvalidNumber(text) => "Invalid number "@ + text,
            EvalErrorView::ArithmeticOverflow => "Arithmetic overflow"@,
            EvalErrorView::CallDepthExceeded => "Call depth exceeded"@,
        }
    }
}

impl EvalError {
    /// The failure in words.
    pub fn message(&self) -> (text: String)
        ensures
            text@ == self@.message(),
    {
        match self {
            EvalError::InvalidAssignment => "Invalid assignment".to_owned(),
            EvalError::InvalidOperator(operator) => {
                "Unsupported binary operator ".to_owned().concat(operator.as_str())
            },
            EvalError::ValueNotAFunction(stmt) => {
                "Value ".to_owned().concat(stmt.debug().as_str()).concat(" is not a function")
            },
            EvalError::ArityMismatch { expected, found } => {
                "Expected ".to_owned().concat(format_natural(*expected as u64).as_str()).concat(
                    " arguments but got ",
                ).concat(format_natural(*found as u64).as_str())
            },
            EvalError::DivisionByZero => "Division by zero".to_owned(),
            EvalError::InvalidNumber(text) => "Invalid number ".to_owned().concat(text.as_str()),
            EvalError::ArithmeticOverflow => "Arithmetic overflow".to_owned(),
            EvalError::CallDepthExceeded => "Call depth exceeded".to_owned(),
        }
    }
}

/// Why a node cannot be evaluated at all.
#[derive(Debug, PartialEq)]
pub enum InterpreterError {
    /// A node of a kind that has no evaluation rule.
    UnexpectedStatement(Stmt),
}

/// An interpreter failure as a mathematical value.
pub enum InterpreterErrorView {
    UnexpectedStatement(StmtView),
}

impl View for InterpreterError {
    type V = InterpreterErrorView;

    open spec fn view(&self) -> InterpreterErrorView {
        match self {
            InterpreterError::UnexpectedStatement(stmt) => {
                InterpreterErrorView::UnexpectedStatement(stmt@)
            },
        }
    }
}

impl InterpreterErrorView {
    /// The failure in words.
    pub open spec fn message(self) -> Seq<char> {
        match self {
            InterpreterErrorView::UnexpectedStatement(stmt) => "Unexpected character "@
                + debug_text(stmt),
        }
    }
}

impl InterpreterError {
    /// The failure in words.
    pub fn message(&self) -> (text: String)
        ensures
            text@ == self@.message(),
    {
        match self {
            InterpreterError::UnexpectedStatement(stmt) => {
                "Unexpected character ".to_owned().concat(stmt.debug().as_str())
            },
        }
    }
}

/// Why an evaluation failed: the reason of the scopes, of the
/// expression rules or of the dispatch.
#[derive(Debug, PartialEq)]
pub enum RuntimeError {
    Env(EnvError),
    Eval(EvalError),
    Interpreter(InterpreterError),
}

/// A runtime failure as a mathematical value.
pub enum RuntimeErrorView {
    Env(EnvErrorView),
    Eval(EvalErrorView),
    Interpreter(InterpreterErrorView),
}

impl View for RuntimeError {
    type V = RuntimeErrorView;

    open spec fn view(&self) -> RuntimeErrorView {
        match self {
            RuntimeError::Env(e) => RuntimeErrorView::Env(e@),
            RuntimeError::Eval(e) => RuntimeErrorView::Eval(e@),
            RuntimeError::Interpreter(e) => RuntimeErrorView::Interpreter(e@),
        }
    }
}

impl RuntimeErrorView {
    /// The failure in words: the words of the failure inside.
    pub open spec fn message(self) -> Seq<char> {
        match self {
            RuntimeErrorView::Env(e) => e.message(),
            RuntimeErrorView::Eval(e) => e.message(),
            RuntimeErrorView::Interpreter(e) => e.message(),
        }
    }
}

impl RuntimeError {
    /// The failure in words.
    pub fn message(&self) -> (text: String)
        ensures
            text@ == self@.message(),
    {
        match self {
            RuntimeError::Env(e) => e.message(),
            RuntimeError::Eval(e) => e.message(),
            RuntimeError::Interpreter(e) => e.message(),
        }
    }
}

/// Why a source text is no program: the scanner's reason or the
/// parser's.
#[derive(Debug, PartialEq)]
pub enum SyntaxError {
    Lexer(LexerError),
    Parse(ParseError),
}

/// A syntax failure as a mathematical value.
pub enum SyntaxErrorView {
    Lexer(LexerError),
    Parse(ParseErrorView),
}

impl View for SyntaxError {
    type V = SyntaxErrorView;

    open spec fn view(&self) -> SyntaxErrorView {
        match self {
            SyntaxError::Lexer(e) => SyntaxErrorView::Lexer(*e),
            SyntaxError::Parse(e) => SyntaxErrorView::Parse(e@),
        }
    }
}

impl SyntaxErrorView {
    /// The failure in words: the words of the failure inside.
    pub open spec fn message(self) -> Seq<char> {
        match self {
            SyntaxErrorView::Lexer(e) => e.message_text(),
            SyntaxErrorView::Parse(e) => e.message(),
        }
    }
}

impl SyntaxError {
    /// The failure in words.
    pub fn message(&self) -> (text: String)
        ensures
            text@ == self@.message(),
    {
        match self {
            SyntaxError::Lexer(e) => e.message(),
            SyntaxError::Parse(e) => e.message(),
        }
    }
}

} // verus!
