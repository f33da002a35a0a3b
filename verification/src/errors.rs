//! The two error families of the library: parse failures and evaluation
//! failures. Each error renders to the human-readable message that the
//! command-line tool prints.

use vstd::prelude::*;
use crate::canon::int_str;
use crate::canon::push_int;

verus! {

/// Mathematical model of an evaluation error.
pub enum MErr {
    UndefinedVariable { name: Seq<char> },
    UnsupportedExpression,
    FieldNotFound { field: Seq<char> },
    FieldOnNonObject { field: Seq<char> },
    IndexOutOfBounds { index: int },
    IndexOnNonArray,
    CannotIterate,
    CannotAdd { left: Seq<char>, right: Seq<char> },
    CannotSubtract { left: Seq<char>, right: Seq<char> },
    CannotMultiply { left: Seq<char>, right: Seq<char> },
    CannotDivide { left: Seq<char>, right: Seq<char> },
    CannotModulo { left: Seq<char>, right: Seq<char> },
    DivisionByZero,
    ModuloByZero,
    NumberOverflow,
    AssignTarget,
    UpdateTarget,
    KeysOf { kind: Seq<char> },
    LengthOf { kind: Seq<char> },
    SortOf { kind: Seq<char> },
    ReverseOf { kind: Seq<char> },
    UniqueOf { kind: Seq<char> },
    FlattenOf { kind: Seq<char> },
    GroupOf { kind: Seq<char> },
    MapOver { kind: Seq<char> },
    FilterOf { kind: Seq<char> },
    SliceOf { kind: Seq<char> },
    FirstEmpty,
    FirstOf { kind: Seq<char> },
    LastEmpty,
    LastOf { kind: Seq<char> },
    AddNonNumeric,
    AddNonString,
    AddElementsOf { kind: Seq<char> },
    ParseNumber { text: Seq<char> },
    ToNumberOf { kind: Seq<char> },
}

/// An evaluation failure: a type mismatch, a missing field or index, a
/// zero divisor, an undefined variable, or an unsupported node.
#[derive(Debug, PartialEq)]
pub enum EvalError {
    UndefinedVariable { name: String },
    UnsupportedExpression,
    FieldNotFound { field: String },
    FieldOnNonObject { field: String },
    IndexOutOfBounds { index: isize },
    IndexOnNonArray,
    CannotIterate,
    CannotAdd { left: String, right: String },
    CannotSubtract { left: String, right: String },
    CannotMultiply { left: String, right: String },
    CannotDivide { left: String, right: String },
    CannotModulo { left: String, right: String },
    DivisionByZero,
    ModuloByZero,
    NumberOverflow,
    AssignTarget,
    UpdateTarget,
    KeysOf { kind: String },
    LengthOf { kind: String },
    SortOf { kind: String },
    ReverseOf { kind: String },
    UniqueOf { kind: String },
    FlattenOf { kind: String },
    GroupOf { kind: String },
    MapOver { kind: String },
    FilterOf { kind: String },
    SliceOf { kind: String },
    FirstEmpty,
    FirstOf { kind: String },
    LastEmpty,
    LastOf { kind: String },
    AddNonNumeric,
    AddNonString,
    AddElementsOf { kind: String },
    ParseNumber { text: String },
    ToNumberOf { kind: String },
}

impl View for EvalError {
    type V = MErr;

    open spec fn view(&self) -> MErr {
        match self {
            EvalError::UndefinedVariable { name } => MErr::UndefinedVariable { name: name@ },
            EvalError::UnsupportedExpression => MErr::UnsupportedExpression,
            EvalError::FieldNotFound { field } => MErr::FieldNotFound { field: field@ },
            EvalError::FieldOnNonObject { field } => MErr::FieldOnNonObject { field: field@ },
            EvalError::IndexOutOfBounds { index } => MErr::IndexOutOfBounds {
                index: *index as int,
            },
            EvalError::IndexOnNonArray => MErr::IndexOnNonArray,
            EvalError::CannotIterate => MErr::CannotIterate,
            EvalError::CannotAdd { left, right } => MErr::CannotAdd {
                left: left@,
                right: right@,
            },
            EvalError::CannotSubtract { left, right } => MErr::CannotSubtract {
                left: left@,
                right: right@,
            },
            EvalError::CannotMultiply { left, right } => MErr::CannotMultiply {
                left: left@,
                right: right@,
            },
            EvalError::CannotDivide { left, right } => MErr::CannotDivide {
                left: left@,
                right: right@,
            },
            EvalError::CannotModulo { left, right } => MErr::CannotModulo {
                left: left@,
                right: right@,
            },
            EvalError::DivisionByZero => MErr::DivisionByZero,
            EvalError::ModuloByZero => MErr::ModuloByZero,
            EvalError::NumberOverflow => MErr::NumberOverflow,
            EvalError::AssignTarget => MErr::AssignTarget,
            EvalError::UpdateTarget => MErr::UpdateTarget,
            EvalError::KeysOf { kind } => MErr::KeysOf { kind: kind@ },
            EvalError::LengthOf { kind } => MErr::LengthOf { kind: kind@ },
            EvalError::SortOf { kind } => MErr::SortOf { kind: kind@ },
            EvalError::ReverseOf { kind } => MErr::ReverseOf { kind: kind@ },
            EvalError::UniqueOf { kind } => MErr::UniqueOf { kind: kind@ },
            EvalError::FlattenOf { kind } => MErr::FlattenOf { kind: kind@ },
            EvalError::GroupOf { kind } => MErr::GroupOf { kind: kind@ },
            EvalError::MapOver { kind } => MErr::MapOver { kind: kind@ },
            EvalError::FilterOf { kind } => MErr::FilterOf { kind: kind@ },
            EvalError::SliceOf { kind } => MErr::SliceOf { kind: kind@ },
            EvalError::FirstEmpty => MErr::FirstEmpty,
            EvalError::FirstOf { kind } => MErr::FirstOf { kind: kind@ },
            EvalError::LastEmpty => MErr::LastEmpty,
            EvalError::LastOf { kind } => MErr::LastOf { kind: kind@ },
            EvalError::AddNonNumeric => MErr::AddNonNumeric,
            EvalError::AddNonString => MErr::AddNonString,
            EvalError::AddElementsOf { kind } => MErr::AddElementsOf { kind: kind@ },
            EvalError::ParseNumber { text } => MErr::ParseNumber { text: text@ },
            EvalError::ToNumberOf { kind } => MErr::ToNumberOf { kind: kind@ },
        }
    }
}

/// The message text of an evaluation error.
pub open spec fn err_msg_s(e: MErr) -> Seq<char> {
    match e {
        MErr::UndefinedVariable { name } => "Undefined variable: "@ + name,
        MErr::UnsupportedExpression => "Unsupported expression"@,
        MErr::FieldNotFound { field } => "Field '"@ + field + "' not found"@,
        MErr::FieldOnNonObject { field } => "Cannot access field '"@ + field + "' on non-object"@,
        MErr::IndexOutOfBounds { index } => "Index "@ + int_str(index) + " out of bounds"@,
        MErr::IndexOnNonArray => "Cannot index non-array"@,
        MErr::CannotIterate => "Cannot iterate over non-array/object"@,
        MErr::CannotAdd { left, right } => "Cannot add \""@ + left + "\" and \""@ + right + "\""@,
        MErr::CannotSubtract { left, right } => "Cannot subtract \""@ + right + "\" from \""@
            + left + "\""@,
        MErr::CannotMultiply { left, right } => "Cannot multiply \""@ + left + "\" and \""@
            + right + "\""@,
        MErr::CannotDivide { left, right } => "Cannot divide \""@ + left + "\" by \""@ + right
            + "\""@,
        MErr::CannotModulo { left, right } => "Cannot modulo \""@ + left + "\" by \""@ + right
            + "\""@,
        MErr::DivisionByZero => "Division by zero"@,
        MErr::ModuloByZero => "Modulo by zero"@,
        MErr::NumberOverflow => "Number overflow"@,
        MErr::AssignTarget => "Assignment target must be a field access"@,
        MErr::UpdateTarget => "Update target must be a field access"@,
        MErr::KeysOf { kind } => "Cannot get keys of "@ + kind,
        MErr::LengthOf { kind } => "Cannot get length of "@ + kind,
        MErr::SortOf { kind } => "Cannot sort "@ + kind,
        MErr::ReverseOf { kind } => "Cannot reverse "@ + kind,
        MErr::UniqueOf { kind } => "Cannot get unique of "@ + kind,
        MErr::FlattenOf { kind } => "Cannot flatten "@ + kind,
        MErr::GroupOf { kind } => "Cannot group "@ + kind,
        MErr::MapOver { kind } => "Cannot map over "@ + kind,
        MErr::FilterOf { kind } => "Cannot filter "@ + kind,
        MErr::SliceOf { kind } => "Cannot slice "@ + kind,
        MErr::FirstEmpty => "Cannot get first of empty array"@,
        MErr::FirstOf { kind } => "Cannot get first of "@ + kind,
        MErr::LastEmpty => "Cannot get last of empty array"@,
        MErr::LastOf { kind } => "Cannot get last of "@ + kind,
        MErr::AddNonNumeric => "Cannot add non-numeric value"@,
        MErr::AddNonString => "Cannot add non-string value to string"@,
        MErr::AddElementsOf { kind } => "Cannot add elements of "@ + kind,
        MErr::ParseNumber { text } => "Cannot parse '"@ + text + "' as number"@,
        MErr::ToNumberOf { kind } => "Cannot convert "@ + kind + " to number"@,
    }
}

impl EvalError {
    /// The human-readable message of this error.
    pub fn message(&self) -> (r: String)
        ensures
            r@ == err_msg_s(self@),
    {
        let mut out = String::new();
        match self {
            EvalError::UndefinedVariable { name } => {
                out.append("Undefined variable: ");
                out.append(name.as_str());
            },
            EvalError::UnsupportedExpression => {
                out.append("Unsupported expression");
            },
            EvalError::FieldNotFound { field } => {
                out.append("Field '");
                out.append(field.as_str());
                out.append("' not found");
            },
            EvalError::FieldOnNonObject { field } => {
                out.append("Cannot access field '");
                out.append(field.as_str());
                out.append("' on non-object");
            },
            EvalError::IndexOutOfBounds { index } => {
                out.append("Index ");
                let wide: i64 = *index as i64;
                push_int(&mut out, wide);
                out.append(" out of bounds");
            },
            EvalError::IndexOnNonArray => {
                out.append("Cannot index non-array");
            },
            EvalError::CannotIterate => {
                out.append("Cannot iterate over non-array/object");
            },
            EvalError::CannotAdd { left, right } => {
                out.append("Cannot add \"");
                out.append(left.as_str());
                out.append("\" and \"");
                out.append(right.as_str());
                out.append("\"");
            },
            EvalError::CannotSubtract { left, right } => {
                out.append("Cannot subtract \"");
                out.append(right.as_str());
                out.append("\" from \"");
                out.append(left.as_str());
                out.append("\"");
            },
            EvalError::CannotMultiply { left, right } => {
                out.append("Cannot multiply \"");
                out.append(left.as_str());
                out.append("\" and \"");
                out.append(right.as_str());
                out.append("\"");
            },
            EvalError::CannotDivide { left, right } => {
                out.append("Cannot divide \"");
                out.append(left.as_str());
                out.append("\" by \"");
                out.append(right.as_str());
                out.append("\"");
            },
            EvalError::CannotModulo { left, right } => {
                out.append("Cannot modulo \"");
                out.append(left.as_str());
                out.append("\" by \"");
                out.append(right.as_str());
                out.append("\"");
            },
            EvalError::DivisionByZero => {
                out.append("Division by zero");
            },
            EvalError::ModuloByZero => {
                out.append("Modulo by zero");
            },
            EvalError::NumberOverflow => {
                out.append("Number overflow");
            },
            EvalError::AssignTarget => {
                out.append("Assignment target must be a field access");
            },
            EvalError::UpdateTarget => {
                out.append("Update target must be a field access");
            },
            EvalError::KeysOf { kind } => {
                out.append("Cannot get keys of ");
                out.append(kind.as_str());
            },
            EvalError::LengthOf { kind } => {
                out.append("Cannot get length of ");
                out.append(kind.as_str());
            },
            EvalError::SortOf { kind } => {
                out.append("Cannot sort ");
                out.append(kind.as_str());
            },
            EvalError::ReverseOf { kind } => {
                out.append("Cannot reverse ");
                out.append(kind.as_str());
            },
            EvalError::UniqueOf { kind } => {
                out.append("Cannot get unique of ");
                out.append(kind.as_str());
            },
            EvalError::FlattenOf { kind } => {
                out.append("Cannot flatten ");
                out.append(kind.as_str());
            },
            EvalError::GroupOf { kind } => {
                out.append("Cannot group ");
                out.append(kind.as_str());
            },
            EvalError::MapOver { kind } => {
                out.append("Cannot map over ");
                out.append(kind.as_str());
            },
            EvalError::FilterOf { kind } => {
                out.append("Cannot filter ");
                out.append(kind.as_str());
            },
            EvalError::SliceOf { kind } => {
                out.append("Cannot slice ");
                out.append(kind.as_str());
            },
            EvalError::FirstEmpty => {
                out.append("Cannot get first of empty array");
            },
            EvalError::FirstOf { kind } => {
                out.append("Cannot get first of ");
                out.append(kind.as_str());
            },
            EvalError::LastEmpty => {
                out.append("Cannot get last of empty array");
            },
            EvalError::LastOf { kind } => {
                out.append("Cannot get last of ");
                out.append(kind.as_str());
            },
            EvalError::AddNonNumeric => {
                out.append("Cannot add non-numeric value");
            },
            EvalError::AddNonString => {
                out.append("Cannot add non-string value to string");
            },
            EvalError::AddElementsOf { kind } => {
                out.append("Cannot add elements of ");
                out.append(kind.as_str());
            },
            EvalError::ParseNumber { text } => {
                out.append("Cannot parse '");
                out.append(text.as_str());
                out.append("' as number");
            },
            EvalError::ToNumberOf { kind } => {
                out.append("Cannot convert ");
                out.append(kind.as_str());
                out.append(" to number");
            },
        }
        proof {
            assert(out@ =~= err_msg_s(self@));
        }
        out
    }
}

/// Mathematical model of a parse error.
pub enum MParseErr {
    UnexpectedCharacter,
    UnterminatedString,
    UnterminatedEscape,
    ExpectedFieldName,
    InvalidInteger,
    InvalidIntegerLiteral,
    InvalidFloatLiteral,
    ExpectedBracketAfterKey,
    KeyNotStringLiteral,
    ExpectedBracketAfterSlice,
    ExpectedBracketAfterIndex,
    ArrayComma,
    ArrayClose,
    ObjectColon,
    ObjectComma,
    ObjectClose,
    GroupClose,
    ExpectedVariableName,
    ExpectedIdentifier,
    CallComma,
    CallClose,
    UnknownFunction { name: Seq<char> },
    ExpectedKeyword { word: Seq<char> },
    BadArity { message: Seq<char> },
    TooDeep,
}

/// A parse failure: malformed expression text, a bad literal, a wrong
/// argument count, or an expression nested too deeply to parse.
#[derive(Debug, PartialEq)]
pub enum ParseError {
    UnexpectedCharacter,
    UnterminatedString,
    UnterminatedEscape,
    ExpectedFieldName,
    InvalidInteger,
    InvalidIntegerLiteral,
    InvalidFloatLiteral,
    ExpectedBracketAfterKey,
    KeyNotStringLiteral,
    ExpectedBracketAfterSlice,
    ExpectedBracketAfterIndex,
    ArrayComma,
    ArrayClose,
    ObjectColon,
    ObjectComma,
    ObjectClose,
    GroupClose,
    ExpectedVariableName,
    ExpectedIdentifier,
    CallComma,
    CallClose,
    UnknownFunction { name: String },
    ExpectedKeyword { word: String },
    BadArity { message: String },
    TooDeep,
}

impl View for ParseError {
    type V = MParseErr;

    open spec fn view(&self) -> MParseErr {
        match self {
            ParseError::UnexpectedCharacter => MParseErr::UnexpectedCharacter,
            ParseError::UnterminatedString => MParseErr::UnterminatedString,
            ParseError::UnterminatedEscape => MParseErr::UnterminatedEscape,
            ParseError::ExpectedFieldName => MParseErr::ExpectedFieldName,
            ParseError::InvalidInteger => MParseErr::InvalidInteger,
            ParseError::InvalidIntegerLiteral => MParseErr::InvalidIntegerLiteral,
            ParseError::InvalidFloatLiteral => MParseErr::InvalidFloatLiteral,
            ParseError::ExpectedBracketAfterKey => MParseErr::ExpectedBracketAfterKey,
            ParseError::KeyNotStringLiteral => MParseErr::KeyNotStringLiteral,
            ParseError::ExpectedBracketAfterSlice => MParseErr::ExpectedBracketAfterSlice,
            ParseError::ExpectedBracketAfterIndex => MParseErr::ExpectedBracketAfterIndex,
            ParseError::ArrayComma => MParseErr::ArrayComma,
            ParseError::ArrayClose => MParseErr::ArrayClose,
            ParseError::ObjectColon => MParseErr::ObjectColon,
            ParseError::ObjectComma => MParseErr::ObjectComma,
            ParseError::ObjectClose => MParseErr::ObjectClose,
            ParseError::GroupClose => MParseErr::GroupClose,
            ParseError::ExpectedVariableName => MParseErr::ExpectedVariableName,
            ParseError::ExpectedIdentifier => MParseErr::ExpectedIdentifier,
            ParseError::CallComma => MParseErr::CallComma,
            ParseError::CallClose => MParseErr::CallClose,
            ParseError::UnknownFunction { name } => MParseErr::UnknownFunction { name: name@ },
            ParseError::ExpectedKeyword { word } => MParseErr::ExpectedKeyword { word: word@ },
            ParseError::BadArity { message } => MParseErr::BadArity { message: message@ },
            ParseError::TooDeep => MParseErr::TooDeep,
        }
    }
}

/// The message text of a parse error.
pub open spec fn parse_msg_s(e: MParseErr) -> Seq<char> {
    match e {
        MParseErr::UnexpectedCharacter => "Unexpected character in expression"@,
        MParseErr::UnterminatedString => "Unterminated string literal"@,
        MParseErr::UnterminatedEscape => "Unterminated string escape"@,
        MParseErr::ExpectedFieldName => "Expected field name after ."@,
        MParseErr::InvalidInteger => "Invalid integer"@,
        MParseErr::InvalidIntegerLiteral => "Invalid integer literal"@,
        MParseErr::InvalidFloatLiteral => "Invalid float literal"@,
        MParseErr::ExpectedBracketAfterKey => "Expected ] after string key"@,
        MParseErr::KeyNotStringLiteral => "String key must be a string literal"@,
        MParseErr::ExpectedBracketAfterSlice => "Expected ] after slice"@,
        MParseErr::ExpectedBracketAfterIndex => "Expected ] after index"@,
        MParseErr::ArrayComma => "Expected , or ] in array constructor"@,
        MParseErr::ArrayClose => "Expected ] to close array constructor"@,
        MParseErr::ObjectColon => "Expected : after object key"@,
        MParseErr::ObjectComma => "Expected , or } in object constructor"@,
        MParseErr::ObjectClose => "Expected } to close object constructor"@,
        MParseErr::GroupClose => "Expected ) to close group"@,
        MParseErr::ExpectedVariableName => "Expected variable name after $"@,
        MParseErr::ExpectedIdentifier => "Expected identifier"@,
        MParseErr::CallComma => "Expected , or ) in function call"@,
        MParseErr::CallClose => "Expected ) to close function call"@,
        MParseErr::UnknownFunction { name } => "Unknown function: "@ + name,
        MParseErr::ExpectedKeyword { word } => "Expected keyword: "@ + word,
        MParseErr::BadArity { message } => message,
        MParseErr::TooDeep => "Expression nested too deeply"@,
    }
}

impl ParseError {
    /// The human-readable message of this error.
    pub fn message(&self) -> (r: String)
        ensures
            r@ == parse_msg_s(self@),
    {
        let mut out = String::new();
        match self {
            ParseError::UnexpectedCharacter => {
                out.append("Unexpected character in expression");
            },
            ParseError::UnterminatedString => {
                out.append("Unterminated string literal");
            },
            ParseError::UnterminatedEscape => {
                out.append("Unterminated string escape");
            },
            ParseError::ExpectedFieldName => {
                out.append("Expected field name after .");
            },
            ParseError::InvalidInteger => {
                out.append("Invalid integer");
            },
            ParseError::InvalidIntegerLiteral => {
                out.append("Invalid integer literal");
            },
            ParseError::InvalidFloatLiteral => {
                out.append("Invalid float literal");
            },
            ParseError::ExpectedBracketAfterKey => {
                out.append("Expected ] after string key");
            },
            ParseError::KeyNotStringLiteral => {
                out.append("String key must be a string literal");
            },
            ParseError::ExpectedBracketAfterSlice => {
                out.append("Expected ] after slice");
            },
            ParseError::ExpectedBracketAfterIndex => {
                out.append("Expected ] after index");
            },
            ParseError::ArrayComma => {
                out.append("Expected , or ] in array constructor");
            },
            ParseError::ArrayClose => {
                out.append("Expected ] to close array constructor");
            },
            ParseError::ObjectColon => {
                out.append("Expected : after object key");
            },
            ParseError::ObjectComma => {
                out.append("Expected , or } in object constructor");
            },
            ParseError::ObjectClose => {
                out.append("Expected } to close object constructor");
            },
            ParseError::GroupClose => {
                out.append("Expected ) to close group");
            },
            ParseError::ExpectedVariableName => {
                out.append("Expected variable name after $");
            },
            ParseError::ExpectedIdentifier => {
                out.append("Expected identifier");
            },
            ParseError::CallComma => {
                out.append("Expected , or ) in function call");
            },
            ParseError::CallClose => {
                out.append("Expected ) to close function call");
            },
            ParseError::UnknownFunction { name } => {
                out.append("Unknown function: ");
                out.append(name.as_str());
            },
            ParseError::ExpectedKeyword { word } => {
                out.append("Expected keyword: ");
                out.append(word.as_str());
            },
            ParseError::BadArity { message } => {
                out.append(message.as_str());
            },
            ParseError::TooDeep => {
                out.append("Expression nested too deeply");
            },
        }
        proof {
            assert(out@ =~= parse_msg_s(self@));
        }
        out
    }
}

} // verus!
