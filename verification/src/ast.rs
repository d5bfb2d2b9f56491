//! The parts of a Python module's syntax tree that test collection reads.
//!
//! Expressions of a kind the collector never inspects are kept as
//! `Other`, holding the text that stands for them in generated test ids.
use vstd::prelude::*;

verus! {

pub enum UnaryOperator {
    USub,
    UAdd,
    Not,
    Invert,
}

pub enum FStringPiece {
    /// A literal piece of an f-string, or a plain string concatenated to it.
    Literal(String),
    /// A nested f-string with replacement fields.
    Formatted,
}

pub enum PyExpr {
    Name(String),
    Attribute(Box<PyExpr>, String),
    Call(Box<PyCall>),
    StringLiteral(String),
    BytesLiteral(Vec<u8>),
    /// An integer literal, by its decimal value.
    Int(String),
    /// A float literal, by the shortest text that reads back as its value.
    Float(String),
    /// A complex literal, by the texts of its real and imaginary parts.
    Complex(String, String),
    BooleanLiteral(bool),
    NoneLiteral,
    UnaryOp(UnaryOperator, Box<PyExpr>),
    Tuple(Vec<PyExpr>),
    List(Vec<PyExpr>),
    SetDisplay(Vec<PyExpr>),
    Dict(Vec<PyDictItem>),
    FString(Vec<FStringPiece>),
    Lambda,
    Other(String),
}

pub struct PyCall {
    pub func: PyExpr,
    pub args: Vec<PyExpr>,
    pub keywords: Vec<PyKeyword>,
}

pub struct PyKeyword {
    /// The keyword's name; `None` for `**kwargs`.
    pub arg: Option<String>,
    pub value: PyExpr,
}

pub struct PyDictItem {
    /// `None` for a `**mapping` entry.
    pub key: Option<PyExpr>,
    pub value: PyExpr,
}

pub struct PyFunctionDef {
    pub name: String,
    pub decorators: Vec<PyExpr>,
    /// Names of the positional-or-keyword parameters, in order.
    pub parameters: Vec<String>,
}

pub struct PyClassDef {
    pub name: String,
    pub decorators: Vec<PyExpr>,
    pub body: Vec<PyStmt>,
}

pub enum PyStmt {
    FunctionDef(PyFunctionDef),
    ClassDef(PyClassDef),
    Other,
}

pub struct PyModule {
    pub body: Vec<PyStmt>,
}

} // verus!
