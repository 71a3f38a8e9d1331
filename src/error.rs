use vstd::prelude::*;
use vstd::string::*;

verus! {

/// The kinds of semantic failure; the first one aborts compilation.
#[derive(Debug, Clone, Copy, PartialEq, Eq)]
pub enum ErrorKind {
    UnknownType,
    UnknownVariable,
    UnknownField,
    UnknownFunction,
    Redefinition,
    SignatureMismatch,
    MainSignature,
    TypeError,
    DoubleImpl,
    MissingImport,
    MissingFunction,
}

/// A semantic failure, with a message for a human.
#[derive(Debug, Clone, PartialEq, Eq)]
pub struct CompileError {
    pub kind: ErrorKind,
    pub message: String,
}

impl CompileError {
    pub fn new(kind: ErrorKind, message: String) -> (r: CompileError)
        ensures
            r.kind == kind,
            r.message == message,
    {
        CompileError { kind, message }
    }

    /// The message, for display.
    pub fn describe(&self) -> (r: String)
        ensures
            r@ == self.message@,
    {
        self.message.clone()
    }
}

} // verus!

verus! {

/// Concatenates the pieces of a message.
pub fn message(parts: &[&str]) -> (r: String) {
    let mut r = String::new();
    let mut i: usize = 0;
    while i < parts.len()
        decreases parts.len() - i,
    {
        r.append(parts[i]);
        i = i + 1;
    }
    r
}

} // verus!
