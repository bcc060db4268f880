use vstd::prelude::*;

verus! {

/// Why a compilation was abandoned.
#[derive(PartialEq, Debug)]
pub enum CompileError {
    /// A name that neither the signature table nor the enclosing function's
    /// parameters know.
    UnknownIdentifier(String),
    /// A value was used with a shape it does not have: a call of something
    /// that is not a function, a cast between representations that do not
    /// convert, a type with no machine representation.
    TypeShapeMismatch,
    /// A construct that has no place at this stage of compilation.
    UnsupportedConstruct,
}

pub enum CompileErrorV {
    UnknownIdentifier(Seq<char>),
    TypeShapeMismatch,
    UnsupportedConstruct,
}

impl View for CompileError {
    type V = CompileErrorV;

    open spec fn view(&self) -> CompileErrorV {
        match self {
            CompileError::UnknownIdentifier(s) => CompileErrorV::UnknownIdentifier(s@),
            CompileError::TypeShapeMismatch => CompileErrorV::TypeShapeMismatch,
            CompileError::UnsupportedConstruct => CompileErrorV::UnsupportedConstruct,
        }
    }
}

impl CompileError {
    /// A one-line message naming what went wrong.
    pub fn message(&self) -> (r: String)
        ensures
            r@ == match self@ {
                CompileErrorV::UnknownIdentifier(name) => "unknown identifier: "@ + name,
                CompileErrorV::TypeShapeMismatch => "value used with a shape it does not have"@,
                CompileErrorV::UnsupportedConstruct => "construct not supported at this stage"@,
            },
    {
        match self {
            CompileError::UnknownIdentifier(name) => {
                let mut s = String::from_str("unknown identifier: ");
                s.append(name.as_str());
                s
            },
            CompileError::TypeShapeMismatch => String::from_str("value used with a shape it does not have"),
            CompileError::UnsupportedConstruct => String::from_str("construct not supported at this stage"),
        }
    }
}

} // verus!
