use vstd::prelude::*;

verus! {

/// The kind of a failure, from scanning through evaluation.
#[derive(Clone, Copy, Debug, PartialEq, Eq, Structural)]
pub enum ErrorKind {
    Lex,
    Parse,
    Resolve,
    Cycle,
    MissingParam,
    Arity,
    UnknownBuiltin,
    Vm,
    Jit,
}

/// An error of the pipeline. Each variant carries the position or name it is about.
#[derive(Debug, Clone, PartialEq)]
pub enum CellError {
    /// An ill-formed character sequence, at a character position of the source.
    Lex { position: usize },
    /// An unexpected or missing token, at a token position of the stream.
    Parse { position: usize },
    /// An expression refers to a name that no declaration introduces.
    Resolve { name: String },
    /// A dependency cycle among cells, reported at one name on the cycle.
    Cycle { name: String },
    /// A declared parameter has no binding at evaluation time.
    MissingParam { name: String },
    /// A built-in called with the wrong number of arguments.
    Arity { name: String },
    /// A call to a name that is not a built-in.
    UnknownBuiltin { name: String },
    /// Operand stack underflow or overflow, or an ill-formed jump, at an instruction index.
    Vm { ip: usize },
    /// A construct the native-code path does not take, at an instruction index.
    Jit { ip: usize },
}

/// The mathematical shadow of `CellError`: names as character sequences.
pub enum ErrSpec {
    Lex { position: nat },
    Parse { position: nat },
    Resolve { name: Seq<char> },
    Cycle { name: Seq<char> },
    MissingParam { name: Seq<char> },
    Arity { name: Seq<char> },
    UnknownBuiltin { name: Seq<char> },
    Vm { ip: nat },
    Jit { ip: nat },
}

impl View for CellError {
    type V = ErrSpec;

    open spec fn view(&self) -> ErrSpec {
        match self {
            CellError::Lex { position } => ErrSpec::Lex { position: *position as nat },
            CellError::Parse { position } => ErrSpec::Parse { position: *position as nat },
            CellError::Resolve { name } => ErrSpec::Resolve { name: name@ },
            CellError::Cycle { name } => ErrSpec::Cycle { name: name@ },
            CellError::MissingParam { name } => ErrSpec::MissingParam { name: name@ },
            CellError::Arity { name } => ErrSpec::Arity { name: name@ },
            CellError::UnknownBuiltin { name } => ErrSpec::UnknownBuiltin { name: name@ },
            CellError::Vm { ip } => ErrSpec::Vm { ip: *ip as nat },
            CellError::Jit { ip } => ErrSpec::Jit { ip: *ip as nat },
        }
    }
}

impl CellError {
    /// The kind of this error, for callers that sort failures by class.
    pub fn kind(&self) -> (k: ErrorKind)
        ensures
            k == self.spec_kind(),
    {
        match self {
            CellError::Lex { .. } => ErrorKind::Lex,
            CellError::Parse { .. } => ErrorKind::Parse,
            CellError::Resolve { .. } => ErrorKind::Resolve,
            CellError::Cycle { .. } => ErrorKind::Cycle,
            CellError::MissingParam { .. } => ErrorKind::MissingParam,
            CellError::Arity { .. } => ErrorKind::Arity,
            CellError::UnknownBuiltin { .. } => ErrorKind::UnknownBuiltin,
            CellError::Vm { .. } => ErrorKind::Vm,
            CellError::Jit { .. } => ErrorKind::Jit,
        }
    }

    pub open spec fn spec_kind(&self) -> ErrorKind {
        match self {
            CellError::Lex { .. } => ErrorKind::Lex,
            CellError::Parse { .. } => ErrorKind::Parse,
            CellError::Resolve { .. } => ErrorKind::Resolve,
            CellError::Cycle { .. } => ErrorKind::Cycle,
            CellError::MissingParam { .. } => ErrorKind::MissingParam,
            CellError::Arity { .. } => ErrorKind::Arity,
            CellError::UnknownBuiltin { .. } => ErrorKind::UnknownBuiltin,
            CellError::Vm { .. } => ErrorKind::Vm,
            CellError::Jit { .. } => ErrorKind::Jit,
        }
    }
}

} // verus!
