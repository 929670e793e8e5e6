//! Error values and the pipeline-wide NaN / infinity policies.
use vstd::prelude::*;

verus! {

/// Error kinds that can occur during pipeline execution
#[non_exhaustive]
#[derive(Debug, Copy, Clone, PartialEq, Eq, Hash, Structural)]
pub enum ErrorKind {
    /// Invalid byte input
    InvalidByteInput,
    /// Input size doesn't match expected size
    InvalidInputSize,
    /// Output buffer is too small
    InvalidOutputSize,
    /// Requested tensor shape doesn't match the pipeline output length
    ShapeMismatch,
    /// NaN or infinity encountered
    NaN,
    /// Tensor library error
    CandleTensorError,
}

/// Runtime-visible description of the three NaN policies.
#[non_exhaustive]
#[derive(Debug, Clone, Copy, PartialEq, Eq, Hash, Structural)]
pub enum NanHandling {
    /// Abort the pipeline with [`ErrorKind::NaN`] on the first non-finite value
    Fail,
    /// Replace non-finite values with zero
    Zero,
    /// IEEE 754 - let NaN / infinity propagate untouched
    Propagate,
}

impl Default for NanHandling {
    fn default() -> (r: Self)
        ensures
            r == NanHandling::Fail,
    {
        NanHandling::Fail
    }
}

/// The outcome of applying a NaN policy to a freshly computed `value`,
/// where `finite` tells whether the value is finite and `zero` is the
/// element type's zero.
pub open spec fn spec_resolve<T>(handling: NanHandling, value: T, finite: bool, zero: T) -> Result<
    T,
    ErrorKind,
> {
    if finite {
        Ok(value)
    } else {
        match handling {
            NanHandling::Fail => Err(ErrorKind::NaN),
            NanHandling::Zero => Ok(zero),
            NanHandling::Propagate => Ok(value),
        }
    }
}

impl NanHandling {
    /// Applies this policy to `value`: finite values pass, non-finite ones
    /// fail (`Fail`), become `zero` (`Zero`) or pass unchanged (`Propagate`).
    pub fn resolve<T: Copy>(self, value: T, finite: bool, zero: T) -> (r: Result<T, PipeError>)
        ensures
            r == spec_error_result(spec_resolve(self, value, finite, zero)),
    {
        if finite {
            Ok(value)
        } else {
            match self {
                NanHandling::Fail => Err(PipeError::new(ErrorKind::NaN)),
                NanHandling::Zero => Ok(zero),
                NanHandling::Propagate => Ok(value),
            }
        }
    }
}

/// Compile-time (monomorphized) NaN / infinity policy.
///
/// The policy is chosen once per pipeline and threaded through every stage
/// and operation as a type parameter; element operations apply it to every
/// value they compute (see [`NanHandler::resolve`]).
pub trait NanHandler: Default + Copy + Sized + 'static {
    /// The runtime-visible variant this policy corresponds to
    const HANDLING: NanHandling;

    /// Apply the policy to a freshly computed value; `finite` tells whether
    /// the value is finite and `zero` is the element type's zero.
    fn resolve<T: Copy>(value: T, finite: bool, zero: T) -> (r: Result<T, PipeError>)
        ensures
            r == spec_error_result(spec_resolve(Self::HANDLING, value, finite, zero)),
    ;
}

/// Fail fast: the first non-finite value aborts the pipeline
#[derive(Debug, Default, Clone, Copy, PartialEq, Eq, PartialOrd, Ord, Hash)]
pub struct FailOnNan;

/// Replace every non-finite value with zero
#[derive(Debug, Default, Clone, Copy, PartialEq, Eq, PartialOrd, Ord, Hash)]
pub struct ZeroOnNan;

/// Pure IEEE 754 semantics: never inspect the value
#[derive(Debug, Default, Clone, Copy, PartialEq, Eq, PartialOrd, Ord, Hash)]
pub struct PropagateNan;

impl NanHandler for FailOnNan {
    const HANDLING: NanHandling = NanHandling::Fail;

    fn resolve<T: Copy>(value: T, finite: bool, zero: T) -> (r: Result<T, PipeError>) {
        if finite {
            Ok(value)
        } else {
            Err(PipeError::new(ErrorKind::NaN))
        }
    }
}

impl NanHandler for ZeroOnNan {
    const HANDLING: NanHandling = NanHandling::Zero;

    fn resolve<T: Copy>(value: T, finite: bool, zero: T) -> (r: Result<T, PipeError>) {
        if finite {
            Ok(value)
        } else {
            Ok(zero)
        }
    }
}

impl NanHandler for PropagateNan {
    const HANDLING: NanHandling = NanHandling::Propagate;

    fn resolve<T: Copy>(value: T, finite: bool, zero: T) -> (r: Result<T, PipeError>) {
        Ok(value)
    }
}

/// The runtime-visible variants of the three policies (visible to verified
/// callers).
pub proof fn lemma_nan_policy_variants()
    ensures
        <FailOnNan as NanHandler>::HANDLING == NanHandling::Fail,
        <ZeroOnNan as NanHandler>::HANDLING == NanHandling::Zero,
        <PropagateNan as NanHandler>::HANDLING == NanHandling::Propagate,
{
}

/// A pipeline error: its kind, plus an optional snapshot of the stage that
/// failed and an optional message.
#[derive(Debug, Clone, PartialEq, Eq, Hash)]
pub struct PipeError {
    kind: ErrorKind,
    snapshot: Option<String>,
    message: Option<String>,
}

/// Whether an executable result agrees with an abstract outcome: equal
/// values on success, equal error kinds on failure.
pub open spec fn outcome_matches<T>(r: Result<T, PipeError>, s: Result<T, ErrorKind>) -> bool {
    match r {
        Ok(v) => s == Ok::<T, ErrorKind>(v),
        Err(e) => s == Err::<T, ErrorKind>(e.spec_kind()),
    }
}

/// The executable result that carries a bare error of the given kind on
/// failure.
pub open spec fn spec_error_result<T>(s: Result<T, ErrorKind>) -> Result<T, PipeError> {
    match s {
        Ok(v) => Ok(v),
        Err(k) => Err(PipeError::spec_new(k)),
    }
}

/// The text of an optional string, as a character sequence.
pub open spec fn opt_view(s: Option<String>) -> Option<Seq<char>> {
    match s {
        Some(t) => Some(t@),
        None => None,
    }
}

/// Text of an error with the given message and snapshot.
pub open spec fn spec_describe(message: Option<Seq<char>>, snapshot: Option<Seq<char>>) -> Seq<
    char,
> {
    let with_message = match message {
        Some(m) => "PipeError"@ + ": "@ + m,
        None => "PipeError"@,
    };
    match snapshot {
        Some(c) => with_message + " ("@ + c + ")"@,
        None => with_message,
    }
}

impl PipeError {
    /// The kind of this error
    pub closed spec fn spec_kind(&self) -> ErrorKind {
        self.kind
    }

    /// The snapshot text of this error, if any
    pub closed spec fn spec_snapshot(&self) -> Option<Seq<char>> {
        opt_view(self.snapshot)
    }

    /// The message text of this error, if any
    pub closed spec fn spec_message(&self) -> Option<Seq<char>> {
        opt_view(self.message)
    }

    /// A bare error of the given kind
    pub closed spec fn spec_new(kind: ErrorKind) -> PipeError {
        PipeError { kind, message: None, snapshot: None }
    }

    /// A bare error has the given kind and neither snapshot nor message.
    pub proof fn lemma_spec_new(kind: ErrorKind)
        ensures
            PipeError::spec_new(kind).spec_kind() == kind,
            PipeError::spec_new(kind).spec_snapshot() is None,
            PipeError::spec_new(kind).spec_message() is None,
    {
    }

    /// A bare error of the given kind.
    pub fn new(kind: ErrorKind) -> (r: PipeError)
        ensures
            r == PipeError::spec_new(kind),
            r.spec_kind() == kind,
            r.spec_snapshot() is None,
            r.spec_message() is None,
    {
        PipeError { kind, message: None, snapshot: None }
    }

    /// An error of the given kind carrying a message.
    pub fn with_message(kind: ErrorKind, message: String) -> (r: PipeError)
        ensures
            r.spec_kind() == kind,
            r.spec_message() == Some(message@),
            r.spec_snapshot() is None,
    {
        PipeError { kind, message: Some(message), snapshot: None }
    }

    /// An error of the given kind carrying a snapshot of the failing stage.
    pub fn with_snapshot(kind: ErrorKind, snapshot: String) -> (r: PipeError)
        ensures
            r.spec_kind() == kind,
            r.spec_snapshot() == Some(snapshot@),
            r.spec_message() is None,
    {
        PipeError { kind, message: None, snapshot: Some(snapshot) }
    }

    /// The message, if any.
    pub fn message(&self) -> (r: Option<&String>)
        ensures
            match r {
                Some(m) => self.spec_message() == Some(m@),
                None => self.spec_message() is None,
            },
    {
        match &self.message {
            Some(m) => Some(m),
            None => None,
        }
    }

    /// The kind of this error.
    pub fn kind(&self) -> (r: ErrorKind)
        ensures
            r == self.spec_kind(),
    {
        self.kind
    }

    /// Human-readable form: `PipeError`, then `: message` and
    /// ` (snapshot)` when present
    pub fn describe(&self) -> (r: String)
        ensures
            r@ == spec_describe(self.spec_message(), self.spec_snapshot()),
    {
        let mut text = "PipeError".to_owned();
        match &self.message {
            Some(m) => {
                text.append(": ");
                text.append(m.as_str());
            },
            None => {},
        }
        match &self.snapshot {
            Some(c) => {
                text.append(" (");
                text.append(c.as_str());
                text.append(")");
            },
            None => {},
        }
        text
    }

    /// The snapshot of the failing stage, if any.
    pub fn snapshot(&self) -> (r: Option<&String>)
        ensures
            match r {
                Some(m) => self.spec_snapshot() == Some(m@),
                None => self.spec_snapshot() is None,
            },
    {
        match &self.snapshot {
            Some(m) => Some(m),
            None => None,
        }
    }
}

/// The ways reinterpreting a byte slice as a slice of values can fail
/// (the cases of `bytemuck::PodCastError`).
#[derive(Debug, Clone, Copy, PartialEq, Eq, Hash, Structural)]
pub enum CastFailure {
    /// The target type needs a stricter alignment than the bytes have
    TargetAlignmentGreaterAndInputNotAligned,
    /// The byte length is not a whole number of values
    OutputSliceWouldHaveSlop,
    /// The sizes of a single value do not match
    SizeMismatch,
    /// The alignments of an allocation do not match
    AlignmentMismatch,
}

/// The name of a cast failure, as `bytemuck` displays it.
pub open spec fn spec_cast_failure_text(f: CastFailure) -> Seq<char> {
    match f {
        CastFailure::TargetAlignmentGreaterAndInputNotAligned => "TargetAlignmentGreaterAndInputNotAligned"@,
        CastFailure::OutputSliceWouldHaveSlop => "OutputSliceWouldHaveSlop"@,
        CastFailure::SizeMismatch => "SizeMismatch"@,
        CastFailure::AlignmentMismatch => "AlignmentMismatch"@,
    }
}

impl CastFailure {
    /// The name of this failure, as `bytemuck` displays it
    pub fn text(&self) -> (r: String)
        ensures
            r@ == spec_cast_failure_text(*self),
    {
        match self {
            CastFailure::TargetAlignmentGreaterAndInputNotAligned => "TargetAlignmentGreaterAndInputNotAligned".to_owned(),
            CastFailure::OutputSliceWouldHaveSlop => "OutputSliceWouldHaveSlop".to_owned(),
            CastFailure::SizeMismatch => "SizeMismatch".to_owned(),
            CastFailure::AlignmentMismatch => "AlignmentMismatch".to_owned(),
        }
    }
}

impl PipeError {
    /// The error a failed byte reinterpretation is reported as: an
    /// [`ErrorKind::InvalidByteInput`] carrying the failure's name
    pub fn from_cast_failure(failure: CastFailure) -> (r: PipeError)
        ensures
            r.spec_kind() == ErrorKind::InvalidByteInput,
            r.spec_message() == Some(spec_cast_failure_text(failure)),
            r.spec_snapshot() is None,
    {
        PipeError::with_message(ErrorKind::InvalidByteInput, failure.text())
    }
}

} // verus!
