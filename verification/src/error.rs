//! Errors.

use vstd::prelude::*;
use vstd::string::*;

verus! {

/// Errors of the device layer.
#[derive(Debug)]
pub enum GPUError {
    /// A status code of the driver, with the build log where there is one.
    Opencl3(i32, Option<String>),
    /// There is no kernel of that name.
    KernelNotFound(String),
    /// An error that is described by a string.
    Generic(String),
}

/// Result of the device layer.
pub type GPUResult<T> = Result<T, GPUError>;

/// Errors of this library.
#[derive(Debug)]
pub enum EcError {
    /// A simple error that is described by a string.
    Simple(&'static str),
    /// Error in case a GPU kernel execution was aborted.
    Aborted,
    /// An error that is bubbled up from the device layer.
    GpuTools(GPUError),
    /// IO error, as its text.
    Io(String),
}

/// Result wrapper that is always using [`EcError`] as error.
pub type EcResult<T> = Result<T, EcError>;

impl EcError {
    /// What [`EcError::message`] returns.
    pub open spec fn text(&self, cause: Seq<char>) -> Seq<char> {
        match self {
            EcError::Simple(s) => "EcError: "@ + s@,
            EcError::Aborted => "GPU call was aborted!"@,
            EcError::GpuTools(_) => "GPU tools error: "@ + cause,
            EcError::Io(s) => "Encountered an I/O error: "@ + s@,
        }
    }

    /// The text of the error. `cause` is the text of the error of the device layer, where there is
    /// one.
    pub fn message(&self, cause: &str) -> (r: String)
        ensures
            r@ == self.text(cause@),
    {
        match self {
            EcError::Simple(s) => String::from_str("EcError: ").concat(s),
            EcError::Aborted => String::from_str("GPU call was aborted!"),
            EcError::GpuTools(_) => String::from_str("GPU tools error: ").concat(cause),
            EcError::Io(s) => String::from_str("Encountered an I/O error: ").concat(s.as_str()),
        }
    }
}

impl vstd::std_specs::convert::FromSpecImpl<GPUError> for EcError {
    open spec fn obeys_from_spec() -> bool {
        true
    }

    open spec fn from_spec(e: GPUError) -> Self {
        EcError::GpuTools(e)
    }
}

impl From<GPUError> for EcError {
    fn from(e: GPUError) -> (r: Self) {
        EcError::GpuTools(e)
    }
}

} // verus!
