//! Which kind of program a device gets.

use vstd::prelude::*;
use vstd::string::*;

use crate::error::{EcError, EcResult};

verus! {

/// The framework that a program is made for.
#[derive(Copy, Clone, Debug, PartialEq, Eq, Structural)]
pub enum Framework {
    /// CUDA.
    Cuda,
    /// OpenCL.
    Opencl,
}

/// The framework to make a program for.
///
/// `requested` is the value of the environment variable `EC_GPU_FRAMEWORK`, if it is set. Only
/// `cuda` is a request, and it fails where CUDA is not enabled. Otherwise it is the framework that
/// is the default for the device.
pub fn choose_framework(requested: Option<&str>, default: Framework, cuda_enabled: bool) -> (r:
    EcResult<Framework>)
    ensures
        (requested matches Some(s) && s@ == "cuda"@) ==> r == if cuda_enabled {
            Ok::<Framework, EcError>(Framework::Cuda)
        } else {
            Err::<Framework, EcError>(
                EcError::Simple(
                    "CUDA framework is not supported, please compile with the `cuda` feature enabled.",
                ),
            )
        },
        !(requested matches Some(s) && s@ == "cuda"@) ==> r == Ok::<Framework, EcError>(default),
{
    match requested {
        Some(s) => {
            if s.to_owned() == "cuda".to_owned() {
                if cuda_enabled {
                    Ok(Framework::Cuda)
                } else {
                    Err(
                        EcError::Simple(
                            "CUDA framework is not supported, please compile with the `cuda` feature enabled.",
                        ),
                    )
                }
            } else {
                Ok(default)
            }
        },
        None => Ok(default),
    }
}

} // verus!
