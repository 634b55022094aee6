pub mod dense;
pub mod forward_fill;
pub mod monitor;
pub mod simulate;
pub mod store;

use vstd::prelude::*;

verus! {

/// Why a venue could not be asked or did not answer.
#[derive(Debug, Clone, Copy, PartialEq, Eq, Structural)]
pub enum ApiError {
    /// Could not connect to the venue; worth another try.
    Network,
    /// The venue refused or did not understand the request.
    Api,
}

impl ApiError {
    /// The message of the error.
    pub fn to_string(&self) -> (r: String)
        ensures
            r@ == match self {
                ApiError::Network => "Could not connect to the API."@,
                ApiError::Api => "Internal API error."@,
            },
    {
        match self {
            ApiError::Network => "Could not connect to the API.".to_owned(),
            ApiError::Api => "Internal API error.".to_owned(),
        }
    }
}

} // verus!
