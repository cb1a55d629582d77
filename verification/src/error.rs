//! The errors of the authentication protocol.

use vstd::prelude::*;

verus! {

/// Why an authentication request failed.
#[derive(Debug)]
pub enum ProtocolError {
    /// A failure that carries no meaning but its message.
    Internal(String),
    /// The service could not be reached.
    Disconnected,
    /// The service refused the credentials.
    NotAuthorized,
    /// The service or this client does not offer the operation.
    NotSupported { operation: String },
}

/// A `ProtocolError` with its texts as sequences of characters.
pub enum ProtocolErrorView {
    Internal(Seq<char>),
    Disconnected,
    NotAuthorized,
    NotSupported { operation: Seq<char> },
}

impl DeepView for ProtocolError {
    type V = ProtocolErrorView;

    open spec fn deep_view(&self) -> ProtocolErrorView {
        match *self {
            ProtocolError::Internal(message) => ProtocolErrorView::Internal(message@),
            ProtocolError::Disconnected => ProtocolErrorView::Disconnected,
            ProtocolError::NotAuthorized => ProtocolErrorView::NotAuthorized,
            ProtocolError::NotSupported { operation } => ProtocolErrorView::NotSupported {
                operation: operation@,
            },
        }
    }
}

impl ProtocolError {
    /// An error that carries nothing but a message.
    pub fn internal(message: String) -> (error: ProtocolError)
        ensures
            error.deep_view() == ProtocolErrorView::Internal(message@),
    {
        ProtocolError::Internal(message)
    }
}

/// A result with the error taken by its view, and the value as it is.
pub open spec fn outcome_of<T>(result: Result<T, ProtocolError>) -> Result<T, ProtocolErrorView> {
    match result {
        Ok(value) => Ok(value),
        Err(error) => Err(error.deep_view()),
    }
}

/// A result with the value and the error each taken by its view.
pub open spec fn outcome<T: DeepView, E: DeepView>(result: Result<T, E>) -> Result<T::V, E::V> {
    match result {
        Ok(value) => Ok(value.deep_view()),
        Err(error) => Err(error.deep_view()),
    }
}

/// The error that carries nothing but a message carries that very message.
pub proof fn law_internal_error_carries_its_message(message: String, error: ProtocolError)
    requires
        call_ensures(ProtocolError::internal, (message,), error),
    ensures
        error matches ProtocolError::Internal(carried) && carried@ == message@,
{
}

} // verus!
