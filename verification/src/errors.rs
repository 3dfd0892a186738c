use vstd::prelude::*;

verus! {

/// Errors reported by the video server.
#[derive(Debug)]
pub enum ServerError {
    /// A failure that stops the server or the connection.
    Critical(String),
    /// A failure with a message of the caller's choosing.
    CustomError(String),
}

/// What a `ServerError` holds, as mathematical values.
pub enum ServerErrorView {
    Critical(Seq<char>),
    CustomError(Seq<char>),
}

impl View for ServerError {
    type V = ServerErrorView;

    open spec fn view(&self) -> ServerErrorView {
        match self {
            ServerError::Critical(m) => ServerErrorView::Critical(m@),
            ServerError::CustomError(m) => ServerErrorView::CustomError(m@),
        }
    }
}

/// The human-readable text of an error: a prefix naming its kind, then its message.
pub open spec fn spec_error_text(e: ServerErrorView) -> Seq<char> {
    match e {
        ServerErrorView::Critical(m) => "Critical Error: "@ + m,
        ServerErrorView::CustomError(m) => "Custom error: "@ + m,
    }
}

impl ServerError {
    /// The text shown for this error.
    pub fn message(&self) -> (text: String)
        ensures
            text@ == spec_error_text(self@),
    {
        match self {
            ServerError::Critical(m) => String::from_str("Critical Error: ").concat(m.as_str()),
            ServerError::CustomError(m) => String::from_str("Custom error: ").concat(m.as_str()),
        }
    }

    /// The lower-level error that caused this one: a server error never wraps another.
    pub fn source(&self) -> (cause: Option<&ServerError>)
        ensures
            cause is None,
    {
        None
    }
}

} // verus!
