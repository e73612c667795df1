use vstd::prelude::*;

verus! {

/// Opaque parse error of the HTTP header tokenizer.
#[verifier::external_type_specification]
#[verifier::external_body]
pub struct ExHttpError(httparse::Error);

/// Opaque protocol error of the WebSocket library.
#[verifier::external_type_specification]
#[verifier::external_body]
pub struct ExWsError(embedded_websocket::Error);

/// Opaque error of the WebSocket framer, generic over the stream's error.
#[verifier::external_type_specification]
#[verifier::external_body]
#[verifier::reject_recursive_types(E)]
pub struct ExFramerError<E>(embedded_websocket::framer::FramerError<E>);

/// Opaque text-decoding error.
#[verifier::external_type_specification]
#[verifier::external_body]
pub struct ExUtf8Error(core::str::Utf8Error);

/// What a connection's byte stream reports when a read or write fails.
#[derive(Clone, Copy, Debug, PartialEq, Eq, Structural)]
pub enum StreamError {
    /// The stream ended before the operation could complete.
    Interrupted,
    /// Any other transport failure.
    Other,
}

/// Every way in which serving one connection can fail.
#[derive(Debug)]
pub enum WebServerError {
    Io(StreamError),
    Framer(embedded_websocket::framer::FramerError<StreamError>),
    Http(httparse::Error),
    WebSocket(embedded_websocket::Error),
    Utf8Error(core::str::Utf8Error),
    /// The receive buffer filled up before the request header was complete.
    HeaderTooLarge,
    /// A WebSocket handshake field is longer than the handshake can hold.
    HandshakeFieldTooLong,
}

impl From<StreamError> for WebServerError {
    fn from(err: StreamError) -> (r: WebServerError)
        ensures
            r == WebServerError::Io(err),
    {
        WebServerError::Io(err)
    }
}

impl vstd::std_specs::convert::FromSpecImpl<StreamError> for WebServerError {
    open spec fn obeys_from_spec() -> bool {
        true
    }

    open spec fn from_spec(err: StreamError) -> WebServerError {
        WebServerError::Io(err)
    }
}

impl From<embedded_websocket::framer::FramerError<StreamError>> for WebServerError {
    fn from(err: embedded_websocket::framer::FramerError<StreamError>) -> (r: WebServerError)
        ensures
            r == WebServerError::Framer(err),
    {
        WebServerError::Framer(err)
    }
}

impl vstd::std_specs::convert::FromSpecImpl<embedded_websocket::framer::FramerError<StreamError>>
    for WebServerError {
    open spec fn obeys_from_spec() -> bool {
        true
    }

    open spec fn from_spec(err: embedded_websocket::framer::FramerError<StreamError>) -> WebServerError {
        WebServerError::Framer(err)
    }
}

impl From<httparse::Error> for WebServerError {
    fn from(err: httparse::Error) -> (r: WebServerError)
        ensures
            r == WebServerError::Http(err),
    {
        WebServerError::Http(err)
    }
}

impl vstd::std_specs::convert::FromSpecImpl<httparse::Error> for WebServerError {
    open spec fn obeys_from_spec() -> bool {
        true
    }

    open spec fn from_spec(err: httparse::Error) -> WebServerError {
        WebServerError::Http(err)
    }
}

impl From<embedded_websocket::Error> for WebServerError {
    fn from(err: embedded_websocket::Error) -> (r: WebServerError)
        ensures
            r == WebServerError::WebSocket(err),
    {
        WebServerError::WebSocket(err)
    }
}

impl vstd::std_specs::convert::FromSpecImpl<embedded_websocket::Error> for WebServerError {
    open spec fn obeys_from_spec() -> bool {
        true
    }

    open spec fn from_spec(err: embedded_websocket::Error) -> WebServerError {
        WebServerError::WebSocket(err)
    }
}

impl From<core::str::Utf8Error> for WebServerError {
    fn from(err: core::str::Utf8Error) -> (r: WebServerError)
        ensures
            r == WebServerError::Utf8Error(err),
    {
        WebServerError::Utf8Error(err)
    }
}

impl vstd::std_specs::convert::FromSpecImpl<core::str::Utf8Error> for WebServerError {
    open spec fn obeys_from_spec() -> bool {
        true
    }

    open spec fn from_spec(err: core::str::Utf8Error) -> WebServerError {
        WebServerError::Utf8Error(err)
    }
}

/// How a connection task ended, as far as its log line is concerned.
#[derive(Clone, Copy, Debug, PartialEq, Eq, Structural)]
pub enum ConnectionEnd {
    /// The protocol ran to completion.
    Closed,
    /// The peer's stream ended in the middle of an operation.
    UnexpectedEnd,
    /// Any other failure aborted the connection.
    Aborted,
}

/// Classifies the result of serving one connection for logging; the task ends
/// whatever the result.
pub fn connection_end(result: &Result<(), WebServerError>) -> (r: ConnectionEnd)
    ensures
        result is Ok <==> r == ConnectionEnd::Closed,
        r == ConnectionEnd::UnexpectedEnd <==> (match result {
            Err(WebServerError::Io(StreamError::Interrupted)) => true,
            _ => false,
        }),
{
    match result {
        Ok(()) => ConnectionEnd::Closed,
        Err(WebServerError::Io(StreamError::Interrupted)) => ConnectionEnd::UnexpectedEnd,
        Err(_) => ConnectionEnd::Aborted,
    }
}

} // verus!
