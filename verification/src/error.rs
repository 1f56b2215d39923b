//! What can go wrong with a request, and with reading a reply.

use vstd::prelude::*;

verus! {

/// Why a request could not be made or answered.
#[derive(Debug, PartialEq, Eq)]
pub enum RequestErrors {
    /// Headers and the timeout are fixed once the request was sent.
    CantSetHeadersAfterRequestSent,
    /// The host name could not be resolved.
    CantResolveUrl,
    /// The connection timed out.
    ConnectionTimeout,
    /// The URL cannot be taken apart, or what stands where the port number
    /// belongs is no number from 0 to 65535.
    MalformedUrl,
    /// The request was sent before: a request is sent once.
    AlreadySent,
    /// The connection failed, or the reply was malformed; the text says which.
    ConnectionError(String),
}

/// What a `RequestErrors` holds, as a mathematical value.
pub enum RequestErrorsView {
    CantSetHeadersAfterRequestSent,
    CantResolveUrl,
    ConnectionTimeout,
    MalformedUrl,
    AlreadySent,
    ConnectionError(Seq<char>),
}

impl View for RequestErrors {
    type V = RequestErrorsView;

    open spec fn view(&self) -> RequestErrorsView {
        match self {
            RequestErrors::CantSetHeadersAfterRequestSent => {
                RequestErrorsView::CantSetHeadersAfterRequestSent
            },
            RequestErrors::CantResolveUrl => RequestErrorsView::CantResolveUrl,
            RequestErrors::ConnectionTimeout => RequestErrorsView::ConnectionTimeout,
            RequestErrors::MalformedUrl => RequestErrorsView::MalformedUrl,
            RequestErrors::AlreadySent => RequestErrorsView::AlreadySent,
            RequestErrors::ConnectionError(detail) => RequestErrorsView::ConnectionError(detail@),
        }
    }
}

impl Clone for RequestErrors {
    fn clone(&self) -> (r: Self)
        ensures
            r == *self,
    {
        match self {
            RequestErrors::CantSetHeadersAfterRequestSent => {
                RequestErrors::CantSetHeadersAfterRequestSent
            },
            RequestErrors::CantResolveUrl => RequestErrors::CantResolveUrl,
            RequestErrors::ConnectionTimeout => RequestErrors::ConnectionTimeout,
            RequestErrors::MalformedUrl => RequestErrors::MalformedUrl,
            RequestErrors::AlreadySent => RequestErrors::AlreadySent,
            RequestErrors::ConnectionError(detail) => RequestErrors::ConnectionError(
                detail.clone(),
            ),
        }
    }
}

/// What went wrong between a request and its reply, outside the reply
/// itself.
#[derive(Debug)]
pub enum Failure {
    /// TLS could not be set up.
    TlsUnavailable,
    /// The host name could not be resolved.
    Unresolved,
    /// Connecting, the TLS handshake or writing the request failed; the text
    /// describes how.
    Stream(String),
}

/// What a `Failure` holds, as a mathematical value.
pub enum FailureView {
    TlsUnavailable,
    Unresolved,
    Stream(Seq<char>),
}

impl View for Failure {
    type V = FailureView;

    open spec fn view(&self) -> FailureView {
        match self {
            Failure::TlsUnavailable => FailureView::TlsUnavailable,
            Failure::Unresolved => FailureView::Unresolved,
            Failure::Stream(detail) => FailureView::Stream(detail@),
        }
    }
}

/// The error that stands for a failure.
pub open spec fn error_of(failure: FailureView) -> RequestErrorsView {
    match failure {
        FailureView::TlsUnavailable => RequestErrorsView::ConnectionError(
            "Failed to establish ssl connection"@,
        ),
        FailureView::Unresolved => RequestErrorsView::CantResolveUrl,
        FailureView::Stream(detail) => RequestErrorsView::ConnectionError(detail),
    }
}

impl RequestErrors {
    /// The error that stands for `failure`: a host that cannot be resolved is
    /// `CantResolveUrl`, everything else a `ConnectionError` with its text.
    pub fn from_failure(failure: Failure) -> (r: RequestErrors)
        ensures
            r@ == error_of(failure@),
    {
        match failure {
            Failure::TlsUnavailable => RequestErrors::ConnectionError(
                "Failed to establish ssl connection".to_owned(),
            ),
            Failure::Unresolved => RequestErrors::CantResolveUrl,
            Failure::Stream(detail) => RequestErrors::ConnectionError(detail),
        }
    }
}

/// Why a line of a reply could not be read.
#[derive(Clone, Copy, Debug, PartialEq, Eq)]
pub enum ParseError {
    /// A header line holds no colon.
    MissingColon,
    /// A status line holds no blank, so it has a version at most and no
    /// status code.
    MissingStatusCode,
    /// What stands where the status code belongs is no number from 0 to
    /// 65535.
    InvalidStatusCode,
}

} // verus!
