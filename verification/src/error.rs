//! The ways in which pinning can fail.
use vstd::prelude::*;
use crate::text::{decimal, join_text, number_text};

verus! {

/// An error of the pinner. `Io` and `Http` hold the text of an error that the
/// file system or the network reported.
#[allow(inconsistent_fields)]
#[derive(Clone, Debug, PartialEq, Eq)]
pub enum PinError {
    Io(String),
    Http(String),
    HashMismatch { expected: String, actual: String },
    NoMirrorAvailable { model_id: String },
    UnsupportedScheme(String),
    ForbiddenMirrorUrl(String),
    InvalidModelId(String),
    DownloadTooLarge { limit: u64, actual: u64 },
}

/// An error with its texts as sequences of characters.
#[allow(inconsistent_fields)]
#[verifier::ext_equal]
pub enum PinErrorView {
    Io(Seq<char>),
    Http(Seq<char>),
    HashMismatch { expected: Seq<char>, actual: Seq<char> },
    NoMirrorAvailable { model_id: Seq<char> },
    UnsupportedScheme(Seq<char>),
    ForbiddenMirrorUrl(Seq<char>),
    InvalidModelId(Seq<char>),
    DownloadTooLarge { limit: u64, actual: u64 },
}

impl View for PinError {
    type V = PinErrorView;

    open spec fn view(&self) -> PinErrorView {
        match *self {
            PinError::Io(t) => PinErrorView::Io(t@),
            PinError::Http(t) => PinErrorView::Http(t@),
            PinError::HashMismatch { expected, actual } => PinErrorView::HashMismatch {
                expected: expected@,
                actual: actual@,
            },
            PinError::NoMirrorAvailable { model_id } => PinErrorView::NoMirrorAvailable {
                model_id: model_id@,
            },
            PinError::UnsupportedScheme(t) => PinErrorView::UnsupportedScheme(t@),
            PinError::ForbiddenMirrorUrl(t) => PinErrorView::ForbiddenMirrorUrl(t@),
            PinError::InvalidModelId(t) => PinErrorView::InvalidModelId(t@),
            PinError::DownloadTooLarge { limit, actual } => PinErrorView::DownloadTooLarge {
                limit,
                actual,
            },
        }
    }
}

/// What an error says to a reader.
pub open spec fn error_text(e: PinErrorView) -> Seq<char> {
    match e {
        PinErrorView::Io(t) => "io: "@ + t,
        PinErrorView::Http(t) => "http: "@ + t,
        PinErrorView::HashMismatch { expected, actual } => "hash mismatch: expected "@ + expected
            + ", got "@ + actual,
        PinErrorView::NoMirrorAvailable { model_id } => "no mirror could serve "@ + model_id,
        PinErrorView::UnsupportedScheme(t) => "unsupported scheme: "@ + t,
        PinErrorView::ForbiddenMirrorUrl(t) => "forbidden mirror url: "@ + t,
        PinErrorView::InvalidModelId(t) => "invalid model_id: "@ + t,
        PinErrorView::DownloadTooLarge { limit, actual } => "download too large: limit "@
            + number_text(limit as nat, 10) + " bytes, got at least "@ + number_text(
            actual as nat,
            10,
        ) + " bytes"@,
    }
}

impl PinError {
    /// The message of this error.
    pub fn message(&self) -> (r: String)
        ensures
            r@ == error_text(self@),
    {
        match self {
            PinError::Io(t) => join_text("io: ", t.as_str()),
            PinError::Http(t) => join_text("http: ", t.as_str()),
            PinError::HashMismatch { expected, actual } => {
                let mut out = join_text("hash mismatch: expected ", expected.as_str());
                out.append(", got ");
                out.append(actual.as_str());
                out
            },
            PinError::NoMirrorAvailable { model_id } => join_text(
                "no mirror could serve ",
                model_id.as_str(),
            ),
            PinError::UnsupportedScheme(t) => join_text("unsupported scheme: ", t.as_str()),
            PinError::ForbiddenMirrorUrl(t) => join_text("forbidden mirror url: ", t.as_str()),
            PinError::InvalidModelId(t) => join_text("invalid model_id: ", t.as_str()),
            PinError::DownloadTooLarge { limit, actual } => {
                let mut out = join_text("download too large: limit ", decimal(*limit).as_str());
                out.append(" bytes, got at least ");
                out.append(decimal(*actual).as_str());
                out.append(" bytes");
                out
            },
        }
    }
}

} // verus!
