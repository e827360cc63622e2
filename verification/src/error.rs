//! What can go wrong while a configuration is resolved.

use crate::file::Source;
use crate::keys::{CoercionError, CoercionErrorView};
use crate::parse::ParseError;
use crate::path::InterpolateError;
use vstd::prelude::*;

verus! {

/// A failure to resolve a configuration.
#[derive(Debug, PartialEq, Eq)]
pub enum Error {
    /// A source exists and could not be read.
    Io { path: Vec<u8>, source: Source, reason: Vec<u8> },
    /// A source is not written in the file format. Leniency never hides this.
    Parse { path: Vec<u8>, source: Source, error: ParseError },
    /// A value does not satisfy the kind of its key.
    Coercion(CoercionError),
    /// The path of a nested file, as configured, leads to no file.
    IncludeResolution { path: Vec<u8>, kind: ResolutionErrorKind },
}

/// Why the configured path of a nested file leads to no file.
#[derive(Clone, Copy, Debug, PartialEq, Eq, Structural)]
pub enum ResolutionErrorKind {
    /// The path cannot be expanded.
    Interpolate(InterpolateError),
    /// The path is relative, and the source that names it has no place.
    NoBase,
    /// Files are nested deeper than is followed.
    TooDeep,
}

pub enum ErrorView {
    Io { path: Seq<u8>, source: Source, reason: Seq<u8> },
    Parse { path: Seq<u8>, source: Source, error: ParseError },
    Coercion(CoercionErrorView),
    IncludeResolution { path: Seq<u8>, kind: ResolutionErrorKind },
}

impl View for Error {
    type V = ErrorView;

    open spec fn view(&self) -> ErrorView {
        match self {
            Error::Io { path, source, reason } => ErrorView::Io {
                path: path@,
                source: *source,
                reason: reason@,
            },
            Error::Parse { path, source, error } => ErrorView::Parse {
                path: path@,
                source: *source,
                error: *error,
            },
            Error::Coercion(e) => ErrorView::Coercion(e@),
            Error::IncludeResolution { path, kind } => ErrorView::IncludeResolution {
                path: path@,
                kind: *kind,
            },
        }
    }
}

/// A result with its error as a mathematical value.
pub open spec fn errors<T>(r: Result<T, Error>) -> Result<T, ErrorView> {
    match r {
        Ok(t) => Ok(t),
        Err(e) => Err(e@),
    }
}

/// The result of a coercion as the result of a resolution.
pub open spec fn coercion<T>(r: Result<T, CoercionErrorView>) -> Result<T, ErrorView> {
    match r {
        Ok(t) => Ok(t),
        Err(e) => Err(ErrorView::Coercion(e)),
    }
}

} // verus!
