mod leaf;
mod nested;
pub mod path;

use vstd::prelude::*;
use vstd::std_specs::convert::FromSpecImpl;

use crate::context::path::{render, render_path, segments, split_dots, split_path, PathView};
use crate::value::{unstated, Value, ValueView};

verus! {

/// A path that could not be resolved, as text: its segments with a dot
/// between them, and a backslash before each dot inside a segment.
#[derive(Debug, PartialEq, Eq)]
pub struct ErroredPath(String);

impl View for ErroredPath {
    type V = Seq<char>;

    closed spec fn view(&self) -> Seq<char> {
        self.0@
    }
}

impl ErroredPath {
    /// Renders `path`, given by its segments.
    pub fn from(path: &[&str]) -> (errored: ErroredPath)
        ensures
            errored@ == render(segments(path@)),
    {
        ErroredPath(render_path(path))
    }

    /// The rendered path.
    pub fn as_str(&self) -> (text: &str)
        ensures
            text@ == self@,
    {
        self.0.as_str()
    }

    /// The rendered path, as a string of its own.
    pub fn to_string(&self) -> (text: String)
        ensures
            text@ == self@,
    {
        self.0.clone()
    }
}

/// Why a path could not be resolved against a context.
#[derive(Debug)]
pub enum Error {
    /// The path goes on below a leaf, or names a field that is not there.
    UnexpectedPath(ErroredPath),
    /// A segment that had to be an index of a sequence is not one.
    UnexpectedIndex(core::num::ParseIntError),
    /// A failure of a context of the caller's own, as its message.
    Other(String),
}

/// The model of an [`Error`].
pub ghost enum ErrorView {
    UnexpectedPath(Seq<char>),
    UnexpectedIndex(core::num::ParseIntError),
    Other(Seq<char>),
}

impl View for Error {
    type V = ErrorView;

    open spec fn view(&self) -> ErrorView {
        match self {
            Error::UnexpectedPath(path) => ErrorView::UnexpectedPath(path@),
            Error::UnexpectedIndex(failure) => ErrorView::UnexpectedIndex(*failure),
            Error::Other(message) => ErrorView::Other(message@),
        }
    }
}

impl From<core::num::ParseIntError> for Error {
    fn from(failure: core::num::ParseIntError) -> (error: Error) {
        Error::UnexpectedIndex(failure)
    }
}

impl FromSpecImpl<core::num::ParseIntError> for Error {
    open spec fn obeys_from_spec() -> bool {
        true
    }

    open spec fn from_spec(failure: core::num::ParseIntError) -> Error {
        Error::UnexpectedIndex(failure)
    }
}

/// What a resolution gives, as contracts see it.
pub type Resolution = Result<ValueView, ErrorView>;

/// The model of the result of a resolution.
pub open spec fn resolved(found: Result<Value, Error>) -> Resolution {
    match found {
        Ok(value) => Ok(value@),
        Err(error) => Err(error@),
    }
}

/// Something that a path can be resolved against.
pub trait Context: Sized {
    /// What resolving `path` against this context gives. Resolution is a
    /// function of the context and the path alone. An implementation that
    /// does not say which is taken to have one all the same, of which
    /// nothing more is known.
    open spec fn resolution(&self, path: PathView) -> Resolution {
        unstated(*self, path)
    }

    /// Resolves `path`, given by its segments, against this context.
    fn get_from_context(&self, path: &[&str]) -> (found: Result<Value, Error>)
        ensures
            resolved(found) == self.resolution(segments(path@)),
    ;

    /// Resolves a dot-delimited `path` against this context.
    fn get_from_context_at(&self, path: &str) -> (found: Result<Value, Error>)
        ensures
            resolved(found) == self.resolution(split_dots(path@)),
    {
        let pieces = split_path(path);
        self.get_from_context(pieces.as_slice())
    }
}

/// A context as an evaluation sees it: the function from paths to what
/// resolving them gives.
pub type Resolver = spec_fn(PathView) -> Resolution;

/// The resolver of `context`.
pub open spec fn resolver<C: Context>(context: &C) -> Resolver {
    |path: PathView| context.resolution(path)
}

/// The resolution of a path against a leaf that is `value`: the leaf
/// itself for the empty path, and no other path leads anywhere.
pub open spec fn leaf_resolution(value: ValueView, path: PathView) -> Resolution {
    if path.len() == 0 {
        Ok(value)
    } else {
        Err(ErrorView::UnexpectedPath(render(path)))
    }
}

/// Resolves `path` against a leaf whose value is `value`.
pub(crate) fn resolve_leaf(value: Value, path: &[&str]) -> (found: Result<Value, Error>)
    ensures
        resolved(found) == leaf_resolution(value@, segments(path@)),
{
    if path.len() == 0 {
        Ok(value)
    } else {
        Err(Error::UnexpectedPath(ErroredPath::from(path)))
    }
}

} // verus!
