use vstd::prelude::*;

use crate::context::path::{render, PathView};
use crate::context::{leaf_resolution, resolve_leaf, Context, Error, ErrorView, Resolution};
use crate::value::{ToValue, Value, ValueView};

verus! {

impl Context for i32 {
    open spec fn resolution(&self, path: PathView) -> Resolution {
        leaf_resolution(self.value(), path)
    }

    fn get_from_context(&self, path: &[&str]) -> (found: Result<Value, Error>) {
        resolve_leaf(self.to_value(), path)
    }
}

impl Context for u32 {
    open spec fn resolution(&self, path: PathView) -> Resolution {
        leaf_resolution(self.value(), path)
    }

    fn get_from_context(&self, path: &[&str]) -> (found: Result<Value, Error>) {
        resolve_leaf(self.to_value(), path)
    }
}

impl Context for i64 {
    open spec fn resolution(&self, path: PathView) -> Resolution {
        leaf_resolution(self.value(), path)
    }

    fn get_from_context(&self, path: &[&str]) -> (found: Result<Value, Error>) {
        resolve_leaf(self.to_value(), path)
    }
}

impl Context for u64 {
    open spec fn resolution(&self, path: PathView) -> Resolution {
        leaf_resolution(self.value(), path)
    }

    fn get_from_context(&self, path: &[&str]) -> (found: Result<Value, Error>) {
        resolve_leaf(self.to_value(), path)
    }
}

impl Context for isize {
    open spec fn resolution(&self, path: PathView) -> Resolution {
        leaf_resolution(self.value(), path)
    }

    fn get_from_context(&self, path: &[&str]) -> (found: Result<Value, Error>) {
        resolve_leaf(self.to_value(), path)
    }
}

impl Context for usize {
    open spec fn resolution(&self, path: PathView) -> Resolution {
        leaf_resolution(self.value(), path)
    }

    fn get_from_context(&self, path: &[&str]) -> (found: Result<Value, Error>) {
        resolve_leaf(self.to_value(), path)
    }
}

impl Context for String {
    open spec fn resolution(&self, path: PathView) -> Resolution {
        leaf_resolution(self.value(), path)
    }

    fn get_from_context(&self, path: &[&str]) -> (found: Result<Value, Error>) {
        resolve_leaf(self.to_value(), path)
    }
}

impl<'a> Context for &'a str {
    open spec fn resolution(&self, path: PathView) -> Resolution {
        leaf_resolution(self.value(), path)
    }

    fn get_from_context(&self, path: &[&str]) -> (found: Result<Value, Error>) {
        resolve_leaf(self.to_value(), path)
    }
}

/// Every primitive is a leaf: the empty path leads to the value that the
/// primitive stands for, and every other path fails with that path,
/// rendered, as an unexpected one.
pub proof fn lemma_primitives_are_leaves(
    a: i32,
    b: u32,
    c: i64,
    d: u64,
    e: isize,
    f: usize,
    g: String,
    h: &str,
    path: PathView,
)
    ensures
        a.resolution(path) == leaf_resolution(a.value(), path),
        b.resolution(path) == leaf_resolution(b.value(), path),
        c.resolution(path) == leaf_resolution(c.value(), path),
        d.resolution(path) == leaf_resolution(d.value(), path),
        e.resolution(path) == leaf_resolution(e.value(), path),
        f.resolution(path) == leaf_resolution(f.value(), path),
        g.resolution(path) == leaf_resolution(g.value(), path),
        h.resolution(path) == leaf_resolution(h.value(), path),
        path.len() == 0 ==> a.resolution(path) == Ok::<ValueView, ErrorView>(a.value())
            && g.resolution(path) == Ok::<ValueView, ErrorView>(g.value()),
        path.len() > 0 ==> a.resolution(path) == Err::<ValueView, ErrorView>(
            ErrorView::UnexpectedPath(render(path)),
        ) && g.resolution(path) == Err::<ValueView, ErrorView>(
            ErrorView::UnexpectedPath(render(path)),
        ),
{
}

} // verus!
