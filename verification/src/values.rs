//! The values that resolution works on.
//!
//! What a collaborator owns (the resolution environment, assets, evaluable
//! entries, lower-layer failures) is known to this library by a handle only:
//! two handles are equal exactly when they denote the same thing. What a
//! declaration is written with (a module specifier, a path) is text.

use vstd::prelude::*;
use vstd::string::*;

verus! {

/// The module-resolution environment in effect. Resolution hands it on to the
/// resolver and never looks inside.
#[derive(Clone, Copy, Debug, PartialEq, Eq, Hash, Structural)]
pub struct ResolutionContext {
    pub id: u64,
}

/// A module asset, as the resolver hands it out.
#[derive(Clone, Copy, Debug, PartialEq, Eq, Hash, Structural)]
pub struct Asset {
    pub id: u64,
}

/// An asset that is known to be evaluable as a runtime module.
#[derive(Clone, Copy, Debug, PartialEq, Eq, Hash, Structural)]
pub struct EvaluatedEntry {
    pub id: u64,
}

/// A failure of a lower layer (the file system, the task engine, the
/// resolver), kept by the collaborator that reported it.
#[derive(Clone, Copy, Debug, PartialEq, Eq, Hash, Structural)]
pub struct Failure {
    pub id: u64,
}

/// A location in the project tree.
#[derive(Debug, PartialEq, Eq)]
pub struct FileSystemPath {
    pub path: String,
}

impl View for FileSystemPath {
    type V = Seq<char>;

    open spec fn view(&self) -> Seq<char> {
        self.path@
    }
}

impl Clone for FileSystemPath {
    fn clone(&self) -> (copy: Self)
        ensures
            copy == *self,
    {
        FileSystemPath { path: self.path.clone() }
    }
}

impl FileSystemPath {
    /// The location written as `path`.
    pub fn new(path: String) -> (location: Self)
        ensures
            location.path == path,
            location@ == path@,
    {
        FileSystemPath { path }
    }
}

/// An unresolved reference to a module: a specifier, which is never empty.
#[derive(Debug, PartialEq, Eq)]
pub struct Request {
    specifier: String,
}

impl View for Request {
    type V = Seq<char>;

    closed spec fn view(&self) -> Seq<char> {
        self.specifier@
    }
}

impl Clone for Request {
    fn clone(&self) -> (copy: Self)
        ensures
            copy == *self,
    {
        proof {
            use_type_invariant(self);
        }
        Request { specifier: self.specifier.clone() }
    }
}

impl Request {
    #[verifier::type_invariant]
    spec fn nonempty(&self) -> bool {
        self.specifier@.len() > 0
    }

    /// The request for `specifier`, or nothing where `specifier` is empty.
    pub fn new(specifier: String) -> (request: Option<Self>)
        ensures
            request is Some <==> specifier@.len() > 0,
            request matches Some(r) ==> r@ == specifier@,
    {
        if specifier.as_str().is_empty() {
            None
        } else {
            Some(Request { specifier })
        }
    }

    /// The specifier that this request is for.
    pub fn specifier(&self) -> (text: &str)
        ensures
            text@ == self@,
            text@.len() > 0,
    {
        proof {
            use_type_invariant(self);
        }
        self.specifier.as_str()
    }
}

/// Where a specifier is resolved from: the environment and a base path.
#[derive(Debug, PartialEq, Eq)]
pub struct ResolveOrigin<'a> {
    pub context: ResolutionContext,
    pub path: &'a FileSystemPath,
}

/// A resolution origin as a mathematical value.
pub struct OriginModel {
    pub context: ResolutionContext,
    pub path: Seq<char>,
}

impl<'a> View for ResolveOrigin<'a> {
    type V = OriginModel;

    open spec fn view(&self) -> OriginModel {
        OriginModel { context: self.context, path: self.path@ }
    }
}

impl<'a> ResolveOrigin<'a> {
    /// The origin that resolves from `path` in the environment `context`.
    pub fn new(context: ResolutionContext, path: &'a FileSystemPath) -> (origin: Self)
        ensures
            origin.context == context,
            origin.path == path,
            origin@ == (OriginModel { context, path: path@ }),
    {
        ResolveOrigin { context, path }
    }
}

} // verus!
