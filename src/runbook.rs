//! The run-book document and its stages.
use vstd::prelude::*;

verus! {

/// Where a stage's target names are looked up.
#[derive(Clone, Copy, Debug, PartialEq, Eq, Structural)]
pub enum Namespace {
    /// Buildable artifacts.
    Builds,
    /// Deployable and runnable units.
    Deployments,
}

/// The operation a stage performs on each of its targets.
#[derive(Clone, Copy, Debug, PartialEq, Eq, Structural)]
pub enum Action {
    Build,
    Deploy,
    StartContainer,
    StopContainer,
    DestroyContainer,
}

/// The namespace in which the targets of a stage with this action are resolved.
pub open spec fn namespace_of(action: Action) -> Namespace {
    match action {
        Action::Build => Namespace::Builds,
        _ => Namespace::Deployments,
    }
}

/// The lower snake case token that names an action in a run-book.
pub open spec fn token_of(action: Action) -> Seq<char> {
    match action {
        Action::Build => "build"@,
        Action::Deploy => "deploy"@,
        Action::StartContainer => "start_container"@,
        Action::StopContainer => "stop_container"@,
        Action::DestroyContainer => "destroy_container"@,
    }
}

impl Action {
    /// The namespace that this action's targets are resolved in.
    pub fn namespace(&self) -> (r: Namespace)
        ensures
            r == namespace_of(*self),
    {
        match self {
            Action::Build => Namespace::Builds,
            Action::Deploy | Action::StartContainer | Action::StopContainer
            | Action::DestroyContainer => Namespace::Deployments,
        }
    }

    /// The token that names this action in a run-book.
    pub fn name(&self) -> (r: &'static str)
        ensures
            r@ == token_of(*self),
    {
        match self {
            Action::Build => "build",
            Action::Deploy => "deploy",
            Action::StartContainer => "start_container",
            Action::StopContainer => "stop_container",
            Action::DestroyContainer => "destroy_container",
        }
    }
}

/// One named unit of a run-book: an action applied to every target together.
#[derive(Clone, Debug, PartialEq, Eq)]
pub struct Stage {
    pub name: String,
    pub action: Action,
    pub targets: Vec<String>,
}

/// A run-book: a name and its stages, in the order they run.
#[derive(Clone, Debug, PartialEq, Eq)]
pub struct MonitorFile {
    pub name: String,
    pub stage: Vec<Stage>,
}

/// The address of the management service and the credentials for it.
#[derive(Clone, Debug, PartialEq, Eq)]
pub struct CredsFile {
    pub url: String,
    pub username: String,
    pub secret: String,
}

} // verus!
