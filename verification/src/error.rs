//! The ways in which planning a release can fail.

use vstd::prelude::*;

verus! {

#[derive(Clone, Copy, Debug, PartialEq, Eq, Structural)]
pub enum Error {
    /// A version is not three dotted integers with an optional `-tail`.
    VersionParse,
    /// A version component is already as large as it can get.
    VersionOverflow,
    /// A size that moves no version (`Empty` or `Failure`) was applied.
    SizeNotApplicable,
    /// A path holds a backslash, which the pattern matcher reads differently
    /// from one target to another.
    PathNotPortable,
    /// A coverage pattern holds a backslash or is not a well-formed glob.
    BadPattern,
    /// The history holds no configuration for the commit.
    MissingConfigAtRev,
    /// The configuration at the commit cannot be read.
    ConfigParse,
    /// The history has not been sliced to any commit yet.
    NotSliced,
    /// A step of the plan was taken outside a pull request.
    NotOnPr,
    /// A file was announced outside a commit.
    NotOnCommit,
    /// The repository was not asked about a tag pattern of a project.
    TagResolve,
    /// A version breaks a restriction of its project.
    RestrictionViolation,
    /// A commit in scope does not follow the conventional form.
    ConventionalParse,
    /// A file of the main line was announced outside a commit.
    NotOnLineCommit,
    /// The dependencies between the projects form a cycle.
    DependencyCycle,
    /// The configuration has not exactly one project.
    NoSoloProject,
    /// A project has no version in the working tree.
    NoSuchValue,
    /// A chain write names a downstream project that does not exist.
    NoSuchDependent,
    /// A chain write names a dependency that the downstream project lacks.
    NoSuchDepends,
    /// A chain write names an upstream project without a new version.
    NoNewValue,
    /// The branch that is checked out is not the one the configuration asks
    /// for.
    BranchMismatch,
    /// A release is paused; it has to be resumed or aborted first.
    PausedState,
    /// There is no paused release to resume or abort.
    MissingPauseFile,
    /// No project goes by the identifier or name that was asked for.
    NoSuchProject,
    /// More than one project goes by the name that was asked for.
    AmbiguousProject,
}

} // verus!
