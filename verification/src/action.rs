//! What to do at each place of a plan, once it is known whether the place
//! exists already. Nothing that exists is made again or changed.

use crate::tree::EntryKind;
use vstd::prelude::*;

verus! {

/// What stands at a place of a plan.
#[derive(Clone, Copy, Debug, PartialEq, Eq, Structural)]
pub enum Target {
    Root,
    Directory,
    File,
}

/// What is done at a place: `create` says whether it is made, with the
/// directories above it, or left as it was found.
#[derive(Clone, Copy, Debug, PartialEq, Eq, Structural)]
pub struct Action {
    pub target: Target,
    pub create: bool,
}

/// What stands at the place of an entry of the given kind.
pub open spec fn target_of(kind: EntryKind) -> Target {
    match kind {
        EntryKind::Directory => Target::Directory,
        EntryKind::File => Target::File,
    }
}

/// The action at a place of which it is known whether it exists: it is made
/// exactly when it does not.
pub open spec fn spec_action(target: Target, exists: bool) -> Action {
    Action { target, create: !exists }
}

/// The words that report an action; the place follows them.
pub open spec fn spec_report(action: Action) -> Seq<char> {
    match (action.target, action.create) {
        (Target::Root, true) => "Created root directory"@,
        (Target::Root, false) => "Root directory already exists"@,
        (Target::Directory, true) => "Created directory"@,
        (Target::Directory, false) => "Directory already exists"@,
        (Target::File, true) => "Created file"@,
        (Target::File, false) => "File already exists"@,
    }
}

/// The action for the root directory: made exactly when it does not exist.
pub fn root_action(exists: bool) -> (action: Action)
    ensures
        action == spec_action(Target::Root, exists),
{
    Action { target: Target::Root, create: !exists }
}

/// The action for an entry: a directory for a directory entry and a file for
/// a file entry, made exactly when the place does not exist.
pub fn entry_action(kind: EntryKind, exists: bool) -> (action: Action)
    ensures
        action == spec_action(target_of(kind), exists),
{
    let target = match kind {
        EntryKind::Directory => Target::Directory,
        EntryKind::File => Target::File,
    };
    Action { target, create: !exists }
}

impl Action {
    /// The words that report this action.
    pub fn report(&self) -> (text: String)
        ensures
            text@ == spec_report(*self),
    {
        let words = match (self.target, self.create) {
            (Target::Root, true) => "Created root directory",
            (Target::Root, false) => "Root directory already exists",
            (Target::Directory, true) => "Created directory",
            (Target::Directory, false) => "Directory already exists",
            (Target::File, true) => "Created file",
            (Target::File, false) => "File already exists",
        };
        words.to_owned()
    }
}

} // verus!
