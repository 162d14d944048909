//! The walk over an outline: a stack of open directories and the depth of the
//! line before, and the entry that each line adds.

use crate::line::{
    entry_name, is_directory_name, line_depth, spec_depth, spec_is_directory_name, spec_name,
};
use crate::text::{clone_strings, strings_view};
use vstd::prelude::*;

verus! {

/// What an entry is.
#[derive(Clone, Copy, Debug, PartialEq, Eq, Structural)]
pub enum EntryKind {
    Directory,
    File,
}

/// One entry of an outline. Its place is `parent`, the names of the
/// directories above it from the base directory down, then `name`.
#[derive(Debug, PartialEq, Eq)]
pub struct Entry {
    pub depth: usize,
    pub name: String,
    pub kind: EntryKind,
    pub parent: Vec<String>,
}

/// An entry as contracts see it.
pub struct EntryView {
    pub depth: nat,
    pub name: Seq<char>,
    pub kind: EntryKind,
    pub parent: Seq<Seq<char>>,
}

impl View for Entry {
    type V = EntryView;

    open spec fn view(&self) -> EntryView {
        EntryView {
            depth: self.depth as nat,
            name: self.name@,
            kind: self.kind,
            parent: strings_view(self.parent@),
        }
    }
}

impl EntryView {
    /// The names from the base directory down to the entry itself.
    pub open spec fn path(self) -> Seq<Seq<char>> {
        self.parent.push(self.name)
    }
}

impl Entry {
    /// The names from the base directory down to the entry itself.
    pub fn path(&self) -> (names: Vec<String>)
        ensures
            strings_view(names@) == self@.path(),
    {
        let mut names = clone_strings(&self.parent);
        names.push(self.name.clone());
        assert(strings_view(names@) =~= self@.path());
        names
    }
}

/// The state of a walk. `stack` holds the names of the open directories, the
/// root first, each inside the one before it; `depth` is the depth of the
/// line read last.
#[derive(Debug, PartialEq, Eq)]
pub struct TreeState {
    pub stack: Vec<String>,
    pub depth: usize,
}

/// A state as contracts see it.
pub struct TreeStateView {
    pub stack: Seq<Seq<char>>,
    pub depth: nat,
}

impl View for TreeState {
    type V = TreeStateView;

    open spec fn view(&self) -> TreeStateView {
        TreeStateView { stack: strings_view(self.stack@), depth: self.depth as nat }
    }
}

/// The state before the first entry: the root alone is open, at depth 0.
pub open spec fn initial_state(root: Seq<char>) -> TreeStateView {
    TreeStateView { stack: seq![root], depth: 0 }
}

/// How many directories a line at `depth` closes: one for each level that it
/// lies above the line before, as far as the stack goes; none when it lies
/// as deep or deeper.
pub open spec fn closed_count(state: TreeStateView, depth: nat) -> nat {
    if depth >= state.depth {
        0
    } else if state.depth - depth <= state.stack.len() {
        (state.depth - depth) as nat
    } else {
        state.stack.len()
    }
}

/// The directories that stay open when a line at `depth` comes.
pub open spec fn open_after(state: TreeStateView, depth: nat) -> Seq<Seq<char>> {
    state.stack.take(state.stack.len() - closed_count(state, depth))
}

/// The kind of the entry called `name`.
pub open spec fn kind_of(name: Seq<char>) -> EntryKind {
    if spec_is_directory_name(name) {
        EntryKind::Directory
    } else {
        EntryKind::File
    }
}

/// The entry that `line` adds in `state`: it lies in the innermost directory
/// that stays open, or in the base directory when none does.
pub open spec fn step_entry(state: TreeStateView, line: Seq<char>) -> EntryView {
    EntryView {
        depth: spec_depth(line),
        name: spec_name(line),
        kind: kind_of(spec_name(line)),
        parent: open_after(state, spec_depth(line)),
    }
}

/// The state after `line`: a directory is opened, a file is not, and the
/// depth is that of the line, whatever it was before.
pub open spec fn step_state(state: TreeStateView, line: Seq<char>) -> TreeStateView {
    let entry = step_entry(state, line);
    TreeStateView {
        stack: if entry.kind == EntryKind::Directory {
            entry.path()
        } else {
            entry.parent
        },
        depth: entry.depth,
    }
}

/// The state after all of `lines`, read in order below the root.
pub open spec fn state_after(root: Seq<char>, lines: Seq<Seq<char>>) -> TreeStateView
    decreases lines.len(),
{
    if lines.len() == 0 {
        initial_state(root)
    } else {
        step_state(state_after(root, lines.drop_last()), lines.last())
    }
}

/// The entry of line `i` of `lines`.
pub open spec fn entry_at(root: Seq<char>, lines: Seq<Seq<char>>, i: int) -> EntryView {
    step_entry(state_after(root, lines.take(i)), lines[i])
}

/// The entries of `lines`, one for each line and in their order.
pub open spec fn spec_entries(root: Seq<char>, lines: Seq<Seq<char>>) -> Seq<EntryView> {
    Seq::new(lines.len(), |i: int| entry_at(root, lines, i))
}

impl TreeState {
    /// The state before the first entry.
    pub fn new(root: String) -> (state: TreeState)
        ensures
            state@ == initial_state(root@),
    {
        let mut stack: Vec<String> = Vec::new();
        stack.push(root);
        let state = TreeState { stack, depth: 0 };
        assert(state@.stack =~= seq![root@]);
        state
    }

    /// Reads one line: closes the directories that end before it, and
    /// returns its entry.
    pub fn step(&mut self, line: &str) -> (entry: Entry)
        ensures
            entry@ == step_entry(old(self)@, line@),
            final(self)@ == step_state(old(self)@, line@),
    {
        let ghost before = self@;
        let depth = line_depth(line);
        let name = entry_name(line);
        while depth < self.depth && self.stack.len() > 0
            invariant
                self.stack@.len() <= before.stack.len(),
                strings_view(self.stack@) == before.stack.take(self.stack@.len() as int),
                self.depth + (before.stack.len() - self.stack@.len()) == before.depth,
                before.stack.len() - self.stack@.len() <= closed_count(before, depth as nat),
            decreases self.stack@.len(),
        {
            self.stack.pop();
            self.depth -= 1;
            assert(strings_view(self.stack@) =~= before.stack.take(self.stack@.len() as int));
        }
        self.depth = depth;
        assert(strings_view(self.stack@) == open_after(before, depth as nat));
        let parent = clone_strings(&self.stack);
        let kind = if is_directory_name(name.as_str()) {
            self.stack.push(name.clone());
            assert(strings_view(self.stack@) =~= strings_view(parent@).push(name@));
            EntryKind::Directory
        } else {
            EntryKind::File
        };
        Entry { depth, name, kind, parent }
    }
}

} // verus!
