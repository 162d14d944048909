//! From an outline to its plan: the root directory and the entries below it,
//! in the order in which they are to be made.

use crate::line::{root_name, spec_root_name};
use crate::text::{lemma_no_lines_iff_empty, spec_lines, split_lines, strings_view};
use crate::tree::{entry_at, spec_entries, state_after, Entry, EntryView, TreeState};
use vstd::prelude::*;

verus! {

/// Why an outline has no plan.
#[derive(Clone, Copy, Debug, PartialEq, Eq, Structural)]
pub enum TreeError {
    /// The outline has no line at all.
    InvalidInput,
}

impl TreeError {
    /// The error in words.
    pub fn message(&self) -> (text: String)
        ensures
            text@ == "Input is empty"@,
    {
        "Input is empty".to_owned()
    }
}

/// What an outline asks for: a root directory below the base directory, and
/// the entries of the lines after the first.
#[derive(Debug, PartialEq, Eq)]
pub struct TreePlan {
    pub root: String,
    pub entries: Vec<Entry>,
}

/// A plan as contracts see it.
pub struct TreePlanView {
    pub root: Seq<char>,
    pub entries: Seq<EntryView>,
}

/// The views of a sequence of entries.
pub open spec fn entries_view(entries: Seq<Entry>) -> Seq<EntryView> {
    Seq::new(entries.len(), |i: int| entries[i]@)
}

impl View for TreePlan {
    type V = TreePlanView;

    open spec fn view(&self) -> TreePlanView {
        TreePlanView { root: self.root@, entries: entries_view(self.entries@) }
    }
}

/// The plan of the lines of an outline: none without a first line. The first
/// line names the root, blank or not; every later line adds one entry.
pub open spec fn plan_of_lines(lines: Seq<Seq<char>>) -> Option<TreePlanView> {
    if lines.len() == 0 {
        None
    } else {
        let root = spec_root_name(lines[0]);
        Some(TreePlanView { root, entries: spec_entries(root, lines.drop_first()) })
    }
}

/// The plan of an outline.
pub open spec fn spec_plan(input: Seq<char>) -> Option<TreePlanView> {
    plan_of_lines(spec_lines(input))
}

/// Reads an outline and returns its plan. Only the empty outline has none:
/// no indentation is refused, however far it jumps.
pub fn create_tree(input: &str) -> (result: Result<TreePlan, TreeError>)
    ensures
        result is Err <==> input@.len() == 0,
        match result {
            Ok(plan) => spec_plan(input@) == Some(plan@),
            Err(e) => e == TreeError::InvalidInput && spec_plan(input@) is None,
        },
{
    let lines = split_lines(input);
    proof {
        lemma_no_lines_iff_empty(input@);
    }
    if lines.len() == 0 {
        return Err(TreeError::InvalidInput);
    }
    let ghost all = spec_lines(input@);
    let ghost rest = all.drop_first();
    let root = root_name(lines[0].as_str());
    let mut state = TreeState::new(root.clone());
    let mut entries: Vec<Entry> = Vec::new();
    let mut i: usize = 1;
    proof {
        assert(rest.take(0) =~= Seq::<Seq<char>>::empty());
    }
    while i < lines.len()
        invariant
            1 <= i <= lines.len(),
            strings_view(lines@) == all,
            rest == all.drop_first(),
            state@ == state_after(root@, rest.take(i - 1)),
            entries@.len() == i - 1,
            forall|k: int| 0 <= k < i - 1 ==> (#[trigger] entries@[k])@ == entry_at(root@, rest, k),
        decreases lines.len() - i,
    {
        proof {
            assert(rest[i - 1] == lines@[i as int]@);
            assert(rest.take(i as int).drop_last() =~= rest.take(i - 1));
            assert(rest.take(i as int).last() == rest[i - 1]);
        }
        let entry = state.step(lines[i].as_str());
        entries.push(entry);
        i += 1;
    }
    let plan = TreePlan { root, entries };
    proof {
        assert(plan@.entries =~= spec_entries(root@, rest));
    }
    Ok(plan)
}

} // verus!
