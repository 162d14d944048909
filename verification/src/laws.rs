//! What holds of every outline.

use crate::line::{
    is_indent_unit, is_name_padding, indent_unit, name_padding, spec_depth,
    spec_is_directory_name, spec_name, spec_root_name,
};
use crate::plan::{spec_plan, TreePlanView};
use crate::text::{
    leading_count, lemma_leading_count_bounds, lemma_no_lines_iff_empty, spec_lines,
    trim_trailing,
};
use crate::tree::{step_entry, step_state, EntryKind, TreeStateView};
use vstd::prelude::*;

verus! {

/// An outline has a plan exactly when it is not empty, and the plan has one
/// entry for each line after the first: no line is refused for its
/// indentation.
pub proof fn lemma_plan_iff_not_empty(input: Seq<char>)
    ensures
        spec_plan(input) is Some <==> input.len() > 0,
        spec_plan(input) matches Some(plan) ==> plan.entries.len() + 1 == spec_lines(input).len(),
{
    lemma_no_lines_iff_empty(input);
}

/// A line is its padding followed by its name, and the name begins with no
/// padding.
pub proof fn lemma_name_follows_padding(line: Seq<char>)
    ensures
        spec_name(line).len() <= line.len(),
        spec_name(line) == line.skip(line.len() - spec_name(line).len()),
        forall|j: int|
            0 <= j < line.len() - spec_name(line).len() ==> is_name_padding(#[trigger] line[j]),
        spec_name(line).len() > 0 ==> !is_name_padding(spec_name(line)[0]),
{
    lemma_leading_count_bounds(line, name_padding());
}

/// Every indent unit is padding, so the name begins at or after the place
/// where the indentation ends: the depth of a line is at most a quarter of
/// the length of its padding.
pub proof fn lemma_depth_within_padding(line: Seq<char>)
    ensures
        spec_depth(line) * 4 <= line.len() - spec_name(line).len(),
{
    lemma_leading_count_bounds(line, name_padding());
    lemma_leading_count_bounds(line, indent_unit());
    let units = leading_count(line, indent_unit());
    let padding = leading_count(line, name_padding());
    if padding < units {
        assert(is_indent_unit(line[padding as int]));
        assert(indent_unit()(line[padding as int]));
    }
}

/// The root's name is the first line up to the slashes at its end: it ends
/// in no slash, and only slashes were dropped.
pub proof fn lemma_root_name_ends_in_no_slash(first_line: Seq<char>)
    ensures
        spec_root_name(first_line).is_prefix_of(first_line),
        !spec_is_directory_name(spec_root_name(first_line)),
        forall|j: int|
            spec_root_name(first_line).len() <= j < first_line.len() ==> first_line[j] == '/',
    decreases first_line.len(),
{
    if first_line.len() > 0 && first_line.last() == '/' {
        let front = first_line.drop_last();
        lemma_root_name_ends_in_no_slash(front);
        assert(trim_trailing(first_line, '/') == trim_trailing(front, '/'));
        assert forall|j: int|
            spec_root_name(first_line).len() <= j < first_line.len() implies first_line[j]
            == '/' by {
            if j < front.len() {
                assert(front[j] == first_line[j]);
            }
        }
    }
}

/// A line whose name ends in a slash gives a directory, and every other line
/// gives a file, whatever the name holds before its end. A directory is then
/// open, at the end of the stack; a file leaves the stack as the line found
/// it.
pub proof fn lemma_kind_follows_trailing_slash(state: TreeStateView, line: Seq<char>)
    ensures
        step_entry(state, line).kind == EntryKind::Directory <==> spec_is_directory_name(
            spec_name(line),
        ),
        step_entry(state, line).kind == EntryKind::File <==> !spec_is_directory_name(
            spec_name(line),
        ),
        step_entry(state, line).kind == EntryKind::Directory ==> step_state(state, line).stack
            == step_entry(state, line).path(),
        step_entry(state, line).kind == EntryKind::File ==> step_state(state, line).stack
            == step_entry(state, line).parent,
{
}

/// In a plan, the directories are the entries whose names end in a slash.
pub proof fn lemma_plan_kinds(input: Seq<char>, plan: TreePlanView, i: int)
    requires
        spec_plan(input) == Some(plan),
        0 <= i < plan.entries.len(),
    ensures
        plan.entries[i].kind == EntryKind::Directory <==> spec_is_directory_name(
            plan.entries[i].name,
        ),
{
}

/// A line that lies as deep as the line before it, or deeper by any number
/// of levels, closes no directory: its entry lies in the directory that was
/// last opened, and the depth becomes that of the line.
pub proof fn lemma_deeper_line_attaches_to_top(state: TreeStateView, line: Seq<char>)
    requires
        spec_depth(line) >= state.depth,
    ensures
        step_entry(state, line).parent == state.stack,
        step_state(state, line).depth == spec_depth(line),
{
    assert(state.stack.take(state.stack.len() as int) =~= state.stack);
}

/// No line opens anything but its own entry: the directories above an entry
/// were all open before its line, in the same order from the root down.
pub proof fn lemma_parent_was_open(state: TreeStateView, line: Seq<char>)
    ensures
        step_entry(state, line).parent.is_prefix_of(state.stack),
{
}

/// A line that lies above the line before it closes one directory for each
/// level between them, and all of them when there are fewer.
pub proof fn lemma_shallower_line_closes_levels(state: TreeStateView, line: Seq<char>)
    requires
        spec_depth(line) < state.depth,
    ensures
        step_entry(state, line).parent == state.stack.take(
            if state.stack.len() >= state.depth - spec_depth(line) {
                state.stack.len() - (state.depth - spec_depth(line))
            } else {
                0
            },
        ),
{
}

} // verus!
