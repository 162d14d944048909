//! What one line of an outline says: how deep its entry lies, what it is
//! called, and whether it is a directory.

use crate::text::{
    chars_of, is_whitespace, is_whitespace_char, leading_count, lemma_leading_count_is,
    trim_trailing,
};
use vstd::prelude::*;

verus! {

/// Leading characters of a line that make up one level of indentation.
pub const INDENT_WIDTH: usize = 4;

/// Whether `c` counts towards a line's depth: a space, or one of the
/// connectors `│`, `└` and `├`.
pub open spec fn is_indent_unit(c: char) -> bool {
    c == ' ' || c == '\u{2502}' || c == '\u{2514}' || c == '\u{251C}'
}

/// Whether `c` is dropped from the front of a line to get the entry's name:
/// white space, or one of `│`, `└`, `├` and `─`.
pub open spec fn is_name_padding(c: char) -> bool {
    is_whitespace(c) || c == '\u{2502}' || c == '\u{2514}' || c == '\u{251C}' || c == '\u{2500}'
}

/// `is_indent_unit` as a value.
pub open spec fn indent_unit() -> spec_fn(char) -> bool {
    |c: char| is_indent_unit(c)
}

/// `is_name_padding` as a value.
pub open spec fn name_padding() -> spec_fn(char) -> bool {
    |c: char| is_name_padding(c)
}

/// The depth of a line's entry: its leading indent units, four to a level,
/// a started level not counted.
pub open spec fn spec_depth(line: Seq<char>) -> nat {
    leading_count(line, indent_unit()) / (INDENT_WIDTH as nat)
}

/// The name of a line's entry: the line without its leading padding.
pub open spec fn spec_name(line: Seq<char>) -> Seq<char> {
    line.skip(leading_count(line, name_padding()) as int)
}

/// The name of the root directory: the first line without the slashes at its
/// end.
pub open spec fn spec_root_name(first_line: Seq<char>) -> Seq<char> {
    trim_trailing(first_line, '/')
}

/// Whether a name stands for a directory: it ends in a slash.
pub open spec fn spec_is_directory_name(name: Seq<char>) -> bool {
    name.len() > 0 && name.last() == '/'
}

/// Whether `c` counts towards a line's depth.
pub fn is_indent_unit_char(c: char) -> (b: bool)
    ensures
        b == is_indent_unit(c),
{
    c == ' ' || c == '\u{2502}' || c == '\u{2514}' || c == '\u{251C}'
}

/// Whether `c` is dropped from the front of a line.
pub fn is_name_padding_char(c: char) -> (b: bool)
    ensures
        b == is_name_padding(c),
{
    is_whitespace_char(c) || c == '\u{2502}' || c == '\u{2514}' || c == '\u{251C}' || c
        == '\u{2500}'
}

/// The depth of the entry on `line`.
pub fn line_depth(line: &str) -> (depth: usize)
    ensures
        depth == spec_depth(line@),
{
    let chars = chars_of(line);
    let mut width: usize = 0;
    while width < chars.len() && is_indent_unit_char(chars[width])
        invariant
            width <= chars.len(),
            forall|j: int| 0 <= j < width ==> is_indent_unit(chars@[j]),
        decreases chars.len() - width,
    {
        width += 1;
    }
    proof {
        assert forall|j: int| 0 <= j < width implies indent_unit()(#[trigger] chars@[j]) by {}
        lemma_leading_count_is(chars@, indent_unit(), width as nat);
    }
    width / INDENT_WIDTH
}

/// The name of the entry on `line`.
pub fn entry_name(line: &str) -> (name: String)
    ensures
        name@ == spec_name(line@),
{
    let chars = chars_of(line);
    let mut width: usize = 0;
    while width < chars.len() && is_name_padding_char(chars[width])
        invariant
            width <= chars.len(),
            forall|j: int| 0 <= j < width ==> is_name_padding(chars@[j]),
        decreases chars.len() - width,
    {
        width += 1;
    }
    proof {
        assert forall|j: int| 0 <= j < width implies name_padding()(#[trigger] chars@[j]) by {}
        lemma_leading_count_is(chars@, name_padding(), width as nat);
        assert(line@.subrange(width as int, line@.len() as int) =~= line@.skip(width as int));
    }
    line.substring_char(width, chars.len()).to_owned()
}

/// The name of the root directory that `first_line` gives.
pub fn root_name(first_line: &str) -> (name: String)
    ensures
        name@ == spec_root_name(first_line@),
{
    let chars = chars_of(first_line);
    let mut end: usize = chars.len();
    proof {
        assert(first_line@.take(end as int) =~= first_line@);
    }
    while end > 0 && chars[end - 1] == '/'
        invariant
            chars@ == first_line@,
            end <= chars.len(),
            trim_trailing(first_line@, '/') == trim_trailing(first_line@.take(end as int), '/'),
        decreases end,
    {
        proof {
            assert(first_line@.take(end as int).drop_last() =~= first_line@.take(end - 1));
        }
        end -= 1;
    }
    proof {
        assert(first_line@.subrange(0, end as int) =~= first_line@.take(end as int));
    }
    first_line.substring_char(0, end).to_owned()
}

/// Whether `name` stands for a directory.
pub fn is_directory_name(name: &str) -> (b: bool)
    ensures
        b == spec_is_directory_name(name@),
{
    let chars = chars_of(name);
    chars.len() > 0 && chars[chars.len() - 1] == '/'
}

} // verus!
