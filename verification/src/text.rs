//! Characters of a string: runs at its start and end, and lines.

use vstd::prelude::*;

verus! {

/// The number of items at the start of `s` that satisfy `p`.
pub open spec fn leading_count<T>(s: Seq<T>, p: spec_fn(T) -> bool) -> nat
    decreases s.len(),
{
    if s.len() == 0 || !p(s[0]) {
        0
    } else {
        1 + leading_count(s.drop_first(), p)
    }
}

/// `n` is the leading count of `p` in `s` exactly when the first `n` items
/// satisfy `p` and the item after them, if there is one, does not.
pub proof fn lemma_leading_count_is<T>(s: Seq<T>, p: spec_fn(T) -> bool, n: nat)
    requires
        n <= s.len(),
        forall|j: int| 0 <= j < n ==> p(#[trigger] s[j]),
        n == s.len() || !p(s[n as int]),
    ensures
        leading_count(s, p) == n,
    decreases n,
{
    if n > 0 {
        let rest = s.drop_first();
        assert forall|j: int| 0 <= j < n - 1 implies p(#[trigger] rest[j]) by {
            assert(rest[j] == s[j + 1]);
        }
        if n < s.len() {
            assert(rest[n - 1] == s[n as int]);
        }
        lemma_leading_count_is(rest, p, (n - 1) as nat);
    }
}

/// The leading count never passes the end, covers only items that satisfy
/// `p`, and stops at one that does not.
pub proof fn lemma_leading_count_bounds<T>(s: Seq<T>, p: spec_fn(T) -> bool)
    ensures
        leading_count(s, p) <= s.len(),
        forall|j: int| 0 <= j < leading_count(s, p) ==> p(#[trigger] s[j]),
        leading_count(s, p) < s.len() ==> !p(s[leading_count(s, p) as int]),
    decreases s.len(),
{
    if s.len() != 0 && p(s[0]) {
        let rest = s.drop_first();
        lemma_leading_count_bounds(rest, p);
        assert forall|j: int| 0 <= j < leading_count(s, p) implies p(#[trigger] s[j]) by {
            if j > 0 {
                assert(s[j] == rest[j - 1]);
            }
        }
        if leading_count(s, p) < s.len() {
            assert(s[leading_count(s, p) as int] == rest[leading_count(rest, p) as int]);
        }
    }
}

/// `s` without the run of `c` at its end.
pub open spec fn trim_trailing(s: Seq<char>, c: char) -> Seq<char>
    decreases s.len(),
{
    if s.len() > 0 && s.last() == c {
        trim_trailing(s.drop_last(), c)
    } else {
        s
    }
}

/// Whether `c` has the Unicode property White_Space.
pub open spec fn is_whitespace(c: char) -> bool {
    let n = c as u32;
    ||| 0x09 <= n <= 0x0D
    ||| n == 0x20
    ||| n == 0x85
    ||| n == 0xA0
    ||| n == 0x1680
    ||| 0x2000 <= n <= 0x200A
    ||| n == 0x2028
    ||| n == 0x2029
    ||| n == 0x202F
    ||| n == 0x205F
    ||| n == 0x3000
}

/// Whether `c` has the Unicode property White_Space.
pub fn is_whitespace_char(c: char) -> (b: bool)
    ensures
        b == is_whitespace(c),
{
    let n: u32 = c as u32;
    (0x09 <= n && n <= 0x0D) || n == 0x20 || n == 0x85 || n == 0xA0 || n == 0x1680 || (0x2000 <= n
        && n <= 0x200A) || n == 0x2028 || n == 0x2029 || n == 0x202F || n == 0x205F || n == 0x3000
}

/// The characters of `s`, in order.
pub fn chars_of(s: &str) -> (out: Vec<char>)
    ensures
        out@ == s@,
{
    broadcast use vstd::string::group_string_axioms;

    let mut out: Vec<char> = Vec::new();
    for c in it: s.chars()
        invariant
            it.seq() == s@,
            out@ == s@.take(it.index() as int),
    {
        out.push(c);
        assert(s@.take(it.index() + 1) =~= s@.take(it.index() as int).push(c));
    }
    assert(s@.take(s@.len() as int) =~= s@);
    out
}

/// The views of a sequence of strings.
pub open spec fn strings_view(v: Seq<String>) -> Seq<Seq<char>> {
    Seq::new(v.len(), |i: int| v[i]@)
}

/// A copy of `names`, string by string.
pub fn clone_strings(names: &Vec<String>) -> (out: Vec<String>)
    ensures
        out@ == names@,
{
    let mut out: Vec<String> = Vec::new();
    let mut i: usize = 0;
    while i < names.len()
        invariant
            i <= names.len(),
            out@ == names@.take(i as int),
        decreases names.len() - i,
    {
        out.push(names[i].clone());
        assert(names@.take(i + 1) =~= names@.take(i as int).push(names@[i as int]));
        i += 1;
    }
    assert(names@.take(names@.len() as int) =~= names@);
    out
}

/// Every character but the line feed.
pub open spec fn not_newline() -> spec_fn(char) -> bool {
    |c: char| c != '\n'
}

/// `line` without one carriage return at its end.
pub open spec fn strip_carriage_return(line: Seq<char>) -> Seq<char> {
    if line.len() > 0 && line.last() == '\r' {
        line.drop_last()
    } else {
        line
    }
}

/// The lines of `s`. A line ends at a line feed, which is dropped together
/// with a carriage return just before it. What follows the last line feed is
/// a line of its own if it is not empty, and is kept as it is. The empty
/// string has no lines.
pub open spec fn spec_lines(s: Seq<char>) -> Seq<Seq<char>>
    decreases s.len(),
{
    let k = leading_count(s, not_newline()) as int;
    if s.len() == 0 {
        Seq::empty()
    } else if k >= s.len() {
        seq![s]
    } else {
        seq![strip_carriage_return(s.take(k))] + spec_lines(s.skip(k + 1))
    }
}

/// A string has no lines exactly when it is empty.
pub proof fn lemma_no_lines_iff_empty(s: Seq<char>)
    ensures
        spec_lines(s).len() == 0 <==> s.len() == 0,
{
}

/// The lines of `input`, in order.
pub fn split_lines(input: &str) -> (lines: Vec<String>)
    ensures
        strings_view(lines@) == spec_lines(input@),
{
    let chars = chars_of(input);
    let n: usize = chars.len();
    let mut lines: Vec<String> = Vec::new();
    let mut start: usize = 0;
    proof {
        assert(input@.skip(0) =~= input@);
        assert(strings_view(lines@) + spec_lines(input@) =~= spec_lines(input@));
    }
    while start < n
        invariant
            chars@ == input@,
            n == chars.len(),
            start <= n,
            spec_lines(input@) == strings_view(lines@) + spec_lines(input@.skip(start as int)),
        decreases n - start,
    {
        let ghost rest = input@.skip(start as int);
        let mut end: usize = start;
        while end < n && chars[end] != '\n'
            invariant
                chars@ == input@,
                n == chars.len(),
                start <= end <= n,
                forall|j: int| start <= j < end ==> chars@[j] != '\n',
            decreases n - end,
        {
            end += 1;
        }
        proof {
            assert forall|j: int| 0 <= j < end - start implies not_newline()(#[trigger] rest[j]) by {
                assert(rest[j] == chars@[start + j]);
            }
            lemma_leading_count_is(rest, not_newline(), (end - start) as nat);
        }
        let ghost before = strings_view(lines@);
        if end == n {
            let line = input.substring_char(start, n).to_owned();
            lines.push(line);
            proof {
                assert(input@.subrange(start as int, n as int) =~= rest);
                assert(input@.skip(n as int) =~= Seq::<char>::empty());
                assert(strings_view(lines@) =~= before + seq![rest]);
                assert(spec_lines(rest) == seq![rest]);
                assert(spec_lines(input@.skip(n as int)) =~= Seq::<Seq<char>>::empty());
            }
            start = n;
        } else {
            let stop: usize = if end > start && chars[end - 1] == '\r' {
                end - 1
            } else {
                end
            };
            let line = input.substring_char(start, stop).to_owned();
            lines.push(line);
            proof {
                let raw = rest.take(end - start);
                assert(raw =~= input@.subrange(start as int, end as int));
                assert(strip_carriage_return(raw) =~= input@.subrange(start as int, stop as int));
                assert(rest.skip(end - start + 1) =~= input@.skip(end + 1));
                assert(strings_view(lines@) =~= before + seq![strip_carriage_return(raw)]);
                assert(spec_lines(rest) == seq![strip_carriage_return(raw)] + spec_lines(
                    input@.skip(end + 1),
                ));
                assert(before + spec_lines(rest) =~= (before + seq![strip_carriage_return(raw)])
                    + spec_lines(input@.skip(end + 1)));
            }
            start = end + 1;
        }
    }
    proof {
        assert(input@.skip(start as int).len() == 0);
        assert(spec_lines(input@) =~= strings_view(lines@));
    }
    lines
}

} // verus!
