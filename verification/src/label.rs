//! The label that the block-device identification utility reports.
//!
//! The utility prints one line for each device: the device's path and a
//! colon, then fields of the form `KEY="value"`, each after a space. The
//! label of a device is the value of the field `LABEL` on the device's line.

use vstd::prelude::*;
use vstd::string::*;
use crate::text::{
    begins_with, lines_of, matches_at, occurs_at, split_lines, starts_with, text_views,
};

verus! {

/// The first position from `from` on at which `pat` stands in `s`.
pub open spec fn first_at(s: Seq<char>, pat: Seq<char>, from: int) -> Option<int>
    decreases s.len() - from,
{
    if from < 0 || from + pat.len() > s.len() {
        None
    } else if occurs_at(s, pat, from) {
        Some(from)
    } else {
        first_at(s, pat, from + 1)
    }
}

/// The characters of `s` from `from` up to the next `stop`, or up to the end
/// of `s` where no `stop` follows.
pub open spec fn up_to(s: Seq<char>, from: int, stop: char) -> Seq<char>
    decreases s.len() - from,
{
    if from < 0 || from >= s.len() || s[from] == stop {
        Seq::empty()
    } else {
        seq![s[from]] + up_to(s, from + 1, stop)
    }
}

/// The value of the first field of `line` that `marker` opens: what stands
/// between the marker and the next double quote.
pub open spec fn field_value(line: Seq<char>, marker: Seq<char>) -> Option<Seq<char>> {
    match first_at(line, marker, 0) {
        Some(p) => Some(up_to(line, p + marker.len(), '"')),
        None => None,
    }
}

/// The line is the one that the utility prints for `source`: it begins with
/// the device's path and a colon.
pub open spec fn is_device_line(line: Seq<char>, source: Seq<char>) -> bool {
    &&& begins_with(line, source)
    &&& source.len() < line.len()
    &&& line[source.len() as int] == ':'
}

/// What opens the label field of a line.
pub open spec fn label_marker() -> Seq<char> {
    " LABEL=\""@
}

/// The label on the first line for `source` among `lines` from position
/// `from` on; `None` where no line is for `source`, or where that line has no
/// label field.
pub open spec fn label_from(lines: Seq<Seq<char>>, source: Seq<char>, from: int) -> Option<
    Seq<char>,
>
    decreases lines.len() - from,
{
    if from < 0 || from >= lines.len() {
        None
    } else if is_device_line(lines[from], source) {
        field_value(lines[from], label_marker())
    } else {
        label_from(lines, source, from + 1)
    }
}

/// The label that the utility's output gives for `source`.
pub open spec fn reported_label(output: Seq<char>, source: Seq<char>) -> Option<Seq<char>> {
    label_from(lines_of(output), source, 0)
}

/// Finds the first occurrence of `pat` in `s` from `from` on, and returns
/// the position at which it ends.
pub fn find_after(s: &str, pat: &str, from: usize) -> (r: Option<usize>)
    ensures
        r is Some <==> first_at(s@, pat@, from as int) is Some,
        r is Some ==> r->0 as int == first_at(s@, pat@, from as int)->0 + pat@.len(),
        r is Some ==> r->0 <= s@.len(),
{
    let n: usize = s.unicode_len();
    let m: usize = pat.unicode_len();
    if m > n {
        return None;
    }
    let mut i: usize = from;
    while i <= n - m
        invariant
            from <= i,
            m <= n,
            n == s@.len(),
            m == pat@.len(),
            first_at(s@, pat@, from as int) == first_at(s@, pat@, i as int),
        decreases n - i,
    {
        if matches_at(s, pat, i) {
            return Some(i + m);
        }
        i += 1;
    }
    None
}

/// Copies the characters of `s` from `from` up to the next `stop`.
pub fn take_up_to(s: &str, from: usize, stop: char) -> (r: String)
    ensures
        r@ == up_to(s@, from as int, stop),
{
    let n: usize = s.unicode_len();
    if from >= n {
        return String::new();
    }
    let mut j: usize = from;
    assert(s@.subrange(from as int, from as int) + up_to(s@, from as int, stop) =~= up_to(
        s@,
        from as int,
        stop,
    ));
    while j < n && s.get_char(j) != stop
        invariant
            from <= j <= n,
            n == s@.len(),
            up_to(s@, from as int, stop) == s@.subrange(from as int, j as int) + up_to(
                s@,
                j as int,
                stop,
            ),
        decreases n - j,
    {
        proof {
            let rest = up_to(s@, j + 1, stop);
            assert(s@.subrange(from as int, j as int) + (seq![s@[j as int]] + rest)
                =~= s@.subrange(from as int, j + 1) + rest);
        }
        j += 1;
    }
    proof {
        assert(up_to(s@, j as int, stop) =~= Seq::<char>::empty());
        assert(s@.subrange(from as int, j as int) + Seq::<char>::empty() =~= s@.subrange(
            from as int,
            j as int,
        ));
    }
    String::from_str(s.substring_char(from, j))
}

/// Reads the value of the first field of `line` that `marker` opens.
pub fn read_field(line: &str, marker: &str) -> (r: Option<String>)
    ensures
        r is Some <==> field_value(line@, marker@) is Some,
        r is Some ==> r->0@ == field_value(line@, marker@)->0,
{
    match find_after(line, marker, 0) {
        Some(start) => Some(take_up_to(line, start, '"')),
        None => None,
    }
}

/// Tells whether `line` is the line that the utility prints for `source`.
pub fn device_line(line: &str, source: &str) -> (r: bool)
    ensures
        r == is_device_line(line@, source@),
{
    let m: usize = source.unicode_len();
    starts_with(line, source) && m < line.unicode_len() && line.get_char(m) == ':'
}

/// Looks up the label that the utility's output gives for `source`: the label
/// field of the first line for that device.
pub fn utility_label(output: &str, source: &str) -> (r: Option<String>)
    ensures
        r is Some <==> reported_label(output@, source@) is Some,
        r is Some ==> r->0@ == reported_label(output@, source@)->0,
{
    let lines = split_lines(output);
    let mut i: usize = 0;
    while i < lines.len()
        invariant
            i <= lines.len(),
            text_views(lines@) == lines_of(output@),
            reported_label(output@, source@) == label_from(lines_of(output@), source@, i as int),
        decreases lines.len() - i,
    {
        assert(text_views(lines@)[i as int] == lines@[i as int]@);
        if device_line(lines[i].as_str(), source) {
            return read_field(lines[i].as_str(), " LABEL=\"");
        }
        i += 1;
    }
    None
}

} // verus!
