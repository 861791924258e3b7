//! Reading what helper processes print: JSON event lines, and how an exit is reported.
use vstd::prelude::*;
use crate::text::{
    chars_of, concat, lines, signed_decimal, signed_decimal_string, split_lines, starts_after_ws,
    starts_after_ws_with, trim, trim_str, views,
};

verus! {

/// The trimmed line, when it is not empty and starts with `{` (a JSON event).
pub open spec fn event_line_spec(line: Seq<char>) -> Option<Seq<char>> {
    let t = trim(line);
    if t.len() > 0 && t[0] == '{' {
        Some(t)
    } else {
        None
    }
}

/// A line of a helper's output that may be a JSON event: its trimmed text.
pub fn event_line(line: &str) -> (r: Option<String>)
    ensures
        opt_seq(r) == event_line_spec(line@),
{
    let t = trim_str(line);
    let v = chars_of(t.as_str());
    if v.len() > 0 && v[0] == '{' {
        Some(t)
    } else {
        None
    }
}

pub open spec fn opt_seq(o: Option<String>) -> Option<Seq<char>> {
    match o {
        Some(s) => Some(s@),
        None => None,
    }
}

/// The index of the first line from `i` on that starts with `{` after its leading
/// whitespace.
pub open spec fn first_json_from(ls: Seq<Seq<char>>, i: int) -> Option<int>
    decreases ls.len() - i,
{
    if i < 0 || i >= ls.len() {
        None
    } else if starts_after_ws(ls[i], '{') {
        Some(i)
    } else {
        first_json_from(ls, i + 1)
    }
}

/// The index of the last line before `j` that starts with `{` after its leading
/// whitespace.
pub open spec fn last_json_before(ls: Seq<Seq<char>>, j: int) -> Option<int>
    decreases j,
{
    if j <= 0 || j > ls.len() {
        None
    } else if starts_after_ws(ls[j - 1], '{') {
        Some(j - 1)
    } else {
        last_json_before(ls, j - 1)
    }
}

/// The first line of a text that looks like JSON.
pub open spec fn first_json_line_spec(text: Seq<char>) -> Option<Seq<char>> {
    match first_json_from(lines(text), 0) {
        Some(k) => Some(lines(text)[k]),
        None => None,
    }
}

/// The last line of a text that looks like JSON.
pub open spec fn last_json_line_spec(text: Seq<char>) -> Option<Seq<char>> {
    match last_json_before(lines(text), lines(text).len() as int) {
        Some(k) => Some(lines(text)[k]),
        None => None,
    }
}

/// The first line of `text` whose first non-blank character is `{`.
pub fn first_json_line(text: &str) -> (r: Option<String>)
    ensures
        opt_seq(r) == first_json_line_spec(text@),
{
    let ls = split_lines(text);
    let ghost l = lines(text@);
    let mut i: usize = 0;
    while i < ls.len()
        invariant
            i <= ls.len(),
            views(ls@) == l,
            l == lines(text@),
            first_json_from(l, 0) == first_json_from(l, i as int),
        decreases ls.len() - i,
    {
        assert(views(ls@)[i as int] == ls@[i as int]@);
        if starts_after_ws_with(ls[i].as_str(), '{') {
            return Some(ls[i].clone());
        }
        i = i + 1;
    }
    None
}

/// The last line of `text` whose first non-blank character is `{`.
pub fn last_json_line(text: &str) -> (r: Option<String>)
    ensures
        opt_seq(r) == last_json_line_spec(text@),
{
    let ls = split_lines(text);
    let ghost l = lines(text@);
    let mut j: usize = ls.len();
    while j > 0
        invariant
            j <= ls.len(),
            views(ls@) == l,
            l == lines(text@),
            last_json_before(l, l.len() as int) == last_json_before(l, j as int),
        decreases j,
    {
        assert(views(ls@)[j - 1] == ls@[j - 1]@);
        if starts_after_ws_with(ls[j - 1].as_str(), '{') {
            return Some(ls[j - 1].clone());
        }
        j = j - 1;
    }
    None
}

/// The exit code shown for a process: its code, or -1 when it had none (was killed).
pub open spec fn exit_code_text(code: Option<i32>) -> Seq<char> {
    match code {
        Some(c) => signed_decimal(c as int),
        None => signed_decimal(-1),
    }
}

/// `"<what> exited with code <code>"`.
pub fn exited_with_code(what: &str, code: Option<i32>) -> (r: String)
    ensures
        r@ == what@ + " exited with code "@ + exit_code_text(code),
{
    let c: i64 = match code {
        Some(c) => c as i64,
        None => -1,
    };
    let n = signed_decimal_string(c);
    let mut s = concat(what, " exited with code ");
    s.append(n.as_str());
    s
}

/// The message for a helper whose output held no JSON line.
pub open spec fn no_json_message(what: Seq<char>, stdout: Seq<char>, stderr: Seq<char>) -> Seq<char> {
    "No JSON in "@ + what + " output.\nstdout: "@ + stdout + "\nstderr: "@ + stderr
}

/// `"No JSON in <what> output.\nstdout: <stdout>\nstderr: <stderr>"`.
pub fn no_json(what: &str, stdout: &str, stderr: &str) -> (r: String)
    ensures
        r@ == no_json_message(what@, stdout@, stderr@),
{
    let mut s = concat("No JSON in ", what);
    s.append(" output.\nstdout: ");
    s.append(stdout);
    s.append("\nstderr: ");
    s.append(stderr);
    s
}

} // verus!
