//! What a probe reports: one step line per step, and a failure that carries the
//! exit code of its step.
use vstd::prelude::*;
use vstd::string::*;

use crate::text::chars_of;

verus! {

/// Terminal columns for every child that the interactive lanes spawn.
pub const COLS: u16 = 80;

/// Terminal rows for every child that the interactive lanes spawn.
pub const ROWS: u16 = 24;

/// A failed probe step: the diagnostic and the exit code that names the step.
/// Codes from 20 on belong to the stand-in lane, from 30 to the live probe,
/// from 50 to the four-point lane, from 60 to the terminal evaluation, from 70
/// to the cleanup lane and from 80 to recording; 2 is a usage error.
#[derive(Debug)]
pub struct Failure {
    pub step: &'static str,
    pub code: i32,
    pub detail: String,
}

impl Failure {
    /// A failure of `step`.
    pub fn new(step: &'static str, code: i32, detail: &str) -> (f: Self)
        ensures
            f.step@ == step@,
            f.code == code,
            f.detail@ == detail@,
    {
        Failure { step, code, detail: detail.to_owned() }
    }

    /// What the failure says.
    pub open spec fn says(&self, step: Seq<char>, code: int, detail: Seq<char>) -> bool {
        self.step@ == step && self.code == code && self.detail@ == detail
    }
}

/// A character as a step line shows it: line breaks as spaces, double quotes as
/// single ones.
pub open spec fn flat(c: char) -> char {
    if c == '\r' || c == '\n' {
        ' '
    } else if c == '"' {
        '\''
    } else {
        c
    }
}

/// A text on one line.
pub open spec fn flattened(s: Seq<char>) -> Seq<char> {
    s.map_values(|c: char| flat(c))
}

/// One machine-readable step line, with its detail flattened so that the log
/// stays parseable.
pub fn step_line(program: &str, step: &str, status: &str, detail: &str) -> (line: String)
    ensures
        line@ == program@ + " step="@ + step@ + " status="@ + status@ + " detail=\""@ + flattened(
            detail@,
        ) + "\""@,
{
    let mut line = program.to_owned();
    line.append(" step=");
    line.append(step);
    line.append(" status=");
    line.append(status);
    line.append(" detail=\"");
    let chars = chars_of(detail);
    let ghost head = line@;
    let ghost all = flattened(detail@);
    let mut i: usize = 0;
    assert(head + all.take(0) =~= head);
    while i < chars.len()
        invariant
            i <= chars@.len(),
            chars@ == detail@,
            all == flattened(detail@),
            line@ == head + all.take(i as int),
        decreases chars@.len() - i,
    {
        let c: char = chars[i];
        let shown: char = if c == '\r' || c == '\n' {
            ' '
        } else if c == '"' {
            '\''
        } else {
            c
        };
        line.push(shown);
        proof {
            assert(all.take(i + 1) =~= all.take(i as int).push(all[i as int]));
            assert(head + all.take(i as int).push(all[i as int]) =~= (head + all.take(
                i as int,
            )).push(all[i as int]));
        }
        i += 1;
    }
    assert(all.take(i as int) =~= all);
    line.append("\"");
    line
}

/// The platform in one line.
pub fn platform_report(os: &str, arch: &str, family: &str) -> (text: String)
    ensures
        text@ == "os="@ + os@ + " arch="@ + arch@ + " family="@ + family@,
{
    let mut text = "os=".to_owned();
    text.append(os);
    text.append(" arch=");
    text.append(arch);
    text.append(" family=");
    text.append(family);
    text
}

/// A step line is one line, and its detail cannot end early: flattening leaves
/// no line break and no double quote, and keeps the length.
pub proof fn law_a_step_line_stays_parseable(detail: Seq<char>)
    ensures
        flattened(detail).len() == detail.len(),
        !flattened(detail).contains('\n'),
        !flattened(detail).contains('\r'),
        !flattened(detail).contains('"'),
        flattened(flattened(detail)) == flattened(detail),
{
    assert(flattened(flattened(detail)) =~= flattened(detail));
}

/// Only line breaks and double quotes are changed: those become spaces and single
/// quotes, and every other character stays what and where it is.
pub proof fn law_a_step_line_keeps_its_words(detail: Seq<char>, i: int)
    requires
        0 <= i < detail.len(),
    ensures
        detail[i] == '\n' || detail[i] == '\r' ==> flattened(detail)[i] == ' ',
        detail[i] == '"' ==> flattened(detail)[i] == '\'',
        detail[i] != '\n' && detail[i] != '\r' && detail[i] != '"' ==> flattened(detail)[i]
            == detail[i],
{
}

} // verus!
