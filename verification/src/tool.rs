//! The tools of the system that are run as processes of their own, and what they write.

use vstd::prelude::*;
use vstd::utf8::{decode_utf8, valid_utf8};

use crate::error::CompanionError;
use crate::split::{self, trimmed};
use crate::text;
use crate::text_laws::{law_trimmed, law_without_line_ends};

verus! {

/// What a finished tool wrote and how it ended.
#[derive(Debug)]
pub struct ToolOutput {
    /// Whether the tool reported success.
    pub success: bool,
    /// The exit status as it is shown to people.
    pub status: String,
    /// The bytes of its standard output.
    pub stdout: Vec<u8>,
    /// The bytes of its standard error.
    pub stderr: Vec<u8>,
}

/// An attempt to run a tool: it ended, or it could not be started for the given reason.
#[derive(Debug)]
pub enum ToolRun {
    Ended(ToolOutput),
    NotStarted(String),
}

/// What `String::from_utf8_lossy` makes of some bytes.
pub uninterp spec fn lossy_text(bytes: Seq<u8>) -> Seq<char>;

/// `String::from_utf8_lossy` decodes bytes as UTF-8. What it puts in the place of bytes that are
/// no UTF-8 is only given a name here; bytes that are UTF-8 are the encoding of the text that
/// comes out.
#[verifier::external_body]
pub(crate) fn decode_lossy(bytes: &Vec<u8>) -> (out: String)
    ensures
        out@ == lossy_text(bytes@),
        valid_utf8(bytes@) ==> out@ == decode_utf8(bytes@),
{
    String::from_utf8_lossy(bytes).into_owned()
}

/// The value of a property in what `getprop` wrote: the text without the line end.
pub open spec fn property_value(output: Seq<char>) -> Seq<char> {
    split::without_line_ends(output)
}

/// A value that `getprop` prints with a line end behind it is read back, as long as it does not
/// end with a line end itself.
pub proof fn law_printed_value_is_read_back(value: Seq<char>)
    requires
        value.len() > 0 ==> value.last() != '\n' && value.last() != '\r',
    ensures
        property_value(value.push('\n')) == value,
{
    assert(value.push('\n').drop_last() =~= value);
    let drop = |c: char| c == '\n' || c == '\r';
    assert(drop('\n'));
    assert(split::strip_end(value, drop) == value);
}

/// The value of a property, from the run of `getprop` for it.
pub fn backup_property(key: &str, output: &ToolOutput) -> (out: Result<String, CompanionError>)
    ensures
        match out {
            Ok(value) => {
                &&& output.success
                &&& value@ == property_value(lossy_text(output.stdout@))
                &&& valid_utf8(output.stdout@) ==> value@ == property_value(
                    decode_utf8(output.stdout@),
                )
            },
            Err(e) => !output.success && e is GetpropFailed && e.text() == "getprop failed for "@
                + key@,
        },
{
    if !output.success {
        return Err(CompanionError::GetpropFailed(key.to_string()));
    }
    let stdout = decode_lossy(&output.stdout);
    Ok(split::trim_line_ends(stdout.as_str()))
}

/// Standard output followed by standard error, unless the latter is blank. The second begins on a
/// line of its own.
pub open spec fn combined(stdout: Seq<char>, stderr: Seq<char>) -> Seq<char> {
    if trimmed(stderr).len() == 0 {
        stdout
    } else if stdout.len() > 0 && stdout.last() == '\n' {
        stdout + stderr
    } else {
        stdout.push('\n') + stderr
    }
}

/// Standard output followed by standard error, unless the latter is blank.
pub fn combine_output(stdout: &str, stderr: &str) -> (out: String)
    ensures
        out@ == combined(stdout@, stderr@),
{
    let mut out = stdout.to_string();
    let rest = split::trim(stderr);
    if !rest.as_str().is_empty() {
        proof {
            reveal_strlit("\n");
            let n = stdout@.len() as int;
            if n > 0 {
                assert(stdout@.subrange(n - 1, n).len() == 1);
                assert(stdout@.subrange(n - 1, n)[0] == stdout@.last());
                if stdout@.last() == '\n' {
                    assert("\n"@ =~= stdout@.subrange(n - 1, n));
                }
            }
        }
        if !text::ends_with(stdout, "\n") {
            out.push('\n');
        }
        out.append(stderr);
    }
    out
}


/// Standard output always comes whole and first. Standard error comes whole behind it, on a line
/// of its own, unless it is nothing but white space.
pub proof fn law_both_outputs_are_kept(stdout: Seq<char>, stderr: Seq<char>)
    ensures
        (forall|i: int| 0 <= i < stderr.len() ==> split::is_white(#[trigger] stderr[i]))
            ==> combined(stdout, stderr) == stdout,
        (exists|i: int| 0 <= i < stderr.len() && !split::is_white(#[trigger] stderr[i])) ==> {
            &&& stdout.len() > 0 && stdout.last() == '\n' ==> combined(stdout, stderr) == stdout
                + stderr
            &&& stdout.len() == 0 || stdout.last() != '\n' ==> combined(stdout, stderr) == stdout
                + seq!['\n'] + stderr
        },
{
    let (i, j) = law_trimmed(stderr);
    if forall|k: int| 0 <= k < stderr.len() ==> split::is_white(#[trigger] stderr[k]) {
        if trimmed(stderr).len() > 0 {
            assert(trimmed(stderr)[0] == stderr[i]);
        }
    }
    if exists|k: int| 0 <= k < stderr.len() && !split::is_white(#[trigger] stderr[k]) {
        let k = choose|k: int| 0 <= k < stderr.len() && !split::is_white(#[trigger] stderr[k]);
        assert(i <= k < j);
        assert(stdout.push('\n') + stderr =~= stdout + seq!['\n'] + stderr);
    }
}

/// What `getprop` prints for a property is its value and line ends, and only those are dropped.
pub proof fn law_value_of_a_property(value: Seq<char>, ends: Seq<char>)
    requires
        value.len() > 0 ==> value.last() != '\n' && value.last() != '\r',
        forall|i: int| 0 <= i < ends.len() ==> #[trigger] ends[i] == '\n' || ends[i] == '\r',
    ensures
        property_value(value + ends) == value,
{
    law_without_line_ends(value, ends);
}

} // verus!
