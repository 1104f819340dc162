//! The display density: what `wm density` is asked and what its answer means.

use vstd::prelude::*;
use vstd::utf8::{decode_utf8, valid_utf8};

use crate::error::{number_error_text, CompanionError};
use crate::number::{self, decimal, read_number, NumberError};
use crate::split::{self, cut_once, lines_of, same_ignoring_case, trimmed};
use crate::text;
use crate::text_laws::law_cut_once;
use crate::tool::{combine_output, combined, decode_lossy, lossy_text, ToolOutput, ToolRun};

verus! {

/// What `wm density` is asked to do.
#[derive(Debug, Clone, Copy, PartialEq, Eq, Structural)]
pub enum DensityArg {
    /// Report the densities.
    Report,
    /// Drop the override.
    Reset,
    /// Override the density.
    To(u32),
}

impl DensityArg {
    /// The arguments behind `wm density`.
    pub open spec fn words(self) -> Seq<Seq<char>> {
        match self {
            DensityArg::Report => Seq::empty(),
            DensityArg::Reset => seq!["reset"@],
            DensityArg::To(dpi) => seq![decimal(dpi as nat)],
        }
    }

    /// The argument list as error messages show it.
    pub open spec fn shown(self) -> Seq<char> {
        match self {
            DensityArg::Report => "[]"@,
            DensityArg::Reset => "[\"reset\"]"@,
            DensityArg::To(dpi) => "[\""@ + decimal(dpi as nat) + "\"]"@,
        }
    }

    /// The arguments behind `wm density`.
    pub fn args(&self) -> (out: Vec<String>)
        ensures
            text::views(out@) == self.words(),
    {
        let mut out: Vec<String> = Vec::new();
        match self {
            DensityArg::Report => {},
            DensityArg::Reset => {
                out.push("reset".to_string());
            },
            DensityArg::To(dpi) => {
                out.push(number::decimal_text(*dpi));
            },
        }
        assert(text::views(out@) =~= self.words());
        out
    }

    /// The argument list as error messages show it.
    pub fn show(&self) -> (out: String)
        ensures
            out@ == self.shown(),
    {
        match self {
            DensityArg::Report => "[]".to_string(),
            DensityArg::Reset => "[\"reset\"]".to_string(),
            DensityArg::To(dpi) => {
                let mut out = "[\"".to_string();
                out.append(number::decimal_text(*dpi).as_str());
                out.append("\"]");
                out
            },
        }
    }
}

/// Whether a result is what a run of `wm density` that ended reports: all that it wrote, or the
/// failure with its status and what it wrote to standard error.
pub open spec fn wm_reports(
    arg: DensityArg,
    output: ToolOutput,
    result: Result<String, CompanionError>,
) -> bool {
    match result {
        Ok(text) => {
            &&& output.success
            &&& text@ == combined(lossy_text(output.stdout@), lossy_text(output.stderr@))
            &&& valid_utf8(output.stdout@) && valid_utf8(output.stderr@) ==> text@ == combined(
                decode_utf8(output.stdout@),
                decode_utf8(output.stderr@),
            )
        },
        Err(e) => {
            &&& !output.success
            &&& e is WmFailed
            &&& e.text() == "wm density "@ + arg.shown() + " failed with status "@ + output.status@
                + ": "@ + trimmed(lossy_text(output.stderr@))
            &&& valid_utf8(output.stderr@) ==> e.text() == "wm density "@ + arg.shown()
                + " failed with status "@ + output.status@ + ": "@ + trimmed(
                decode_utf8(output.stderr@),
            )
        },
    }
}

/// What a run of `wm density` that ended reports.
pub fn wm_density_text(arg: DensityArg, output: &ToolOutput) -> (out: Result<
    String,
    CompanionError,
>)
    ensures
        wm_reports(arg, *output, out),
{
    let stdout = decode_lossy(&output.stdout);
    let stderr = decode_lossy(&output.stderr);
    if !output.success {
        let stderr = split::trim(stderr.as_str());
        return Err(CompanionError::WmFailed { arg, status: output.status.clone(), stderr });
    }
    Ok(combine_output(stdout.as_str(), stderr.as_str()))
}

/// What follows the attempt to run `/system/bin/wm`.
#[derive(Debug)]
pub enum WmStep {
    /// Run `wm` as the search path finds it, with the same arguments.
    RunFallback { first_error: String },
    /// The run is over.
    Done(Result<String, CompanionError>),
}

/// What follows the attempt to run `/system/bin/wm`: the fallback, only if it did not start.
pub fn run_wm_density(arg: DensityArg, run: ToolRun) -> (out: WmStep)
    ensures
        match run {
            ToolRun::NotStarted(first) => out matches WmStep::RunFallback { first_error }
                && first_error@ == first@,
            ToolRun::Ended(output) => out matches WmStep::Done(result) && wm_reports(
                arg,
                output,
                result,
            ),
        },
{
    match run {
        ToolRun::Ended(output) => WmStep::Done(wm_density_text(arg, &output)),
        ToolRun::NotStarted(first_error) => WmStep::RunFallback { first_error },
    }
}

/// What the attempt to run `wm` by its name reports, after the path could not be started.
pub fn run_wm_fallback(arg: DensityArg, first_error: String, run: ToolRun) -> (out: Result<
    String,
    CompanionError,
>)
    ensures
        match run {
            ToolRun::NotStarted(second) => out matches Err(e) && e is WmUnavailable && e.text()
                == "failed to execute /system/bin/wm ("@ + first_error@ + ") or wm ("@ + second@
                + ")"@,
            ToolRun::Ended(output) => wm_reports(arg, output, out),
        },
{
    match run {
        ToolRun::Ended(output) => wm_density_text(arg, &output),
        ToolRun::NotStarted(second) => {
            Err(CompanionError::WmUnavailable { first: first_error, second })
        },
    }
}

/// What a line says of the density override, if it speaks of it at all.
pub open spec fn override_in(line: Seq<char>) -> Option<Seq<char>> {
    match cut_once(line, ':') {
        Some((label, value)) => if same_ignoring_case(trimmed(label), "override density"@) {
            Some(trimmed(value))
        } else {
            None
        },
        None => None,
    }
}

/// The first override that some lines speak of.
pub open spec fn first_override(lines: Seq<Seq<char>>) -> Option<Seq<char>>
    decreases lines.len(),
{
    if lines.len() == 0 {
        None
    } else {
        match override_in(lines[0]) {
            Some(value) => Some(value),
            None => first_override(lines.drop_first()),
        }
    }
}

/// Whether the value of an override says that there is none.
pub open spec fn no_override(value: Seq<char>) -> bool {
    value.len() == 0 || same_ignoring_case(value, "reset"@) || value == "0"@
}

/// The density override that a report names: none, a number, or a value that is no number.
pub open spec fn reported_override(report: Seq<char>) -> Result<Option<nat>, NumberError> {
    match first_override(lines_of(report)) {
        None => Ok(None),
        Some(value) => if no_override(value) {
            Ok(None)
        } else {
            match read_number(value, 10, u32::MAX as nat) {
                Ok(dpi) => Ok(Some(dpi)),
                Err(e) => Err(e),
            }
        },
    }
}

/// The density override of a value that is not blank.
fn density_of(value: String) -> (out: Result<Option<u32>, CompanionError>)
    ensures
        match out {
            Ok(None) => no_override(value@),
            Ok(Some(dpi)) => !no_override(value@) && read_number(value@, 10, u32::MAX as nat) == Ok::<
                nat,
                NumberError,
            >(dpi as nat),
            Err(e) => !no_override(value@) && e is InvalidDensity && (read_number(
                value@,
                10,
                u32::MAX as nat,
            ) matches Err(cause) && e.text() == "invalid Override density value '"@ + value@
                + "': "@ + number_error_text(cause)),
        },
{
    if value.as_str().is_empty() || split::eq_ignoring_case(value.as_str(), "reset") || text::same(
        value.as_str(),
        "0",
    ) {
        return Ok(None);
    }
    match number::parse_number(value.as_str(), 10, u32::MAX as u64) {
        Ok(dpi) => Ok(Some(dpi as u32)),
        Err(reason) => Err(CompanionError::InvalidDensity { value, reason }),
    }
}

/// The density override that the report of `wm density` names. A report without such a line means
/// that no override is active.
pub fn query_density_override(report: &str) -> (out: Result<Option<u32>, CompanionError>)
    ensures
        match out {
            Ok(None) => reported_override(report@) == Ok::<Option<nat>, NumberError>(None),
            Ok(Some(dpi)) => reported_override(report@) == Ok::<Option<nat>, NumberError>(
                Some(dpi as nat),
            ),
            Err(e) => {
                &&& e is InvalidDensity
                &&& reported_override(report@) matches Err(cause)
                &&& first_override(lines_of(report@)) matches Some(value)
                &&& e.text() == "invalid Override density value '"@ + value + "': "@
                    + number_error_text(cause)
            },
        },
{
    let lines = split::lines(report);
    let ghost all = text::views(lines@);
    let mut i: usize = 0;
    assert(all.skip(0) =~= all);
    while i < lines.len()
        invariant
            i <= lines@.len(),
            all == text::views(lines@),
            all == lines_of(report@),
            first_override(all) == first_override(all.skip(i as int)),
        decreases lines@.len() - i,
    {
        let ghost rest = all.skip(i as int);
        assert(rest[0] == lines@[i as int]@);
        assert(rest.drop_first() =~= all.skip(i + 1));
        match split::split_once(lines[i].as_str(), ':') {
            Some((label, value)) => {
                let label = split::trim(label.as_str());
                if split::eq_ignoring_case(label.as_str(), "override density") {
                    return density_of(split::trim(value.as_str()));
                }
            },
            None => {
                proof {
                    reveal(cut_once);
                }
            },
        }
        i = i + 1;
    }
    assert(all.skip(i as int).len() == 0);
    Ok(None)
}

/// The first override of some lines is that of the first line that speaks of one.
proof fn lemma_first_override(lines: Seq<Seq<char>>, i: int)
    requires
        0 <= i < lines.len(),
        forall|j: int| 0 <= j < i ==> override_in(#[trigger] lines[j]) is None,
        override_in(lines[i]) is Some,
    ensures
        first_override(lines) == override_in(lines[i]),
    decreases i,
{
    if i > 0 {
        assert(override_in(lines[0]) is None);
        let rest = lines.drop_first();
        assert forall|j: int| 0 <= j < i - 1 implies override_in(#[trigger] rest[j]) is None by {
            assert(rest[j] == lines[j + 1]);
        }
        lemma_first_override(rest, i - 1);
    }
}

/// The line that names an override.
proof fn lemma_override_line(dpi: nat)
    ensures
        override_in("Override density: "@ + decimal(dpi)) == Some(decimal(dpi)),
{
    let label = "Override density"@;
    let digits = decimal(dpi);
    reveal_strlit("Override density: ");
    reveal_strlit("Override density");
    reveal_strlit("override density");
    number::lemma_decimal_chars(dpi);
    let value = seq![' '] + digits;
    assert("Override density: "@ + digits =~= label.push(':') + value);
    assert(!label.contains(':')) by {
        assert forall|i: int| 0 <= i < label.len() implies label[i] != ':' by {}
    }
    split::lemma_cut_once(label, value, ':');
    assert(trimmed(label) == label);
    assert(same_ignoring_case(label, "override density"@));
    let white = |c: char| split::is_white(c);
    assert(value.last() == digits.last());
    assert(split::strip_end(value, white) == value);
    assert(value.drop_first() =~= digits);
    assert(split::strip_start(digits, white) == digits);
    assert(split::strip_start(value, white) == digits);
}

/// An override that is in force is reported in a line of its own, in decimal, and is read back
/// from there.
pub proof fn law_override_is_read_back(report: Seq<char>, i: int, dpi: u32)
    requires
        dpi > 0,
        0 <= i < lines_of(report).len(),
        forall|j: int| 0 <= j < i ==> override_in(#[trigger] lines_of(report)[j]) is None,
        lines_of(report)[i] == "Override density: "@ + decimal(dpi as nat),
    ensures
        reported_override(report) == Ok::<Option<nat>, NumberError>(Some(dpi as nat)),
{
    let digits = decimal(dpi as nat);
    lemma_override_line(dpi as nat);
    lemma_first_override(lines_of(report), i);
    number::lemma_decimal_chars(dpi as nat);
    number::law_decimal_is_read_back(dpi as nat, u32::MAX as nat);
    reveal_strlit("reset");
    assert("reset"@[0] == 'r');
    assert('0' <= digits[0] <= '9');
    assert(!same_ignoring_case(digits, "reset"@));
    assert(digits != "0"@) by {
        reveal_strlit("0");
        number::law_decimal_is_read_back(0, u32::MAX as nat);
        assert("0"@ =~= decimal(0));
    }
}

/// The argument that overrides the density, or that drops the override.
pub open spec fn density_arg(density: Option<u32>) -> DensityArg {
    match density {
        Some(dpi) => DensityArg::To(dpi),
        None => DensityArg::Reset,
    }
}

/// The argument that overrides the density, or that drops the override.
pub fn set_density(density: Option<u32>) -> (out: DensityArg)
    ensures
        out == density_arg(density),
{
    match density {
        Some(dpi) => DensityArg::To(dpi),
        None => DensityArg::Reset,
    }
}

/// The argument that brings back the density that was in force before.
pub fn restore_density(original_density: Option<u32>) -> (out: DensityArg)
    ensures
        out == density_arg(original_density),
{
    set_density(original_density)
}


/// What `wm density` is given: nothing for a report, the word `reset` to drop the override, and the
/// number in decimal to set one. A density to set is set, and none means to drop the override.
pub proof fn law_density_words(dpi: u32)
    ensures
        DensityArg::Report.words().len() == 0,
        DensityArg::Reset.words() == seq!["reset"@],
        DensityArg::To(dpi).words() == seq![decimal(dpi as nat)],
        DensityArg::Report.shown() == "[]"@,
        DensityArg::Reset.shown() == "[\"reset\"]"@,
        DensityArg::To(dpi).shown() == "[\""@ + decimal(dpi as nat) + "\"]"@,
        density_arg(Some(dpi)) == DensityArg::To(dpi),
        density_arg(None) == DensityArg::Reset,
{
}

/// Only a line whose label before the first colon is `override density`, in any case and with
/// white space around it, speaks of the override.
pub proof fn law_override_line(label: Seq<char>, value: Seq<char>)
    requires
        !label.contains(':'),
    ensures
        override_in(label) is None,
        same_ignoring_case(trimmed(label), "override density"@) ==> override_in(
            label + seq![':'] + value,
        ) == Some(trimmed(value)),
        !same_ignoring_case(trimmed(label), "override density"@) ==> override_in(
            label + seq![':'] + value,
        ) is None,
{
    law_cut_once(label, value, ':');
}

/// The first line that speaks of the override decides. A report without such a line, and one
/// whose value is empty, `0` or `reset` in any case, means that there is no override. Any other
/// value is the number that it reads as in decimal, or wrong where it reads as none.
pub proof fn law_reported_override(report: Seq<char>, i: int, value: Seq<char>)
    requires
        0 <= i <= lines_of(report).len(),
        forall|j: int| 0 <= j < i ==> override_in(#[trigger] lines_of(report)[j]) is None,
        i < lines_of(report).len() ==> override_in(lines_of(report)[i]) == Some(value),
    ensures
        i == lines_of(report).len() ==> reported_override(report) == Ok::<
            Option<nat>,
            NumberError,
        >(None),
        i < lines_of(report).len() ==> reported_override(report) == if value.len() == 0 || value
            == "0"@ || same_ignoring_case(value, "reset"@) {
            Ok(None)
        } else {
            match read_number(value, 10, 0xffff_ffff) {
                Ok(dpi) => Ok(Some(dpi)),
                Err(e) => Err(e),
            }
        },
{
    let lines = lines_of(report);
    if i < lines.len() {
        lemma_first_override(lines, i);
    } else {
        lemma_no_override_line(lines);
    }
}

proof fn lemma_no_override_line(lines: Seq<Seq<char>>)
    requires
        forall|j: int| 0 <= j < lines.len() ==> override_in(#[trigger] lines[j]) is None,
    ensures
        first_override(lines) is None,
    decreases lines.len(),
{
    if lines.len() > 0 {
        assert(override_in(lines[0]) is None);
        let rest = lines.drop_first();
        assert forall|j: int| 0 <= j < rest.len() implies override_in(#[trigger] rest[j]) is None by {
            assert(rest[j] == lines[j + 1]);
        }
        lemma_no_override_line(rest);
    }
}


/// A run of `wm density` succeeds exactly where the tool reports success, and then all that it
/// wrote counts. Otherwise the failure names the arguments, the status and what the tool wrote to
/// standard error.
pub proof fn law_wm_reports(
    arg: DensityArg,
    output: ToolOutput,
    result: Result<String, CompanionError>,
)
    requires
        wm_reports(arg, output, result),
    ensures
        result is Ok <==> output.success,
        result matches Ok(text) ==> text@ == combined(
            lossy_text(output.stdout@),
            lossy_text(output.stderr@),
        ),
        result matches Err(e) ==> e.text() == "wm density "@ + arg.shown() + " failed with status "@
            + output.status@ + ": "@ + trimmed(lossy_text(output.stderr@)),
{
}

} // verus!
