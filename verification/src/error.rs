//! What can go wrong in the companion, and the text that is reported for it.

use vstd::prelude::*;

use crate::density::DensityArg;
use crate::number::{self, decimal, NumberError};
use crate::profile::{DPI_MAX, DPI_MIN};

verus! {

/// Why a request could not be carried out.
#[derive(Debug)]
pub enum CompanionError {
    /// The request has no payload.
    EmptyRequest,
    /// The requested density is outside the supported range.
    DpiOutOfRange(u32),
    /// `getprop` ran and reported failure for a property.
    GetpropFailed(String),
    /// `wm density` ran and reported failure.
    WmFailed { arg: DensityArg, status: String, stderr: String },
    /// `wm` could be started neither by its path nor by its name.
    WmUnavailable { first: String, second: String },
    /// The density override that `wm` reports is no number.
    InvalidDensity { value: String, reason: NumberError },
    /// The system property API could not be initialized.
    ApiUnavailable(String),
    /// A property could not be set.
    SetFailed { key: String, cause: String },
    /// A property could not be deleted.
    DeleteFailed(String),
    /// A failure of the operating system or of a codec, with its own text.
    Outside(String),
}

/// The text of a failed number conversion.
pub open spec fn number_error_text(e: NumberError) -> Seq<char> {
    match e {
        NumberError::Empty => "cannot parse integer from empty string"@,
        NumberError::InvalidDigit => "invalid digit found in string"@,
        NumberError::TooLarge => "number too large to fit in target type"@,
    }
}

/// The text of a failed number conversion.
pub fn number_error_message(e: NumberError) -> (out: String)
    ensures
        out@ == number_error_text(e),
{
    match e {
        NumberError::Empty => "cannot parse integer from empty string".to_string(),
        NumberError::InvalidDigit => "invalid digit found in string".to_string(),
        NumberError::TooLarge => "number too large to fit in target type".to_string(),
    }
}

impl CompanionError {
    /// The text that is reported.
    pub open spec fn text(self) -> Seq<char> {
        match self {
            CompanionError::EmptyRequest => "empty request payload"@,
            CompanionError::DpiOutOfRange(dpi) => {
                "DPI "@ + decimal(dpi as nat) + " is outside the supported range "@ + decimal(
                    DPI_MIN as nat,
                ) + "..="@ + decimal(DPI_MAX as nat)
            },
            CompanionError::GetpropFailed(key) => "getprop failed for "@ + key@,
            CompanionError::WmFailed { arg, status, stderr } => {
                "wm density "@ + arg.shown() + " failed with status "@ + status@ + ": "@ + stderr@
            },
            CompanionError::WmUnavailable { first, second } => {
                "failed to execute /system/bin/wm ("@ + first@ + ") or wm ("@ + second@ + ")"@
            },
            CompanionError::InvalidDensity { value, reason } => {
                "invalid Override density value '"@ + value@ + "': "@ + number_error_text(reason)
            },
            CompanionError::ApiUnavailable(cause) => {
                "failed to initialize system property API: "@ + cause@
            },
            CompanionError::SetFailed { key, cause } => {
                "resetprop set failed for "@ + key@ + ": "@ + cause@
            },
            CompanionError::DeleteFailed(key) => "resetprop delete failed for "@ + key@,
            CompanionError::Outside(message) => message@,
        }
    }

    /// The text that is reported.
    pub fn message(&self) -> (out: String)
        ensures
            out@ == self.text(),
    {
        let mut out = String::new();
        match self {
            CompanionError::EmptyRequest => {
                out.append("empty request payload");
            },
            CompanionError::DpiOutOfRange(dpi) => {
                out.append("DPI ");
                out.append(number::decimal_text(*dpi).as_str());
                out.append(" is outside the supported range ");
                out.append(number::decimal_text(DPI_MIN).as_str());
                out.append("..=");
                out.append(number::decimal_text(DPI_MAX).as_str());
            },
            CompanionError::GetpropFailed(key) => {
                out.append("getprop failed for ");
                out.append(key.as_str());
            },
            CompanionError::WmFailed { arg, status, stderr } => {
                out.append("wm density ");
                out.append(arg.show().as_str());
                out.append(" failed with status ");
                out.append(status.as_str());
                out.append(": ");
                out.append(stderr.as_str());
            },
            CompanionError::WmUnavailable { first, second } => {
                out.append("failed to execute /system/bin/wm (");
                out.append(first.as_str());
                out.append(") or wm (");
                out.append(second.as_str());
                out.append(")");
            },
            CompanionError::InvalidDensity { value, reason } => {
                out.append("invalid Override density value '");
                out.append(value.as_str());
                out.append("': ");
                out.append(number_error_message(*reason).as_str());
            },
            CompanionError::ApiUnavailable(cause) => {
                out.append("failed to initialize system property API: ");
                out.append(cause.as_str());
            },
            CompanionError::SetFailed { key, cause } => {
                out.append("resetprop set failed for ");
                out.append(key.as_str());
                out.append(": ");
                out.append(cause.as_str());
            },
            CompanionError::DeleteFailed(key) => {
                out.append("resetprop delete failed for ");
                out.append(key.as_str());
            },
            CompanionError::Outside(message) => {
                out.append(message.as_str());
            },
        }
        assert(out@ =~= self.text());
        out
    }
}


/// The text of each failure.
pub proof fn law_error_texts(dpi: u32, a: String, b: String, arg: DensityArg)
    ensures
        CompanionError::EmptyRequest.text() == "empty request payload"@,
        CompanionError::DpiOutOfRange(dpi).text() == "DPI "@ + decimal(dpi as nat)
            + " is outside the supported range 120..=640"@,
        CompanionError::GetpropFailed(a).text() == "getprop failed for "@ + a@,
        (CompanionError::WmFailed { arg, status: a, stderr: b }).text() == "wm density "@
            + arg.shown() + " failed with status "@ + a@ + ": "@ + b@,
        (CompanionError::WmUnavailable { first: a, second: b }).text()
            == "failed to execute /system/bin/wm ("@ + a@ + ") or wm ("@ + b@ + ")"@,
        (CompanionError::InvalidDensity { value: a, reason: NumberError::Empty }).text()
            == "invalid Override density value '"@ + a@
            + "': cannot parse integer from empty string"@,
        (CompanionError::InvalidDensity { value: a, reason: NumberError::InvalidDigit }).text()
            == "invalid Override density value '"@ + a@ + "': invalid digit found in string"@,
        (CompanionError::InvalidDensity { value: a, reason: NumberError::TooLarge }).text()
            == "invalid Override density value '"@ + a@
            + "': number too large to fit in target type"@,
        CompanionError::ApiUnavailable(a).text() == "failed to initialize system property API: "@
            + a@,
        (CompanionError::SetFailed { key: a, cause: b }).text() == "resetprop set failed for "@ + a@
            + ": "@ + b@,
        CompanionError::DeleteFailed(a).text() == "resetprop delete failed for "@ + a@,
        CompanionError::Outside(a).text() == a@,
{
    reveal_strlit(" is outside the supported range 120..=640");
    reveal_strlit(" is outside the supported range ");
    reveal_strlit("..=");
    reveal_with_fuel(decimal, 4);
    assert(decimal(120) =~= seq!['1', '2', '0']);
    assert(decimal(640) =~= seq!['6', '4', '0']);
    assert(CompanionError::DpiOutOfRange(dpi).text() =~= "DPI "@ + decimal(dpi as nat)
        + " is outside the supported range 120..=640"@);
    reveal_strlit("': ");
    reveal_strlit("cannot parse integer from empty string");
    reveal_strlit("': cannot parse integer from empty string");
    assert("': "@ + "cannot parse integer from empty string"@
        =~= "': cannot parse integer from empty string"@);
    assert((CompanionError::InvalidDensity { value: a, reason: NumberError::Empty }).text()
        =~= "invalid Override density value '"@ + a@ + ("': "@
        + "cannot parse integer from empty string"@));
    reveal_strlit("invalid digit found in string");
    reveal_strlit("': invalid digit found in string");
    assert("': "@ + "invalid digit found in string"@ =~= "': invalid digit found in string"@);
    assert((CompanionError::InvalidDensity { value: a, reason: NumberError::InvalidDigit }).text()
        =~= "invalid Override density value '"@ + a@ + ("': "@
        + "invalid digit found in string"@));
    reveal_strlit("number too large to fit in target type");
    reveal_strlit("': number too large to fit in target type");
    assert("': "@ + "number too large to fit in target type"@
        =~= "': number too large to fit in target type"@);
    assert((CompanionError::InvalidDensity { value: a, reason: NumberError::TooLarge }).text()
        =~= "invalid Override density value '"@ + a@ + ("': "@
        + "number too large to fit in target type"@));
}

} // verus!
