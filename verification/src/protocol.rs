//! The messages between an application and the companion, and their frames: a payload behind its
//! length in four little-endian bytes.

use vstd::bytes::{spec_u32_from_le_bytes, spec_u32_to_le_bytes};
use vstd::prelude::*;

use crate::error::CompanionError;
use crate::string_map::PropertyMap;
use crate::text;

verus! {

/// Lines for the log file.
#[derive(Debug)]
pub struct WriteLogRequest {
    pub lines: Vec<String>,
}

/// Properties and a density that an application is to see while it has the focus.
#[derive(Debug)]
pub struct ResetpropSessionRequest {
    /// The process of the application.
    pub pid: u32,
    /// The properties to set.
    pub props: PropertyMap,
    /// The properties to delete.
    pub delete_props: Vec<String>,
    /// The application.
    pub package_name: String,
    /// The density to set.
    pub density: Option<u32>,
    /// Whether the companion writes to its log.
    pub debug: bool,
}

/// Properties to bring back.
#[derive(Debug)]
pub struct RestoreRequest {
    pub props: PropertyMap,
}

/// What the companion is asked to do.
#[derive(Debug)]
pub enum CompanionRequest {
    Apply(ResetpropSessionRequest),
    Restore(RestoreRequest),
    WriteLog(WriteLogRequest),
}

/// What the companion answers. A status other than 0 is a failure.
#[derive(Debug)]
pub struct CompanionResponse {
    pub status: i32,
    pub message: Option<String>,
    pub backups: Option<PropertyMap>,
}

impl CompanionResponse {
    /// The answer to a request that was carried out.
    pub fn ok() -> (out: Self)
        ensures
            out.status == 0,
            out.message is None,
            out.backups is None,
    {
        CompanionResponse { status: 0, message: None, backups: None }
    }

    /// The answer to a request that failed.
    pub fn err(msg: String) -> (out: Self)
        ensures
            out.status == -1,
            text::opt_view(out.message) == Some(msg@),
            out.backups is None,
    {
        CompanionResponse { status: -1, message: Some(msg), backups: None }
    }

    /// The answer to a request that was carried out, with the values that stood there before.
    pub fn ok_with_backups(backups: PropertyMap) -> (out: Self)
        ensures
            out.status == 0,
            out.message is None,
            out.backups matches Some(given) && given.pairs() == backups.pairs(),
    {
        CompanionResponse { status: 0, message: None, backups: Some(backups) }
    }
}

/// Whether a session asks for anything.
pub open spec fn asks_nothing(
    props: Seq<(Seq<char>, Seq<char>)>,
    delete_props: Seq<Seq<char>>,
    density: Option<u32>,
) -> bool {
    props.len() == 0 && delete_props.len() == 0 && density is None
}

/// The request that has an application see the given properties and density; none where there is
/// nothing to ask for.
pub fn spoof_system_props_via_companion(
    pid: u32,
    prop_map: &PropertyMap,
    delete_props: &Vec<String>,
    package_name: &str,
    density: Option<u32>,
    debug: bool,
) -> (out: Option<CompanionRequest>)
    ensures
        match out {
            None => asks_nothing(prop_map.pairs(), text::views(delete_props@), density),
            Some(request) => {
                &&& !asks_nothing(prop_map.pairs(), text::views(delete_props@), density)
                &&& request matches CompanionRequest::Apply(session)
                &&& session.pid == pid
                &&& session.props.pairs() == prop_map.pairs()
                &&& text::views(session.delete_props@) == text::views(delete_props@)
                &&& session.package_name@ == package_name@
                &&& session.density == density
                &&& session.debug == debug
            },
        },
{
    if prop_map.is_empty() && delete_props.len() == 0 && density.is_none() {
        return None;
    }
    Some(
        CompanionRequest::Apply(
            ResetpropSessionRequest {
                pid,
                props: prop_map.clone(),
                delete_props: text::copy_list(delete_props),
                package_name: package_name.to_string(),
                density,
                debug,
            },
        ),
    )
}

/// What the answer of the companion means to the application that asked.
pub fn companion_result(response: CompanionResponse) -> (out: Result<(), String>)
    ensures
        match out {
            Ok(_) => response.status == 0,
            Err(message) => {
                &&& response.status != 0
                &&& message@ == match response.message {
                    Some(text) => text@,
                    None => "companion resetprop failed"@,
                }
            },
        },
{
    if response.status != 0 {
        return match response.message {
            Some(message) => Err(message),
            None => Err("companion resetprop failed".to_string()),
        };
    }
    Ok(())
}

/// The answer to a request that registers a session.
pub fn apply_response(result: Result<PropertyMap, CompanionError>) -> (out: CompanionResponse)
    ensures
        match result {
            Ok(backups) => {
                &&& out.status == 0
                &&& out.message is None
                &&& out.backups matches Some(given) && given.pairs() == backups.pairs()
            },
            Err(e) => {
                &&& out.status == -1
                &&& text::opt_view(out.message) == Some(e.text())
                &&& out.backups is None
            },
        },
{
    match result {
        Ok(backups) => CompanionResponse::ok_with_backups(backups),
        Err(e) => CompanionResponse::err(e.message()),
    }
}

/// The answer to a request that only succeeds or fails.
pub fn plain_response(result: Result<(), CompanionError>) -> (out: CompanionResponse)
    ensures
        match result {
            Ok(_) => out.status == 0 && out.message is None,
            Err(e) => out.status == -1 && text::opt_view(out.message) == Some(e.text()),
        },
        out.backups is None,
{
    match result {
        Ok(_) => CompanionResponse::ok(),
        Err(e) => CompanionResponse::err(e.message()),
    }
}

/// The answer to bytes that are no request.
pub fn unreadable_response() -> (out: CompanionResponse)
    ensures
        out.status == -1,
        text::opt_view(out.message) == Some("invalid request"@),
        out.backups is None,
{
    CompanionResponse::err("invalid request".to_string())
}

/// A payload behind its length, as far as the length fits in four bytes.
pub open spec fn framed(payload: Seq<u8>) -> Seq<u8> {
    spec_u32_to_le_bytes((payload.len() % 0x1_0000_0000) as u32) + payload
}

/// The length that a header gives.
pub open spec fn length_in(header: Seq<u8>) -> nat {
    spec_u32_from_le_bytes(header) as nat
}

/// Puts the length of a payload before it.
pub fn frame(payload: &Vec<u8>) -> (out: Vec<u8>)
    ensures
        out@ == framed(payload@),
{
    let len: u64 = payload.len() as u64;
    let short: u32 = (len % 0x1_0000_0000) as u32;
    let mut out: Vec<u8> = vstd::bytes::u32_to_le_bytes(short);
    let mut i: usize = 0;
    let ghost head = out@;
    while i < payload.len()
        invariant
            i <= payload@.len(),
            out@ == head + payload@.take(i as int),
        decreases payload@.len() - i,
    {
        out.push(payload[i]);
        i = i + 1;
        assert(out@ =~= head + payload@.take(i as int));
    }
    assert(payload@.take(i as int) =~= payload@);
    out
}

/// The length of the request behind a header. A request is never empty.
pub fn request_length(header: &[u8; 4]) -> (out: Result<usize, CompanionError>)
    ensures
        match out {
            Ok(n) => n == length_in(header@) && n > 0,
            Err(e) => length_in(header@) == 0 && e is EmptyRequest,
        },
{
    let n = response_length(header);
    if n == 0 {
        return Err(CompanionError::EmptyRequest);
    }
    Ok(n)
}

/// The length of the answer behind a header.
pub fn response_length(header: &[u8; 4]) -> (n: usize)
    ensures
        n == length_in(header@),
{
    vstd::bytes::u32_from_le_bytes(header.as_slice()) as usize
}

/// The header of a frame gives the length of the payload, and the payload stands behind it, as
/// long as the length fits in four bytes.
pub proof fn law_frame_is_read_back(payload: Seq<u8>)
    requires
        payload.len() < 0x1_0000_0000,
    ensures
        framed(payload).len() == 4 + payload.len(),
        length_in(framed(payload).take(4)) == payload.len(),
        framed(payload).skip(4) == payload,
{
    vstd::bytes::lemma_auto_spec_u32_to_from_le_bytes();
    let head = spec_u32_to_le_bytes((payload.len() % 0x1_0000_0000) as u32);
    assert(framed(payload).take(4) =~= head);
    assert(framed(payload).skip(4) =~= payload);
}

/// The lines of a log, each with its line end.
pub open spec fn log_text(lines: Seq<Seq<char>>) -> Seq<char>
    decreases lines.len(),
{
    if lines.len() == 0 {
        Seq::empty()
    } else {
        log_text(lines.drop_last()) + lines.last() + "\n"@
    }
}

/// The text to append to the log; none where there is no line, and then no file is opened.
pub fn write_log_lines(request: &WriteLogRequest) -> (out: Option<String>)
    ensures
        match out {
            None => request.lines@.len() == 0,
            Some(text) => request.lines@.len() > 0 && text@ == log_text(text::views(request.lines@)),
        },
{
    if request.lines.len() == 0 {
        return None;
    }
    let ghost all = text::views(request.lines@);
    let mut out = String::new();
    let mut i: usize = 0;
    while i < request.lines.len()
        invariant
            i <= request.lines@.len(),
            all == text::views(request.lines@),
            out@ == log_text(all.take(i as int)),
        decreases request.lines@.len() - i,
    {
        out.append(request.lines[i].as_str());
        out.append("\n");
        i = i + 1;
        assert(all.take(i as int).drop_last() =~= all.take(i - 1));
        assert(all.take(i as int).last() == request.lines@[i - 1]@);
    }
    assert(all.take(i as int) =~= all);
    Some(out)
}

/// How much the companion writes to its log.
#[derive(Debug, Clone, Copy, PartialEq, Eq, Structural)]
pub enum LogLevel {
    Debug,
    Off,
}

/// The level that a request asks for: everything, or nothing at all.
pub fn sync_log_level(debug: bool) -> (out: LogLevel)
    ensures
        out == if debug {
            LogLevel::Debug
        } else {
            LogLevel::Off
        },
{
    if debug {
        LogLevel::Debug
    } else {
        LogLevel::Off
    }
}


/// The header of a frame is the length of the payload in four bytes, the lowest first.
pub proof fn law_header_of_a_frame(payload: Seq<u8>)
    requires
        payload.len() < 0x1_0000_0000,
    ensures
        framed(payload).take(4) == spec_u32_to_le_bytes(payload.len() as u32),
        length_in(spec_u32_to_le_bytes(payload.len() as u32)) == payload.len(),
{
    vstd::bytes::lemma_auto_spec_u32_to_from_le_bytes();
    assert(framed(payload).take(4) =~= spec_u32_to_le_bytes(payload.len() as u32));
}

/// Nothing is asked for exactly where there is no property to set, none to delete and no density.
pub proof fn law_what_asks_for_something(
    props: Seq<(Seq<char>, Seq<char>)>,
    delete_props: Seq<Seq<char>>,
    density: Option<u32>,
)
    ensures
        props.len() > 0 ==> !asks_nothing(props, delete_props, density),
        delete_props.len() > 0 ==> !asks_nothing(props, delete_props, density),
        density is Some ==> !asks_nothing(props, delete_props, density),
        asks_nothing(Seq::empty(), Seq::empty(), None),
{
}

/// The log holds each line with a line feed behind it, in order: lines that are written in two
/// requests come out as if they had been written in one.
pub proof fn law_log_lines(first: Seq<Seq<char>>, second: Seq<Seq<char>>, line: Seq<char>)
    ensures
        log_text(Seq::empty()).len() == 0,
        log_text(seq![line]) == line + seq!['\n'],
        log_text(first + second) == log_text(first) + log_text(second),
    decreases second.len(),
{
    reveal_strlit("\n");
    reveal_with_fuel(log_text, 2);
    assert(seq![line].drop_last() =~= Seq::<Seq<char>>::empty());
    assert(log_text(seq![line]) =~= line + seq!['\n']);
    if second.len() == 0 {
        assert(first + second =~= first);
        assert(log_text(first + second) =~= log_text(first) + log_text(second));
    } else {
        law_log_lines(first, second.drop_last(), line);
        assert((first + second).drop_last() =~= first + second.drop_last());
        assert((first + second).last() == second.last());
        assert(log_text(first + second) =~= log_text(first) + log_text(second));
    }
}

} // verus!
