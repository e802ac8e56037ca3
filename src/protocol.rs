use vstd::prelude::*;
use vstd::string::StringSliceAdditionalSpecFns;
use vstd::utf8::{is_ascii_chars, is_ascii_chars_encode_utf8, valid_utf8};

use crate::bytes::{
    decimal, decimal_text, extend, has_prefix, line_of, starts_with, trim_line, NEWLINE,
};
use crate::index::IndexError;
use crate::log_storage::EngineError;
use crate::shared::utf8_text;

verus! {

/// How many bytes a connection reads at a time.
pub const READ_CHUNK: usize = 1024;

/// First line of a dashboard request.
pub const DASHBOARD_REQUEST: &'static str = "GET / HTTP/1.1";

/// First line of a request for the live tail of matching entries.
pub const EVENTS_REQUEST: &'static str = "GET /events HTTP/1.1";

/// First line of a health check.
pub const HEALTH_REQUEST: &'static str = "GET /health HTTP/1.1";

/// What a node sends first on a replication link it opens.
pub const CMD_CLUSTER: &'static str = "cluster>";

/// The keep-alive token of the live tail.
pub const CMD_CHECK: &'static str = "check>";

/// Status line and header name that open the dashboard response.
pub const DASHBOARD_HEAD: &'static str = "HTTP/1.1 200 OK\r\nContent-Length: ";

/// What parts the dashboard response's header from its body.
pub const HEADER_END: &'static str = "\r\n\r\n";

/// The whole health response.
pub const HEALTH_RESPONSE: &'static str = "HTTP/1.1 200 OK\r\nConnection: close\r\n\r\n";

/// Headers of the live tail response.
pub const EVENTS_HEADERS: &'static str = "HTTP/1.1 200 OK
Connection: keep-alive
Content-Type: text/event-stream
Cache-Control: no-cache";

/// Reconnection delay that the live tail announces.
pub const EVENTS_RETRY: &'static str = "retry: 10000\n";

/// Event name of the live tail.
pub const EVENTS_NAME: &'static str = "event: data\n";

/// What a telnet client sends on an interrupt.
pub open spec fn telnet_interrupt() -> Seq<u8> {
    seq![255u8, 244u8, 255u8, 253u8, 6u8]
}

/// What the first bytes read on a connection ask for.
#[derive(Debug)]
pub enum Frame {
    /// The peer closed the connection.
    Closed,
    /// A telnet client's interrupt: close.
    Interrupted,
    /// Send the dashboard, then close.
    Dashboard,
    /// Stream the live tail until the peer leaves.
    Events,
    /// Answer the health check, then close.
    Health,
    /// The peer is a node that takes replicated entries.
    Cluster,
    /// One log line to ingest; reading goes on.
    Log(Vec<u8>),
    /// A frame that is not text: the connection fails.
    NotText,
}

/// What a connection does next.
#[derive(Debug, Clone, Copy, PartialEq, Eq, Structural)]
pub enum Step {
    /// Read the next frame.
    Continue,
    /// Close the connection normally.
    Close,
    /// Close the connection on an error.
    Fail,
}

/// What a connection does once `frame` has been answered: the requests, the
/// replication link and the close frames end it; a log line, and a frame
/// that is not text (a decode error, reported but not fatal), let reading go
/// on. A log line's own outcome is decided by `ingest_step`.
pub fn frame_step(frame: &Frame) -> (r: Step)
    ensures
        r == (match frame {
            Frame::Log(_) | Frame::NotText => Step::Continue,
            _ => Step::Close,
        }),
{
    match frame {
        Frame::Log(_) | Frame::NotText => Step::Continue,
        _ => Step::Close,
    }
}

/// What a connection does after storing a log line: it goes on where the
/// line was stored or refused as malformed (a decode error), and fails on any
/// other error.
pub fn ingest_step(stored: &Result<(), EngineError>) -> (r: Step)
    ensures
        r == (match stored {
            Ok(_) => Step::Continue,
            Err(EngineError::Index(IndexError::DecodeData(_))) => Step::Continue,
            Err(_) => Step::Fail,
        }),
{
    match stored {
        Ok(_) => Step::Continue,
        Err(EngineError::Index(IndexError::DecodeData(_))) => Step::Continue,
        Err(_) => Step::Fail,
    }
}

/// Whether `data` is exactly a telnet interrupt.
fn is_interrupt(data: &[u8]) -> (r: bool)
    ensures
        r == (data@ == telnet_interrupt()),
{
    let r = data.len() == 5 && data[0] == 255 && data[1] == 244 && data[2] == 255 && data[3] == 253
        && data[4] == 6;
    if r {
        assert(data@ =~= telnet_interrupt());
    }
    r
}

/// Classifies the bytes of one read from a connection, in this order: an
/// empty read, a telnet interrupt, the three requests, the replication
/// greeting; anything else is a log line (without its trailing line feed),
/// which must be text.
pub fn classify(data: &[u8]) -> (r: Frame)
    ensures
        if data@.len() == 0 {
            r is Closed
        } else if data@ == telnet_interrupt() {
            r is Interrupted
        } else if has_prefix(data@, DASHBOARD_REQUEST.spec_bytes()) {
            r is Dashboard
        } else if has_prefix(data@, EVENTS_REQUEST.spec_bytes()) {
            r is Events
        } else if has_prefix(data@, HEALTH_REQUEST.spec_bytes()) {
            r is Health
        } else if has_prefix(data@, CMD_CLUSTER.spec_bytes()) {
            r is Cluster
        } else if valid_utf8(line_of(data@)) {
            r matches Frame::Log(l) && l@ == line_of(data@)
        } else {
            r is NotText
        },
{
    if data.len() == 0 {
        Frame::Closed
    } else if is_interrupt(data) {
        Frame::Interrupted
    } else if starts_with(data, DASHBOARD_REQUEST.as_bytes()) {
        Frame::Dashboard
    } else if starts_with(data, EVENTS_REQUEST.as_bytes()) {
        Frame::Events
    } else if starts_with(data, HEALTH_REQUEST.as_bytes()) {
        Frame::Health
    } else if starts_with(data, CMD_CLUSTER.as_bytes()) {
        Frame::Cluster
    } else {
        let line = trim_line(data);
        match utf8_text(line.as_slice()) {
            Some(_) => Frame::Log(line),
            None => Frame::NotText,
        }
    }
}

/// The dashboard response: status, the body's length in bytes, and the body.
pub fn dashboard_response(content: &[u8]) -> (r: Vec<u8>)
    ensures
        r@ == DASHBOARD_HEAD.spec_bytes() + decimal(content@.len()) + HEADER_END.spec_bytes()
            + content@,
{
    let mut r = vstd::slice::slice_to_vec(DASHBOARD_HEAD.as_bytes());
    let len = decimal_text(content.len());
    extend(&mut r, len.as_slice());
    extend(&mut r, HEADER_END.as_bytes());
    extend(&mut r, content);
    r
}

/// The lines of `logs`, each followed by a line feed.
pub open spec fn log_lines(logs: Seq<Seq<u8>>) -> Seq<u8>
    decreases logs.len(),
{
    if logs.len() == 0 {
        seq![]
    } else {
        log_lines(logs.drop_last()) + logs.last().push(NEWLINE)
    }
}

/// One push of the live tail: each matching entry on a line of its own,
/// then the keep-alive token on its own line.
pub fn events_batch(logs: &Vec<Vec<u8>>) -> (r: Vec<u8>)
    ensures
        r@ == log_lines(logs@.map_values(|l: Vec<u8>| l@)) + CMD_CHECK.spec_bytes().push(NEWLINE),
{
    let ghost lv = logs@.map_values(|l: Vec<u8>| l@);
    let mut r: Vec<u8> = Vec::new();
    let mut i: usize = 0;
    while i < logs.len()
        invariant
            0 <= i <= logs@.len(),
            lv == logs@.map_values(|l: Vec<u8>| l@),
            r@ == log_lines(lv.subrange(0, i as int)),
        decreases logs@.len() - i,
    {
        assert(lv.subrange(0, i + 1).drop_last() =~= lv.subrange(0, i as int));
        extend(&mut r, logs[i].as_slice());
        r.push(NEWLINE);
        i = i + 1;
    }
    assert(lv.subrange(0, lv.len() as int) =~= lv);
    extend(&mut r, CMD_CHECK.as_bytes());
    r.push(NEWLINE);
    r
}

/// Whether the live tail waits before its next push: it does where nothing
/// new matched.
pub fn events_idle(found: usize) -> (r: bool)
    ensures
        r == (found == 0),
{
    found == 0
}

/// The first byte and length of an ASCII literal's UTF-8 bytes.
proof fn lemma_ascii_head(s: &str, c: char)
    requires
        is_ascii_chars(s@),
        s@.len() > 0,
        s@[0] == c,
    ensures
        s.spec_bytes().len() == s@.len(),
        s.spec_bytes()[0] == c as u8,
{
    is_ascii_chars_encode_utf8(s@);
}

/// Where a first read begins with the dashboard request, the connection is
/// answered with the dashboard whatever follows in the read: such a read is
/// neither empty nor a telnet interrupt, which are the only frames tested
/// before it.
pub proof fn lemma_dashboard_request_wins(data: Seq<u8>)
    requires
        has_prefix(data, DASHBOARD_REQUEST.spec_bytes()),
    ensures
        data.len() != 0,
        data != telnet_interrupt(),
{
    reveal_strlit("GET / HTTP/1.1");
    lemma_ascii_head(DASHBOARD_REQUEST, 'G');
    assert(data[0] == DASHBOARD_REQUEST.spec_bytes()[0]);
    assert(telnet_interrupt()[0] == 255u8);
}

/// The replication greeting is never ingested as a log line: a first read
/// that begins with `cluster>` is none of the frames tested before the
/// greeting, so it makes the connection a replication link whatever follows.
pub proof fn lemma_greeting_is_a_link(data: Seq<u8>)
    requires
        has_prefix(data, CMD_CLUSTER.spec_bytes()),
    ensures
        data.len() != 0,
        data != telnet_interrupt(),
        !has_prefix(data, DASHBOARD_REQUEST.spec_bytes()),
        !has_prefix(data, EVENTS_REQUEST.spec_bytes()),
        !has_prefix(data, HEALTH_REQUEST.spec_bytes()),
{
    reveal_strlit("cluster>");
    reveal_strlit("GET / HTTP/1.1");
    reveal_strlit("GET /events HTTP/1.1");
    reveal_strlit("GET /health HTTP/1.1");
    lemma_ascii_head(CMD_CLUSTER, 'c');
    lemma_ascii_head(DASHBOARD_REQUEST, 'G');
    lemma_ascii_head(EVENTS_REQUEST, 'G');
    lemma_ascii_head(HEALTH_REQUEST, 'G');
    assert(data[0] == CMD_CLUSTER.spec_bytes()[0]);
    assert(telnet_interrupt()[0] == 255u8);
    if has_prefix(data, DASHBOARD_REQUEST.spec_bytes()) {
        assert(data.subrange(0, DASHBOARD_REQUEST.spec_bytes().len() as int)[0] == data[0]);
        assert(DASHBOARD_REQUEST.spec_bytes()[0] == data[0]);
    }
    if has_prefix(data, EVENTS_REQUEST.spec_bytes()) {
        assert(data.subrange(0, EVENTS_REQUEST.spec_bytes().len() as int)[0] == data[0]);
        assert(EVENTS_REQUEST.spec_bytes()[0] == data[0]);
    }
    if has_prefix(data, HEALTH_REQUEST.spec_bytes()) {
        assert(data.subrange(0, HEALTH_REQUEST.spec_bytes().len() as int)[0] == data[0]);
        assert(HEALTH_REQUEST.spec_bytes()[0] == data[0]);
    }
}

} // verus!
