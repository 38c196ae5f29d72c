//! The process that shows a guest's display: what it asks of the process that runs the guest, what it
//! is told by it, and when it takes a new frame from the memory they share.

use crate::numbers;
use crate::presentation::InputSignal;
use crate::reply;
use crate::reply::{ErrorCode, Reply, ReplyHeader, ScanoutReply};
use crate::request;
use crate::request::three_words;
use crate::text;
use vstd::prelude::*;

verus! {

/// The size of the mapping that holds the header.
pub const HEADER_MAPPING_SIZE: usize = 4096;

/// How long to wait before looking for a new frame again, in milliseconds.
pub const POLL_INTERVAL_MS: u64 = 8;

/// Why there is no display to show.
#[derive(Debug, PartialEq, Eq)]
pub enum ScanoutError {
    /// The line is no reply.
    MalformedLine(String),
    /// The reply does not describe a display.
    MalformedTokens,
    /// The request was refused.
    Refused { code: ErrorCode, detail: String },
}

/// Reads the reply to a request for the display.
pub fn read_scanout_reply(line: &str) -> (r: Result<ScanoutReply, ScanoutError>)
    ensures
        match reply::header_of(line@) {
            Err(e) => r matches Err(ScanoutError::MalformedLine(m)) && m@ == e,
            Ok(reply::HeaderView::Failure { code, detail }) => r matches Err(
                ScanoutError::Refused { code: c, detail: d },
            ) && c == code && d@ == detail,
            Ok(reply::HeaderView::Success { tokens }) => if reply::is_scanout(tokens) {
                r matches Ok(p) && reply::is_scanout_of(tokens, p)
            } else {
                r == Err::<ScanoutReply, ScanoutError>(ScanoutError::MalformedTokens)
            },
        },
{
    match Reply::parse_header(line) {
        Err(e) => Err(ScanoutError::MalformedLine(e)),
        Ok(ReplyHeader::Failure { code, detail }) => Err(ScanoutError::Refused { code, detail }),
        Ok(ReplyHeader::Success { tokens }) => match ScanoutReply::parse(tokens.as_slice()) {
            Some(p) => Ok(p),
            None => Err(ScanoutError::MalformedTokens),
        },
    }
}

/// A reply that describes a display is read back as that display.
pub proof fn law_scanout_reply_is_read(p: ScanoutReply)
    ensures
        ({
            let line = text::joined(
                reply::header_words(reply::ReplyView::OkTokens(reply::scanout_words(p))),
                ' ',
            );
            &&& reply::header_of(line) == Ok::<reply::HeaderView, Seq<char>>(
                reply::HeaderView::Success { tokens: reply::scanout_words(p) },
            )
            &&& reply::is_scanout_of(reply::scanout_words(p), p)
        }),
{
    reply::law_scanout_roundtrip(p);
    reply::law_reply_header_roundtrip(reply::ReplyView::OkTokens(reply::scanout_words(p)));
}

/// The words of the request that tells of an input event.
pub open spec fn input_words(signal: InputSignal) -> Seq<Seq<char>> {
    match signal {
        InputSignal::Key(code, value) => seq![
            "key"@,
            numbers::decimal(code as int),
            numbers::decimal(value as int),
        ],
        InputSignal::Rel(code, value) => seq![
            "rel"@,
            numbers::decimal(code as int),
            numbers::decimal(value as int),
        ],
        InputSignal::RelMotion(dx, dy) => seq![
            "relmotion"@,
            numbers::decimal(dx as int),
            numbers::decimal(dy as int),
        ],
    }
}

/// The line that tells of an input event. A motion along both axes is one line.
pub fn input_line(signal: InputSignal) -> (r: String)
    ensures
        r@ == text::joined(input_words(signal), ' '),
{
    match signal {
        InputSignal::Key(code, value) => three_words("key", code as i64, value as i64),
        InputSignal::Rel(code, value) => three_words("rel", code as i64, value as i64),
        InputSignal::RelMotion(dx, dy) => three_words("relmotion", dx as i64, dy as i64),
    }
}

/// The request that an input event is.
pub open spec fn input_request(signal: InputSignal) -> request::RequestView {
    match signal {
        InputSignal::Key(code, value) => request::RequestView::Key {
            code: code as int,
            value: value as int,
        },
        InputSignal::Rel(code, value) => request::RequestView::Rel {
            code: code as int,
            value: value as int,
        },
        InputSignal::RelMotion(dx, dy) => request::RequestView::RelMotion {
            dx: dx as int,
            dy: dy as int,
        },
    }
}

/// The line of an input event is understood as that event.
pub proof fn law_input_line_is_understood(signal: InputSignal)
    requires
        signal matches InputSignal::Key(_, value) ==> 0 <= value
            <= request::MAX_KEY_VALUE,
    ensures
        request::request_of(text::words(text::joined(input_words(signal), ' '))) == Ok::<
            request::RequestView,
            Seq<char>,
        >(input_request(signal)),
{
    request::law_request_roundtrip(input_request(signal));
    assert(input_words(signal) =~= request::request_words(input_request(signal)));
}

/// What the guest's side reads from the line of an input event is the event itself: a key with its
/// code and value, a motion along one axis with its code and distance, and a motion along both axes
/// with both distances in their order.
pub proof fn law_input_reaches_the_guest(signal: InputSignal)
    requires
        signal matches InputSignal::Key(_, value) ==> 0 <= value <= 2,
    ensures
        ({
            let read = request::request_of(text::words(text::joined(input_words(signal), ' ')));
            &&& signal matches InputSignal::Key(code, value) ==> (read matches Ok(
                request::RequestView::Key { code: c, value: v },
            ) && c == code && v == value)
            &&& signal matches InputSignal::Rel(code, value) ==> (read matches Ok(
                request::RequestView::Rel { code: c, value: v },
            ) && c == code && v == value)
            &&& signal matches InputSignal::RelMotion(dx, dy) ==> (read matches Ok(
                request::RequestView::RelMotion { dx: x, dy: y },
            ) && x == dx && y == dy)
        }),
{
    law_input_line_is_understood(signal);
}

/// What a line that was not asked for tells: to show the window, to hide it, or nothing.
pub fn pushed_visibility(line: &str) -> (r: Option<bool>)
    ensures
        r == if text::trimmed(line@) == "show"@ {
            Some(true)
        } else if text::trimmed(line@) == "hide"@ {
            Some(false)
        } else {
            None
        },
{
    let word = text::trim(line);
    if text::same_text(word.as_str(), "show") {
        Some(true)
    } else if text::same_text(word.as_str(), "hide") {
        Some(false)
    } else {
        None
    }
}

/// Watches for new frames by their number.
#[derive(Debug, Clone, Copy, PartialEq, Eq, Structural)]
pub struct ScanoutPoll {
    pub last_seq: u64,
}

impl ScanoutPoll {
    /// No frame was taken yet.
    pub fn new() -> (r: Self)
        ensures
            r.last_seq == u64::MAX,
    {
        ScanoutPoll { last_seq: u64::MAX }
    }

    /// Whether the frame with this number is to be taken: once, whenever the number has changed.
    pub fn poll_scanout_and_feed(&mut self, seq: u64) -> (r: bool)
        ensures
            r == (seq != old(self).last_seq),
            final(self).last_seq == seq,
    {
        if seq == self.last_seq {
            return false;
        }
        self.last_seq = seq;
        true
    }
}

/// How many bytes a frame takes.
pub fn frame_len(pitch: u32, height: u32) -> (r: usize)
    requires
        pitch * height <= usize::MAX,
    ensures
        r == pitch * height,
{
    assert(0 <= pitch * height) by (nonlinear_arith);
    pitch as usize * height as usize
}

/// The upper and the lower half of an offset into shared memory.
pub fn offset_halves(offset: u64) -> (r: (u32, u32))
    ensures
        offset == r.0 * 0x1_0000_0000 + r.1,
{
    proof {
        assert((offset >> 32) as u32 == offset / 0x1_0000_0000 && offset as u32 == offset
            % 0x1_0000_0000) by (bit_vector);
    }
    ((offset >> 32) as u32, offset as u32)
}

/// An input event that the presenter tells in a line is parsed on the other side as that event.
pub proof fn law_input_lines_are_parsed(
    signal: InputSignal,
    line: String,
    s: &str,
    r: Result<request::Request, request::ParseError>,
)
    requires
        signal matches InputSignal::Key(_, value) ==> 0 <= value <= 2,
        call_ensures(input_line, (signal,), line),
        s@ == line@,
        call_ensures(request::Request::parse, (s,), r),
    ensures
        signal matches InputSignal::Key(code, value) ==> (r matches Ok(
            request::Request::Key { code: c, value: v },
        ) && c == code && v == value),
        signal matches InputSignal::Rel(code, value) ==> (r matches Ok(
            request::Request::Rel { code: c, value: v },
        ) && c == code && v == value),
        signal matches InputSignal::RelMotion(dx, dy) ==> (r matches Ok(
            request::Request::RelMotion { dx: x, dy: y },
        ) && x == dx && y == dy),
{
    law_input_reaches_the_guest(signal);
}

/// A new frame is taken once: right after a number was seen, the same number tells of none, and any
/// other number tells of a new one.
pub proof fn law_frames_are_taken_once(
    poll: &mut ScanoutPoll,
    seq: u64,
    first: bool,
    later: &mut ScanoutPoll,
    next: u64,
    second: bool,
)
    requires
        call_ensures(ScanoutPoll::poll_scanout_and_feed, (poll, seq), first),
        *old(later) == *final(poll),
        call_ensures(ScanoutPoll::poll_scanout_and_feed, (later, next), second),
    ensures
        second <==> next != seq,
        first <==> seq != old(poll).last_seq,
{
}

/// A line that shows or hides the window is understood with blanks around it, and no other line is.
pub proof fn law_pushed_lines_are_understood(line: &str, r: Option<bool>)
    requires
        call_ensures(pushed_visibility, (line,), r),
    ensures
        r == Some(true) <==> text::trimmed(line@) == "show"@,
        r == Some(false) <==> text::trimmed(line@) == "hide"@,
{
    reveal_strlit("show");
    reveal_strlit("hide");
    assert("show"@[0] != "hide"@[0]);
}

/// The reply that describes a display is read as that display, and a refusal as the error that it
/// tells.
pub proof fn law_scanout_replies_are_read(
    p: ScanoutReply,
    line: &str,
    r: Result<ScanoutReply, ScanoutError>,
)
    requires
        line@ == text::joined(
            reply::header_words(reply::ReplyView::OkTokens(reply::scanout_words(p))),
            ' ',
        ),
        call_ensures(read_scanout_reply, (line,), r),
    ensures
        r == Ok::<ScanoutReply, ScanoutError>(p),
{
    law_scanout_reply_is_read(p);
}

/// A frame takes as many bytes as its rows together, and an offset is put together again from its
/// halves.
pub proof fn law_frames_take_their_rows(
    pitch: u32,
    height: u32,
    len: usize,
    offset: u64,
    halves: (u32, u32),
)
    requires
        pitch * height <= usize::MAX,
        call_ensures(frame_len, (pitch, height), len),
        call_ensures(offset_halves, (offset,), halves),
    ensures
        len == pitch * height,
        offset < 0x1_0000_0000 ==> halves.0 == 0 && halves.1 == offset,
        offset == halves.0 * 0x1_0000_0000 + halves.1,
{
}

} // verus!
