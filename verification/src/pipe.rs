//! Lines over a byte pipe: how they are framed, found again in what arrives, and sent.

use crate::bytes;
use crate::numbers;
use crate::process_spawn::ERROR_BROKEN_PIPE;
use crate::request;
use crate::text;
use vstd::prelude::*;

verus! {

/// The most bytes that are asked for at once.
pub const CHUNK_SIZE: usize = 4096;

/// An operation goes on in the background.
pub const ERROR_IO_PENDING: u32 = 997;

/// A client was connected before the server waited for it.
pub const ERROR_PIPE_CONNECTED: u32 = 535;

/// How long a client waits for a busy pipe before it looks at the time again, in milliseconds.
pub const CONNECT_WAIT_MS: u32 = 250;

/// Ends a line.
pub const NEWLINE: u8 = 10;

/// May stand before a line end.
pub const CARRIAGE_RETURN: u8 = 13;

/// The number of bytes before the first line end, or of all bytes without one.
pub open spec fn line_len(s: Seq<u8>) -> nat
    decreases s.len(),
{
    if s.len() == 0 || s[0] == NEWLINE {
        0
    } else {
        1 + line_len(s.drop_first())
    }
}

/// A line without the carriage return at its end.
pub open spec fn without_cr(line: Seq<u8>) -> Seq<u8> {
    if line.len() > 0 && line.last() == CARRIAGE_RETURN {
        line.drop_last()
    } else {
        line
    }
}

/// The first whole line of what has arrived, and what stands behind its line end.
pub open spec fn first_line(s: Seq<u8>) -> Option<(Seq<u8>, Seq<u8>)> {
    let n = line_len(s) as int;
    if n < s.len() {
        Some((without_cr(s.take(n)), s.skip(n + 1)))
    } else {
        None
    }
}

/// All whole lines of what has arrived, and what stands behind the last line end.
pub open spec fn all_lines(s: Seq<u8>) -> (Seq<Seq<u8>>, Seq<u8>)
    decreases s.len(),
{
    let n = line_len(s) as int;
    if n < s.len() {
        let later = all_lines(s.skip(n + 1));
        (seq![without_cr(s.take(n))] + later.0, later.1)
    } else {
        (Seq::empty(), s)
    }
}

/// A line as it is sent.
pub open spec fn framed(line: Seq<char>) -> Seq<u8> {
    vstd::utf8::encode_utf8(line).push(NEWLINE)
}

proof fn lemma_line_len(s: Seq<u8>, n: nat)
    requires
        n <= s.len(),
        forall|i: int| 0 <= i < n ==> #[trigger] s[i] != NEWLINE,
        n == s.len() || s[n as int] == NEWLINE,
    ensures
        line_len(s) == n,
    decreases n,
{
    if n > 0 {
        let rest = s.drop_first();
        assert(s[0] != NEWLINE);
        assert forall|i: int| 0 <= i < n - 1 implies #[trigger] rest[i] != NEWLINE by {
            assert(rest[i] == s[i + 1]);
        }
        lemma_line_len(rest, (n - 1) as nat);
    }
}

proof fn lemma_line_len_is_first(s: Seq<u8>)
    ensures
        line_len(s) <= s.len(),
        forall|i: int| 0 <= i < line_len(s) ==> #[trigger] s[i] != NEWLINE,
        line_len(s) < s.len() ==> s[line_len(s) as int] == NEWLINE,
    decreases s.len(),
{
    if s.len() > 0 && s[0] != NEWLINE {
        let rest = s.drop_first();
        lemma_line_len_is_first(rest);
        assert forall|i: int| 0 <= i < line_len(s) implies #[trigger] s[i] != NEWLINE by {
            if i > 0 {
                assert(rest[i - 1] == s[i]);
            }
        }
        if line_len(s) < s.len() {
            assert(rest[line_len(rest) as int] == s[line_len(s) as int]);
        }
    }
}

/// Lines do not depend on how their bytes arrive: taking the lines of a first part, and then those
/// of what it left over together with a second part, gives the lines of both parts at once.
pub proof fn law_lines_ignore_chunks(a: Seq<u8>, b: Seq<u8>)
    ensures
        ({
            let first = all_lines(a);
            let second = all_lines(first.1 + b);
            all_lines(a + b) == (first.0 + second.0, second.1)
        }),
    decreases a.len(),
{
    let n = line_len(a);
    let both = a + b;
    let first = all_lines(a);
    let second = all_lines(first.1 + b);
    lemma_line_len_is_first(a);
    if n < a.len() {
        assert(both[n as int] == a[n as int]);
        assert forall|i: int| 0 <= i < n implies #[trigger] both[i] != NEWLINE by {
            assert(both[i] == a[i]);
        }
        lemma_line_len(both, n);
        let tail = a.skip(n as int + 1);
        law_lines_ignore_chunks(tail, b);
        assert(both.take(n as int) =~= a.take(n as int));
        assert(both.skip(n as int + 1) =~= tail + b);
        let later = all_lines(tail);
        let line = without_cr(a.take(n as int));
        assert(all_lines(both).0 =~= seq![line] + (later.0 + second.0));
        assert(first.0 =~= seq![line] + later.0);
        assert(all_lines(both).0 =~= first.0 + second.0);
    } else {
        assert(first.1 + b =~= both);
        assert(first.0 + second.0 =~= second.0);
    }
}

proof fn lemma_scalar_bytes(c: char, b: u8)
    requires
        b < 0x80,
        c as u32 != b as u32,
    ensures
        forall|i: int|
            0 <= i < vstd::utf8::encode_scalar(c as u32).len() ==> #[trigger]
                vstd::utf8::encode_scalar(c as u32)[i] != b,
{
    let u = c as u32;
    vstd::utf8::char_is_scalar(c);
    assert(u <= 0x7f ==> (u & 0x7F) as u8 == u) by (bit_vector);
    assert(0xC0u8 | ((u >> 6) & 0x1F) as u8 >= 0x80) by (bit_vector);
    assert(0xE0u8 | ((u >> 12) & 0x0F) as u8 >= 0x80) by (bit_vector);
    assert(0xF0u8 | ((u >> 18) & 0x7) as u8 >= 0x80) by (bit_vector);
    assert(0x80u8 | (u & 0x3F) as u8 >= 0x80) by (bit_vector);
    assert(0x80u8 | ((u >> 6) & 0x3F) as u8 >= 0x80) by (bit_vector);
    assert(0x80u8 | ((u >> 12) & 0x3F) as u8 >= 0x80) by (bit_vector);
}

proof fn lemma_no_such_byte(s: Seq<char>, b: u8)
    requires
        b < 0x80,
        forall|i: int| 0 <= i < s.len() ==> (#[trigger] s[i]) as u32 != b as u32,
    ensures
        forall|j: int|
            0 <= j < vstd::utf8::encode_utf8(s).len() ==> #[trigger] vstd::utf8::encode_utf8(s)[j]
                != b,
    decreases s.len(),
{
    if s.len() > 0 {
        let rest = s.drop_first();
        assert forall|i: int| 0 <= i < rest.len() implies (#[trigger] rest[i]) as u32
            != b as u32 by {
            assert(rest[i] == s[i + 1]);
        }
        lemma_no_such_byte(rest, b);
        assert(s[0] as u32 != b as u32);
        lemma_scalar_bytes(s[0], b);
        let head = vstd::utf8::encode_scalar(s[0] as u32);
        let tail = vstd::utf8::encode_utf8(rest);
        let whole = vstd::utf8::encode_utf8(s);
        assert(whole == head + tail);
        assert forall|j: int| 0 <= j < whole.len() implies #[trigger] whole[j] != b by {
            if j < head.len() {
                assert(whole[j] == head[j]);
            } else {
                assert(whole[j] == tail[j - head.len()]);
            }
        }
    }
}

proof fn lemma_last_byte(s: Seq<char>, b: u8)
    requires
        b < 0x80,
        s.len() > 0,
        s.last() as u32 != b as u32,
    ensures
        vstd::utf8::encode_utf8(s).len() > 0,
        vstd::utf8::encode_utf8(s).last() != b,
    decreases s.len(),
{
    let rest = s.drop_first();
    let head = vstd::utf8::encode_scalar(s[0] as u32);
    let tail = vstd::utf8::encode_utf8(rest);
    let whole = vstd::utf8::encode_utf8(s);
    assert(whole == head + tail);
    if s.len() == 1 {
        assert(rest.len() == 0);
        assert(tail.len() == 0);
        lemma_scalar_bytes(s[0], b);
        assert(head.len() > 0);
        assert(whole.last() == head[head.len() - 1]);
    } else {
        assert(rest.last() == s.last());
        lemma_last_byte(rest, b);
        assert(whole.last() == tail.last());
    }
}

proof fn lemma_same_char(a: char, b: char)
    ensures
        a as u32 == b as u32 ==> a == b,
{
    if a as u32 == b as u32 {
        vstd::utf8::char_u32_cast(a, a as u32);
        vstd::utf8::char_u32_cast(b, a as u32);
    }
}

/// A line that was sent is found again as it was, whatever follows it: its bytes are the first whole
/// line, and they are read as its text. This holds of lines without a line end in them or a carriage
/// return at their end, which the framing takes off.
pub proof fn law_sent_line_is_received(line: Seq<char>, later: Seq<u8>)
    requires
        forall|i: int| 0 <= i < line.len() ==> #[trigger] line[i] != '\n',
        line.len() > 0 ==> line.last() != '\r',
    ensures
        first_line(framed(line) + later) == Some((vstd::utf8::encode_utf8(line), later)),
        vstd::utf8::valid_utf8(vstd::utf8::encode_utf8(line)),
        vstd::utf8::decode_utf8(vstd::utf8::encode_utf8(line)) == line,
{
    let encoded = vstd::utf8::encode_utf8(line);
    let s = framed(line) + later;
    let n = encoded.len();
    vstd::utf8::encode_utf8_valid_utf8(line);
    vstd::utf8::encode_utf8_decode_utf8(line);
    assert forall|i: int| 0 <= i < line.len() implies (#[trigger] line[i]) as u32
        != NEWLINE as u32 by {
        lemma_same_char(line[i], '\n');
    }
    lemma_no_such_byte(line, NEWLINE);
    assert forall|i: int| 0 <= i < n implies #[trigger] s[i] != NEWLINE by {
        assert(s[i] == encoded[i]);
    }
    assert(s[n as int] == NEWLINE);
    lemma_line_len(s, n);
    assert(s.take(n as int) =~= encoded);
    assert(s.skip(n as int + 1) =~= later);
    if line.len() > 0 {
        lemma_same_char(line.last(), '\r');
        lemma_last_byte(line, CARRIAGE_RETURN);
    }
}

proof fn lemma_joined_words(parts: Seq<Seq<char>>)
    requires
        parts.len() > 0,
        forall|i: int| 0 <= i < parts.len() ==> text::is_word(#[trigger] parts[i]),
    ensures
        text::joined(parts, ' ').len() > 0,
        !text::is_space(text::joined(parts, ' ').last()),
        forall|i: int|
            0 <= i < text::joined(parts, ' ').len() ==> #[trigger] text::joined(parts, ' ')[i]
                != '\n',
    decreases parts.len(),
{
    let whole = text::joined(parts, ' ');
    let end = parts.last();
    assert(text::is_word(parts[parts.len() - 1]));
    if parts.len() > 1 {
        let front = parts.drop_last();
        assert forall|i: int| 0 <= i < front.len() implies text::is_word(#[trigger] front[i]) by {
            assert(front[i] == parts[i]);
        }
        lemma_joined_words(front);
        let before = text::joined(front, ' ').push(' ');
        assert(whole == before + end);
        assert forall|i: int| 0 <= i < whole.len() implies #[trigger] whole[i] != '\n' by {
            if i < before.len() - 1 {
                assert(whole[i] == text::joined(front, ' ')[i]);
            } else if i >= before.len() {
                assert(whole[i] == end[i - before.len()]);
                assert(!text::is_space(end[i - before.len()]));
            } else {
                assert(whole[i] == ' ');
            }
        }
        assert(whole.last() == end[end.len() - 1]);
    } else {
        assert(whole == parts[0]);
        assert forall|i: int| 0 <= i < whole.len() implies #[trigger] whole[i] != '\n' by {
            assert(!text::is_space(parts[0][i]));
        }
    }
}

/// A plain request that is sent as a line is received as the same request, whatever follows it.
pub proof fn law_sent_request_is_received(r: request::RequestView, later: Seq<u8>)
    requires
        request::is_plain(r),
    ensures
        ({
            let line = text::joined(request::request_words(r), ' ');
            let sent = vstd::utf8::encode_utf8(line);
            &&& first_line(framed(line) + later) == Some((sent, later))
            &&& vstd::utf8::valid_utf8(sent)
            &&& request::request_of(text::words(vstd::utf8::decode_utf8(sent))) == Ok::<
                request::RequestView,
                Seq<char>,
            >(r)
        }),
{
    request::law_request_roundtrip(r);
    request::lemma_request_words_are_words(r);
    let line = text::joined(request::request_words(r), ' ');
    lemma_joined_words(request::request_words(r));
    assert(line.last() != '\r');
    law_sent_line_is_received(line, later);
}

/// A line ends at the first line end: what stands before it is the line, without one carriage return
/// at its end if there is one, and what stands behind it is left for later. Without a line end there
/// is no line yet.
pub proof fn law_lines_end_at_line_ends(line: Seq<u8>, later: Seq<u8>)
    requires
        forall|i: int| 0 <= i < line.len() ==> #[trigger] line[i] != 10,
    ensures
        first_line(line) is None,
        line.len() == 0 || line.last() != 13 ==> first_line(line.push(10) + later) == Some(
            (line, later),
        ),
        first_line(line.push(13).push(10) + later) == Some((line, later)),
{
    lemma_line_len(line, line.len());
    let plain = line.push(10) + later;
    assert forall|i: int| 0 <= i < line.len() implies #[trigger] plain[i] != NEWLINE by {
        assert(plain[i] == line[i]);
    }
    lemma_line_len(plain, line.len());
    assert(plain.take(line.len() as int) =~= line);
    assert(plain.skip(line.len() as int + 1) =~= later);
    let with_cr = line.push(13);
    let both = with_cr.push(10) + later;
    assert forall|i: int| 0 <= i < with_cr.len() implies #[trigger] both[i] != NEWLINE by {
        assert(both[i] == with_cr[i]);
        if i < line.len() {
            assert(with_cr[i] == line[i]);
        }
    }
    lemma_line_len(both, with_cr.len());
    assert(both.take(with_cr.len() as int) =~= with_cr);
    assert(both.skip(with_cr.len() as int + 1) =~= later);
    assert(with_cr.drop_last() =~= line);
}

/// What is sent for a line is the line's bytes and one line end.
pub proof fn law_one_line_end_is_sent(line: Seq<char>)
    ensures
        framed(line).len() == vstd::utf8::encode_utf8(line).len() + 1,
        framed(line).last() == 10,
        framed(line).drop_last() == vstd::utf8::encode_utf8(line),
{
    assert(framed(line).drop_last() =~= vstd::utf8::encode_utf8(line));
}

/// Whether `line` is what the bytes of a line are read as: the text they encode, where they encode
/// one.
pub open spec fn is_text_of(line: Seq<char>, b: Seq<u8>) -> bool {
    &&& line == text::utf8_lossy(b)
    &&& vstd::utf8::valid_utf8(b) ==> line == vstd::utf8::decode_utf8(b)
}

/// What came of a read from the pipe.
#[derive(Debug, PartialEq, Eq)]
pub enum ReadEvent {
    /// These bytes; none if the peer has closed the pipe.
    Data(Vec<u8>),
    /// The read failed.
    Failed(u32),
}

/// What can go wrong with a line.
#[derive(Debug, Clone, Copy, PartialEq, Eq, Structural)]
pub enum LineError {
    /// The peer closed the pipe within a line.
    UnexpectedEof,
    /// The read failed.
    Io(u32),
}

impl LineError {
    /// The error in words.
    pub fn message(&self) -> (r: String)
        ensures
            match *self {
                LineError::UnexpectedEof => r@ == "peer closed pipe mid-line"@,
                LineError::Io(code) => r@ == "os error "@ + numbers::digits(code as nat, 10),
            },
    {
        match self {
            LineError::UnexpectedEof => "peer closed pipe mid-line".to_owned(),
            LineError::Io(code) => {
                let mut out = "os error ".to_owned();
                numbers::push_digits(&mut out, *code as u64, 10);
                out
            },
        }
    }
}

/// What a reader of lines has to say.
#[derive(Debug, PartialEq, Eq)]
pub enum LineStep {
    /// The next line.
    Line(String),
    /// There is no whole line: read up to [`CHUNK_SIZE`] bytes and hand them over.
    NeedBytes,
    /// The peer has closed the pipe after a whole line.
    Closed,
    /// Reading ended.
    Broken(LineError),
}

/// Holds what has arrived, so that it can be taken line by line.
pub struct LineReader {
    buf: Vec<u8>,
    start: usize,
}

impl LineReader {
    #[verifier::type_invariant]
    spec fn start_is_inside(self) -> bool {
        self.start <= self.buf@.len()
    }

    /// What has arrived and was not taken yet.
    pub closed spec fn pending(self) -> Seq<u8> {
        self.buf@.skip(self.start as int)
    }

    /// A reader to which nothing has arrived.
    pub fn new() -> (r: Self)
        ensures
            r.pending() == Seq::<u8>::empty(),
    {
        let r = LineReader { buf: Vec::with_capacity(CHUNK_SIZE), start: 0 };
        assert(r.pending() =~= Seq::<u8>::empty());
        r
    }

    fn append(&mut self, data: &[u8])
        ensures
            final(self).pending() == old(self).pending() + data@,
    {
        proof {
            use_type_invariant(&*self);
        }
        let ghost before = self.pending();
        let mut buf: Vec<u8> = bytes::copy_range(self.buf.as_slice(), self.start, self.buf.len());
        assert(buf@ =~= before);
        bytes::push_all(&mut buf, data);
        self.start = 0;
        self.buf = buf;
        assert(self.pending() =~= before + data@);
    }

    fn take_line(&mut self) -> (r: Option<String>)
        ensures
            match first_line(old(self).pending()) {
                Some((line, rest)) => r is Some && is_text_of(r->0@, line) && final(self).pending()
                    == rest,
                None => r is None && final(self).pending() == old(self).pending(),
            },
    {
        proof {
            use_type_invariant(&*self);
        }
        let ghost pending = self.pending();
        match bytes::find_byte(self.buf.as_slice(), NEWLINE, self.start) {
            None => {
                proof {
                    assert forall|i: int| 0 <= i < pending.len() implies #[trigger] pending[i]
                        != NEWLINE by {
                        assert(pending[i] == self.buf@[self.start + i]);
                    }
                    lemma_line_len(pending, pending.len());
                }
                None
            },
            Some(end) => {
                let ghost n = (end - self.start) as nat;
                proof {
                    assert forall|i: int| 0 <= i < n implies #[trigger] pending[i] != NEWLINE by {
                        assert(pending[i] == self.buf@[self.start + i]);
                    }
                    assert(pending[n as int] == self.buf@[end as int]);
                    lemma_line_len(pending, n);
                }
                let mut last: usize = end;
                if end > self.start && self.buf[end - 1] == CARRIAGE_RETURN {
                    last = end - 1;
                }
                let line = bytes::copy_range(self.buf.as_slice(), self.start, last);
                proof {
                    let whole = pending.take(n as int);
                    if n > 0 {
                        assert(whole.last() == self.buf@[end - 1]);
                    }
                    assert(line@ =~= without_cr(whole));
                }
                let len: usize = self.buf.len();
                assert(end < len);
                self.start = end + 1;
                assert(self.pending() =~= pending.skip(n as int + 1));
                if self.start == self.buf.len() {
                    self.start = 0;
                    self.buf = Vec::new();
                    assert(self.pending() =~= pending.skip(n as int + 1));
                }
                let text = text::lossy_text(line.as_slice());
                proof {
                    if vstd::utf8::valid_utf8(line@) {
                        vstd::utf8::encode_utf8_decode_utf8(text@);
                    }
                }
                Some(text)
            },
        }
    }

    /// Takes the next line, after what came of a read, if there was one. A line ends with a line
    /// end, which is taken off with the carriage return before it. A pipe that the peer closes
    /// between lines ends the reading; one that it closes within a line is an error.
    pub fn read_line(&mut self, event: Option<ReadEvent>) -> (r: LineStep)
        ensures
            ({
                let before = old(self).pending();
                let closed = match event {
                    Some(ReadEvent::Data(data)) => data@.len() == 0,
                    Some(ReadEvent::Failed(error)) => error == ERROR_BROKEN_PIPE,
                    None => false,
                };
                let failed = match event {
                    Some(ReadEvent::Failed(error)) => Some(error),
                    _ => None,
                };
                let now = match event {
                    Some(ReadEvent::Data(data)) => before + data@,
                    _ => before,
                };
                if closed {
                    &&& final(self).pending() == before
                    &&& r == if before.len() == 0 {
                        LineStep::Closed
                    } else {
                        LineStep::Broken(LineError::UnexpectedEof)
                    }
                } else if failed is Some {
                    &&& final(self).pending() == before
                    &&& r == LineStep::Broken(LineError::Io(failed->0))
                } else {
                    match first_line(now) {
                        Some((line, rest)) => {
                            &&& r matches LineStep::Line(l) && is_text_of(l@, line)
                            &&& final(self).pending() == rest
                        },
                        None => r == LineStep::NeedBytes && final(self).pending() == now,
                    }
                }
            }),
    {
        match event {
            None => {},
            Some(ReadEvent::Failed(error)) => {
                if error == ERROR_BROKEN_PIPE {
                    return self.on_closed();
                }
                return LineStep::Broken(LineError::Io(error));
            },
            Some(ReadEvent::Data(data)) => {
                if data.len() == 0 {
                    return self.on_closed();
                }
                self.append(data.as_slice());
            },
        }
        match self.take_line() {
            Some(line) => LineStep::Line(line),
            None => LineStep::NeedBytes,
        }
    }

    fn on_closed(&self) -> (r: LineStep)
        ensures
            r == if self.pending().len() == 0 {
                LineStep::Closed
            } else {
                LineStep::Broken(LineError::UnexpectedEof)
            },
    {
        proof {
            use_type_invariant(self);
        }
        if self.start == self.buf.len() {
            LineStep::Closed
        } else {
            LineStep::Broken(LineError::UnexpectedEof)
        }
    }
}

impl Default for LineReader {
    fn default() -> (r: Self)
        ensures
            r.pending() == Seq::<u8>::empty(),
    {
        Self::new()
    }
}

/// A line that is being sent.
#[derive(Debug, PartialEq, Eq)]
pub struct LineWrite {
    pub bytes: Vec<u8>,
    /// How many of the bytes were sent.
    pub sent: usize,
}

/// Begins to send a line.
pub fn write_line(line: &str) -> (r: LineWrite)
    ensures
        r.bytes@ == framed(line@),
        r.sent == 0,
{
    let mut out: Vec<u8> = Vec::new();
    bytes::push_all(&mut out, line.as_bytes());
    out.push(NEWLINE);
    assert(out@ =~= framed(line@));
    LineWrite { bytes: out, sent: 0 }
}

impl LineWrite {
    /// Whether the line was sent whole.
    pub fn is_done(&self) -> (r: bool)
        requires
            self.sent <= self.bytes@.len(),
        ensures
            r == (self.sent == self.bytes@.len()),
    {
        self.sent == self.bytes.len()
    }

    /// Takes note that the next `n` bytes were sent.
    pub fn on_written(&mut self, n: usize)
        requires
            old(self).sent + n <= old(self).bytes@.len(),
        ensures
            final(self).bytes@ == old(self).bytes@,
            final(self).sent == old(self).sent + n,
    {
        let len: usize = self.bytes.len();
        assert(self.sent + n <= len);
        self.sent = self.sent + n;
    }
}

/// The name of the pipe of a process.
pub open spec fn pipe_text(pid: u32) -> Seq<char> {
    "\\\\.\\pipe\\litebox-"@ + numbers::digits(pid as nat, 10)
}

/// The name of the pipe on which the process `runner_pid` takes requests.
pub fn pipe_name(runner_pid: u32) -> (r: String)
    ensures
        r@ == pipe_text(runner_pid),
{
    let mut out = "\\\\.\\pipe\\litebox-".to_owned();
    numbers::push_digits(&mut out, runner_pid as u64, 10);
    out
}

/// The pipes of different processes have different names.
pub proof fn law_pipe_names_differ(a: u32, b: u32)
    requires
        a != b,
    ensures
        pipe_text(a) != pipe_text(b),
{
    let prefix = "\\\\.\\pipe\\litebox-"@;
    numbers::lemma_digits_roundtrip(a as nat, 10);
    numbers::lemma_digits_roundtrip(b as nat, 10);
    let n = prefix.len() as int;
    if pipe_text(a) == pipe_text(b) {
        assert(pipe_text(a).skip(n) =~= numbers::digits(a as nat, 10));
        assert(pipe_text(b).skip(n) =~= numbers::digits(b as nat, 10));
    }
}

/// A character in UTF-16: one unit, or two of the surrogate ranges.
pub open spec fn utf16_char(c: char) -> Seq<u16> {
    let u = c as u32;
    if u < 0x1_0000 {
        seq![u as u16]
    } else {
        seq![(0xD800 + (u - 0x1_0000) / 0x400) as u16, (0xDC00 + (u - 0x1_0000) % 0x400) as u16]
    }
}

/// A text in UTF-16.
pub open spec fn utf16(s: Seq<char>) -> Seq<u16>
    decreases s.len(),
{
    if s.len() == 0 {
        Seq::empty()
    } else {
        utf16(s.drop_last()) + utf16_char(s.last())
    }
}

/// A character in UTF-16 is one unit with its own number, if that has sixteen bits; otherwise it is a
/// unit from 0xD800 on and one from 0xDC00 on, whose low ten bits make up the number less 0x10000.
pub proof fn law_utf16_units_hold_the_character(c: char)
    ensures
        (c as u32) < 0x1_0000 ==> utf16_char(c).len() == 1 && utf16_char(c)[0] == c as u32,
        c as u32 >= 0x1_0000 ==> {
            &&& utf16_char(c).len() == 2
            &&& 0xD800 <= utf16_char(c)[0] < 0xDC00
            &&& 0xDC00 <= utf16_char(c)[1] < 0xE000
            &&& c as u32 == 0x1_0000 + (utf16_char(c)[0] - 0xD800) * 0x400 + (utf16_char(c)[1]
                - 0xDC00)
        },
{
    vstd::utf8::char_is_scalar(c);
}

/// One more character adds its own units at the end.
pub proof fn law_utf16_follows_the_text(s: Seq<char>, c: char)
    ensures
        utf16(Seq::<char>::empty()).len() == 0,
        utf16(s.push(c)) == utf16(s) + utf16_char(c),
{
    assert(s.push(c).drop_last() =~= s);
}

/// Writes a text in UTF-16 with a zero behind it.
pub fn utf16_nul(s: &str) -> (r: Vec<u16>)
    ensures
        r@ == utf16(s@).push(0),
{
    let chars = text::chars_of(s);
    let mut out: Vec<u16> = Vec::new();
    let mut i: usize = 0;
    assert(chars@.take(0) =~= Seq::<char>::empty());
    while i < chars.len()
        invariant
            i <= chars@.len(),
            out@ == utf16(chars@.take(i as int)),
        decreases chars@.len() - i,
    {
        let u: u32 = chars[i] as u32;
        proof {
            vstd::utf8::char_is_scalar(chars@[i as int]);
        }
        let ghost before = out@;
        if u < 0x1_0000 {
            out.push(u as u16);
        } else {
            let v: u32 = u - 0x1_0000;
            assert(v < 0x10_0000);
            out.push((0xD800 + v / 0x400) as u16);
            out.push((0xDC00 + v % 0x400) as u16);
        }
        proof {
            assert(out@ =~= before + utf16_char(chars@[i as int]));
            let next = chars@.take(i + 1);
            assert(next.drop_last() =~= chars@.take(i as int));
            assert(next.last() == chars@[i as int]);
        }
        i = i + 1;
    }
    assert(chars@.take(i as int) =~= s@);
    out.push(0);
    out
}

/// What to do after an operation was started that may go on in the background.
#[derive(Debug, Clone, Copy, PartialEq, Eq, Structural)]
pub enum OverlappedStep {
    /// Wait for its end.
    Await,
    /// It failed.
    Failed { error: u32 },
}

/// Judges the start of an operation that may go on in the background.
pub fn overlapped_call(started: bool, error: u32) -> (r: OverlappedStep)
    ensures
        r == if started || error == ERROR_IO_PENDING {
            OverlappedStep::Await
        } else {
            OverlappedStep::Failed { error }
        },
{
    if started || error == ERROR_IO_PENDING {
        OverlappedStep::Await
    } else {
        OverlappedStep::Failed { error }
    }
}

/// Judges the wait for a client. A client that was there first is no error. On an error the pipe is
/// to be closed.
pub fn create_and_accept_one_instance(connected: Result<u32, u32>) -> (r: Result<(), u32>)
    ensures
        r == match connected {
            Ok(_) => Ok::<(), u32>(()),
            Err(error) => if error == ERROR_PIPE_CONNECTED {
                Ok::<(), u32>(())
            } else {
                Err::<(), u32>(error)
            },
        },
{
    match connected {
        Ok(_) => Ok(()),
        Err(error) => if error == ERROR_PIPE_CONNECTED {
            Ok(())
        } else {
            Err(error)
        },
    }
}

/// What a client does after an attempt to open the pipe.
#[derive(Debug, Clone, Copy, PartialEq, Eq, Structural)]
pub enum ConnectStep {
    Connected,
    /// Wait for up to [`CONNECT_WAIT_MS`] and try again.
    Retry,
    Failed { error: u32 },
}

/// Judges an attempt to open the pipe.
pub fn connect_client(opened: bool, past_deadline: bool, error: u32) -> (r: ConnectStep)
    ensures
        r == if opened {
            ConnectStep::Connected
        } else if past_deadline {
            ConnectStep::Failed { error }
        } else {
            ConnectStep::Retry
        },
{
    if opened {
        ConnectStep::Connected
    } else if past_deadline {
        ConnectStep::Failed { error }
    } else {
        ConnectStep::Retry
    }
}

/// A line that one side writes to the pipe is what the other side reads, after all lines before it
/// were taken, and nothing of it is left.
pub proof fn law_written_lines_are_read(
    line: &str,
    written: LineWrite,
    reader: &mut LineReader,
    data: Vec<u8>,
    r: LineStep,
)
    requires
        forall|i: int| 0 <= i < line@.len() ==> #[trigger] line@[i] != '\n',
        line@.len() > 0 ==> line@.last() != '\r',
        call_ensures(write_line, (line,), written),
        old(reader).pending().len() == 0,
        data@ == written.bytes@,
        call_ensures(LineReader::read_line, (reader, Some(ReadEvent::Data(data))), r),
    ensures
        r matches LineStep::Line(l) && l@ == line@,
        final(reader).pending().len() == 0,
{
    law_sent_line_is_received(line@, Seq::empty());
    assert(framed(line@) + Seq::<u8>::empty() =~= framed(line@));
    assert(old(reader).pending() + data@ =~= framed(line@));
}

/// Lines that arrived together are taken one after the other without another read.
pub proof fn law_waiting_lines_are_taken(reader: &mut LineReader, r: LineStep)
    requires
        call_ensures(LineReader::read_line, (reader, None::<ReadEvent>), r),
    ensures
        old(reader).pending().contains(10) ==> r is Line,
        !old(reader).pending().contains(10) ==> r == LineStep::NeedBytes && final(reader).pending()
            == old(reader).pending(),
{
    let s = old(reader).pending();
    lemma_line_len_is_first(s);
    if s.contains(10) {
        let k = choose|k: int| 0 <= k < s.len() && s[k] == 10;
        assert(line_len(s) <= k) by {
            if line_len(s) > k {
                assert(s[k] != NEWLINE);
            }
        }
    } else {
        assert forall|i: int| 0 <= i < s.len() implies #[trigger] s[i] != 10 by {
            assert(s.contains(s[i]));
        }
    }
}

/// A pipe that is closed between lines has ended, and one that is closed within a line is broken; a
/// failed read tells its error.
pub proof fn law_ends_are_told(
    reader: &mut LineReader,
    error: u32,
    failed: LineStep,
    other: &mut LineReader,
    data: Vec<u8>,
    closed: LineStep,
)
    requires
        call_ensures(LineReader::read_line, (reader, Some(ReadEvent::Failed(error))), failed),
        data@.len() == 0,
        call_ensures(LineReader::read_line, (other, Some(ReadEvent::Data(data))), closed),
    ensures
        error != ERROR_BROKEN_PIPE ==> failed == LineStep::Broken(LineError::Io(error)),
        old(other).pending().len() == 0 ==> closed == LineStep::Closed,
        old(other).pending().len() > 0 ==> closed == LineStep::Broken(LineError::UnexpectedEof),
        final(reader).pending() == old(reader).pending(),
        final(other).pending() == old(other).pending(),
{
}

/// A client that was there before the wait began is as good as one that came, and a pipe that is busy
/// is tried again until the time is up.
pub proof fn law_clients_are_waited_for(
    connected: Result<u32, u32>,
    accepted: Result<(), u32>,
    opened: bool,
    past_deadline: bool,
    error: u32,
    step: ConnectStep,
    started: bool,
    overlapped: OverlappedStep,
)
    requires
        call_ensures(create_and_accept_one_instance, (connected,), accepted),
        call_ensures(connect_client, (opened, past_deadline, error), step),
        call_ensures(overlapped_call, (started, error), overlapped),
    ensures
        connected is Ok ==> accepted is Ok,
        connected matches Err(e) ==> (accepted is Ok <==> e == ERROR_PIPE_CONNECTED),
        accepted matches Err(e) ==> connected == Err::<u32, u32>(e),
        step == ConnectStep::Connected <==> opened,
        step == ConnectStep::Retry <==> !opened && !past_deadline,
        step is Failed ==> step == (ConnectStep::Failed { error }) && past_deadline,
        overlapped == OverlappedStep::Await <==> started || error == ERROR_IO_PENDING,
{
}

/// A line is sent whole when as many bytes were sent as it has, in however many parts.
pub proof fn law_lines_are_sent_whole(
    line: &str,
    written: LineWrite,
    first: &mut LineWrite,
    n: usize,
    m: usize,
    second: &mut LineWrite,
    done: bool,
)
    requires
        call_ensures(write_line, (line,), written),
        *old(first) == written,
        n + m <= written.bytes@.len(),
        call_ensures(LineWrite::on_written, (first, n), ()),
        *old(second) == *final(first),
        call_ensures(LineWrite::on_written, (second, m), ()),
        call_ensures(LineWrite::is_done, (&*final(second),), done),
    ensures
        done <==> n + m == vstd::utf8::encode_utf8(line@).len() + 1,
        final(second).bytes@ == written.bytes@,
{
}

} // verus!
