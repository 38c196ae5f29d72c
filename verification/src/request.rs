//! The command grammar of the presenter control protocol: one line, words separated by white
//! space, the first word naming the command. A line with fewer or more words than its command has
//! is malformed.

use crate::numbers;
use crate::text;
use vstd::prelude::*;

verus! {

/// The largest value of a key: 0 is a release, 1 a press, 2 a repeat.
pub const MAX_KEY_VALUE: u64 = 2;

/// A command line of the control protocol.
#[derive(Debug, Clone, PartialEq, Eq)]
pub enum Request {
    /// Request or refresh the shared framebuffer mapping.
    Scanout,
    /// Write the current scanout content to a file on the runner's own filesystem.
    Screenshot { path: String },
    Show,
    Hide,
    /// `presenter?`: query the current presenter state.
    PresenterQuery,
    /// `key <evdev_code> <0|1|2>` (0 release, 1 press, 2 repeat).
    Key { code: u16, value: u8 },
    /// `rel <evdev_code> <value>`: motion or wheel.
    Rel { code: u16, value: i32 },
    /// `relmotion <dx> <dy>`: one cursor movement as a single report. A presenter sends this for
    /// cursor movement, never two `rel` lines: those would make two reports of one motion.
    RelMotion { dx: i32, dy: i32 },
    /// `abs <evdev_code> <value>`: reserved.
    Abs { code: u16, value: i32 },
    /// List guest processes.
    Ps,
    StraceOn,
    StraceOff,
    StraceQuery,
    /// Print the system call summary now and send it back.
    StraceDump,
    /// `frames on <dir>`.
    FramesOn { dir: String },
    FramesOff,
    /// Sent by the presenter once its first window and first scanout are there.
    Ready,
}

/// What is wrong with a request line.
#[derive(Debug, Clone, PartialEq, Eq)]
pub struct ParseError(pub String);

/// A request with its text and numbers as mathematical values.
pub enum RequestView {
    Scanout,
    Screenshot { path: Seq<char> },
    Show,
    Hide,
    PresenterQuery,
    Key { code: int, value: int },
    Rel { code: int, value: int },
    RelMotion { dx: int, dy: int },
    Abs { code: int, value: int },
    Ps,
    StraceOn,
    StraceOff,
    StraceQuery,
    StraceDump,
    FramesOn { dir: Seq<char> },
    FramesOff,
    Ready,
}

impl View for Request {
    type V = RequestView;

    open spec fn view(&self) -> RequestView {
        match *self {
            Request::Scanout => RequestView::Scanout,
            Request::Screenshot { path } => RequestView::Screenshot { path: path@ },
            Request::Show => RequestView::Show,
            Request::Hide => RequestView::Hide,
            Request::PresenterQuery => RequestView::PresenterQuery,
            Request::Key { code, value } => RequestView::Key {
                code: code as int,
                value: value as int,
            },
            Request::Rel { code, value } => RequestView::Rel {
                code: code as int,
                value: value as int,
            },
            Request::RelMotion { dx, dy } => RequestView::RelMotion {
                dx: dx as int,
                dy: dy as int,
            },
            Request::Abs { code, value } => RequestView::Abs {
                code: code as int,
                value: value as int,
            },
            Request::Ps => RequestView::Ps,
            Request::StraceOn => RequestView::StraceOn,
            Request::StraceOff => RequestView::StraceOff,
            Request::StraceQuery => RequestView::StraceQuery,
            Request::StraceDump => RequestView::StraceDump,
            Request::FramesOn { dir } => RequestView::FramesOn { dir: dir@ },
            Request::FramesOff => RequestView::FramesOff,
            Request::Ready => RequestView::Ready,
        }
    }
}

/// The words that write a request.
pub open spec fn request_words(r: RequestView) -> Seq<Seq<char>> {
    match r {
        RequestView::Scanout => seq!["scanout"@],
        RequestView::Screenshot { path } => seq!["screenshot"@, path],
        RequestView::Show => seq!["show"@],
        RequestView::Hide => seq!["hide"@],
        RequestView::PresenterQuery => seq!["presenter?"@],
        RequestView::Key { code, value } => seq![
            "key"@,
            numbers::decimal(code),
            numbers::decimal(value),
        ],
        RequestView::Rel { code, value } => seq![
            "rel"@,
            numbers::decimal(code),
            numbers::decimal(value),
        ],
        RequestView::RelMotion { dx, dy } => seq![
            "relmotion"@,
            numbers::decimal(dx),
            numbers::decimal(dy),
        ],
        RequestView::Abs { code, value } => seq![
            "abs"@,
            numbers::decimal(code),
            numbers::decimal(value),
        ],
        RequestView::Ps => seq!["ps"@],
        RequestView::StraceOn => seq!["strace"@, "on"@],
        RequestView::StraceOff => seq!["strace"@, "off"@],
        RequestView::StraceQuery => seq!["strace"@, "query"@],
        RequestView::StraceDump => seq!["strace"@, "dump"@],
        RequestView::FramesOn { dir } => seq!["frames"@, "on"@, dir],
        RequestView::FramesOff => seq!["frames"@, "off"@],
        RequestView::Ready => seq!["ready"@],
    }
}

/// The outcome of reading word `i` as an unsigned number of at most `max`; `what` names what is
/// missing when there is no such word.
pub open spec fn unsigned_word(ws: Seq<Seq<char>>, i: int, max: nat, what: Seq<char>) -> Result<
    int,
    Seq<char>,
> {
    if i >= ws.len() {
        Err(what)
    } else {
        match numbers::unsigned_value(ws[i], 10, max) {
            Some(v) => Ok(v as int),
            None => Err(what + ": not a valid number"@),
        }
    }
}

/// The outcome of reading word `i` as a 32-bit signed number.
pub open spec fn signed_word(ws: Seq<Seq<char>>, i: int, what: Seq<char>) -> Result<
    int,
    Seq<char>,
> {
    if i >= ws.len() {
        Err(what)
    } else {
        match numbers::signed_value(ws[i], i32::MIN as int, i32::MAX as int) {
            Some(v) => Ok(v),
            None => Err(what + ": not a valid number"@),
        }
    }
}

/// How debug formatting shows word `i`, or its absence.
pub open spec fn optional_word_debug(ws: Seq<Seq<char>>, i: int) -> Seq<char> {
    if i < ws.len() {
        "Some("@ + text::debug_text(ws[i]) + ")"@
    } else {
        "None"@
    }
}

/// The request that a line of words stands for, or what is wrong with it: a request has no more
/// words than those that write it.
pub open spec fn request_of(ws: Seq<Seq<char>>) -> Result<RequestView, Seq<char>> {
    match leading_request(ws) {
        Ok(q) => {
            let n = request_words(q).len() as int;
            if ws.len() > n {
                Err(ws[0] + ": unexpected argument "@ + text::debug_text(ws[n]))
            } else {
                Ok(q)
            }
        },
        Err(e) => Err(e),
    }
}

/// The request that the first words of a line stand for, or what is wrong with them.
pub open spec fn leading_request(ws: Seq<Seq<char>>) -> Result<RequestView, Seq<char>> {
    if ws.len() == 0 {
        Err("empty line"@)
    } else if ws[0] == "scanout"@ {
        Ok(RequestView::Scanout)
    } else if ws[0] == "screenshot"@ {
        if ws.len() < 2 {
            Err("screenshot: missing path"@)
        } else {
            Ok(RequestView::Screenshot { path: ws[1] })
        }
    } else if ws[0] == "show"@ {
        Ok(RequestView::Show)
    } else if ws[0] == "hide"@ {
        Ok(RequestView::Hide)
    } else if ws[0] == "presenter?"@ {
        Ok(RequestView::PresenterQuery)
    } else if ws[0] == "key"@ {
        match (
            unsigned_word(ws, 1, u16::MAX as nat, "key: missing code"@),
            unsigned_word(ws, 2, MAX_KEY_VALUE as nat, "key: missing value"@),
        ) {
            (Ok(code), Ok(value)) => Ok(RequestView::Key { code, value }),
            (Err(e), _) => Err(e),
            (_, Err(e)) => Err(e),
        }
    } else if ws[0] == "rel"@ {
        match (
            unsigned_word(ws, 1, u16::MAX as nat, "rel: missing code"@),
            signed_word(ws, 2, "rel: missing value"@),
        ) {
            (Ok(code), Ok(value)) => Ok(RequestView::Rel { code, value }),
            (Err(e), _) => Err(e),
            (_, Err(e)) => Err(e),
        }
    } else if ws[0] == "relmotion"@ {
        match (
            signed_word(ws, 1, "relmotion: missing dx"@),
            signed_word(ws, 2, "relmotion: missing dy"@),
        ) {
            (Ok(dx), Ok(dy)) => Ok(RequestView::RelMotion { dx, dy }),
            (Err(e), _) => Err(e),
            (_, Err(e)) => Err(e),
        }
    } else if ws[0] == "abs"@ {
        match (
            unsigned_word(ws, 1, u16::MAX as nat, "abs: missing code"@),
            signed_word(ws, 2, "abs: missing value"@),
        ) {
            (Ok(code), Ok(value)) => Ok(RequestView::Abs { code, value }),
            (Err(e), _) => Err(e),
            (_, Err(e)) => Err(e),
        }
    } else if ws[0] == "ps"@ {
        Ok(RequestView::Ps)
    } else if ws[0] == "strace"@ {
        if ws.len() >= 2 && ws[1] == "on"@ {
            Ok(RequestView::StraceOn)
        } else if ws.len() >= 2 && ws[1] == "off"@ {
            Ok(RequestView::StraceOff)
        } else if ws.len() >= 2 && ws[1] == "query"@ {
            Ok(RequestView::StraceQuery)
        } else if ws.len() >= 2 && ws[1] == "dump"@ {
            Ok(RequestView::StraceDump)
        } else {
            Err("strace: unknown sub-command "@ + optional_word_debug(ws, 1))
        }
    } else if ws[0] == "frames"@ {
        if ws.len() >= 2 && ws[1] == "on"@ {
            if ws.len() < 3 {
                Err("frames on: missing dir"@)
            } else {
                Ok(RequestView::FramesOn { dir: ws[2] })
            }
        } else if ws.len() >= 2 && ws[1] == "off"@ {
            Ok(RequestView::FramesOff)
        } else {
            Err("frames: unknown sub-command "@ + optional_word_debug(ws, 1))
        }
    } else if ws[0] == "ready"@ {
        Ok(RequestView::Ready)
    } else {
        Err("unknown command "@ + text::debug_text(ws[0]))
    }
}

/// Whether the request survives being written and read: its numbers fit their fields and its path
/// or directory is a single word.
pub open spec fn is_plain(r: RequestView) -> bool {
    match r {
        RequestView::Screenshot { path } => text::is_word(path),
        RequestView::FramesOn { dir } => text::is_word(dir),
        RequestView::Key { code, value } => 0 <= code <= u16::MAX && 0 <= value
            <= MAX_KEY_VALUE,
        RequestView::Rel { code, value } => 0 <= code <= u16::MAX && i32::MIN <= value <= i32::MAX,
        RequestView::Abs { code, value } => 0 <= code <= u16::MAX && i32::MIN <= value <= i32::MAX,
        RequestView::RelMotion { dx, dy } => i32::MIN <= dx <= i32::MAX && i32::MIN <= dy
            <= i32::MAX,
        _ => true,
    }
}

/// The literal words of the grammar differ in length or in their first character.
proof fn lemma_literals_differ()
    ensures
        "scanout"@.len() == 7 && "scanout"@[0] == 's',
        "screenshot"@.len() == 10 && "screenshot"@[0] == 's',
        "show"@.len() == 4 && "show"@[0] == 's',
        "hide"@.len() == 4 && "hide"@[0] == 'h',
        "presenter?"@.len() == 10 && "presenter?"@[0] == 'p',
        "key"@.len() == 3 && "key"@[0] == 'k',
        "rel"@.len() == 3 && "rel"@[0] == 'r',
        "relmotion"@.len() == 9 && "relmotion"@[0] == 'r',
        "abs"@.len() == 3 && "abs"@[0] == 'a',
        "ps"@.len() == 2 && "ps"@[0] == 'p',
        "strace"@.len() == 6 && "strace"@[0] == 's',
        "frames"@.len() == 6 && "frames"@[0] == 'f',
        "ready"@.len() == 5 && "ready"@[0] == 'r',
        "on"@.len() == 2 && "on"@[0] == 'o',
        "off"@.len() == 3 && "off"@[0] == 'o',
        "query"@.len() == 5 && "query"@[0] == 'q',
        "dump"@.len() == 4 && "dump"@[0] == 'd',
{
    reveal_strlit("scanout");
    reveal_strlit("screenshot");
    reveal_strlit("show");
    reveal_strlit("hide");
    reveal_strlit("presenter?");
    reveal_strlit("key");
    reveal_strlit("rel");
    reveal_strlit("relmotion");
    reveal_strlit("abs");
    reveal_strlit("ps");
    reveal_strlit("strace");
    reveal_strlit("frames");
    reveal_strlit("ready");
    reveal_strlit("on");
    reveal_strlit("off");
    reveal_strlit("query");
    reveal_strlit("dump");
}

proof fn lemma_request_words(r: RequestView)
    requires
        is_plain(r),
    ensures
        request_of(request_words(r)) == Ok::<RequestView, Seq<char>>(r),
{
    lemma_literals_differ();
    match r {
        RequestView::Key { code, value } => {
            numbers::lemma_unsigned_roundtrip(code as nat, 10, u16::MAX as nat);
            numbers::lemma_unsigned_roundtrip(value as nat, 10, u8::MAX as nat);
        },
        RequestView::Rel { code, value } => {
            numbers::lemma_unsigned_roundtrip(code as nat, 10, u16::MAX as nat);
            numbers::lemma_signed_roundtrip(value, i32::MIN as int, i32::MAX as int);
        },
        RequestView::Abs { code, value } => {
            numbers::lemma_unsigned_roundtrip(code as nat, 10, u16::MAX as nat);
            numbers::lemma_signed_roundtrip(value, i32::MIN as int, i32::MAX as int);
        },
        RequestView::RelMotion { dx, dy } => {
            numbers::lemma_signed_roundtrip(dx, i32::MIN as int, i32::MAX as int);
            numbers::lemma_signed_roundtrip(dy, i32::MIN as int, i32::MAX as int);
        },
        _ => {},
    }
}

/// Every word of a plain request is one word.
pub proof fn lemma_request_words_are_words(r: RequestView)
    requires
        is_plain(r),
    ensures
        forall|i: int|
            0 <= i < request_words(r).len() ==> text::is_word(#[trigger] request_words(r)[i]),
{
    lemma_command_characters(request_words(r)[0]);
    match r {
        RequestView::Key { code, value } => {
            numbers::lemma_decimal_word(code);
            numbers::lemma_decimal_word(value);
        },
        RequestView::Rel { code, value } => {
            numbers::lemma_decimal_word(code);
            numbers::lemma_decimal_word(value);
        },
        RequestView::Abs { code, value } => {
            numbers::lemma_decimal_word(code);
            numbers::lemma_decimal_word(value);
        },
        RequestView::RelMotion { dx, dy } => {
            numbers::lemma_decimal_word(dx);
            numbers::lemma_decimal_word(dy);
        },
        _ => {},
    }
}

/// Every literal word of the grammar is a word.
proof fn lemma_command_characters(w: Seq<char>)
    ensures
        w == "scanout"@ || w == "screenshot"@ || w == "show"@ || w == "hide"@ || w == "presenter?"@
            || w == "key"@ || w == "rel"@ || w == "relmotion"@ || w == "abs"@ || w == "ps"@ || w
            == "strace"@ || w == "frames"@ || w == "ready"@ ==> text::is_word(w),
        text::is_word("on"@),
        text::is_word("off"@),
        text::is_word("query"@),
        text::is_word("dump"@),
{
    reveal_strlit("scanout");
    reveal_strlit("screenshot");
    reveal_strlit("show");
    reveal_strlit("hide");
    reveal_strlit("presenter?");
    reveal_strlit("key");
    reveal_strlit("rel");
    reveal_strlit("relmotion");
    reveal_strlit("abs");
    reveal_strlit("ps");
    reveal_strlit("strace");
    reveal_strlit("frames");
    reveal_strlit("ready");
    reveal_strlit("on");
    reveal_strlit("off");
    reveal_strlit("query");
    reveal_strlit("dump");
}

/// Only what writes a request is read as one: a line that is read as a request begins with the
/// request's first word, has as many words as the request, no more and no less, its path or directory
/// stands in it, and its numbers are within their bounds.
pub proof fn law_only_requests_are_read(ws: Seq<Seq<char>>)
    ensures
        request_of(ws) matches Ok(r) ==> {
            &&& ws.len() == request_words(r).len() > 0
            &&& ws[0] == request_words(r)[0]
            &&& r matches RequestView::Screenshot { path } ==> path == ws[1]
            &&& r matches RequestView::FramesOn { dir } ==> ws[1] == "on"@ && dir == ws[2]
            &&& r is FramesOff ==> ws[1] == "off"@
            &&& r is StraceOn ==> ws[1] == "on"@
            &&& r is StraceOff ==> ws[1] == "off"@
            &&& r is StraceQuery ==> ws[1] == "query"@
            &&& r is StraceDump ==> ws[1] == "dump"@
            &&& r matches RequestView::Key { code, value } ==> 0 <= code <= 0xFFFF && 0 <= value <= 2
                && numbers::unsigned_value(ws[1], 10, 0xFFFF) == Some(code as nat)
                && numbers::unsigned_value(ws[2], 10, 2) == Some(value as nat)
            &&& r matches RequestView::Rel { code, value } ==> numbers::unsigned_value(
                ws[1],
                10,
                0xFFFF,
            ) == Some(code as nat) && numbers::signed_value(ws[2], -0x8000_0000, 0x7FFF_FFFF)
                == Some(value)
            &&& r matches RequestView::Abs { code, value } ==> numbers::unsigned_value(
                ws[1],
                10,
                0xFFFF,
            ) == Some(code as nat) && numbers::signed_value(ws[2], -0x8000_0000, 0x7FFF_FFFF)
                == Some(value)
            &&& r matches RequestView::RelMotion { dx, dy } ==> numbers::signed_value(
                ws[1],
                -0x8000_0000,
                0x7FFF_FFFF,
            ) == Some(dx) && numbers::signed_value(ws[2], -0x8000_0000, 0x7FFF_FFFF) == Some(dy)
        },
        ws.len() == 0 ==> request_of(ws) is Err,
{
    lemma_literals_differ();
}

/// The first word of a line names the request: no word other than that of a request is read as one,
/// and requests of different kinds begin differently or differ in their second word.
pub proof fn law_requests_begin_with_their_word(r: RequestView)
    ensures
        r is Scanout ==> request_words(r) == seq!["scanout"@],
        r is Screenshot ==> request_words(r)[0] == "screenshot"@,
        r is Show ==> request_words(r) == seq!["show"@],
        r is Hide ==> request_words(r) == seq!["hide"@],
        r is PresenterQuery ==> request_words(r) == seq!["presenter?"@],
        r is Key ==> request_words(r)[0] == "key"@,
        r is Rel ==> request_words(r)[0] == "rel"@,
        r is RelMotion ==> request_words(r)[0] == "relmotion"@,
        r is Abs ==> request_words(r)[0] == "abs"@,
        r is Ps ==> request_words(r) == seq!["ps"@],
        r is StraceOn || r is StraceOff || r is StraceQuery || r is StraceDump ==> request_words(r)[0]
            == "strace"@,
        r is FramesOn || r is FramesOff ==> request_words(r)[0] == "frames"@,
        r is Ready ==> request_words(r) == seq!["ready"@],
{
}

/// A plain request written as a line and parsed again is the same request.
pub proof fn law_request_roundtrip(r: RequestView)
    requires
        is_plain(r),
    ensures
        request_of(text::words(text::joined(request_words(r), ' '))) == Ok::<
            RequestView,
            Seq<char>,
        >(r),
{
    lemma_request_words(r);
    lemma_request_words_are_words(r);
    text::lemma_words_joined(request_words(r), ' ');
}

impl ParseError {
    /// The full message.
    pub fn message(&self) -> (r: String)
        ensures
            r@ == "malformed request line: "@ + self.0@,
    {
        let mut out = "malformed request line: ".to_owned();
        out.append(self.0.as_str());
        out
    }
}

fn bad(detail: &str) -> (r: ParseError)
    ensures
        r.0@ == detail@,
{
    ParseError(detail.to_owned())
}

/// The error that says `prefix` and then what was found, already in its quoted form.
pub fn unknown_word(prefix: &str, quoted: &str) -> (r: ParseError)
    ensures
        r.0@ == prefix@ + quoted@,
{
    let mut out = prefix.to_owned();
    out.append(quoted);
    ParseError(out)
}

fn not_a_number(what: &str) -> (r: ParseError)
    ensures
        r.0@ == what@ + ": not a valid number"@,
{
    unknown_word(what, ": not a valid number")
}

/// How debug formatting shows the word at `i`, or its absence.
fn optional_debug(ws: &Vec<String>, i: usize) -> (r: String)
    ensures
        r@ == optional_word_debug(text::views(ws@), i as int),
{
    if i < ws.len() {
        let mut out = "Some(".to_owned();
        let quoted = text::debug_of(ws[i].as_str());
        out.append(quoted.as_str());
        out.append(")");
        out
    } else {
        "None".to_owned()
    }
}

fn parse_unsigned_tok(ws: &Vec<String>, i: usize, max: u64, what: &str) -> (r: Result<
    u64,
    ParseError,
>)
    ensures
        match r {
            Ok(v) => v <= max && unsigned_word(text::views(ws@), i as int, max as nat, what@) == Ok::<
                int,
                Seq<char>,
            >(v as int),
            Err(e) => unsigned_word(text::views(ws@), i as int, max as nat, what@) == Err::<
                int,
                Seq<char>,
            >(e.0@),
        },
{
    if i >= ws.len() {
        return Err(bad(what));
    }
    assert(text::views(ws@)[i as int] == ws@[i as int]@);
    match numbers::parse_unsigned(ws[i].as_str(), 10, max) {
        Some(v) => Ok(v),
        None => Err(not_a_number(what)),
    }
}

fn parse_signed_tok(ws: &Vec<String>, i: usize, what: &str) -> (r: Result<i32, ParseError>)
    ensures
        match r {
            Ok(v) => signed_word(text::views(ws@), i as int, what@) == Ok::<int, Seq<char>>(
                v as int,
            ),
            Err(e) => signed_word(text::views(ws@), i as int, what@) == Err::<int, Seq<char>>(
                e.0@,
            ),
        },
{
    if i >= ws.len() {
        return Err(bad(what));
    }
    assert(text::views(ws@)[i as int] == ws@[i as int]@);
    match numbers::parse_signed(ws[i].as_str(), i32::MIN as i64, i32::MAX as i64) {
        Some(v) => Ok(v as i32),
        None => Err(not_a_number(what)),
    }
}

/// Appends a space and the decimal notation of `n`.
fn push_number(out: &mut String, n: i64)
    ensures
        final(out)@ == old(out)@.push(' ') + numbers::decimal(n as int),
{
    out.push(' ');
    numbers::push_decimal(out, n);
}

/// A word followed by two numbers, as a line.
pub fn three_words(first: &str, a: i64, b: i64) -> (r: String)
    ensures
        r@ == text::joined(
            seq![first@, numbers::decimal(a as int), numbers::decimal(b as int)],
            ' ',
        ),
{
    let mut out = first.to_owned();
    push_number(&mut out, a);
    push_number(&mut out, b);
    proof {
        let ws = seq![first@, numbers::decimal(a as int), numbers::decimal(b as int)];
        lemma_joined_two(ws.drop_last());
        assert(text::joined(ws, ' ') == text::joined(ws.drop_last(), ' ').push(' ') + ws.last());
        assert(out@ =~= text::joined(ws, ' '));
    }
    out
}

proof fn lemma_joined_two(ws: Seq<Seq<char>>)
    requires
        ws.len() == 2,
    ensures
        text::joined(ws, ' ') == ws[0].push(' ') + ws[1],
{
    assert(text::joined(ws.drop_last(), ' ') == ws[0]);
}

/// Two words.
fn two_words(first: &str, second: &str) -> (r: String)
    ensures
        r@ == text::joined(seq![first@, second@], ' '),
{
    let mut out = first.to_owned();
    out.push(' ');
    out.append(second);
    proof {
        lemma_joined_two(seq![first@, second@]);
    }
    out
}

impl Request {
    /// Reads a command line.
    pub fn parse(line: &str) -> (r: Result<Self, ParseError>)
        ensures
            match r {
                Ok(q) => request_of(text::words(line@)) == Ok::<RequestView, Seq<char>>(q@),
                Err(e) => request_of(text::words(line@)) == Err::<RequestView, Seq<char>>(e.0@),
            },
    {
        let ws = text::split_words(line);
        let q = Self::parse_words(&ws)?;
        let n: usize = q.word_count();
        if ws.len() > n {
            let mut prefix = ws[0].clone();
            prefix.append(": unexpected argument ");
            let quoted = text::debug_of(ws[n].as_str());
            assert(text::views(ws@)[0] == ws@[0]@);
            assert(text::views(ws@)[n as int] == ws@[n as int]@);
            return Err(unknown_word(prefix.as_str(), quoted.as_str()));
        }
        Ok(q)
    }

    fn word_count(&self) -> (r: usize)
        ensures
            r == request_words(self@).len(),
            0 < r <= 3,
    {
        match self {
            Request::Screenshot { .. } => 2,
            Request::Key { .. } => 3,
            Request::Rel { .. } => 3,
            Request::RelMotion { .. } => 3,
            Request::Abs { .. } => 3,
            Request::StraceOn => 2,
            Request::StraceOff => 2,
            Request::StraceQuery => 2,
            Request::StraceDump => 2,
            Request::FramesOn { .. } => 3,
            Request::FramesOff => 2,
            _ => 1,
        }
    }

    fn parse_words(ws: &Vec<String>) -> (r: Result<Self, ParseError>)
        ensures
            match r {
                Ok(q) => leading_request(text::views(ws@)) == Ok::<RequestView, Seq<char>>(q@),
                Err(e) => leading_request(text::views(ws@)) == Err::<RequestView, Seq<char>>(e.0@),
            },
    {
        let ghost w = text::views(ws@);
        if ws.len() == 0 {
            return Err(bad("empty line"));
        }
        assert(w[0] == ws@[0]@);
        assert(w.len() >= 2 ==> w[1] == ws@[1]@);
        assert(w.len() >= 3 ==> w[2] == ws@[2]@);
        let cmd = ws[0].as_str();
        if text::same_text(cmd, "scanout") {
            Ok(Request::Scanout)
        } else if text::same_text(cmd, "screenshot") {
            if ws.len() < 2 {
                Err(bad("screenshot: missing path"))
            } else {
                Ok(Request::Screenshot { path: ws[1].clone() })
            }
        } else if text::same_text(cmd, "show") {
            Ok(Request::Show)
        } else if text::same_text(cmd, "hide") {
            Ok(Request::Hide)
        } else if text::same_text(cmd, "presenter?") {
            Ok(Request::PresenterQuery)
        } else if text::same_text(cmd, "key") {
            match parse_unsigned_tok(ws, 1, u16::MAX as u64, "key: missing code") {
                Err(e) => Err(e),
                Ok(code) => match parse_unsigned_tok(ws, 2, MAX_KEY_VALUE, "key: missing value") {
                    Err(e) => Err(e),
                    Ok(value) => Ok(Request::Key { code: code as u16, value: value as u8 }),
                },
            }
        } else if text::same_text(cmd, "rel") {
            match parse_unsigned_tok(ws, 1, u16::MAX as u64, "rel: missing code") {
                Err(e) => Err(e),
                Ok(code) => match parse_signed_tok(ws, 2, "rel: missing value") {
                    Err(e) => Err(e),
                    Ok(value) => Ok(Request::Rel { code: code as u16, value }),
                },
            }
        } else if text::same_text(cmd, "relmotion") {
            match parse_signed_tok(ws, 1, "relmotion: missing dx") {
                Err(e) => Err(e),
                Ok(dx) => match parse_signed_tok(ws, 2, "relmotion: missing dy") {
                    Err(e) => Err(e),
                    Ok(dy) => Ok(Request::RelMotion { dx, dy }),
                },
            }
        } else if text::same_text(cmd, "abs") {
            match parse_unsigned_tok(ws, 1, u16::MAX as u64, "abs: missing code") {
                Err(e) => Err(e),
                Ok(code) => match parse_signed_tok(ws, 2, "abs: missing value") {
                    Err(e) => Err(e),
                    Ok(value) => Ok(Request::Abs { code: code as u16, value }),
                },
            }
        } else if text::same_text(cmd, "ps") {
            Ok(Request::Ps)
        } else if text::same_text(cmd, "strace") {
            if ws.len() >= 2 && text::same_text(ws[1].as_str(), "on") {
                Ok(Request::StraceOn)
            } else if ws.len() >= 2 && text::same_text(ws[1].as_str(), "off") {
                Ok(Request::StraceOff)
            } else if ws.len() >= 2 && text::same_text(ws[1].as_str(), "query") {
                Ok(Request::StraceQuery)
            } else if ws.len() >= 2 && text::same_text(ws[1].as_str(), "dump") {
                Ok(Request::StraceDump)
            } else {
                let found = optional_debug(ws, 1);
                Err(unknown_word("strace: unknown sub-command ", found.as_str()))
            }
        } else if text::same_text(cmd, "frames") {
            if ws.len() >= 2 && text::same_text(ws[1].as_str(), "on") {
                if ws.len() < 3 {
                    Err(bad("frames on: missing dir"))
                } else {
                    Ok(Request::FramesOn { dir: ws[2].clone() })
                }
            } else if ws.len() >= 2 && text::same_text(ws[1].as_str(), "off") {
                Ok(Request::FramesOff)
            } else {
                let found = optional_debug(ws, 1);
                Err(unknown_word("frames: unknown sub-command ", found.as_str()))
            }
        } else if text::same_text(cmd, "ready") {
            Ok(Request::Ready)
        } else {
            let quoted = text::debug_of(cmd);
            Err(unknown_word("unknown command ", quoted.as_str()))
        }
    }

    /// Writes the command line of this request.
    pub fn encode(&self) -> (r: String)
        ensures
            r@ == text::joined(request_words(self@), ' '),
    {
        match self {
            Request::Scanout => "scanout".to_owned(),
            Request::Screenshot { path } => two_words("screenshot", path.as_str()),
            Request::Show => "show".to_owned(),
            Request::Hide => "hide".to_owned(),
            Request::PresenterQuery => "presenter?".to_owned(),
            Request::Key { code, value } => three_words("key", *code as i64, *value as i64),
            Request::Rel { code, value } => three_words("rel", *code as i64, *value as i64),
            Request::RelMotion { dx, dy } => three_words("relmotion", *dx as i64, *dy as i64),
            Request::Abs { code, value } => three_words("abs", *code as i64, *value as i64),
            Request::Ps => "ps".to_owned(),
            Request::StraceOn => two_words("strace", "on"),
            Request::StraceOff => two_words("strace", "off"),
            Request::StraceQuery => two_words("strace", "query"),
            Request::StraceDump => two_words("strace", "dump"),
            Request::FramesOn { dir } => {
                let mut out = two_words("frames", "on");
                out.push(' ');
                out.append(dir.as_str());
                proof {
                    let ws = seq!["frames"@, "on"@, dir@];
                    assert(ws.drop_last() =~= seq!["frames"@, "on"@]);
                    assert(out@ =~= text::joined(ws, ' '));
                }
                out
            },
            Request::FramesOff => two_words("frames", "off"),
            Request::Ready => "ready".to_owned(),
        }
    }
}

/// What one side encodes as a line, the other side parses as the same request.
pub proof fn law_encoded_requests_are_parsed(
    request: &Request,
    line: String,
    s: &str,
    r: Result<Request, ParseError>,
)
    requires
        is_plain(request@),
        call_ensures(Request::encode, (request,), line),
        s@ == line@,
        call_ensures(Request::parse, (s,), r),
    ensures
        r is Ok,
        r->Ok_0@ == request@,
{
    law_request_roundtrip(request@);
}

/// The numbers and names of a request follow its word, each in its place.
pub proof fn law_arguments_have_their_places(r: RequestView)
    ensures
        r matches RequestView::Key { code, value } ==> request_words(r) == seq![
            "key"@,
            numbers::decimal(code),
            numbers::decimal(value),
        ],
        r matches RequestView::Rel { code, value } ==> request_words(r) == seq![
            "rel"@,
            numbers::decimal(code),
            numbers::decimal(value),
        ],
        r matches RequestView::RelMotion { dx, dy } ==> request_words(r) == seq![
            "relmotion"@,
            numbers::decimal(dx),
            numbers::decimal(dy),
        ],
        r matches RequestView::Abs { code, value } ==> request_words(r) == seq![
            "abs"@,
            numbers::decimal(code),
            numbers::decimal(value),
        ],
        r matches RequestView::Screenshot { path } ==> request_words(r) == seq![
            "screenshot"@,
            path,
        ],
        r matches RequestView::FramesOn { dir } ==> request_words(r) == seq![
            "frames"@,
            "on"@,
            dir,
        ],
        r is FramesOff ==> request_words(r)[1] == "off"@,
        r is StraceOn ==> request_words(r)[1] == "on"@,
        r is StraceOff ==> request_words(r)[1] == "off"@,
        r is StraceQuery ==> request_words(r)[1] == "query"@,
        r is StraceDump ==> request_words(r)[1] == "dump"@,
{
}

} // verus!
