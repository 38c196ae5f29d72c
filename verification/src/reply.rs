//! The reply grammar of the presenter control protocol. The first word of a reply is `ok` or
//! `err`; the second word of an `err` reply is a short stable code and the rest is free text. Some
//! replies are followed by plain text lines whose number the first line states.

use crate::numbers;
use crate::text;
use vstd::prelude::*;

verus! {

/// The machine-readable reason in an `err` reply.
#[derive(Debug, Clone, Copy, PartialEq, Eq, Structural)]
pub enum ErrorCode {
    BadState,
    NotFound,
    Unsupported,
    IoError,
}

/// The word that stands for an error code.
pub open spec fn code_word(code: ErrorCode) -> Seq<char> {
    match code {
        ErrorCode::BadState => "bad_state"@,
        ErrorCode::NotFound => "not_found"@,
        ErrorCode::Unsupported => "unsupported"@,
        ErrorCode::IoError => "io_error"@,
    }
}

/// The error code that a word stands for.
pub open spec fn code_of(w: Seq<char>) -> Option<ErrorCode> {
    if w == "bad_state"@ {
        Some(ErrorCode::BadState)
    } else if w == "not_found"@ {
        Some(ErrorCode::NotFound)
    } else if w == "unsupported"@ {
        Some(ErrorCode::Unsupported)
    } else if w == "io_error"@ {
        Some(ErrorCode::IoError)
    } else {
        None
    }
}

/// One reply: a single line, or a line and a stated number of text lines.
#[derive(Debug, Clone, PartialEq, Eq)]
pub enum Reply {
    Success,
    OkTokens(Vec<String>),
    OkLines(Vec<String>),
    Failure { code: ErrorCode, detail: String },
}

/// A reply with its text as sequences of characters.
pub enum ReplyView {
    Success,
    OkTokens(Seq<Seq<char>>),
    OkLines(Seq<Seq<char>>),
    Failure { code: ErrorCode, detail: Seq<char> },
}

impl View for Reply {
    type V = ReplyView;

    open spec fn view(&self) -> ReplyView {
        match *self {
            Reply::Success => ReplyView::Success,
            Reply::OkTokens(tokens) => ReplyView::OkTokens(text::views(tokens@)),
            Reply::OkLines(lines) => ReplyView::OkLines(text::views(lines@)),
            Reply::Failure { code, detail } => ReplyView::Failure { code, detail: detail@ },
        }
    }
}

/// The first line of a reply, read back.
#[derive(Debug, Clone, PartialEq, Eq)]
pub enum ReplyHeader {
    Success { tokens: Vec<String> },
    Failure { code: ErrorCode, detail: String },
}

/// A reply header with its text as sequences of characters.
pub enum HeaderView {
    Success { tokens: Seq<Seq<char>> },
    Failure { code: ErrorCode, detail: Seq<char> },
}

impl View for ReplyHeader {
    type V = HeaderView;

    open spec fn view(&self) -> HeaderView {
        match *self {
            ReplyHeader::Success { tokens } => HeaderView::Success { tokens: text::views(tokens@) },
            ReplyHeader::Failure { code, detail } => HeaderView::Failure { code, detail: detail@ },
        }
    }
}

/// The words of the first line of a reply, counting an error's detail as one.
pub open spec fn header_words(r: ReplyView) -> Seq<Seq<char>> {
    match r {
        ReplyView::Success => seq!["ok"@],
        ReplyView::OkTokens(tokens) => seq!["ok"@] + tokens,
        ReplyView::OkLines(lines) => seq!["ok"@, numbers::digits(lines.len(), 10)],
        ReplyView::Failure { code, detail } => if detail.len() == 0 {
            seq!["err"@, code_word(code)]
        } else {
            seq!["err"@, code_word(code), detail]
        },
    }
}

/// The lines that write a reply: the header, then the text lines.
pub open spec fn reply_lines(r: ReplyView) -> Seq<Seq<char>> {
    let header = text::joined(header_words(r), ' ');
    match r {
        ReplyView::OkLines(lines) => seq![header] + lines,
        _ => seq![header],
    }
}

/// The words of `ws` from `from` on.
pub open spec fn words_from(ws: Seq<Seq<char>>, from: int) -> Seq<Seq<char>> {
    if from <= ws.len() {
        ws.skip(from)
    } else {
        Seq::empty()
    }
}

/// The header that a line stands for, or the error text for a line that is neither kind.
pub open spec fn header_of(line: Seq<char>) -> Result<HeaderView, Seq<char>> {
    let ws = text::words(line);
    if ws.len() > 0 && ws[0] == "ok"@ {
        Ok(HeaderView::Success { tokens: ws.skip(1) })
    } else if ws.len() > 0 && ws[0] == "err"@ {
        let code = if ws.len() > 1 {
            match code_of(ws[1]) {
                Some(code) => code,
                None => ErrorCode::IoError,
            }
        } else {
            ErrorCode::IoError
        };
        Ok(HeaderView::Failure { code, detail: text::joined(words_from(ws, 2), ' ') })
    } else {
        Err("malformed reply line: "@ + text::debug_text(line))
    }
}

proof fn lemma_literals()
    ensures
        "bad_state"@.len() == 9 && "bad_state"@[0] == 'b',
        "not_found"@.len() == 9 && "not_found"@[0] == 'n',
        "unsupported"@.len() == 11,
        "io_error"@.len() == 8,
        "ok"@.len() == 2,
        "err"@.len() == 3,
        text::is_word("bad_state"@),
        text::is_word("not_found"@),
        text::is_word("unsupported"@),
        text::is_word("io_error"@),
        text::is_word("ok"@),
        text::is_word("err"@),
{
    reveal_strlit("bad_state");
    reveal_strlit("not_found");
    reveal_strlit("unsupported");
    reveal_strlit("io_error");
    reveal_strlit("ok");
    reveal_strlit("err");
}

/// Every error code is read back from its word, and no other word stands for it.
pub proof fn law_error_code_roundtrip(code: ErrorCode, w: Seq<char>)
    ensures
        code_of(code_word(code)) == Some(code),
        code_of(w) == Some(code) ==> w == code_word(code),
{
    lemma_literals();
}

/// What reading a reply's first line gives: its tokens, the number of its text lines, or its error.
pub open spec fn header_view(r: ReplyView) -> HeaderView {
    match r {
        ReplyView::Success => HeaderView::Success { tokens: Seq::empty() },
        ReplyView::OkTokens(tokens) => HeaderView::Success { tokens },
        ReplyView::OkLines(lines) => HeaderView::Success {
            tokens: seq![numbers::digits(lines.len(), 10)],
        },
        ReplyView::Failure { code, detail } => HeaderView::Failure { code, detail },
    }
}

/// Whether the reply's text survives the line format: tokens are single words, and an error's
/// detail is words separated by single spaces.
pub open spec fn is_plain_reply(r: ReplyView) -> bool {
    match r {
        ReplyView::OkTokens(tokens) => forall|i: int|
            0 <= i < tokens.len() ==> text::is_word(#[trigger] tokens[i]),
        ReplyView::Failure { code, detail } => detail == text::joined(text::words(detail), ' '),
        _ => true,
    }
}

/// The first line of a plain reply is read back as the reply's own tokens or error.
pub proof fn law_reply_header_roundtrip(r: ReplyView)
    requires
        is_plain_reply(r),
    ensures
        header_of(reply_lines(r)[0]) == Ok::<HeaderView, Seq<char>>(header_view(r)),
{
    lemma_literals();
    let ws = header_words(r);
    let line = text::joined(ws, ' ');
    match r {
        ReplyView::Failure { code, detail } => {
            let parts = text::words(detail);
            let all = seq!["err"@, code_word(code)] + parts;
            text::lemma_words_are_words(detail);
            assert forall|i: int| 0 <= i < all.len() implies text::is_word(#[trigger] all[i]) by {
                if i >= 2 {
                    assert(all[i] == parts[i - 2]);
                }
            }
            if detail.len() == 0 {
                assert(parts.len() == 0) by {
                    text::lemma_words_empty(detail);
                }
                assert(all =~= ws);
            } else {
                if parts.len() == 0 {
                    assert(text::joined(parts, ' ').len() == 0);
                    assert(false);
                }
                text::lemma_joined_append(seq!["err"@, code_word(code)], parts, ' ');
                text::lemma_joined_append(seq!["err"@, code_word(code)], seq![detail], ' ');
                assert(ws =~= seq!["err"@, code_word(code)] + seq![detail]);
                assert(text::joined(seq![detail], ' ') == detail);
            }
            assert(text::joined(all, ' ') == line);
            text::lemma_words_joined(all, ' ');
            assert(words_from(all, 2) =~= parts);
            law_error_code_roundtrip(code, code_word(code));
        },
        ReplyView::OkTokens(tokens) => {
            assert forall|i: int| 0 <= i < ws.len() implies text::is_word(#[trigger] ws[i]) by {
                if i >= 1 {
                    assert(ws[i] == tokens[i - 1]);
                }
            }
            text::lemma_words_joined(ws, ' ');
            assert(ws.skip(1) =~= tokens);
        },
        ReplyView::OkLines(lines) => {
            numbers::lemma_digits_word(lines.len(), 10);
            text::lemma_words_joined(ws, ' ');
            assert(ws.skip(1) =~= seq![numbers::digits(lines.len(), 10)]);
        },
        ReplyView::Success => {
            text::lemma_words_joined(ws, ' ');
            assert(ws.skip(1) =~= Seq::empty());
        },
    }
}

/// A reply is its first line, and behind it the text lines of a reply that has some, as they are; a
/// success begins with `ok`, a failure with `err` and the word of its code.
pub proof fn law_reply_lines_follow_the_header(r: ReplyView)
    ensures
        r matches ReplyView::OkLines(lines) ==> reply_lines(r).skip(1) == lines,
        !(r is OkLines) ==> reply_lines(r).len() == 1,
        r is Failure <==> header_words(r)[0] == "err"@,
        !(r is Failure) <==> header_words(r)[0] == "ok"@,
        r matches ReplyView::Failure { code, detail } ==> header_words(r)[1] == code_word(code),
        r matches ReplyView::OkTokens(tokens) ==> header_words(r).skip(1) == tokens,
{
    lemma_literals();
    match r {
        ReplyView::OkLines(lines) => {
            assert(reply_lines(r).skip(1) =~= lines);
        },
        ReplyView::OkTokens(tokens) => {
            assert(header_words(r).skip(1) =~= tokens);
        },
        _ => {},
    }
}

/// A line is read as a success or a failure by its first word alone, and as neither if that is some
/// other; a failure whose code is not known, or is missing, counts as one of input and output.
pub proof fn law_headers_are_told_by_their_word(line: Seq<char>)
    ensures
        ({
            let ws = text::words(line);
            &&& ws.len() > 0 && ws[0] == "ok"@ ==> (header_of(line) matches Ok(
                HeaderView::Success { tokens },
            ) && tokens.len() == ws.len() - 1 && forall|i: int|
                0 <= i < tokens.len() ==> #[trigger] tokens[i] == ws[i + 1])
            &&& ws.len() > 0 && ws[0] == "err"@ ==> (header_of(line) matches Ok(
                HeaderView::Failure { code, detail },
            ) && (ws.len() > 1 && code_of(ws[1]) is Some ==> code == code_of(ws[1])->0) && (ws.len()
                == 1 || code_of(ws[1]) is None ==> code == ErrorCode::IoError))
            &&& ws.len() == 0 || ws[0] != "ok"@ && ws[0] != "err"@ ==> header_of(line) is Err
        }),
{
    lemma_literals();
}

/// The count in a multi-line reply's first line is the number of lines that follow it.
pub proof fn law_follow_up_count(lines: Seq<Seq<char>>, max: nat)
    requires
        lines.len() <= max,
    ensures
        ({
            let written = reply_lines(ReplyView::OkLines(lines));
            &&& written.len() == lines.len() + 1
            &&& header_of(written[0]) matches Ok(HeaderView::Success { tokens })
            &&& tokens.len() == 1
            &&& numbers::unsigned_value(tokens[0], 10, max) == Some((written.len() - 1) as nat)
        }),
{
    law_reply_header_roundtrip(ReplyView::OkLines(lines));
    numbers::lemma_unsigned_roundtrip(lines.len(), 10, max);
}

impl ErrorCode {
    /// The word that stands for this code.
    pub fn as_str(self) -> (r: &'static str)
        ensures
            r@ == code_word(self),
    {
        match self {
            ErrorCode::BadState => "bad_state",
            ErrorCode::NotFound => "not_found",
            ErrorCode::Unsupported => "unsupported",
            ErrorCode::IoError => "io_error",
        }
    }

    /// The code that `s` stands for.
    pub fn parse(s: &str) -> (r: Option<Self>)
        ensures
            r == code_of(s@),
    {
        if text::same_text(s, "bad_state") {
            Some(ErrorCode::BadState)
        } else if text::same_text(s, "not_found") {
            Some(ErrorCode::NotFound)
        } else if text::same_text(s, "unsupported") {
            Some(ErrorCode::Unsupported)
        } else if text::same_text(s, "io_error") {
            Some(ErrorCode::IoError)
        } else {
            None
        }
    }
}

fn one_line(line: String) -> (r: Vec<String>)
    ensures
        text::views(r@) == seq![line@],
{
    let mut out: Vec<String> = Vec::new();
    out.push(line);
    assert(text::views(out@) =~= seq![line@]);
    out
}

/// A copy of the strings of `v` from `from` on.
fn strings_from(v: &Vec<String>, from: usize) -> (r: Vec<String>)
    requires
        from <= v@.len(),
    ensures
        text::views(r@) == text::views(v@).skip(from as int),
{
    let mut out: Vec<String> = Vec::new();
    let mut i: usize = from;
    while i < v.len()
        invariant
            from <= i <= v@.len(),
            text::views(out@) == text::views(v@).subrange(from as int, i as int),
        decreases v@.len() - i,
    {
        let s = v[i].clone();
        proof {
            text::lemma_views_push(out@, s);
            assert(text::views(v@).subrange(from as int, i + 1) =~= text::views(v@).subrange(
                from as int,
                i as int,
            ).push(s@));
        }
        out.push(s);
        i += 1;
    }
    assert(text::views(out@) =~= text::views(v@).skip(from as int));
    out
}

impl Reply {
    /// An error reply.
    pub fn err(code: ErrorCode, detail: String) -> (r: Self)
        ensures
            r@ == (ReplyView::Failure { code, detail: detail@ }),
    {
        Reply::Failure { code, detail }
    }

    /// A success reply with tokens.
    pub fn ok_tokens(tokens: Vec<String>) -> (r: Self)
        ensures
            r@ == ReplyView::OkTokens(text::views(tokens@)),
    {
        Reply::OkTokens(tokens)
    }

    /// The lines to write for this reply, the header first.
    pub fn to_lines(&self) -> (r: Vec<String>)
        ensures
            text::views(r@) == reply_lines(self@),
    {
        match self {
            Reply::Success => one_line("ok".to_owned()),
            Reply::OkTokens(tokens) => {
                let mut line = "ok".to_owned();
                let mut i: usize = 0;
                let ghost all = header_words(self@);
                assert(all.take(1) =~= seq!["ok"@]);
                while i < tokens.len()
                    invariant
                        i <= tokens@.len(),
                        all == seq!["ok"@] + text::views(tokens@),
                        line@ == text::joined(all.take(i + 1), ' '),
                    decreases tokens@.len() - i,
                {
                    line.push(' ');
                    line.append(tokens[i].as_str());
                    i += 1;
                    proof {
                        let now = all.take(i + 1);
                        assert(now.drop_last() =~= all.take(i as int));
                        assert(now.last() == tokens@[i - 1]@);
                    }
                }
                assert(all.take(i + 1) =~= all);
                one_line(line)
            },
            Reply::OkLines(lines) => {
                let mut header = "ok ".to_owned();
                numbers::push_digits(&mut header, lines.len() as u64, 10);
                proof {
                    reveal_strlit("ok ");
                    reveal_strlit("ok");
                    let ws = header_words(self@);
                    text::lemma_joined_one("ok"@, ' ');
                    text::lemma_joined_push(seq!["ok"@], ws[1], ' ');
                    assert(seq!["ok"@].push(ws[1]) =~= ws);
                    assert("ok "@ =~= "ok"@.push(' '));
                }
                let mut out = one_line(header);
                let mut i: usize = 0;
                while i < lines.len()
                    invariant
                        i <= lines@.len(),
                        text::views(out@) == seq![header@] + text::views(lines@).take(i as int),
                    decreases lines@.len() - i,
                {
                    let s = lines[i].clone();
                    proof {
                        text::lemma_views_push(out@, s);
                        let all = text::views(lines@);
                        assert(all.take(i + 1) =~= all.take(i as int).push(s@));
                        assert(seq![header@] + all.take(i + 1) =~= (seq![header@] + all.take(
                            i as int,
                        )).push(s@));
                    }
                    out.push(s);
                    i += 1;
                }
                assert(text::views(lines@).take(i as int) =~= text::views(lines@));
                out
            },
            Reply::Failure { code, detail } => {
                let mut line = "err".to_owned();
                line.push(' ');
                line.append(code.as_str());
                proof {
                    text::lemma_joined_one("err"@, ' ');
                    text::lemma_joined_push(seq!["err"@], code_word(*code), ' ');
                    assert(seq!["err"@].push(code_word(*code)) =~= seq!["err"@, code_word(*code)]);
                }
                if !detail.as_str().is_empty() {
                    line.push(' ');
                    line.append(detail.as_str());
                    proof {
                        let two = seq!["err"@, code_word(*code)];
                        text::lemma_joined_push(two, detail@, ' ');
                        assert(two.push(detail@) =~= header_words(self@));
                    }
                }
                one_line(line)
            },
        }
    }

    /// Reads the first line of a reply. Text lines that follow are the caller's to read.
    pub fn parse_header(line: &str) -> (r: Result<ReplyHeader, String>)
        ensures
            match r {
                Ok(h) => header_of(line@) == Ok::<HeaderView, Seq<char>>(h@),
                Err(e) => header_of(line@) == Err::<HeaderView, Seq<char>>(e@),
            },
    {
        let ws = text::split_words(line);
        let ghost w = text::views(ws@);
        assert(w.len() > 0 ==> w[0] == ws@[0]@);
        assert(w.len() > 1 ==> w[1] == ws@[1]@);
        if ws.len() > 0 && text::same_text(ws[0].as_str(), "ok") {
            Ok(ReplyHeader::Success { tokens: strings_from(&ws, 1) })
        } else if ws.len() > 0 && text::same_text(ws[0].as_str(), "err") {
            let mut code = ErrorCode::IoError;
            if ws.len() > 1 {
                if let Some(known) = ErrorCode::parse(ws[1].as_str()) {
                    code = known;
                }
            }
            let detail = if ws.len() >= 2 {
                text::join_from(&ws, 2, ' ')
            } else {
                String::new()
            };
            Ok(ReplyHeader::Failure { code, detail })
        } else {
            let quoted = text::debug_of(line);
            Err(malformed_reply(quoted.as_str()))
        }
    }
}

/// The error text for a line that is no reply, the line given in its quoted form.
pub fn malformed_reply(quoted: &str) -> (r: String)
    ensures
        r@ == "malformed reply line: "@ + quoted@,
{
    let mut out = "malformed reply line: ".to_owned();
    out.append(quoted);
    out
}

/// The payload of a `presenter?` reply.
#[derive(Debug, Clone, Copy, PartialEq, Eq, Structural)]
pub enum PresenterState {
    Absent,
    Hidden,
    Visible,
}

/// The word that stands for a presenter state.
pub open spec fn state_word(s: PresenterState) -> Seq<char> {
    match s {
        PresenterState::Absent => "none"@,
        PresenterState::Hidden => "hidden"@,
        PresenterState::Visible => "visible"@,
    }
}

/// The presenter state that a word stands for.
pub open spec fn state_of(w: Seq<char>) -> Option<PresenterState> {
    if w == "none"@ {
        Some(PresenterState::Absent)
    } else if w == "hidden"@ {
        Some(PresenterState::Hidden)
    } else if w == "visible"@ {
        Some(PresenterState::Visible)
    } else {
        None
    }
}

/// Every presenter state is read back from its word, and no other word stands for it.
pub proof fn law_presenter_state_roundtrip(s: PresenterState, w: Seq<char>)
    ensures
        state_of(state_word(s)) == Some(s),
        state_of(w) == Some(s) ==> w == state_word(s),
{
    reveal_strlit("none");
    reveal_strlit("hidden");
    reveal_strlit("visible");
    assert("none"@.len() == 4);
    assert("hidden"@.len() == 6);
    assert("visible"@.len() == 7);
}

impl PresenterState {
    /// The word that stands for this state.
    pub fn as_str(self) -> (r: &'static str)
        ensures
            r@ == state_word(self),
    {
        match self {
            PresenterState::Absent => "none",
            PresenterState::Hidden => "hidden",
            PresenterState::Visible => "visible",
        }
    }

    /// The state that `s` stands for.
    pub fn parse(s: &str) -> (r: Option<Self>)
        ensures
            r == state_of(s@),
    {
        if text::same_text(s, "none") {
            Some(PresenterState::Absent)
        } else if text::same_text(s, "hidden") {
            Some(PresenterState::Hidden)
        } else if text::same_text(s, "visible") {
            Some(PresenterState::Visible)
        } else {
            None
        }
    }
}

/// The payload of a `scanout` reply. Both handles are valid only in the caller's own process.
#[derive(Debug, Clone, Copy, PartialEq, Eq, Structural)]
pub struct ScanoutReply {
    pub pixel_section_handle: u64,
    pub header_section_handle: u64,
    pub width: u32,
    pub height: u32,
    pub pitch: u32,
    pub format: u32,
    pub offset: u64,
    pub seq: u64,
}

/// The words of a scanout payload, in the order of the fields.
pub open spec fn scanout_words(r: ScanoutReply) -> Seq<Seq<char>> {
    seq![
        numbers::digits(r.pixel_section_handle as nat, 10),
        numbers::digits(r.header_section_handle as nat, 10),
        numbers::digits(r.width as nat, 10),
        numbers::digits(r.height as nat, 10),
        numbers::digits(r.pitch as nat, 10),
        numbers::digits(r.format as nat, 10),
        numbers::digits(r.offset as nat, 10),
        numbers::digits(r.seq as nat, 10),
    ]
}

/// Whether `r` is what the eight words `ws` write.
pub open spec fn is_scanout_of(ws: Seq<Seq<char>>, r: ScanoutReply) -> bool {
    &&& ws.len() == 8
    &&& numbers::unsigned_value(ws[0], 10, u64::MAX as nat) == Some(r.pixel_section_handle as nat)
    &&& numbers::unsigned_value(ws[1], 10, u64::MAX as nat) == Some(r.header_section_handle as nat)
    &&& numbers::unsigned_value(ws[2], 10, u32::MAX as nat) == Some(r.width as nat)
    &&& numbers::unsigned_value(ws[3], 10, u32::MAX as nat) == Some(r.height as nat)
    &&& numbers::unsigned_value(ws[4], 10, u32::MAX as nat) == Some(r.pitch as nat)
    &&& numbers::unsigned_value(ws[5], 10, u32::MAX as nat) == Some(r.format as nat)
    &&& numbers::unsigned_value(ws[6], 10, u64::MAX as nat) == Some(r.offset as nat)
    &&& numbers::unsigned_value(ws[7], 10, u64::MAX as nat) == Some(r.seq as nat)
}

/// Whether `ws` writes some scanout payload.
pub open spec fn is_scanout(ws: Seq<Seq<char>>) -> bool {
    &&& ws.len() == 8
    &&& numbers::unsigned_value(ws[0], 10, u64::MAX as nat) is Some
    &&& numbers::unsigned_value(ws[1], 10, u64::MAX as nat) is Some
    &&& numbers::unsigned_value(ws[2], 10, u32::MAX as nat) is Some
    &&& numbers::unsigned_value(ws[3], 10, u32::MAX as nat) is Some
    &&& numbers::unsigned_value(ws[4], 10, u32::MAX as nat) is Some
    &&& numbers::unsigned_value(ws[5], 10, u32::MAX as nat) is Some
    &&& numbers::unsigned_value(ws[6], 10, u64::MAX as nat) is Some
    &&& numbers::unsigned_value(ws[7], 10, u64::MAX as nat) is Some
}

/// The words of a scanout payload are words of the line format, and are read back as the payload.
pub proof fn law_scanout_roundtrip(r: ScanoutReply)
    ensures
        is_scanout_of(scanout_words(r), r),
        forall|i: int| 0 <= i < 8 ==> text::is_word(#[trigger] scanout_words(r)[i]),
{
    numbers::lemma_unsigned_roundtrip(r.pixel_section_handle as nat, 10, u64::MAX as nat);
    numbers::lemma_unsigned_roundtrip(r.header_section_handle as nat, 10, u64::MAX as nat);
    numbers::lemma_unsigned_roundtrip(r.width as nat, 10, u32::MAX as nat);
    numbers::lemma_unsigned_roundtrip(r.height as nat, 10, u32::MAX as nat);
    numbers::lemma_unsigned_roundtrip(r.pitch as nat, 10, u32::MAX as nat);
    numbers::lemma_unsigned_roundtrip(r.format as nat, 10, u32::MAX as nat);
    numbers::lemma_unsigned_roundtrip(r.offset as nat, 10, u64::MAX as nat);
    numbers::lemma_unsigned_roundtrip(r.seq as nat, 10, u64::MAX as nat);
    numbers::lemma_digits_word(r.pixel_section_handle as nat, 10);
    numbers::lemma_digits_word(r.header_section_handle as nat, 10);
    numbers::lemma_digits_word(r.width as nat, 10);
    numbers::lemma_digits_word(r.height as nat, 10);
    numbers::lemma_digits_word(r.pitch as nat, 10);
    numbers::lemma_digits_word(r.format as nat, 10);
    numbers::lemma_digits_word(r.offset as nat, 10);
    numbers::lemma_digits_word(r.seq as nat, 10);
}

/// Each number of a scanout payload has its own place in the line.
pub proof fn law_scanout_numbers_have_their_places(r: ScanoutReply)
    ensures
        scanout_words(r).len() == 8,
        numbers::digits_value(scanout_words(r)[0], 10) == Some(r.pixel_section_handle as nat),
        numbers::digits_value(scanout_words(r)[1], 10) == Some(r.header_section_handle as nat),
        numbers::digits_value(scanout_words(r)[2], 10) == Some(r.width as nat),
        numbers::digits_value(scanout_words(r)[3], 10) == Some(r.height as nat),
        numbers::digits_value(scanout_words(r)[4], 10) == Some(r.pitch as nat),
        numbers::digits_value(scanout_words(r)[5], 10) == Some(r.format as nat),
        numbers::digits_value(scanout_words(r)[6], 10) == Some(r.offset as nat),
        numbers::digits_value(scanout_words(r)[7], 10) == Some(r.seq as nat),
{
    numbers::lemma_digits_roundtrip(r.pixel_section_handle as nat, 10);
    numbers::lemma_digits_roundtrip(r.header_section_handle as nat, 10);
    numbers::lemma_digits_roundtrip(r.width as nat, 10);
    numbers::lemma_digits_roundtrip(r.height as nat, 10);
    numbers::lemma_digits_roundtrip(r.pitch as nat, 10);
    numbers::lemma_digits_roundtrip(r.format as nat, 10);
    numbers::lemma_digits_roundtrip(r.offset as nat, 10);
    numbers::lemma_digits_roundtrip(r.seq as nat, 10);
}

fn parse_u64(s: &String) -> (r: Option<u64>)
    ensures
        match r {
            Some(v) => numbers::unsigned_value(s@, 10, u64::MAX as nat) == Some(v as nat),
            None => numbers::unsigned_value(s@, 10, u64::MAX as nat) is None,
        },
{
    numbers::parse_unsigned(s.as_str(), 10, u64::MAX)
}

fn parse_u32(s: &String) -> (r: Option<u32>)
    ensures
        match r {
            Some(v) => numbers::unsigned_value(s@, 10, u32::MAX as nat) == Some(v as nat),
            None => numbers::unsigned_value(s@, 10, u32::MAX as nat) is None,
        },
{
    match numbers::parse_unsigned(s.as_str(), 10, u32::MAX as u64) {
        Some(v) => Some(v as u32),
        None => None,
    }
}

impl ScanoutReply {
    /// The tokens that write this payload.
    pub fn to_tokens(self) -> (r: Vec<String>)
        ensures
            text::views(r@) == scanout_words(self),
    {
        let mut out: Vec<String> = Vec::new();
        out.push(numbers::unsigned_text(self.pixel_section_handle));
        out.push(numbers::unsigned_text(self.header_section_handle));
        out.push(numbers::unsigned_text(self.width as u64));
        out.push(numbers::unsigned_text(self.height as u64));
        out.push(numbers::unsigned_text(self.pitch as u64));
        out.push(numbers::unsigned_text(self.format as u64));
        out.push(numbers::unsigned_text(self.offset));
        out.push(numbers::unsigned_text(self.seq));
        assert(text::views(out@) =~= scanout_words(self));
        out
    }

    /// The payload that the tokens write, if there are exactly eight and each fits its field.
    pub fn parse(tokens: &[String]) -> (r: Option<Self>)
        ensures
            match r {
                Some(p) => is_scanout_of(text::views(tokens@), p),
                None => !is_scanout(text::views(tokens@)),
            },
    {
        if tokens.len() != 8 {
            return None;
        }
        let ghost w = text::views(tokens@);
        assert(forall|i: int| 0 <= i < 8 ==> #[trigger] w[i] == tokens@[i]@);
        let pixel_section_handle: u64 = parse_u64(&tokens[0])?;
        let header_section_handle: u64 = parse_u64(&tokens[1])?;
        let width: u32 = parse_u32(&tokens[2])?;
        let height: u32 = parse_u32(&tokens[3])?;
        let pitch: u32 = parse_u32(&tokens[4])?;
        let format: u32 = parse_u32(&tokens[5])?;
        let offset: u64 = parse_u64(&tokens[6])?;
        let seq: u64 = parse_u64(&tokens[7])?;
        Some(
            ScanoutReply {
                pixel_section_handle,
                header_section_handle,
                width,
                height,
                pitch,
                format,
                offset,
                seq,
            },
        )
    }
}

/// The first line of a reply, as one side writes it, is read by the other side as the reply's own
/// tokens, the number of its text lines, or its error.
pub proof fn law_written_replies_are_read(
    reply: &Reply,
    lines: Vec<String>,
    line: &str,
    r: Result<ReplyHeader, String>,
)
    requires
        is_plain_reply(reply@),
        call_ensures(Reply::to_lines, (reply,), lines),
        lines@.len() > 0 ==> line@ == lines@[0]@,
        call_ensures(Reply::parse_header, (line,), r),
    ensures
        lines@.len() > 0,
        reply@ is Success ==> (r matches Ok(h) && h@ == (HeaderView::Success {
            tokens: Seq::empty(),
        })),
        reply@ matches ReplyView::OkTokens(tokens) ==> (r matches Ok(h) && h@ == (
        HeaderView::Success { tokens })),
        reply@ matches ReplyView::Failure { code, detail } ==> (r matches Ok(h) && h@ == (
        HeaderView::Failure { code, detail })),
        reply@ matches ReplyView::OkLines(text) ==> lines@.len() == text.len() + 1 && r is Ok,
{
    law_reply_header_roundtrip(reply@);
    law_reply_lines_follow_the_header(reply@);
    assert(text::views(lines@).len() == lines@.len());
    assert(text::views(lines@)[0] == lines@[0]@);
}

/// The words of error codes and of presenter states are read back as what they stand for.
pub proof fn law_words_are_read_back(
    code: ErrorCode,
    word: &'static str,
    read: Option<ErrorCode>,
    state: PresenterState,
    state_word: &'static str,
    state_read: Option<PresenterState>,
)
    requires
        call_ensures(ErrorCode::as_str, (code,), word),
        call_ensures(ErrorCode::parse, (word,), read),
        call_ensures(PresenterState::as_str, (state,), state_word),
        call_ensures(PresenterState::parse, (state_word,), state_read),
    ensures
        read == Some(code),
        state_read == Some(state),
{
    law_error_code_roundtrip(code, word@);
    law_presenter_state_roundtrip(state, state_word@);
}

/// A description of a display that one side writes as tokens is read by the other side as the same
/// display.
pub proof fn law_written_scanouts_are_read(
    scanout: ScanoutReply,
    written: Vec<String>,
    tokens: &[String],
    r: Option<ScanoutReply>,
)
    requires
        call_ensures(ScanoutReply::to_tokens, (scanout,), written),
        tokens@ == written@,
        call_ensures(ScanoutReply::parse, (tokens,), r),
    ensures
        r == Some(scanout),
{
    law_scanout_roundtrip(scanout);
}

} // verus!
