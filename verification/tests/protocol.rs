use litebox_windows_userland::pipe::{
    connect_client, create_and_accept_one_instance, overlapped_call, pipe_name, utf16_nul,
    write_line, ConnectStep, LineError, LineReader, LineStep, OverlappedStep, ReadEvent,
};
use litebox_windows_userland::presentation::InputSignal;
use litebox_windows_userland::presenter::{
    frame_len, input_line, offset_halves, pushed_visibility, read_scanout_reply, ScanoutError,
    ScanoutPoll,
};
use litebox_windows_userland::reply::{
    ErrorCode, PresenterState, Reply, ReplyHeader, ScanoutReply,
};
use litebox_windows_userland::request::Request;

fn all_requests() -> Vec<(Request, &'static str)> {
    vec![
        (Request::Scanout, "scanout"),
        (Request::Screenshot { path: "C:\\x.bmp".to_owned() }, "screenshot C:\\x.bmp"),
        (Request::Show, "show"),
        (Request::Hide, "hide"),
        (Request::PresenterQuery, "presenter?"),
        (Request::Key { code: 30, value: 1 }, "key 30 1"),
        (Request::Rel { code: 8, value: -3 }, "rel 8 -3"),
        (Request::RelMotion { dx: -1, dy: 2147483647 }, "relmotion -1 2147483647"),
        (Request::Abs { code: 65535, value: -2147483648 }, "abs 65535 -2147483648"),
        (Request::Ps, "ps"),
        (Request::StraceOn, "strace on"),
        (Request::StraceOff, "strace off"),
        (Request::StraceQuery, "strace query"),
        (Request::StraceDump, "strace dump"),
        (Request::FramesOn { dir: "d".to_owned() }, "frames on d"),
        (Request::FramesOff, "frames off"),
        (Request::Ready, "ready"),
    ]
}

fn parse_error(line: &str) -> String {
    match Request::parse(line) {
        Ok(r) => panic!("{line:?} was read as {r:?}"),
        Err(e) => e.0,
    }
}

#[test]
fn requests_are_written_and_read() {
    for (request, line) in all_requests() {
        assert_eq!(request.encode(), line);
        assert_eq!(Request::parse(line), Ok(request));
    }
}

#[test]
fn requests_allow_blanks_around_words() {
    assert_eq!(Request::parse("  key \t 30  1 \r"), Ok(Request::Key { code: 30, value: 1 }));
    assert_eq!(Request::parse("key +30 +1"), Ok(Request::Key { code: 30, value: 1 }));
}

#[test]
fn malformed_requests_say_what_is_wrong() {
    assert_eq!(parse_error(""), "empty line");
    assert_eq!(parse_error("   "), "empty line");
    assert_eq!(parse_error("screenshot"), "screenshot: missing path");
    assert_eq!(parse_error("key"), "key: missing code");
    assert_eq!(parse_error("key 1"), "key: missing value");
    assert_eq!(parse_error("key x 1"), "key: missing code: not a valid number");
    assert_eq!(parse_error("key 65536 1"), "key: missing code: not a valid number");
    assert_eq!(parse_error("key 1 256"), "key: missing value: not a valid number");
    assert_eq!(parse_error("key 30 3"), "key: missing value: not a valid number");
    assert_eq!(Request::parse("key 30 2"), Ok(Request::Key { code: 30, value: 2 }));
    assert_eq!(Request::parse("key 30 0"), Ok(Request::Key { code: 30, value: 0 }));
    assert_eq!(parse_error("rel 1"), "rel: missing value");
    assert_eq!(parse_error("rel 1 2147483648"), "rel: missing value: not a valid number");
    assert_eq!(parse_error("relmotion"), "relmotion: missing dx");
    assert_eq!(parse_error("relmotion 1"), "relmotion: missing dy");
    assert_eq!(parse_error("abs"), "abs: missing code");
    assert_eq!(parse_error("strace"), "strace: unknown sub-command None");
    assert_eq!(parse_error("strace \"x"), "strace: unknown sub-command Some(\"\\\"x\")");
    assert_eq!(parse_error("frames on"), "frames on: missing dir");
    assert_eq!(parse_error("frames maybe"), "frames: unknown sub-command Some(\"maybe\")");
    assert_eq!(parse_error("fly"), "unknown command \"fly\"");
    assert_eq!(parse_error("Show"), "unknown command \"Show\"");
}

#[test]
fn surplus_arguments_are_refused() {
    assert_eq!(parse_error("show now"), "show: unexpected argument \"now\"");
    assert_eq!(parse_error("key 30 1 7"), "key: unexpected argument \"7\"");
    assert_eq!(parse_error("screenshot a b"), "screenshot: unexpected argument \"b\"");
    assert_eq!(parse_error("frames off x"), "frames: unexpected argument \"x\"");
}

#[test]
fn parse_errors_have_a_message() {
    let e = Request::parse("").unwrap_err();
    assert_eq!(e.message(), "malformed request line: empty line");
}

#[test]
fn error_codes_are_written_and_read() {
    let codes = [
        (ErrorCode::BadState, "bad_state"),
        (ErrorCode::NotFound, "not_found"),
        (ErrorCode::Unsupported, "unsupported"),
        (ErrorCode::IoError, "io_error"),
    ];
    for (code, word) in codes {
        assert_eq!(code.as_str(), word);
        assert_eq!(ErrorCode::parse(word), Some(code));
    }
    assert_eq!(ErrorCode::parse("nope"), None);
}

#[test]
fn replies_are_written_as_lines() {
    assert_eq!(Reply::Success.to_lines(), vec!["ok".to_owned()]);
    assert_eq!(
        Reply::ok_tokens(vec!["a".to_owned(), "b".to_owned()]).to_lines(),
        vec!["ok a b".to_owned()]
    );
    assert_eq!(
        Reply::OkLines(vec!["one line".to_owned(), "two".to_owned()]).to_lines(),
        vec!["ok 2".to_owned(), "one line".to_owned(), "two".to_owned()]
    );
    assert_eq!(
        Reply::err(ErrorCode::NotFound, String::new()).to_lines(),
        vec!["err not_found".to_owned()]
    );
    assert_eq!(
        Reply::err(ErrorCode::BadState, "no window yet".to_owned()).to_lines(),
        vec!["err bad_state no window yet".to_owned()]
    );
}

#[test]
fn reply_headers_are_read() {
    assert_eq!(
        Reply::parse_header("ok 1  2"),
        Ok(ReplyHeader::Success { tokens: vec!["1".to_owned(), "2".to_owned()] })
    );
    assert_eq!(
        Reply::parse_header("err bad_state no window"),
        Ok(ReplyHeader::Failure { code: ErrorCode::BadState, detail: "no window".to_owned() })
    );
    assert_eq!(
        Reply::parse_header("err"),
        Ok(ReplyHeader::Failure { code: ErrorCode::IoError, detail: String::new() })
    );
    assert_eq!(
        Reply::parse_header("err strange thing"),
        Ok(ReplyHeader::Failure { code: ErrorCode::IoError, detail: "thing".to_owned() })
    );
    assert_eq!(
        Reply::parse_header("hm"),
        Err("malformed reply line: \"hm\"".to_owned())
    );
}

#[test]
fn presenter_states_are_written_and_read() {
    let states = [
        (PresenterState::Absent, "none"),
        (PresenterState::Hidden, "hidden"),
        (PresenterState::Visible, "visible"),
    ];
    for (state, word) in states {
        assert_eq!(state.as_str(), word);
        assert_eq!(PresenterState::parse(word), Some(state));
    }
    assert_eq!(PresenterState::parse("shown"), None);
}

fn scanout() -> ScanoutReply {
    ScanoutReply {
        pixel_section_handle: 18446744073709551615,
        header_section_handle: 2,
        width: 1920,
        height: 1080,
        pitch: 7680,
        format: 875713112,
        offset: 4096,
        seq: 9,
    }
}

#[test]
fn scanout_payloads_are_written_and_read() {
    let tokens = scanout().to_tokens();
    assert_eq!(tokens.len(), 8);
    assert_eq!(tokens[0], "18446744073709551615");
    assert_eq!(tokens[5], "875713112");
    assert_eq!(ScanoutReply::parse(&tokens), Some(scanout()));
    assert_eq!(ScanoutReply::parse(&tokens[..7]), None);
    let mut wrong = tokens.clone();
    wrong[2] = "4294967296".to_owned();
    assert_eq!(ScanoutReply::parse(&wrong), None);
}

#[test]
fn scanout_replies_are_judged() {
    let line = &Reply::ok_tokens(scanout().to_tokens()).to_lines()[0];
    assert_eq!(read_scanout_reply(line), Ok(scanout()));
    assert_eq!(read_scanout_reply("ok 1 2"), Err(ScanoutError::MalformedTokens));
    assert_eq!(
        read_scanout_reply("err unsupported not today"),
        Err(ScanoutError::Refused {
            code: ErrorCode::Unsupported,
            detail: "not today".to_owned()
        })
    );
    assert_eq!(
        read_scanout_reply("what"),
        Err(ScanoutError::MalformedLine("malformed reply line: \"what\"".to_owned()))
    );
}

#[test]
fn input_events_become_requests() {
    assert_eq!(input_line(InputSignal::Key(30, 2)), "key 30 2");
    assert_eq!(input_line(InputSignal::Rel(8, -1)), "rel 8 -1");
    assert_eq!(input_line(InputSignal::RelMotion(-4, 5)), "relmotion -4 5");
    assert_eq!(
        Request::parse(&input_line(InputSignal::RelMotion(-4, 5))),
        Ok(Request::RelMotion { dx: -4, dy: 5 })
    );
}

#[test]
fn pushed_lines_show_and_hide() {
    assert_eq!(pushed_visibility("show"), Some(true));
    assert_eq!(pushed_visibility(" hide \r"), Some(false));
    assert_eq!(pushed_visibility("ok"), None);
    assert_eq!(pushed_visibility("show me"), None);
}

#[test]
fn a_frame_is_taken_once() {
    let mut poll = ScanoutPoll::new();
    assert!(poll.poll_scanout_and_feed(0));
    assert!(!poll.poll_scanout_and_feed(0));
    assert!(poll.poll_scanout_and_feed(1));
    assert!(poll.poll_scanout_and_feed(0));
}

#[test]
fn offsets_and_lengths() {
    assert_eq!(offset_halves(0x1_2345_6789), (1, 0x2345_6789));
    assert_eq!(offset_halves(4096), (0, 4096));
    assert_eq!(frame_len(7680, 1080), 8294400);
}

#[test]
fn pipes_are_named_after_the_process() {
    assert_eq!(pipe_name(1234), "\\\\.\\pipe\\litebox-1234");
    assert_ne!(pipe_name(1), pipe_name(11));
}

#[test]
fn utf16_has_a_zero_at_the_end() {
    assert_eq!(utf16_nul("aé"), vec![0x61, 0xE9, 0]);
    assert_eq!(utf16_nul("😀"), vec![0xD83D, 0xDE00, 0]);
    assert_eq!(utf16_nul(""), vec![0]);
    let mut expected: Vec<u16> = "x\u{10FFFF}\u{FFFF}\u{E000}y".encode_utf16().collect();
    expected.push(0);
    assert_eq!(utf16_nul("x\u{10FFFF}\u{FFFF}\u{E000}y"), expected);
}

#[test]
fn lines_are_taken_from_chunks() {
    let mut reader = LineReader::new();
    assert_eq!(reader.read_line(None), LineStep::NeedBytes);
    assert_eq!(
        reader.read_line(Some(ReadEvent::Data(b"sh".to_vec()))),
        LineStep::NeedBytes
    );
    assert_eq!(
        reader.read_line(Some(ReadEvent::Data(b"ow\r\nhide\n\nre".to_vec()))),
        LineStep::Line("show".to_owned())
    );
    assert_eq!(reader.read_line(None), LineStep::Line("hide".to_owned()));
    assert_eq!(reader.read_line(None), LineStep::Line(String::new()));
    assert_eq!(reader.read_line(None), LineStep::NeedBytes);
    assert_eq!(
        reader.read_line(Some(ReadEvent::Data(b"ady\n".to_vec()))),
        LineStep::Line("ready".to_owned())
    );
    assert_eq!(reader.read_line(None), LineStep::NeedBytes);
}

#[test]
fn only_one_carriage_return_is_taken_off() {
    let mut reader = LineReader::default();
    assert_eq!(
        reader.read_line(Some(ReadEvent::Data(b"a\r\r\nb\rc\n".to_vec()))),
        LineStep::Line("a\r".to_owned())
    );
    assert_eq!(reader.read_line(None), LineStep::Line("b\rc".to_owned()));
}

#[test]
fn malformed_bytes_are_replaced() {
    let mut reader = LineReader::new();
    assert_eq!(
        reader.read_line(Some(ReadEvent::Data(vec![0x61, 0xFF, 0x62, 0x0A]))),
        LineStep::Line("a\u{FFFD}b".to_owned())
    );
}

#[test]
fn a_sent_line_is_received() {
    for line in ["scanout", "", "é 😀 z", "tail\u{85}"] {
        let sent = write_line(line);
        let mut reader = LineReader::new();
        assert_eq!(
            reader.read_line(Some(ReadEvent::Data(sent.bytes.clone()))),
            LineStep::Line(line.to_owned())
        );
    }
}

#[test]
fn a_closed_pipe_ends_the_lines() {
    let mut reader = LineReader::new();
    assert_eq!(reader.read_line(Some(ReadEvent::Data(vec![]))), LineStep::Closed);
    assert_eq!(reader.read_line(Some(ReadEvent::Failed(109))), LineStep::Closed);
    assert_eq!(reader.read_line(Some(ReadEvent::Data(b"par".to_vec()))), LineStep::NeedBytes);
    assert_eq!(
        reader.read_line(Some(ReadEvent::Data(vec![]))),
        LineStep::Broken(LineError::UnexpectedEof)
    );
    assert_eq!(
        reader.read_line(Some(ReadEvent::Failed(109))),
        LineStep::Broken(LineError::UnexpectedEof)
    );
    assert_eq!(
        reader.read_line(Some(ReadEvent::Failed(5))),
        LineStep::Broken(LineError::Io(5))
    );
    assert_eq!(LineError::UnexpectedEof.message(), "peer closed pipe mid-line");
    assert_eq!(LineError::Io(5).message(), "os error 5");
}

#[test]
fn a_line_is_written_in_parts() {
    let mut sending = write_line("show");
    assert_eq!(sending.bytes, b"show\n".to_vec());
    assert!(!sending.is_done());
    sending.on_written(2);
    assert_eq!(sending.sent, 2);
    sending.on_written(3);
    assert!(sending.is_done());
}

#[test]
fn pipe_calls_are_judged() {
    assert_eq!(overlapped_call(true, 5), OverlappedStep::Await);
    assert_eq!(overlapped_call(false, 997), OverlappedStep::Await);
    assert_eq!(overlapped_call(false, 109), OverlappedStep::Failed { error: 109 });
    assert_eq!(create_and_accept_one_instance(Ok(0)), Ok(()));
    assert_eq!(create_and_accept_one_instance(Err(535)), Ok(()));
    assert_eq!(create_and_accept_one_instance(Err(232)), Err(232));
    assert_eq!(connect_client(true, true, 2), ConnectStep::Connected);
    assert_eq!(connect_client(false, false, 2), ConnectStep::Retry);
    assert_eq!(connect_client(false, true, 2), ConnectStep::Failed { error: 2 });
}
