use litebox_windows_userland::keys::{
    winit_keycode_to_evdev, winit_mouse_button_to_evdev, Button, Key,
};
use litebox_windows_userland::presentation::{
    choose_mailbox, choose_mode, dump_every, dump_frame_diagnostic,
    dump_frame_diagnostic_report_drops, frame_summary, surface_extent, write_dump_frame_bmp,
    DumpCounters, DumpStep, Frame, FrameSlot, InputSignal, PresentPlan, PresenterApp,
    PresenterCommand, UserStep, WindowInput, WindowStep,
};

fn frame(width: u32, height: u32, pitch: u32, bytes: Vec<u8>) -> Frame {
    Frame { width, height, pitch, bytes }
}

#[test]
fn keys_have_their_codes() {
    assert_eq!(winit_keycode_to_evdev(Some(Key::Escape)), Some(1));
    assert_eq!(winit_keycode_to_evdev(Some(Key::Digit0)), Some(11));
    assert_eq!(winit_keycode_to_evdev(Some(Key::KeyQ)), Some(16));
    assert_eq!(winit_keycode_to_evdev(Some(Key::KeyA)), Some(30));
    assert_eq!(winit_keycode_to_evdev(Some(Key::KeyZ)), Some(44));
    assert_eq!(winit_keycode_to_evdev(Some(Key::Space)), Some(57));
    assert_eq!(winit_keycode_to_evdev(Some(Key::F10)), Some(68));
    assert_eq!(winit_keycode_to_evdev(Some(Key::F11)), Some(87));
    assert_eq!(winit_keycode_to_evdev(Some(Key::ControlRight)), Some(97));
    assert_eq!(winit_keycode_to_evdev(Some(Key::Delete)), Some(111));
    assert_eq!(winit_keycode_to_evdev(None), None);
    assert_eq!(winit_mouse_button_to_evdev(Some(Button::Left)), Some(0x110));
    assert_eq!(winit_mouse_button_to_evdev(Some(Button::Right)), Some(0x111));
    assert_eq!(winit_mouse_button_to_evdev(Some(Button::Middle)), Some(0x112));
    assert_eq!(winit_mouse_button_to_evdev(None), None);
}

#[test]
fn the_newest_frame_is_kept() {
    let mut slot = FrameSlot::new();
    assert_eq!(slot.take_pending(), None);
    slot.send(frame(1, 1, 4, vec![1, 2, 3, 4]));
    slot.send(frame(1, 1, 4, vec![5, 6, 7, 8]));
    assert_eq!(slot.free_buffers.len(), 1);
    assert_eq!(slot.take_pending(), Some(frame(1, 1, 4, vec![5, 6, 7, 8])));
    assert_eq!(slot.take_pending(), None);
    let buffer = slot.take_free_buffer();
    assert!(buffer.is_empty() && buffer.capacity() >= 4);
    assert_eq!(slot.take_free_buffer().capacity(), 0);
    for _ in 0..10 {
        slot.send(frame(1, 1, 4, vec![0; 4]));
    }
    assert_eq!(slot.free_buffers.len(), 4);
}

#[test]
fn an_early_frame_is_drawn_when_the_window_is_ready() {
    let mut app = PresenterApp::new();
    let f = frame(1, 1, 4, vec![0; 4]);
    assert_eq!(
        app.user_event(PresenterCommand::Wake, Some(f)),
        UserStep { set_visible: None, redraw: false, new_frame: true }
    );
    assert_eq!(
        app.user_event(PresenterCommand::SetVisible(true), None),
        UserStep { set_visible: None, redraw: false, new_frame: false }
    );
    assert!(app.present(1, 1).is_none());
    assert!(app.resumed(1920, 1080));
    assert!(!app.resumed(1, 1));
    assert_eq!(app.surface_size, (1920, 1080));
    assert_eq!(
        app.user_event(PresenterCommand::SetVisible(true), None),
        UserStep { set_visible: Some(true), redraw: true, new_frame: false }
    );
    assert_eq!(
        app.user_event(PresenterCommand::SetVisible(false), None),
        UserStep { set_visible: Some(false), redraw: false, new_frame: false }
    );
    assert!(app.last_frame.is_some());
}

#[test]
fn textures_take_turns() {
    let mut app = PresenterApp::new();
    assert!(!app.resumed(1920, 1080));
    let plan = |warn, rebuild, index| Some(PresentPlan { warn, rebuild, index });
    assert_eq!(app.present(640, 480), plan(true, true, 0));
    assert_eq!(app.present(640, 480), plan(false, false, 1));
    assert_eq!(app.present(640, 480), plan(false, false, 2));
    assert_eq!(app.present(640, 480), plan(false, false, 0));
    assert_eq!(app.present(1920, 1080), plan(false, true, 0));
    assert_eq!(app.visible_extent(2000, 480), (1920, 480));
}

#[test]
fn window_events_are_judged() {
    let mut app = PresenterApp::new();
    let resize = |width, height| WindowInput::Resized { width, height };
    assert_eq!(app.window_event(resize(10, 10), true), WindowStep::Nothing);
    assert_eq!(app.window_event(WindowInput::RedrawRequested, true), WindowStep::Nothing);
    app.resumed(100, 100);
    assert_eq!(app.window_event(resize(10, 0), true), WindowStep::Nothing);
    assert_eq!(app.surface_size, (100, 100));
    assert_eq!(app.window_event(resize(10, 20), true), WindowStep::Reconfigure);
    assert_eq!(app.surface_size, (10, 20));
    app.user_event(PresenterCommand::Wake, Some(frame(1, 1, 4, vec![0; 4])));
    assert_eq!(app.window_event(WindowInput::RedrawRequested, true), WindowStep::Present);
    assert_eq!(app.window_event(WindowInput::CloseRequested, true), WindowStep::Exit);
    let key = |pressed, repeat| WindowInput::Key { key: Some(Key::KeyA), pressed, repeat };
    let signal = |s| WindowStep::Input(s);
    assert_eq!(app.window_event(key(true, false), true), signal(InputSignal::Key(30, 1)));
    assert_eq!(app.window_event(key(true, true), true), signal(InputSignal::Key(30, 2)));
    assert_eq!(app.window_event(key(false, true), true), signal(InputSignal::Key(30, 0)));
    assert_eq!(app.window_event(key(true, false), false), WindowStep::Nothing);
    let unknown = WindowInput::Key { key: None, pressed: true, repeat: false };
    assert_eq!(app.window_event(unknown, true), WindowStep::Nothing);
    let button = WindowInput::Button { button: Some(Button::Left), pressed: true };
    assert_eq!(app.window_event(button, true), signal(InputSignal::Key(272, 1)));
    let motion = |dx, dy| WindowInput::Motion { dx, dy };
    assert_eq!(app.window_event(motion(0, -2), true), signal(InputSignal::RelMotion(0, -2)));
    assert_eq!(app.window_event(motion(0, 0), true), WindowStep::Nothing);
    let wheel = |steps| WindowInput::Wheel { steps };
    assert_eq!(app.window_event(wheel(-1), true), signal(InputSignal::Rel(8, -1)));
    assert_eq!(app.window_event(wheel(0), true), WindowStep::Nothing);
    assert_eq!(app.window_event(WindowInput::Other, true), WindowStep::Nothing);
}

#[test]
fn surface_modes_are_chosen() {
    assert_eq!(choose_mode(&[false, true, true]), 1);
    assert_eq!(choose_mode(&[false, false]), 0);
    assert!(choose_mailbox(&[false, true]));
    assert!(!choose_mailbox(&[false]));
    assert!(!choose_mailbox(&[]));
    assert_eq!(surface_extent(0), 1);
    assert_eq!(surface_extent(7), 7);
}

#[test]
fn a_frame_becomes_a_bitmap() {
    let f = frame(1, 2, 8, vec![1, 2, 3, 4, 9, 9, 9, 9, 5, 6, 7, 8, 9, 9, 9, 9]);
    let bmp = write_dump_frame_bmp(&f);
    let mut expected = vec![0x42, 0x4D, 62, 0, 0, 0, 0, 0, 0, 0, 54, 0, 0, 0];
    expected.extend_from_slice(&[40, 0, 0, 0, 1, 0, 0, 0, 2, 0, 0, 0, 1, 0, 32, 0]);
    expected.extend_from_slice(&[0, 0, 0, 0, 8, 0, 0, 0, 0x13, 0x0B, 0, 0, 0x13, 0x0B, 0, 0]);
    expected.extend_from_slice(&[0, 0, 0, 0, 0, 0, 0, 0]);
    expected.extend_from_slice(&[5, 6, 7, 8, 1, 2, 3, 4]);
    assert_eq!(bmp, expected);
    let short = frame(1, 2, 4, vec![1, 2, 3, 4, 5]);
    assert_eq!(&write_dump_frame_bmp(&short)[54..], &[0, 0, 0, 0, 1, 2, 3, 4]);
}

#[test]
fn a_frame_is_summed_up() {
    let f = frame(2, 2, 8, vec![0, 0, 0, 1, 0, 0, 0, 0, 9, 0, 0, 0, 9, 0, 0, 0]);
    let s = frame_summary(&f);
    assert_eq!(s.non_black_pixels, 2);
    assert_eq!(s.distinct_colors, 3);
    let cut = frame(2, 2, 8, vec![1, 0, 0, 0, 1, 0, 0, 0, 1]);
    assert_eq!(frame_summary(&cut).non_black_pixels, 2);
    assert_eq!(frame_summary(&cut).distinct_colors, 1);
    let mut many = Vec::new();
    for i in 0..100u8 {
        many.extend_from_slice(&[i, 0, 0, 0]);
    }
    let s = frame_summary(&frame(100, 1, 400, many));
    assert_eq!(s.non_black_pixels, 99);
    assert_eq!(s.distinct_colors, 64);
}

#[test]
fn frames_are_sampled_and_named() {
    assert_eq!(dump_every(None), 1);
    assert_eq!(dump_every(Some("0")), 1);
    assert_eq!(dump_every(Some("x")), 1);
    assert_eq!(dump_every(Some("10")), 10);
    assert_eq!(dump_frame_diagnostic(3, 2, false, None), DumpStep::Skip);
    assert_eq!(dump_frame_diagnostic(4, 2, true, None), DumpStep::Summary);
    assert_eq!(
        dump_frame_diagnostic(4, 2, false, None),
        DumpStep::Write { path: "litebox_frame_dump_4.bmp".to_owned() }
    );
    assert_eq!(
        dump_frame_diagnostic(0, 1, false, Some("out/f")),
        DumpStep::Write { path: "out/f.0".to_owned() }
    );
}

#[test]
fn drops_are_reported() {
    let mut counters = DumpCounters { enqueued: 0, dropped: 0 };
    counters.count(true);
    counters.count(false);
    assert_eq!(
        dump_frame_diagnostic_report_drops(counters),
        "[LITEBOX_DUMP_FRAMES] end of run: 2 frames enqueued for writing, \
         1 dropped due to writer backpressure"
    );
}
