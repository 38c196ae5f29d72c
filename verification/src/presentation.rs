//! The window that shows a guest's display: the frames on their way to it, what is shown when, what
//! its input means, and the files that frames are written to for diagnosis.

use crate::bytes;
use crate::keys;
use crate::keys::{winit_keycode_to_evdev, winit_mouse_button_to_evdev, Button, Key, REL_WHEEL};
use crate::numbers;
use std::collections::HashSet;
use vstd::prelude::*;

verus! {

/// How many buffers are kept for frames to come.
pub const MAX_FREE_BUFFERS: usize = 4;

/// How many frames wait to be written to files.
pub const DUMP_FRAMES_QUEUE_CAPACITY: usize = 4;

/// How many textures take turns in receiving frames.
pub const TEXTURE_POOL_SIZE: usize = 3;

/// The size of the window at first.
pub const INITIAL_WIDTH: u32 = 1920;

pub const INITIAL_HEIGHT: u32 = 1080;

/// How many colors a summary tells apart.
pub const MAX_COLORS: usize = 64;

/// The size of the headers of a bitmap file.
pub const BMP_HEADERS: usize = 54;

/// One frame: rows of `pitch` bytes, of which the first `4 * width` are pixels, in the order blue,
/// green, red, unused.
#[derive(Debug, PartialEq, Eq)]
pub struct Frame {
    pub width: u32,
    pub height: u32,
    pub pitch: u32,
    pub bytes: Vec<u8>,
}

/// An input event, in the codes of Linux.
#[derive(Debug, Clone, Copy, PartialEq, Eq, Structural)]
pub enum InputSignal {
    /// A key or mouse button: 1 when it is pressed, 2 when it repeats, 0 when it is released.
    Key(u16, i32),
    /// A motion along one axis.
    Rel(u16, i32),
    /// One motion along both axes, which is one report.
    RelMotion(i32, i32),
}

/// A message to the window.
#[derive(Debug, Clone, Copy, PartialEq, Eq, Structural)]
pub enum PresenterCommand {
    /// A frame has arrived.
    Wake,
    /// Show or hide the window.
    SetVisible(bool),
}

/// The newest frame that was not shown yet, and buffers for frames to come.
#[derive(Debug, PartialEq, Eq)]
pub struct FrameSlot {
    pub pending: Option<Frame>,
    pub free_buffers: Vec<Vec<u8>>,
}

impl FrameSlot {
    /// Only so many buffers are kept.
    pub open spec fn wf(self) -> bool {
        self.free_buffers@.len() <= MAX_FREE_BUFFERS
    }

    /// No frame and no buffers.
    pub fn new() -> (r: Self)
        ensures
            r.wf(),
            r.pending is None,
            r.free_buffers@.len() == 0,
    {
        FrameSlot { pending: None, free_buffers: Vec::new() }
    }

    /// Puts a frame into the slot, in the place of one that was not shown yet. The buffer of that
    /// one is kept, emptied, as long as there is room.
    pub fn send(&mut self, frame: Frame)
        requires
            old(self).wf(),
        ensures
            final(self).wf(),
            final(self).pending == Some(frame),
            if old(self).pending is Some && old(self).free_buffers@.len() < MAX_FREE_BUFFERS {
                &&& final(self).free_buffers@.len() == old(self).free_buffers@.len() + 1
                &&& final(self).free_buffers@.drop_last() == old(self).free_buffers@
                &&& final(self).free_buffers@.last()@.len() == 0
            } else {
                final(self).free_buffers@ == old(self).free_buffers@
            },
    {
        let ghost before = self.free_buffers@;
        let previous = self.pending.take();
        self.pending = Some(frame);
        match previous {
            None => {},
            Some(stale) => {
                if self.free_buffers.len() < MAX_FREE_BUFFERS {
                    let mut buffer = stale.bytes;
                    buffer.clear();
                    self.free_buffers.push(buffer);
                    assert(self.free_buffers@.drop_last() =~= before);
                }
            },
        }
    }

    /// Takes a buffer for a new frame: the one that was kept last, or a new one.
    pub fn take_free_buffer(&mut self) -> (r: Vec<u8>)
        requires
            old(self).wf(),
        ensures
            final(self).wf(),
            final(self).pending == old(self).pending,
            if old(self).free_buffers@.len() > 0 {
                r == old(self).free_buffers@.last() && final(self).free_buffers@
                    == old(self).free_buffers@.drop_last()
            } else {
                r@.len() == 0 && final(self).free_buffers@ == old(self).free_buffers@
            },
    {
        match self.free_buffers.pop() {
            Some(buffer) => buffer,
            None => Vec::new(),
        }
    }

    /// Takes the newest frame, if it was not shown yet.
    pub fn take_pending(&mut self) -> (r: Option<Frame>)
        requires
            old(self).wf(),
        ensures
            final(self).wf(),
            r == old(self).pending,
            final(self).pending is None,
            final(self).free_buffers@ == old(self).free_buffers@,
    {
        self.pending.take()
    }
}

/// What is done with a message to the window.
#[derive(Debug, Clone, Copy, PartialEq, Eq, Structural)]
pub struct UserStep {
    /// Show or hide the window.
    pub set_visible: Option<bool>,
    /// Draw the window again.
    pub redraw: bool,
    /// A new frame has come into view.
    pub new_frame: bool,
}

/// What is to be done before a frame is shown.
#[derive(Debug, Clone, Copy, PartialEq, Eq, Structural)]
pub struct PresentPlan {
    /// The sizes of frame and window differ, for the first time.
    pub warn: bool,
    /// The textures have to be made anew, for the size of the frame.
    pub rebuild: bool,
    /// Which texture receives the frame.
    pub index: usize,
}

/// What a window shows: whether it can draw yet, how large it is, the newest frame, and the textures
/// that take turns.
pub struct PresenterApp {
    pub ready: bool,
    pub surface_size: (u32, u32),
    pub last_frame: Option<Frame>,
    pub next_pool_index: usize,
    pub pool_frame_size: (u32, u32),
    pub logged_size_mismatch: bool,
}

/// A length that is at least 1.
pub open spec fn at_least_one(n: u32) -> u32 {
    if n == 0 {
        1
    } else {
        n
    }
}

impl PresenterApp {
    /// The next texture is one of the pool.
    pub open spec fn wf(self) -> bool {
        self.next_pool_index < TEXTURE_POOL_SIZE
    }

    /// A window that cannot draw yet: without extent and without a frame, its textures made for a
    /// single pixel and the first of them next, and no difference of sizes told yet.
    pub fn new() -> (r: Self)
        ensures
            r.wf(),
            r == (PresenterApp {
                ready: false,
                surface_size: (0, 0),
                last_frame: None,
                next_pool_index: 0,
                pool_frame_size: (1, 1),
                logged_size_mismatch: false,
            }),
    {
        PresenterApp {
            ready: false,
            surface_size: (0, 0),
            last_frame: None,
            next_pool_index: 0,
            pool_frame_size: (1, 1),
            logged_size_mismatch: false,
        }
    }

    /// The window can draw from now on, and is so large. Returns whether it has to be drawn: if a
    /// frame came before.
    pub fn resumed(&mut self, width: u32, height: u32) -> (r: bool)
        requires
            old(self).wf(),
        ensures
            final(self).wf(),
            final(self).ready,
            final(self).last_frame == old(self).last_frame,
            if old(self).ready {
                !r && *final(self) == *old(self)
            } else {
                &&& r == (old(self).last_frame is Some)
                &&& final(self).surface_size == (width, height)
                &&& final(self).next_pool_index == 0
                &&& final(self).pool_frame_size == (1u32, 1u32)
                &&& !final(self).logged_size_mismatch
            },
    {
        if self.ready {
            return false;
        }
        self.ready = true;
        self.surface_size = (width, height);
        self.next_pool_index = 0;
        self.pool_frame_size = (1, 1);
        self.logged_size_mismatch = false;
        self.last_frame.is_some()
    }

    /// Takes in a message, with the newest frame if there is one that was not shown yet. A window
    /// that is shown is drawn at once, with what was there before.
    pub fn user_event(&mut self, command: PresenterCommand, latest: Option<Frame>) -> (r: UserStep)
        requires
            old(self).wf(),
        ensures
            final(self).wf(),
            final(self).ready == old(self).ready,
            final(self).surface_size == old(self).surface_size,
            final(self).next_pool_index == old(self).next_pool_index,
            final(self).pool_frame_size == old(self).pool_frame_size,
            final(self).logged_size_mismatch == old(self).logged_size_mismatch,
            match command {
                PresenterCommand::SetVisible(visible) => {
                    &&& final(self).last_frame == old(self).last_frame
                    &&& r == (UserStep {
                        set_visible: if old(self).ready {
                            Some(visible)
                        } else {
                            None
                        },
                        redraw: old(self).ready && visible,
                        new_frame: false,
                    })
                },
                PresenterCommand::Wake => {
                    &&& final(self).last_frame == if latest is Some {
                        latest
                    } else {
                        old(self).last_frame
                    }
                    &&& r == (UserStep {
                        set_visible: None,
                        redraw: old(self).ready && latest is Some,
                        new_frame: latest is Some,
                    })
                },
            },
    {
        match command {
            PresenterCommand::SetVisible(visible) => UserStep {
                set_visible: if self.ready {
                    Some(visible)
                } else {
                    None
                },
                redraw: self.ready && visible,
                new_frame: false,
            },
            PresenterCommand::Wake => match latest {
                None => UserStep { set_visible: None, redraw: false, new_frame: false },
                Some(frame) => {
                    self.last_frame = Some(frame);
                    UserStep { set_visible: None, redraw: self.ready, new_frame: true }
                },
            },
        }
    }

    /// The window was given a new size. Returns whether its surface has to be set up again: not for
    /// a window without any extent, which keeps the last size that it had.
    pub fn resized(&mut self, width: u32, height: u32) -> (r: bool)
        requires
            old(self).wf(),
        ensures
            final(self).wf(),
            r == (old(self).ready && width != 0 && height != 0),
            *final(self) == if r {
                PresenterApp { surface_size: (width, height), ..*old(self) }
            } else {
                *old(self)
            },
    {
        if !self.ready || width == 0 || height == 0 {
            return false;
        }
        self.surface_size = (width, height);
        true
    }

    /// Prepares to show a frame of this size; `None` if the window cannot draw yet. The textures are
    /// made anew when the size of the frames changes, and take turns otherwise.
    pub fn present(&mut self, width: u32, height: u32) -> (r: Option<PresentPlan>)
        requires
            old(self).wf(),
        ensures
            final(self).wf(),
            final(self).last_frame == old(self).last_frame,
            final(self).ready == old(self).ready,
            final(self).surface_size == old(self).surface_size,
            if !old(self).ready {
                r is None && *final(self) == *old(self)
            } else {
                let differs = (width, height) != old(self).surface_size;
                let rebuild = (width, height) != old(self).pool_frame_size;
                let index = if rebuild {
                    0usize
                } else {
                    old(self).next_pool_index
                };
                &&& r == Some(
                    PresentPlan { warn: differs && !old(self).logged_size_mismatch, rebuild, index },
                )
                &&& final(self).logged_size_mismatch == (old(self).logged_size_mismatch || differs)
                &&& final(self).pool_frame_size == (width, height)
                &&& final(self).next_pool_index == (index + 1) % TEXTURE_POOL_SIZE as int
            },
    {
        if !self.ready {
            return None;
        }
        let differs: bool = width != self.surface_size.0 || height != self.surface_size.1;
        let warn: bool = differs && !self.logged_size_mismatch;
        if warn {
            self.logged_size_mismatch = true;
        }
        let rebuild: bool = width != self.pool_frame_size.0 || height != self.pool_frame_size.1;
        if rebuild {
            self.pool_frame_size = (width, height);
            self.next_pool_index = 0;
        }
        let index: usize = self.next_pool_index;
        self.next_pool_index = (index + 1) % TEXTURE_POOL_SIZE;
        Some(PresentPlan { warn, rebuild, index })
    }

    /// Takes in an event of the window; `listening` says whether input goes anywhere.
    pub fn window_event(&mut self, event: WindowInput, listening: bool) -> (r: WindowStep)
        requires
            old(self).wf(),
        ensures
            final(self).wf(),
            r == window_step(*old(self), event, listening),
            *final(self) == match event {
                WindowInput::Resized { width, height } if r == WindowStep::Reconfigure => {
                    PresenterApp { surface_size: (width, height), ..*old(self) }
                },
                _ => *old(self),
            },
    {
        match event {
            WindowInput::CloseRequested => WindowStep::Exit,
            WindowInput::Resized { width, height } => if self.resized(width, height) {
                WindowStep::Reconfigure
            } else {
                WindowStep::Nothing
            },
            WindowInput::RedrawRequested => if self.last_frame.is_some() {
                WindowStep::Present
            } else {
                WindowStep::Nothing
            },
            WindowInput::Key { key, pressed, repeat } => input_step(
                key_signal(listening, key, pressed, repeat),
            ),
            WindowInput::Button { button, pressed } => input_step(
                button_signal(listening, button, pressed),
            ),
            WindowInput::Motion { dx, dy } => if listening {
                input_step(motion_signal(dx, dy))
            } else {
                WindowStep::Nothing
            },
            WindowInput::Wheel { steps } => if listening {
                input_step(wheel_signal(steps))
            } else {
                WindowStep::Nothing
            },
            WindowInput::Other => WindowStep::Nothing,
        }
    }

    /// How much of a frame is in view: as much as window and frame have in common.
    pub fn visible_extent(&self, width: u32, height: u32) -> (r: (u32, u32))
        ensures
            r.0 == if width <= self.surface_size.0 {
                width
            } else {
                self.surface_size.0
            },
            r.1 == if height <= self.surface_size.1 {
                height
            } else {
                self.surface_size.1
            },
    {
        (
            if width <= self.surface_size.0 {
                width
            } else {
                self.surface_size.0
            },
            if height <= self.surface_size.1 {
                height
            } else {
                self.surface_size.1
            },
        )
    }
}

/// An event of a window.
#[derive(Debug, Clone, Copy, PartialEq, Eq, Structural)]
pub enum WindowInput {
    CloseRequested,
    Resized { width: u32, height: u32 },
    RedrawRequested,
    Key { key: Option<Key>, pressed: bool, repeat: bool },
    Button { button: Option<Button>, pressed: bool },
    /// A motion of the pointer, in whole pixels of the guest's display.
    Motion { dx: i32, dy: i32 },
    Wheel { steps: i32 },
    Other,
}

/// What is done with an event of a window.
#[derive(Debug, Clone, Copy, PartialEq, Eq, Structural)]
pub enum WindowStep {
    Nothing,
    /// End the program.
    Exit,
    /// Set the surface up for the new size, and draw.
    Reconfigure,
    /// Show the newest frame.
    Present,
    /// Pass this on to the guest.
    Input(InputSignal),
}

/// What is done with an event that may come of input.
pub open spec fn step_of(signal: Option<InputSignal>) -> WindowStep {
    match signal {
        Some(s) => WindowStep::Input(s),
        None => WindowStep::Nothing,
    }
}

/// The event of a key: none if nobody listens or the key has no code.
pub open spec fn key_event(
    listening: bool,
    key: Option<Key>,
    pressed: bool,
    repeat: bool,
) -> Option<InputSignal> {
    match key {
        Some(k) if listening => Some(
            InputSignal::Key(
                keys::key_code(k),
                if !pressed {
                    0
                } else if repeat {
                    2
                } else {
                    1
                },
            ),
        ),
        _ => None,
    }
}

/// The event of a mouse button: none if nobody listens or the button has no code.
pub open spec fn button_event(listening: bool, button: Option<Button>, pressed: bool) -> Option<
    InputSignal,
> {
    match button {
        Some(b) if listening => Some(
            InputSignal::Key(
                keys::button_code(b),
                if pressed {
                    1
                } else {
                    0
                },
            ),
        ),
        _ => None,
    }
}

/// What is done with an event of a window.
pub open spec fn window_step(app: PresenterApp, event: WindowInput, listening: bool) -> WindowStep {
    match event {
        WindowInput::CloseRequested => WindowStep::Exit,
        WindowInput::Resized { width, height } => if app.ready && width != 0 && height != 0 {
            WindowStep::Reconfigure
        } else {
            WindowStep::Nothing
        },
        WindowInput::RedrawRequested => if app.last_frame is Some {
            WindowStep::Present
        } else {
            WindowStep::Nothing
        },
        WindowInput::Key { key, pressed, repeat } => step_of(
            key_event(listening, key, pressed, repeat),
        ),
        WindowInput::Button { button, pressed } => step_of(
            button_event(listening, button, pressed),
        ),
        WindowInput::Motion { dx, dy } => if listening && (dx != 0 || dy != 0) {
            WindowStep::Input(InputSignal::RelMotion(dx, dy))
        } else {
            WindowStep::Nothing
        },
        WindowInput::Wheel { steps } => if listening && steps != 0 {
            WindowStep::Input(InputSignal::Rel(REL_WHEEL, steps))
        } else {
            WindowStep::Nothing
        },
        WindowInput::Other => WindowStep::Nothing,
    }
}

fn input_step(signal: Option<InputSignal>) -> (r: WindowStep)
    ensures
        r == step_of(signal),
{
    match signal {
        Some(s) => WindowStep::Input(s),
        None => WindowStep::Nothing,
    }
}

/// The pointer's motion reaches the guest in both directions: while somebody listens, a motion along
/// either axis is passed on with the distance along each, and only a motion along neither is passed
/// over.
pub proof fn law_motion_is_passed_on(app: PresenterApp, dx: i32, dy: i32)
    ensures
        dx != 0 || dy != 0 ==> window_step(app, WindowInput::Motion { dx, dy }, true)
            == WindowStep::Input(InputSignal::RelMotion(dx, dy)),
        window_step(app, WindowInput::Motion { dx, dy }, true) == WindowStep::Nothing <==> dx == 0
            && dy == 0,
{
}

/// Turning the wheel reaches the guest with its number of steps, under the code of the wheel, and
/// only no step at all is passed over.
pub proof fn law_wheel_is_passed_on(app: PresenterApp, steps: i32)
    ensures
        steps != 0 ==> window_step(app, WindowInput::Wheel { steps }, true) == WindowStep::Input(
            InputSignal::Rel(8, steps),
        ),
        window_step(app, WindowInput::Wheel { steps }, true) == WindowStep::Nothing <==> steps == 0,
{
}

/// A key reaches the guest under a code that is read back as that key, with 1 for a press, 2 for a
/// repeated press and 0 for a release, repeated or not.
pub proof fn law_keys_are_passed_on(app: PresenterApp, key: Key, repeat: bool)
    ensures
        ({
            let press = window_step(
                app,
                WindowInput::Key { key: Some(key), pressed: true, repeat },
                true,
            );
            let release = window_step(
                app,
                WindowInput::Key { key: Some(key), pressed: false, repeat },
                true,
            );
            &&& press matches WindowStep::Input(InputSignal::Key(code, value)) && keys::key_of(code)
                == Some(key) && (value == 2 <==> repeat) && (value == 1 <==> !repeat)
            &&& release matches WindowStep::Input(InputSignal::Key(code, value)) && keys::key_of(
                code,
            ) == Some(key) && value == 0
        }),
{
    keys::law_key_codes_differ(key, key);
}

/// A mouse button reaches the guest under its code, 0x110 for the left, 0x111 for the right and
/// 0x112 for the middle one, with 1 for a press and 0 for a release.
pub proof fn law_buttons_are_passed_on(app: PresenterApp, button: Button, pressed: bool)
    ensures
        window_step(app, WindowInput::Button { button: Some(button), pressed }, true) matches
            WindowStep::Input(InputSignal::Key(code, value)) && (code == 0x110 <==> button
            == Button::Left) && (code == 0x111 <==> button == Button::Right) && (code == 0x112
            <==> button == Button::Middle) && (value == 1 <==> pressed) && (value == 0 <==> !pressed),
{
}

/// While nobody listens no event leads to input, and a key or button without a code never does.
pub proof fn law_input_needs_a_listener_and_a_code(
    app: PresenterApp,
    event: WindowInput,
    pressed: bool,
    repeat: bool,
)
    ensures
        !(window_step(app, event, false) is Input),
        window_step(app, WindowInput::Key { key: None, pressed, repeat }, true)
            == WindowStep::Nothing,
        window_step(app, WindowInput::Button { button: None, pressed }, true)
            == WindowStep::Nothing,
{
}

/// What is not input does not depend on who listens: a request to close ends the program and nothing
/// else does; the newest frame is shown when the window asks for it, if there is one; a new size is
/// taken over by a window that can draw, unless it is a size without extent.
pub proof fn law_window_events_are_served(app: PresenterApp, event: WindowInput, listening: bool)
    ensures
        window_step(app, event, listening) == WindowStep::Exit <==> event
            == WindowInput::CloseRequested,
        window_step(app, event, listening) == WindowStep::Present <==> event
            == WindowInput::RedrawRequested && app.last_frame is Some,
        window_step(app, event, listening) == WindowStep::Reconfigure <==> app.ready && (
        event matches WindowInput::Resized { width, height } && width != 0 && height != 0),
        window_step(app, event, listening) is Input ==> event is Key || event is Button || event
            is Motion || event is Wheel,
{
}

/// Different inputs of one kind never lead to the same input for the guest.
pub proof fn law_inputs_are_told_apart(app: PresenterApp, a: WindowInput, b: WindowInput)
    requires
        window_step(app, a, true) is Input,
        window_step(app, a, true) == window_step(app, b, true),
        !(a matches WindowInput::Key { pressed: false, .. }),
        !(b matches WindowInput::Key { pressed: false, .. }),
    ensures
        a == b,
{
    match (a, b) {
        (WindowInput::Key { key: Some(x), .. }, WindowInput::Key { key: Some(y), .. }) => {
            keys::law_key_codes_differ(x, y);
        },
        (WindowInput::Key { key: Some(x), .. }, WindowInput::Button { button: Some(y), .. }) => {
            keys::law_buttons_are_no_keys(y, x);
        },
        (WindowInput::Button { button: Some(y), .. }, WindowInput::Key { key: Some(x), .. }) => {
            keys::law_buttons_are_no_keys(y, x);
        },
        _ => {},
    }
}

/// A surface is as large as its window, and never without extent.
pub proof fn law_surfaces_have_extent(n: u32)
    ensures
        at_least_one(n) >= 1,
        n >= 1 ==> at_least_one(n) == n,
        n == 0 ==> at_least_one(n) == 1,
{
}

/// A texture is not written again before the others of the pool had their turns.
pub proof fn law_textures_take_turns(index: int)
    requires
        0 <= index < TEXTURE_POOL_SIZE,
    ensures
        ({
            let second = (index + 1) % TEXTURE_POOL_SIZE as int;
            let third = (second + 1) % TEXTURE_POOL_SIZE as int;
            &&& second != index
            &&& third != index
            &&& third != second
            &&& (third + 1) % TEXTURE_POOL_SIZE as int == index
        }),
{
}

/// The extent of the surface for a window of this extent: never none.
pub fn surface_extent(n: u32) -> (r: u32)
    ensures
        r == at_least_one(n),
{
    if n == 0 {
        1
    } else {
        n
    }
}

/// Which of the modes that a device offers is chosen: the first one that is wanted, or else the
/// first one.
pub fn choose_mode(is_wanted: &[bool]) -> (r: usize)
    requires
        is_wanted@.len() > 0,
    ensures
        r < is_wanted@.len(),
        if is_wanted@.contains(true) {
            is_wanted@[r as int] && forall|j: int| 0 <= j < r ==> !#[trigger] is_wanted@[j]
        } else {
            r == 0
        },
{
    let mut i: usize = 0;
    while i < is_wanted.len()
        invariant
            i <= is_wanted@.len(),
            is_wanted@.len() > 0,
            forall|j: int| 0 <= j < i ==> !#[trigger] is_wanted@[j],
        decreases is_wanted@.len() - i,
    {
        if is_wanted[i] {
            assert(is_wanted@[i as int]);
            return i;
        }
        i = i + 1;
    }
    0
}

/// Whether frames may replace each other before they are shown, which one of the offered modes has to
/// allow. If none does, frames wait for each other.
pub fn choose_mailbox(is_mailbox: &[bool]) -> (r: bool)
    ensures
        r == is_mailbox@.contains(true),
{
    let mut i: usize = 0;
    while i < is_mailbox.len()
        invariant
            i <= is_mailbox@.len(),
            forall|j: int| 0 <= j < i ==> !#[trigger] is_mailbox@[j],
        decreases is_mailbox@.len() - i,
    {
        if is_mailbox[i] {
            assert(is_mailbox@[i as int]);
            return true;
        }
        i = i + 1;
    }
    false
}

/// The event of a key: none if nobody listens or the key has no code.
pub fn key_signal(listening: bool, key: Option<Key>, pressed: bool, repeat: bool) -> (r: Option<
    InputSignal,
>)
    ensures
        r == key_event(listening, key, pressed, repeat),
{
    if !listening {
        return None;
    }
    match winit_keycode_to_evdev(key) {
        None => None,
        Some(code) => {
            let value: i32 = if !pressed {
                0
            } else if repeat {
                2
            } else {
                1
            };
            Some(InputSignal::Key(code, value))
        },
    }
}

/// The event of a mouse button: none if nobody listens or the button has no code.
pub fn button_signal(listening: bool, button: Option<Button>, pressed: bool) -> (r: Option<
    InputSignal,
>)
    ensures
        r == button_event(listening, button, pressed),
{
    if !listening {
        return None;
    }
    match winit_mouse_button_to_evdev(button) {
        None => None,
        Some(code) => {
            let value: i32 = if pressed {
                1
            } else {
                0
            };
            Some(InputSignal::Key(code, value))
        },
    }
}

/// The event of a motion: one for both axes, none without any motion.
pub fn motion_signal(dx: i32, dy: i32) -> (r: Option<InputSignal>)
    ensures
        r == if dx != 0 || dy != 0 {
            Some(InputSignal::RelMotion(dx, dy))
        } else {
            None
        },
{
    if dx != 0 || dy != 0 {
        Some(InputSignal::RelMotion(dx, dy))
    } else {
        None
    }
}

/// The event of a wheel: none without any step.
pub fn wheel_signal(steps: i32) -> (r: Option<InputSignal>)
    ensures
        r == if steps != 0 {
            Some(InputSignal::Rel(REL_WHEEL, steps))
        } else {
            None
        },
{
    if steps != 0 {
        Some(InputSignal::Rel(REL_WHEEL, steps))
    } else {
        None
    }
}

/// The size of the pixels in a bitmap file.
pub open spec fn pixel_size(width: int, height: int) -> int {
    width * 4 * height
}

/// The headers of a bitmap file: 32 bits a pixel, not compressed, at 2835 pixels per metre.
pub open spec fn bmp_header(width: nat, height: nat) -> Seq<u8> {
    seq![0x42u8, 0x4D] + bytes::le_bytes((pixel_size(width as int, height as int) + 54) as nat, 4)
        + bytes::le_bytes(0, 2) + bytes::le_bytes(0, 2) + bytes::le_bytes(54, 4) + bytes::le_bytes(
        40,
        4,
    ) + bytes::le_bytes(width, 4) + bytes::le_bytes(height, 4) + bytes::le_bytes(1, 2)
        + bytes::le_bytes(32, 2) + bytes::le_bytes(0, 4) + bytes::le_bytes(
        pixel_size(width as int, height as int) as nat,
        4,
    ) + bytes::le_bytes(2835, 4) + bytes::le_bytes(2835, 4) + bytes::le_bytes(0, 4)
        + bytes::le_bytes(0, 4)
}

/// One row of a frame: zeros if the frame does not hold all of it.
pub open spec fn bmp_row(frame: Frame, row: int) -> Seq<u8> {
    let start = row * frame.pitch;
    let end = start + frame.width * 4;
    if end <= frame.bytes@.len() {
        frame.bytes@.subrange(start, end)
    } else {
        Seq::new((frame.width * 4) as nat, |i: int| 0u8)
    }
}

/// The first `n` rows of a frame, the last one first.
pub open spec fn bmp_rows(frame: Frame, n: nat) -> Seq<u8>
    decreases n,
{
    if n == 0 {
        Seq::empty()
    } else {
        bmp_row(frame, n - 1) + bmp_rows(frame, (n - 1) as nat)
    }
}

/// A frame as a bitmap file.
pub open spec fn bmp(frame: Frame) -> Seq<u8> {
    bmp_header(frame.width as nat, frame.height as nat) + bmp_rows(frame, frame.height as nat)
}

fn write_header(width: u32, height: u32, size: u64) -> (r: Vec<u8>)
    requires
        size == pixel_size(width as int, height as int),
        size + 54 <= u64::MAX,
    ensures
        r@ == bmp_header(width as nat, height as nat),
{
    let mut out: Vec<u8> = Vec::new();
    out.push(0x42);
    out.push(0x4D);
    assert(out@ =~= seq![0x42u8, 0x4D]);
    bytes::push_le(&mut out, size + 54, 4);
    bytes::push_le(&mut out, 0, 2);
    bytes::push_le(&mut out, 0, 2);
    bytes::push_le(&mut out, 54, 4);
    bytes::push_le(&mut out, 40, 4);
    bytes::push_le(&mut out, width as u64, 4);
    bytes::push_le(&mut out, height as u64, 4);
    bytes::push_le(&mut out, 1, 2);
    bytes::push_le(&mut out, 32, 2);
    bytes::push_le(&mut out, 0, 4);
    bytes::push_le(&mut out, size, 4);
    bytes::push_le(&mut out, 2835, 4);
    bytes::push_le(&mut out, 2835, 4);
    bytes::push_le(&mut out, 0, 4);
    bytes::push_le(&mut out, 0, 4);
    out
}

fn push_row(out: &mut Vec<u8>, frame: &Frame, row: u32)
    requires
        row < frame.height,
        frame.height * frame.pitch + frame.width * 4 <= usize::MAX,
    ensures
        final(out)@ == old(out)@ + bmp_row(*frame, row as int),
{
    let ghost before = out@;
    assert(row * frame.pitch + frame.pitch <= frame.height * frame.pitch) by (nonlinear_arith)
        requires
            row + 1 <= frame.height,
    ;
    assert(0 <= row * frame.pitch) by (nonlinear_arith);
    let start: usize = row as usize * frame.pitch as usize;
    let len: usize = frame.width as usize * 4;
    let end: usize = start + len;
    if end <= frame.bytes.len() {
        let part = bytes::copy_range(frame.bytes.as_slice(), start, end);
        bytes::push_all(out, part.as_slice());
    } else {
        let mut i: usize = 0;
        assert(out@ =~= before + Seq::new(0, |j: int| 0u8));
        while i < len
            invariant
                i <= len,
                out@ =~= before + Seq::new(i as nat, |j: int| 0u8),
            decreases len - i,
        {
            out.push(0);
            i = i + 1;
        }
    }
}

/// Writes a frame as a bitmap file.
pub fn write_dump_frame_bmp(frame: &Frame) -> (r: Vec<u8>)
    requires
        pixel_size(frame.width as int, frame.height as int) + 54 <= usize::MAX,
        frame.height * frame.pitch + frame.width * 4 <= usize::MAX,
    ensures
        r@ == bmp(*frame),
{
    assert(pixel_size(frame.width as int, frame.height as int) == (frame.width * 4)
        * frame.height);
    let width: u64 = frame.width as u64 * 4;
    assert(0 <= (frame.width * 4) * frame.height) by (nonlinear_arith);
    let size: u64 = width * frame.height as u64;
    let mut out = write_header(frame.width, frame.height, size);
    let ghost header = out@;
    let ghost goal = bmp_rows(*frame, frame.height as nat);
    let mut left: u32 = frame.height;
    assert(header + goal =~= out@ + bmp_rows(*frame, left as nat));
    while left > 0
        invariant
            left <= frame.height,
            frame.height * frame.pitch + frame.width * 4 <= usize::MAX,
            header + goal == out@ + bmp_rows(*frame, left as nat),
        decreases left,
    {
        let ghost before = out@;
        let ghost rest = bmp_rows(*frame, (left - 1) as nat);
        push_row(&mut out, frame, left - 1);
        assert(before + (bmp_row(*frame, left - 1) + rest) =~= out@ + rest);
        left = left - 1;
    }
    assert(out@ + bmp_rows(*frame, 0) =~= out@);
    out
}

proof fn lemma_header_len(width: nat, height: nat)
    ensures
        bmp_header(width, height).len() == 54,
{
    let size = pixel_size(width as int, height as int);
    bytes::lemma_le_bytes_len((size + 54) as nat, 4);
    bytes::lemma_le_bytes_len(0, 2);
    bytes::lemma_le_bytes_len(54, 4);
    bytes::lemma_le_bytes_len(40, 4);
    bytes::lemma_le_bytes_len(width, 4);
    bytes::lemma_le_bytes_len(height, 4);
    bytes::lemma_le_bytes_len(1, 2);
    bytes::lemma_le_bytes_len(32, 2);
    bytes::lemma_le_bytes_len(0, 4);
    bytes::lemma_le_bytes_len(size as nat, 4);
    bytes::lemma_le_bytes_len(2835, 4);
}

proof fn lemma_rows(frame: Frame, n: nat, row: int)
    requires
        0 <= row < n,
    ensures
        bmp_rows(frame, n).len() == n * (frame.width * 4),
        bmp_rows(frame, n).len() >= (n - row) * (frame.width * 4),
        bmp_rows(frame, n).subrange(
            (n - 1 - row) * (frame.width * 4),
            (n - row) * (frame.width * 4),
        ) == bmp_row(frame, row),
    decreases n,
{
    let w = frame.width * 4;
    let rest = bmp_rows(frame, (n - 1) as nat);
    let last = bmp_row(frame, n - 1);
    assert(last.len() == w) by {
        assert((n - 1) * frame.pitch + w - (n - 1) * frame.pitch == w);
        assert(0 <= (n - 1) * frame.pitch) by (nonlinear_arith)
            requires
                n >= 1,
        ;
    }
    assert(bmp_rows(frame, n) == last + rest);
    if n > 1 {
        lemma_rows(frame, (n - 1) as nat, if row < n - 1 {
            row
        } else {
            0
        });
    } else {
        assert(rest.len() == 0);
    }
    assert(n * w == (n - 1) * w + w) by (nonlinear_arith);
    assert((n - row) * w <= n * w) by (nonlinear_arith)
        requires
            row >= 0,
            w >= 0,
    ;
    assert((n - row) * w == (n - 1 - row) * w + w) by (nonlinear_arith);
    if row == n - 1 {
        assert((n - 1 - row) * w == 0) by (nonlinear_arith)
            requires
                row == n - 1,
        ;
        assert((last + rest).subrange(0, w) =~= last);
    } else {
        assert((n - 1 - row) * w == (n - 2 - row) * w + w) by (nonlinear_arith);
        assert(0 <= (n - 2 - row) * w) by (nonlinear_arith)
            requires
                row <= n - 2,
                w >= 0,
        ;
        assert((last + rest).subrange((n - 1 - row) * w, (n - row) * w) =~= rest.subrange(
            (n - 2 - row) * w,
            (n - 1 - row) * w,
        ));
    }
}

/// A bitmap file holds the rows of the frame from the last to the first, whole, behind its headers:
/// row `row` stands as far from the end as it stands from the beginning in the frame.
pub proof fn law_bitmap_holds_the_rows(frame: Frame, row: int)
    requires
        0 <= row < frame.height,
    ensures
        ({
            let w = frame.width * 4;
            let from = 54 + (frame.height - 1 - row) * w;
            &&& bmp(frame).len() == 54 + frame.height * w
            &&& bmp(frame).subrange(from, from + w) == bmp_row(frame, row)
        }),
{
    let w = frame.width * 4;
    let header = bmp_header(frame.width as nat, frame.height as nat);
    let rows = bmp_rows(frame, frame.height as nat);
    lemma_header_len(frame.width as nat, frame.height as nat);
    lemma_rows(frame, frame.height as nat, row);
    let at = (frame.height - 1 - row) * w;
    assert((frame.height - row) * w == at + w) by (nonlinear_arith)
        requires
            at == (frame.height - 1 - row) * w,
    ;
    assert(0 <= at) by (nonlinear_arith)
        requires
            at == (frame.height - 1 - row) * w,
            row <= frame.height - 1,
            w >= 0,
    ;
    assert((header + rows).subrange(54 + at, 54 + at + w) =~= rows.subrange(at, at + w));
}

/// Byte `b` of a frame's row stands in the bitmap file where its row stands, if the frame holds the
/// whole row; the place of a row that it does not hold is zero.
pub proof fn law_bitmap_holds_every_byte(frame: Frame, row: int, b: int)
    requires
        0 <= row < frame.height,
        0 <= b < frame.width * 4,
    ensures
        ({
            let at = 54 + (frame.height - 1 - row) * (frame.width * 4) + b;
            &&& 54 <= at < bmp(frame).len()
            &&& bmp(frame)[at] == if row * frame.pitch + frame.width * 4 <= frame.bytes@.len() {
                frame.bytes@[row * frame.pitch + b]
            } else {
                0
            }
        }),
{
    law_bitmap_holds_the_rows(frame, row);
    let w = frame.width * 4;
    let up = (frame.height - 1 - row) * w;
    let from = 54 + up;
    assert(0 <= up && up + w <= frame.height * w) by (nonlinear_arith)
        requires
            up == (frame.height - 1 - row) * w,
            0 <= row < frame.height,
            w >= 0,
    ;
    assert(0 <= row * frame.pitch) by (nonlinear_arith)
        requires
            row >= 0,
    ;
    let part = bmp(frame).subrange(from, from + w);
    assert(part[b] == bmp(frame)[from + b]);
    assert(part == bmp_row(frame, row));
}

/// The number in the four bytes at `i`, least significant first.
pub open spec fn le32(b: Seq<u8>, i: int) -> int {
    b[i] + 0x100 * b[i + 1] + 0x1_0000 * b[i + 2] + 0x100_0000 * b[i + 3]
}

/// The headers of a bitmap file name its format, its size, where the pixels begin, and the size of
/// the picture: the file is as long as it says.
pub proof fn law_bitmap_states_its_size(frame: Frame)
    requires
        54 + frame.height * (frame.width * 4) < 0x1_0000_0000,
    ensures
        ({
            let file = bmp(frame);
            &&& file[0] == 0x42 && file[1] == 0x4D
            &&& le32(file, 2) == file.len() == 54 + frame.height * (frame.width * 4)
            &&& le32(file, 10) == 54
            &&& le32(file, 14) == 40
            &&& le32(file, 18) == frame.width
            &&& le32(file, 22) == frame.height
            &&& file[26] == 1 && file[27] == 0 && file[28] == 32 && file[29] == 0
            &&& le32(file, 30) == 0
            &&& le32(file, 34) == frame.height * (frame.width * 4)
        }),
{
    let file = bmp(frame);
    let (width, height) = (frame.width as nat, frame.height as nat);
    let size = pixel_size(width as int, height as int);
    assert(size == frame.height * (frame.width * 4)) by (nonlinear_arith)
        requires
            size == frame.width * 4 * frame.height,
    ;
    assert(0 <= size) by (nonlinear_arith)
        requires
            size == frame.width * 4 * frame.height,
    ;
    let header = bmp_header(width, height);
    lemma_header_fields(width, height);
    if height > 0 {
        lemma_rows(frame, height, 0);
        assert(height * (frame.width * 4) == frame.height * (frame.width * 4));
    } else {
        assert(size == 0) by (nonlinear_arith)
            requires
                size == frame.width * 4 * frame.height,
                frame.height == 0,
        ;
    }
    assert(file.len() == 54 + size);
    assert(file.subrange(0, 54) =~= header);
    assert forall|k: int| 0 <= k < 54 implies #[trigger] file[k] == header[k] by {
        assert(file.subrange(0, 54)[k] == file[k]);
    }
}

#[verifier::rlimit(60)]
#[verifier::spinoff_prover]
proof fn lemma_header_fields(width: nat, height: nat)
    requires
        width < 0x1_0000_0000,
        height < 0x1_0000_0000,
        0 <= pixel_size(width as int, height as int),
        pixel_size(width as int, height as int) + 54 < 0x1_0000_0000,
    ensures
        ({
            let header = bmp_header(width, height);
            let size = pixel_size(width as int, height as int);
            &&& header.len() == 54
            &&& header[0] == 0x42 && header[1] == 0x4D
            &&& le32(header, 2) == size + 54
            &&& le32(header, 10) == 54
            &&& le32(header, 14) == 40
            &&& le32(header, 18) == width
            &&& le32(header, 22) == height
            &&& header[26] == 1 && header[27] == 0 && header[28] == 32 && header[29] == 0
            &&& le32(header, 30) == 0
            &&& le32(header, 34) == size
        }),
{
    let header = bmp_header(width, height);
    let size = pixel_size(width as int, height as int);
    lemma_header_len(width, height);
    bytes::lemma_le_bytes_len((size + 54) as nat, 4);
    bytes::lemma_le_bytes_len(0, 2);
    bytes::lemma_le_bytes_len(54, 4);
    bytes::lemma_le_bytes_len(40, 4);
    bytes::lemma_le_bytes_len(width, 4);
    bytes::lemma_le_bytes_len(height, 4);
    bytes::lemma_le_bytes_len(1, 2);
    bytes::lemma_le_bytes_len(32, 2);
    bytes::lemma_le_bytes_len(0, 4);
    bytes::lemma_le_bytes_len(size as nat, 4);
    bytes::lemma_le_bytes_len(2835, 4);
    assert(header.subrange(2, 6) =~= bytes::le_bytes((size + 54) as nat, 4));
    assert(header.subrange(10, 14) =~= bytes::le_bytes(54, 4));
    assert(header.subrange(14, 18) =~= bytes::le_bytes(40, 4));
    assert(header.subrange(18, 22) =~= bytes::le_bytes(width, 4));
    assert(header.subrange(22, 26) =~= bytes::le_bytes(height, 4));
    assert(header.subrange(26, 28) =~= bytes::le_bytes(1, 2));
    assert(header.subrange(28, 30) =~= bytes::le_bytes(32, 2));
    assert(header.subrange(30, 34) =~= bytes::le_bytes(0, 4));
    assert(header.subrange(34, 38) =~= bytes::le_bytes(size as nat, 4));
    lemma_le32(header, 2, (size + 54) as nat);
    lemma_le32(header, 10, 54);
    lemma_le32(header, 14, 40);
    lemma_le32(header, 18, width);
    lemma_le32(header, 22, height);
    lemma_le32(header, 30, 0);
    lemma_le32(header, 34, size as nat);
    lemma_le16(header, 26, 1);
    lemma_le16(header, 28, 32);
}

proof fn lemma_le16(b: Seq<u8>, i: int, n: nat)
    requires
        0 <= i,
        i + 2 <= b.len(),
        n < 0x100,
        b.subrange(i, i + 2) == bytes::le_bytes(n, 2),
    ensures
        b[i] == n,
        b[i + 1] == 0,
{
    reveal_with_fuel(bytes::le_bytes, 3);
    let part = b.subrange(i, i + 2);
    assert(part[0] == b[i] && part[1] == b[i + 1]);
    assert(bytes::le_bytes(n, 2) =~= seq![(n % 256) as u8, (n / 256 % 256) as u8]);
}

proof fn lemma_le32(b: Seq<u8>, i: int, n: nat)
    requires
        0 <= i,
        i + 4 <= b.len(),
        n < 0x1_0000_0000,
        b.subrange(i, i + 4) == bytes::le_bytes(n, 4),
    ensures
        le32(b, i) == n,
{
    bytes::law_four_bytes_hold_the_number(n);
    let part = b.subrange(i, i + 4);
    assert(part[0] == b[i] && part[1] == b[i + 1] && part[2] == b[i + 2] && part[3] == b[i + 3]);
}

/// The pixel of a frame, as the number its four bytes make, if the frame holds all of it.
pub open spec fn pixel(frame: Frame, row: int, col: int) -> Option<u32> {
    let at = row * frame.pitch + col * 4;
    if at + 4 <= frame.bytes@.len() {
        let b = frame.bytes@;
        Some((b[at] + b[at + 1] * 0x100 + b[at + 2] * 0x1_0000 + b[at + 3] * 0x100_0000) as u32)
    } else {
        None
    }
}

/// Whether a pixel is not black: one of its three colors is there, whatever the fourth byte says.
pub open spec fn is_drawn(pixel: u32) -> bool {
    pixel % 0x100_0000 != 0
}

/// The pixels of the first `col` columns of a row.
pub open spec fn row_pixels(frame: Frame, row: int, col: nat) -> Seq<u32>
    decreases col,
{
    if col == 0 {
        Seq::empty()
    } else {
        let before = row_pixels(frame, row, (col - 1) as nat);
        match pixel(frame, row, col - 1) {
            Some(p) => before.push(p),
            None => before,
        }
    }
}

/// The pixels of the first `row` rows.
pub open spec fn frame_pixels(frame: Frame, row: nat) -> Seq<u32>
    decreases row,
{
    if row == 0 {
        Seq::empty()
    } else {
        frame_pixels(frame, (row - 1) as nat) + row_pixels(frame, row - 1, frame.width as nat)
    }
}

/// How many pixels are not black.
pub open spec fn count_drawn(pixels: Seq<u32>) -> nat
    decreases pixels.len(),
{
    if pixels.len() == 0 {
        0
    } else {
        count_drawn(pixels.drop_last()) + if is_drawn(pixels.last()) {
            1nat
        } else {
            0
        }
    }
}

/// What a frame shows, in numbers.
#[derive(Debug, Clone, Copy, PartialEq, Eq, Structural)]
pub struct FrameSummary {
    pub non_black_pixels: u64,
    /// How many different pixels there are, counted up to [`MAX_COLORS`].
    pub distinct_colors: usize,
}

/// Whether a summary is that of these pixels.
pub open spec fn is_summary(s: FrameSummary, pixels: Seq<u32>) -> bool {
    &&& s.non_black_pixels == count_drawn(pixels)
    &&& s.distinct_colors == if pixels.to_set().len() <= MAX_COLORS {
        pixels.to_set().len()
    } else {
        MAX_COLORS as nat
    }
}

proof fn lemma_count(pixels: Seq<u32>)
    ensures
        count_drawn(pixels) <= pixels.len(),
    decreases pixels.len(),
{
    if pixels.len() > 0 {
        lemma_count(pixels.drop_last());
    }
}

proof fn lemma_pixel_count(frame: Frame, row: nat, col: nat)
    ensures
        row_pixels(frame, row as int, col).len() <= col,
        frame_pixels(frame, row).len() <= row * frame.width,
    decreases row, col,
{
    if col > 0 {
        lemma_row_count(frame, row as int, col);
    }
    if row > 0 {
        lemma_pixel_count(frame, (row - 1) as nat, 0);
        lemma_row_count(frame, row - 1, frame.width as nat);
        assert(row * frame.width == (row - 1) * frame.width + frame.width) by (nonlinear_arith);
    }
}

proof fn lemma_row_count(frame: Frame, row: int, col: nat)
    ensures
        row_pixels(frame, row, col).len() <= col,
    decreases col,
{
    if col > 0 {
        lemma_row_count(frame, row, (col - 1) as nat);
    }
}

/// What is known of the colors seen so far.
pub open spec fn tracks(seen: Set<u32>, pixels: Seq<u32>) -> bool {
    &&& seen.finite()
    &&& seen.len() <= MAX_COLORS
    &&& seen.subset_of(pixels.to_set())
    &&& seen.len() < MAX_COLORS ==> seen == pixels.to_set()
}

proof fn lemma_tracks(seen: Set<u32>, pixels: Seq<u32>, p: u32)
    requires
        tracks(seen, pixels),
    ensures
        seen.len() < MAX_COLORS ==> tracks(seen.insert(p), pixels.push(p)),
        seen.len() == MAX_COLORS ==> tracks(seen, pixels.push(p)),
{
    let next = pixels.push(p);
    assert(next.to_set() =~= pixels.to_set().insert(p)) by {
        assert forall|x: u32| #[trigger] next.to_set().contains(x) == pixels.to_set().insert(
            p,
        ).contains(x) by {
            if next.contains(x) {
                let i = choose|i: int| 0 <= i < next.len() && next[i] == x;
                if i < pixels.len() {
                    assert(pixels[i] == x);
                    assert(pixels.contains(x));
                }
            }
            if pixels.contains(x) {
                let i = choose|i: int| 0 <= i < pixels.len() && pixels[i] == x;
                assert(next[i] == x);
            }
            if x == p {
                assert(next[pixels.len() as int] == p);
            }
        }
    }
}

proof fn lemma_tracked_len(seen: Set<u32>, pixels: Seq<u32>)
    requires
        tracks(seen, pixels),
    ensures
        seen.len() == if pixels.to_set().len() <= MAX_COLORS {
            pixels.to_set().len()
        } else {
            MAX_COLORS as nat
        },
{
    vstd::seq_lib::seq_to_set_is_finite(pixels);
    vstd::set_lib::lemma_len_subset(seen, pixels.to_set());
}

fn read_pixel(frame: &Frame, row: u32, col: u32) -> (r: Option<u32>)
    ensures
        r == pixel(*frame, row as int, col as int),
{
    assert(row * frame.pitch <= 0xFFFF_FFFF * 0xFFFF_FFFF) by (nonlinear_arith)
        requires
            row <= 0xFFFF_FFFF,
            frame.pitch <= 0xFFFF_FFFF,
    ;
    assert(0 <= row * frame.pitch) by (nonlinear_arith);
    let at: u128 = row as u128 * frame.pitch as u128 + col as u128 * 4;
    if at + 4 > frame.bytes.len() as u128 {
        return None;
    }
    let i: usize = at as usize;
    let b0: u32 = frame.bytes[i] as u32;
    let b1: u32 = frame.bytes[i + 1] as u32;
    let b2: u32 = frame.bytes[i + 2] as u32;
    let b3: u32 = frame.bytes[i + 3] as u32;
    Some(b0 + b1 * 0x100 + b2 * 0x1_0000 + b3 * 0x100_0000)
}

/// Sums up what a frame shows.
pub fn frame_summary(frame: &Frame) -> (r: FrameSummary)
    ensures
        is_summary(r, frame_pixels(*frame, frame.height as nat)),
{
    broadcast use vstd::std_specs::hash::group_hash_axioms;

    let mut seen: HashSet<u32> = HashSet::new();
    let mut drawn: u64 = 0;
    let mut row: u32 = 0;
    assert(Seq::<u32>::empty().to_set() =~= Set::<u32>::empty());
    while row < frame.height
        invariant
            row <= frame.height,
            drawn == count_drawn(frame_pixels(*frame, row as nat)),
            tracks(seen@, frame_pixels(*frame, row as nat)),
        decreases frame.height - row,
    {
        broadcast use vstd::std_specs::hash::group_hash_axioms;

        let ghost above = frame_pixels(*frame, row as nat);
        let mut col: u32 = 0;
        assert(above + row_pixels(*frame, row as int, 0) =~= above);
        while col < frame.width
            invariant
                row < frame.height,
                col <= frame.width,
                above == frame_pixels(*frame, row as nat),
                drawn == count_drawn(above + row_pixels(*frame, row as int, col as nat)),
                tracks(seen@, above + row_pixels(*frame, row as int, col as nat)),
            decreases frame.width - col,
        {
            broadcast use vstd::std_specs::hash::group_hash_axioms;

            let ghost before = above + row_pixels(*frame, row as int, col as nat);
            let ghost next = above + row_pixels(*frame, row as int, (col + 1) as nat);
            match read_pixel(frame, row, col) {
                None => {
                    assert(next =~= before);
                },
                Some(p) => {
                    proof {
                        assert(next =~= before.push(p));
                        assert(before.push(p).drop_last() =~= before);
                        lemma_count(before);
                        lemma_pixel_count(*frame, row as nat, col as nat);
                        assert(row * frame.width <= 0xFFFF_FFFE * 0xFFFF_FFFF)
                            by (nonlinear_arith)
                            requires
                                row <= 0xFFFF_FFFE,
                                frame.width <= 0xFFFF_FFFF,
                        ;
                        lemma_tracks(seen@, before, p);
                    }
                    if p % 0x100_0000 != 0 {
                        drawn = drawn + 1;
                    }
                    if seen.len() < MAX_COLORS {
                        let _ = seen.insert(p);
                    }
                },
            }
            col = col + 1;
        }
        row = row + 1;
    }
    proof {
        lemma_tracked_len(seen@, frame_pixels(*frame, frame.height as nat));
    }
    FrameSummary { non_black_pixels: drawn, distinct_colors: seen.len() }
}

/// A pixel counts as drawn if its blue, green or red byte is not zero; its fourth byte does not
/// matter. A pixel that the frame does not hold as a whole does not count.
pub proof fn law_drawn_pixels_have_color(frame: Frame, row: int, col: int)
    requires
        0 <= row,
        0 <= col,
    ensures
        ({
            let at = row * frame.pitch + col * 4;
            &&& pixel(frame, row, col) is Some <==> at + 4 <= frame.bytes@.len()
            &&& pixel(frame, row, col) matches Some(p) ==> (is_drawn(p) <==> frame.bytes@[at] != 0
                || frame.bytes@[at + 1] != 0 || frame.bytes@[at + 2] != 0)
        }),
{
}

/// Each pixel of the frame that is held as a whole is among the pixels that are summed up, and there
/// are no others.
pub proof fn law_every_pixel_is_summed_up(frame: Frame, row: int, col: int)
    requires
        0 <= row < frame.height,
        0 <= col < frame.width,
    ensures
        pixel(frame, row, col) matches Some(p) ==> frame_pixels(frame, frame.height as nat).contains(
            p,
        ),
        (forall|r: int, c: int|
            0 <= r < frame.height && 0 <= c < frame.width ==> #[trigger] pixel(frame, r, c) is Some)
            ==> frame_pixels(frame, frame.height as nat).len() == frame.height * frame.width,
{
    if pixel(frame, row, col) is Some {
        lemma_row_has(frame, row, frame.width as nat, col);
        lemma_frame_has(frame, frame.height as nat, row, pixel(frame, row, col)->0);
    }
    if forall|r: int, c: int|
        0 <= r < frame.height && 0 <= c < frame.width ==> #[trigger] pixel(frame, r, c) is Some {
        lemma_frame_full(frame, frame.height as nat);
    }
}

proof fn lemma_row_has(frame: Frame, row: int, n: nat, col: int)
    requires
        0 <= col < n,
        pixel(frame, row, col) is Some,
    ensures
        row_pixels(frame, row, n).contains(pixel(frame, row, col)->0),
    decreases n,
{
    let p = pixel(frame, row, col)->0;
    let all = row_pixels(frame, row, n);
    let before = row_pixels(frame, row, (n - 1) as nat);
    if col == n - 1 {
        assert(all[before.len() as int] == p);
    } else {
        lemma_row_has(frame, row, (n - 1) as nat, col);
        let k = choose|k: int| 0 <= k < before.len() && before[k] == p;
        assert(all[k] == p);
    }
}

proof fn lemma_frame_has(frame: Frame, n: nat, row: int, p: u32)
    requires
        0 <= row < n,
        row_pixels(frame, row, frame.width as nat).contains(p),
    ensures
        frame_pixels(frame, n).contains(p),
    decreases n,
{
    let before = frame_pixels(frame, (n - 1) as nat);
    let last = row_pixels(frame, n - 1, frame.width as nat);
    let all = frame_pixels(frame, n);
    if row == n - 1 {
        let k = choose|k: int| 0 <= k < last.len() && last[k] == p;
        assert(all[before.len() + k] == p);
    } else {
        lemma_frame_has(frame, (n - 1) as nat, row, p);
        let k = choose|k: int| 0 <= k < before.len() && before[k] == p;
        assert(all[k] == p);
    }
}

proof fn lemma_frame_full(frame: Frame, n: nat)
    requires
        n <= frame.height,
        forall|r: int, c: int|
            0 <= r < frame.height && 0 <= c < frame.width ==> #[trigger] pixel(frame, r, c) is Some,
    ensures
        frame_pixels(frame, n).len() == n * frame.width,
    decreases n,
{
    if n > 0 {
        lemma_frame_full(frame, (n - 1) as nat);
        lemma_row_full(frame, n - 1, frame.width as nat);
        assert(n * frame.width == (n - 1) * frame.width + frame.width) by (nonlinear_arith);
    } else {
        assert(n * frame.width == 0) by (nonlinear_arith)
            requires
                n == 0,
        ;
    }
}

proof fn lemma_row_full(frame: Frame, row: int, n: nat)
    requires
        n <= frame.width,
        0 <= row < frame.height,
        forall|r: int, c: int|
            0 <= r < frame.height && 0 <= c < frame.width ==> #[trigger] pixel(frame, r, c) is Some,
    ensures
        row_pixels(frame, row, n).len() == n,
    decreases n,
{
    if n > 0 {
        lemma_row_full(frame, row, (n - 1) as nat);
        assert(pixel(frame, row, n - 1) is Some);
    }
}

/// A summary tells apart as many colors as there are, up to 64: none without pixels, one if all pixels
/// are alike, and more if two differ.
pub proof fn law_colors_are_told_apart(s: FrameSummary, pixels: Seq<u32>, i: int, j: int)
    requires
        is_summary(s, pixels),
    ensures
        s.distinct_colors <= 64,
        pixels.len() == 0 ==> s.distinct_colors == 0,
        pixels.len() > 0 ==> s.distinct_colors >= 1,
        0 <= i < pixels.len() && 0 <= j < pixels.len() && pixels[i] != pixels[j]
            ==> s.distinct_colors >= 2,
        pixels.len() > 0 && (forall|k: int| 0 <= k < pixels.len() ==> #[trigger] pixels[k]
            == pixels[0]) ==> s.distinct_colors == 1,
{
    let all = pixels.to_set();
    vstd::seq_lib::seq_to_set_is_finite(pixels);
    if pixels.len() == 0 {
        assert(all =~= Set::<u32>::empty());
    } else {
        assert(all.contains(pixels[0]));
        let one = Set::<u32>::empty().insert(pixels[0]);
        assert(one.subset_of(all));
        vstd::set_lib::lemma_len_subset(one, all);
        if forall|k: int| 0 <= k < pixels.len() ==> #[trigger] pixels[k] == pixels[0] {
            assert(all =~= one);
        }
    }
    if 0 <= i < pixels.len() && 0 <= j < pixels.len() && pixels[i] != pixels[j] {
        let two = Set::<u32>::empty().insert(pixels[i]).insert(pixels[j]);
        assert(all.contains(pixels[i]) && all.contains(pixels[j]));
        assert(two.subset_of(all));
        vstd::set_lib::lemma_len_subset(two, all);
    }
}

/// Drawing one more pixel changes the count by one if it has color and not otherwise.
pub proof fn law_drawn_pixels_are_counted(pixels: Seq<u32>, p: u32)
    ensures
        count_drawn(Seq::<u32>::empty()) == 0,
        p % 0x100_0000 != 0 ==> count_drawn(pixels.push(p)) == count_drawn(pixels) + 1,
        p % 0x100_0000 == 0 ==> count_drawn(pixels.push(p)) == count_drawn(pixels),
{
    assert(pixels.push(p).drop_last() =~= pixels);
}

/// Every how many frames one is written: a positive number, or else 1.
pub fn dump_every(value: Option<&str>) -> (r: usize)
    ensures
        r == match value {
            Some(v) => match numbers::unsigned_value(v@, 10, usize::MAX as nat) {
                Some(n) => if n > 0 {
                    n as usize
                } else {
                    1
                },
                None => 1,
            },
            None => 1,
        },
        r > 0,
{
    match value {
        None => 1,
        Some(v) => match numbers::parse_unsigned(v, 10, usize::MAX as u64) {
            None => 1,
            Some(n) => if n > 0 {
                n as usize
            } else {
                1
            },
        },
    }
}

/// What is done with a frame for diagnosis.
#[derive(Debug, PartialEq, Eq)]
pub enum DumpStep {
    /// Nothing.
    Skip,
    /// Its summary is told.
    Summary,
    /// Its summary is told, and it is written to this file.
    Write { path: String },
}

/// The name of the file for frame number `n`.
pub open spec fn dump_path(base: Option<&str>, n: usize) -> Seq<char> {
    match base {
        Some(b) => b@ + "."@ + numbers::digits(n as nat, 10),
        None => "litebox_frame_dump_"@ + numbers::digits(n as nat, 10) + ".bmp"@,
    }
}

/// Decides what is done with frame number `n`: every frame counts, one in `every` is looked at, and
/// it is written unless only its summary is wanted.
pub fn dump_frame_diagnostic(
    n: usize,
    every: usize,
    metadata_only: bool,
    base: Option<&str>,
) -> (r: DumpStep)
    requires
        every > 0,
    ensures
        if n as int % every as int != 0 {
            r is Skip
        } else if metadata_only {
            r is Summary
        } else {
            r matches DumpStep::Write { path } && path@ == dump_path(base, n)
        },
{
    if n % every != 0 {
        return DumpStep::Skip;
    }
    if metadata_only {
        return DumpStep::Summary;
    }
    let path = match base {
        Some(b) => {
            let mut out = b.to_owned();
            out.append(".");
            numbers::push_digits(&mut out, n as u64, 10);
            out
        },
        None => {
            let mut out = "litebox_frame_dump_".to_owned();
            numbers::push_digits(&mut out, n as u64, 10);
            out.append(".bmp");
            out
        },
    };
    DumpStep::Write { path }
}

/// Different frames are written to different files.
pub proof fn law_dump_paths_differ(base: Option<&str>, a: usize, b: usize)
    requires
        a != b,
    ensures
        dump_path(base, a) != dump_path(base, b),
{
    numbers::lemma_digits_roundtrip(a as nat, 10);
    numbers::lemma_digits_roundtrip(b as nat, 10);
    let da = numbers::digits(a as nat, 10);
    let db = numbers::digits(b as nat, 10);
    if dump_path(base, a) == dump_path(base, b) {
        match base {
            Some(name) => {
                let n = (name@ + "."@).len() as int;
                assert(dump_path(base, a).skip(n) =~= da);
                assert(dump_path(base, b).skip(n) =~= db);
            },
            None => {
                let n = "litebox_frame_dump_"@.len() as int;
                let end = ".bmp"@.len();
                assert(dump_path(base, a).len() == n + da.len() + end);
                assert(dump_path(base, b).len() == n + db.len() + end);
                assert(dump_path(base, a).subrange(n, n + da.len()) =~= da);
                assert(dump_path(base, b).subrange(n, n + db.len()) =~= db);
            },
        }
    }
}

/// How many frames were to be written, and how many of them were dropped because others waited.
#[derive(Debug, Clone, Copy, PartialEq, Eq, Structural)]
pub struct DumpCounters {
    pub enqueued: usize,
    pub dropped: usize,
}

impl DumpCounters {
    /// The line that is told at the end of a run, also when nothing was written or dropped.
    pub open spec fn report(self) -> Seq<char> {
        "[LITEBOX_DUMP_FRAMES] end of run: "@ + numbers::digits(self.enqueued as nat, 10)
            + " frames enqueued for writing, "@ + numbers::digits(self.dropped as nat, 10)
            + " dropped due to writer backpressure"@
    }

    /// Counts a frame that was to be written; `accepted` says whether there was room for it.
    pub fn count(&mut self, accepted: bool)
        ensures
            final(self).enqueued == if old(self).enqueued == usize::MAX {
                0
            } else {
                (old(self).enqueued + 1) as usize
            },
            final(self).dropped == if accepted {
                old(self).dropped
            } else if old(self).dropped == usize::MAX {
                0
            } else {
                (old(self).dropped + 1) as usize
            },
    {
        self.enqueued = self.enqueued.wrapping_add(1);
        if !accepted {
            self.dropped = self.dropped.wrapping_add(1);
        }
    }
}

/// The line that is told at the end of a run.
pub fn dump_frame_diagnostic_report_drops(counters: DumpCounters) -> (r: String)
    ensures
        r@ == counters.report(),
{
    let mut out = "[LITEBOX_DUMP_FRAMES] end of run: ".to_owned();
    numbers::push_digits(&mut out, counters.enqueued as u64, 10);
    out.append(" frames enqueued for writing, ");
    numbers::push_digits(&mut out, counters.dropped as u64, 10);
    out.append(" dropped due to writer backpressure");
    out
}

/// The window passes input on as it is: of each event [`PresenterApp::window_event`] gives what the
/// function for that kind of input gives for the event's own values, and the window stays as it was.
pub proof fn law_window_passes_input_on(
    app: &mut PresenterApp,
    event: WindowInput,
    r: WindowStep,
    dx: i32,
    dy: i32,
    motion: Option<InputSignal>,
    steps: i32,
    wheel: Option<InputSignal>,
)
    requires
        call_ensures(PresenterApp::window_event, (app, event, true), r),
        call_ensures(motion_signal, (dx, dy), motion),
        call_ensures(wheel_signal, (steps,), wheel),
    ensures
        event == (WindowInput::Motion { dx, dy }) ==> r == match motion {
            Some(signal) => WindowStep::Input(signal),
            None => WindowStep::Nothing,
        },
        event == (WindowInput::Motion { dx, dy }) && (dx != 0 || dy != 0) ==> r == WindowStep::Input(
            InputSignal::RelMotion(dx, dy),
        ),
        event == (WindowInput::Wheel { steps }) ==> r == match wheel {
            Some(signal) => WindowStep::Input(signal),
            None => WindowStep::Nothing,
        },
        r is Input ==> *final(app) == *old(app),
{
}

/// The window passes keys and buttons on as the functions for them give them.
pub proof fn law_window_passes_keys_on(
    app: &mut PresenterApp,
    event: WindowInput,
    listening: bool,
    r: WindowStep,
    key: Option<Key>,
    button: Option<Button>,
    pressed: bool,
    repeat: bool,
    key_signaled: Option<InputSignal>,
    button_signaled: Option<InputSignal>,
)
    requires
        call_ensures(PresenterApp::window_event, (app, event, listening), r),
        call_ensures(key_signal, (listening, key, pressed, repeat), key_signaled),
        call_ensures(button_signal, (listening, button, pressed), button_signaled),
    ensures
        event == (WindowInput::Key { key, pressed, repeat }) ==> r == match key_signaled {
            Some(signal) => WindowStep::Input(signal),
            None => WindowStep::Nothing,
        },
        event == (WindowInput::Button { button, pressed }) ==> r == match button_signaled {
            Some(signal) => WindowStep::Input(signal),
            None => WindowStep::Nothing,
        },
        !listening ==> key_signaled is None && button_signaled is None,
{
}

/// The newest frame is the one that is shown: a frame that is sent is what is taken next, in the
/// place of one that was not taken, and is taken once.
pub proof fn law_newest_frame_is_taken(
    slot: &mut FrameSlot,
    frame: Frame,
    later: &mut FrameSlot,
    taken: Option<Frame>,
    last: &mut FrameSlot,
    again: Option<Frame>,
)
    requires
        call_ensures(FrameSlot::send, (slot, frame), ()),
        *old(later) == *final(slot),
        call_ensures(FrameSlot::take_pending, (later,), taken),
        *old(last) == *final(later),
        call_ensures(FrameSlot::take_pending, (last,), again),
    ensures
        taken == Some(frame),
        again is None,
        final(last).free_buffers@ == final(slot).free_buffers@,
{
}

/// A frame that wakes the window is the one that it shows from then on, and is drawn if the window
/// can draw; hiding or showing the window changes nothing about its frame.
pub proof fn law_new_frames_are_drawn(
    app: &mut PresenterApp,
    command: PresenterCommand,
    latest: Option<Frame>,
    r: UserStep,
    visible: bool,
)
    requires
        call_ensures(PresenterApp::user_event, (app, command, latest), r),
    ensures
        command == PresenterCommand::Wake && latest is Some ==> final(app).last_frame == latest
            && r.new_frame && r.redraw == old(app).ready,
        command == PresenterCommand::Wake && latest is None ==> final(app).last_frame
            == old(app).last_frame && !r.redraw && !r.new_frame,
        command == PresenterCommand::SetVisible(visible) ==> final(app).last_frame
            == old(app).last_frame && (old(app).ready ==> r.set_visible == Some(visible)
            && r.redraw == visible),
{
}

/// Two frames of one size go to different textures, one after the other, and a frame of another size
/// has the textures made anew for it.
pub proof fn law_frames_alternate(
    app: &mut PresenterApp,
    width: u32,
    height: u32,
    first: Option<PresentPlan>,
    later: &mut PresenterApp,
    w: u32,
    h: u32,
    second: Option<PresentPlan>,
)
    requires
        old(app).wf(),
        old(app).ready,
        call_ensures(PresenterApp::present, (app, width, height), first),
        *old(later) == *final(app),
        call_ensures(PresenterApp::present, (later, w, h), second),
    ensures
        first is Some && second is Some,
        second->0.rebuild <==> (w, h) != (width, height),
        (w, h) == (width, height) ==> second->0.index != first->0.index,
        first->0.warn ==> !second->0.warn,
        first->0.warn ==> (width, height) != old(app).surface_size,
{
}

/// A window that can draw for the first time has its size and draws what came before; a later start
/// changes nothing. A new size is taken over unless it is one without extent.
pub proof fn law_windows_know_their_size(
    app: &mut PresenterApp,
    width: u32,
    height: u32,
    draws: bool,
    later: &mut PresenterApp,
    w: u32,
    h: u32,
    changed: bool,
)
    requires
        old(app).wf(),
        !old(app).ready,
        call_ensures(PresenterApp::resumed, (app, width, height), draws),
        *old(later) == *final(app),
        call_ensures(PresenterApp::resized, (later, w, h), changed),
    ensures
        draws <==> old(app).last_frame is Some,
        final(app).surface_size == (width, height),
        changed <==> w > 0 && h > 0,
        changed ==> final(later).surface_size == (w, h),
        !changed ==> final(later).surface_size == (width, height),
        final(later).last_frame == old(app).last_frame,
{
}

/// As much of a frame is in view as both the window and the frame have.
pub proof fn law_visible_part_fits_both(app: &PresenterApp, width: u32, height: u32, r: (u32, u32))
    requires
        call_ensures(PresenterApp::visible_extent, (app, width, height), r),
    ensures
        r.0 <= width && r.0 <= app.surface_size.0,
        r.1 <= height && r.1 <= app.surface_size.1,
        r.0 == width || r.0 == app.surface_size.0,
        r.1 == height || r.1 == app.surface_size.1,
{
}

/// A kept buffer is given out again, empty: the buffer of a frame that was never shown is what the
/// next frame is put into.
pub proof fn law_buffers_are_used_again(
    slot: &mut FrameSlot,
    frame: Frame,
    later: &mut FrameSlot,
    buffer: Vec<u8>,
)
    requires
        old(slot).wf(),
        old(slot).pending is Some,
        old(slot).free_buffers@.len() < 4,
        call_ensures(FrameSlot::send, (slot, frame), ()),
        *old(later) == *final(slot),
        call_ensures(FrameSlot::take_free_buffer, (later,), buffer),
    ensures
        buffer@.len() == 0,
        final(later).free_buffers@ == old(slot).free_buffers@,
        final(later).pending == Some(frame),
{
}

/// Every so-manieth frame is looked at, the first one among them, and is written unless only its
/// summary is wanted.
pub proof fn law_frames_are_dumped_in_turn(
    n: usize,
    every: usize,
    metadata_only: bool,
    base: Option<&str>,
    r: DumpStep,
)
    requires
        every > 0,
        call_ensures(dump_frame_diagnostic, (n, every, metadata_only, base), r),
    ensures
        n == 0 || every == 1 || n == every ==> !(r is Skip),
        0 < n < every ==> r is Skip,
        r is Summary ==> metadata_only,
        r is Write ==> !metadata_only,
{
    if every == 1 {
        assert(n as int % 1 == 0);
    }
    if n == every {
        vstd::arithmetic::div_mod::lemma_mod_self_0(n as int);
    }
    if n < every {
        vstd::arithmetic::div_mod::lemma_small_mod(n as nat, every as nat);
    }
}

/// The mode that is chosen is one that is wanted, if any is, and the earliest of those.
pub proof fn law_wanted_modes_are_chosen(is_wanted: &[bool], r: usize, k: int, mailbox: bool)
    requires
        is_wanted@.len() > 0,
        call_ensures(choose_mode, (is_wanted,), r),
        call_ensures(choose_mailbox, (is_wanted,), mailbox),
        0 <= k < is_wanted@.len(),
    ensures
        is_wanted@[k] ==> is_wanted@[r as int] && r <= k && mailbox,
        mailbox ==> is_wanted@[r as int],
        r < is_wanted@.len(),
{
    if is_wanted@[k] {
        assert(is_wanted@.contains(true));
        if r > k {
            assert(!is_wanted@[k]);
        }
    }
}

/// Every frame that was to be written is counted, and one for which there was no room as dropped
/// too.
pub proof fn law_dropped_frames_are_counted(c: &mut DumpCounters, accepted: bool)
    requires
        old(c).enqueued < usize::MAX,
        old(c).dropped < usize::MAX,
        call_ensures(DumpCounters::count, (c, accepted), ()),
    ensures
        final(c).enqueued - old(c).enqueued == 1,
        accepted <==> final(c).dropped == old(c).dropped,
        !accepted ==> final(c).dropped - old(c).dropped == 1,
{
}

/// The distance between the frames looked at is read as it is written, and every frame is looked at
/// without one.
pub proof fn law_written_distances_are_read(n: usize, v: &str, r: usize, none: usize)
    requires
        v@ == numbers::digits(n as nat, 10),
        call_ensures(dump_every, (Some(v),), r),
        call_ensures(dump_every, (None::<&str>,), none),
    ensures
        n > 0 ==> r == n,
        n == 0 ==> r == 1,
        none == 1,
{
    numbers::lemma_unsigned_roundtrip(n as nat, 10, usize::MAX as nat);
}

} // verus!
