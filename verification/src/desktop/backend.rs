//! The state of the desktop, and what happens to it as the app comes and goes.

use std::collections::HashMap;

use vstd::prelude::*;

use crate::numbers::{dec, to_dec};

verus! {

/// What the fingers on the screen are doing.
#[derive(Debug, Clone, Copy, PartialEq, Eq, Structural)]
pub enum TouchMode {
    /// Still within touch slop and the long-press timeout: could become anything.
    Undecided,
    /// Moved past touch slop before the long press fired.
    Scroll,
    /// The long-press timeout elapsed without a move; no button was sent yet.
    LongPress,
    /// Moved after a long press: the left button is held down.
    Drag,
}

/// A place on the screen, as the bits of its two coordinates.
#[derive(Clone, Copy, PartialEq, Eq, Structural)]
pub struct Position {
    pub x: u64,
    pub y: u64,
}

/// The state of the desktop.
pub struct WaylandBackend {
    /// Whether there is a renderer.
    pub rendering: bool,
    pub key_counter: u32,
    /// The fingers on the screen, by their ids.
    pub touch_points: HashMap<u64, Position>,
    /// The centre of the fingers at the last scroll.
    pub scroll_centroid: Option<Position>,
    /// What the current gesture has been resolved to.
    pub touch_mode: TouchMode,
    /// Where the first finger of the gesture landed.
    pub touch_down_position: Option<Position>,
    /// When it landed, in milliseconds.
    pub touch_down_time: Option<u64>,
    pub touch_slop_px: i32,
    pub long_press_timeout_ms: u64,
    /// Whether a button press is held that stands for a finger.
    pub pointer_pressed: bool,
}

/// The state of the desktop over views.
pub struct BackendView {
    pub rendering: bool,
    pub key_counter: u32,
    pub touch_points: Map<u64, Position>,
    pub scroll_centroid: Option<Position>,
    pub touch_mode: TouchMode,
    pub touch_down_position: Option<Position>,
    pub touch_down_time: Option<u64>,
    pub touch_slop_px: i32,
    pub long_press_timeout_ms: u64,
    pub pointer_pressed: bool,
}

impl View for WaylandBackend {
    type V = BackendView;

    open spec fn view(&self) -> BackendView {
        BackendView {
            rendering: self.rendering,
            key_counter: self.key_counter,
            touch_points: self.touch_points@,
            scroll_centroid: self.scroll_centroid,
            touch_mode: self.touch_mode,
            touch_down_position: self.touch_down_position,
            touch_down_time: self.touch_down_time,
            touch_slop_px: self.touch_slop_px,
            long_press_timeout_ms: self.long_press_timeout_ms,
            pointer_pressed: self.pointer_pressed,
        }
    }
}

impl BackendView {
    /// The state without a gesture.
    pub open spec fn untouched(self) -> BackendView {
        BackendView {
            touch_points: Map::empty(),
            scroll_centroid: None,
            touch_mode: TouchMode::Undecided,
            touch_down_position: None,
            touch_down_time: None,
            ..self
        }
    }

    /// The state once the app is in the background: nothing is rendered, and no
    /// key, finger or button is held.
    pub open spec fn suspended(self) -> BackendView {
        BackendView { rendering: false, key_counter: 0, pointer_pressed: false, ..self.untouched() }
    }
}

impl WaylandBackend {
    /// The state of a desktop that was just built.
    pub fn new(touch_slop_px: i32, long_press_timeout_ms: u64) -> (r: WaylandBackend)
        ensures
            r@ == (BackendView {
                rendering: false,
                key_counter: 0,
                touch_points: Map::empty(),
                scroll_centroid: None,
                touch_mode: TouchMode::Undecided,
                touch_down_position: None,
                touch_down_time: None,
                touch_slop_px,
                long_press_timeout_ms,
                pointer_pressed: false,
            }),
    {
        WaylandBackend {
            rendering: false,
            key_counter: 0,
            touch_points: HashMap::new(),
            scroll_centroid: None,
            touch_mode: TouchMode::Undecided,
            touch_down_position: None,
            touch_down_time: None,
            touch_slop_px,
            long_press_timeout_ms,
            pointer_pressed: false,
        }
    }

    /// Forgets the gesture. A button that is pressed has to be released before.
    pub fn reset_touch_state(&mut self)
        ensures
            final(self)@ == old(self)@.untouched(),
    {
        self.touch_points.clear();
        self.scroll_centroid = None;
        self.touch_mode = TouchMode::Undecided;
        self.touch_down_position = None;
        self.touch_down_time = None;
    }

    /// Takes up that the app goes to the background.
    pub fn suspended(&mut self)
        ensures
            final(self)@ == old(self)@.suspended(),
    {
        self.rendering = false;
        self.key_counter = 0;
        self.reset_touch_state();
        self.pointer_pressed = false;
    }
}

/// What the app shows.
pub enum Backend {
    /// A page: the progress of the setup at this port, or that the device is not
    /// supported.
    WebView { unsupported: bool, port: u16 },
    /// The desktop.
    Wayland(WaylandBackend),
}

/// What the caller does when the app comes to the foreground.
pub enum Resume {
    /// Show the page at this address; injected keys are not taken.
    ShowPage(String),
    /// Make a renderer, then configure the output.
    Bind,
    /// Configure the output: the renderer is there.
    Configure,
}

/// What the caller does once it tried to make a renderer.
#[derive(Clone, Copy, PartialEq, Eq, Structural)]
pub enum Bound {
    /// Configure the output, take injected keys, draw, and start the session and
    /// the audio services.
    Go,
    /// Take no injected keys, and wait.
    Wait,
}

/// What the caller does with an event of the window.
#[derive(Clone, Copy, PartialEq, Eq, Structural)]
pub enum OnWindow {
    Exit,
    Ignore,
    Handle,
}

/// The address of the page that is shown.
pub open spec fn page_url(unsupported: bool, port: u16) -> Seq<char> {
    if unsupported {
        "file:///android_asset/unsupported.html"@
    } else {
        "file:///android_asset/setup-progress.html?port="@ + dec(port as nat)
    }
}

impl Backend {
    /// Takes up that the app comes to the foreground.
    pub fn resumed(&self) -> (r: Resume)
        ensures
            match *self {
                Backend::WebView { unsupported, port } => r is ShowPage && r->ShowPage_0@
                    == page_url(unsupported, port),
                Backend::Wayland(b) => if b.rendering {
                    r is Configure
                } else {
                    r is Bind
                },
            },
    {
        match self {
            Backend::WebView { unsupported, port } => {
                if *unsupported {
                    Resume::ShowPage("file:///android_asset/unsupported.html".to_owned())
                } else {
                    let n = to_dec(*port as u64);
                    let mut url = "file:///android_asset/setup-progress.html?port=".to_owned();
                    url.append(n.as_str());
                    Resume::ShowPage(url)
                }
            },
            Backend::Wayland(b) => {
                if b.rendering {
                    Resume::Configure
                } else {
                    Resume::Bind
                }
            },
        }
    }

    /// Says what is done with an event of the window. Without a renderer only a
    /// request to close is taken.
    pub fn window_event(&self, close_requested: bool) -> (r: OnWindow)
        ensures
            r == (match *self {
                Backend::WebView { .. } => OnWindow::Ignore,
                Backend::Wayland(b) => if b.rendering {
                    OnWindow::Handle
                } else if close_requested {
                    OnWindow::Exit
                } else {
                    OnWindow::Ignore
                },
            }),
    {
        match self {
            Backend::WebView { .. } => OnWindow::Ignore,
            Backend::Wayland(b) => {
                if b.rendering {
                    OnWindow::Handle
                } else if close_requested {
                    OnWindow::Exit
                } else {
                    OnWindow::Ignore
                }
            },
        }
    }

    /// Takes up that the app goes to the background. True where the audio
    /// services have to be stopped.
    pub fn suspended(&mut self) -> (r: bool)
        ensures
            match *old(self) {
                Backend::WebView { .. } => !r && *final(self) == *old(self),
                Backend::Wayland(b) => r && (*final(self) matches Backend::Wayland(c) && c@
                    == b@.suspended()),
            },
    {
        match self {
            Backend::WebView { .. } => false,
            Backend::Wayland(b) => {
                b.suspended();
                true
            },
        }
    }
}

impl WaylandBackend {
    /// Takes up whether a renderer could be made.
    pub fn bound(&mut self, made: bool) -> (r: Bound)
        ensures
            final(self)@ == (BackendView { rendering: old(self)@.rendering || made, ..old(self)@ }),
            r == (if made || old(self)@.rendering {
                Bound::Go
            } else {
                Bound::Wait
            }),
    {
        if made {
            self.rendering = true;
        }
        if self.rendering {
            Bound::Go
        } else {
            Bound::Wait
        }
    }
}

/// Going to the background leaves nothing held, and doing so again changes nothing.
pub proof fn law_suspending_lets_go(s: BackendView)
    ensures
        s.suspended().touch_points == Map::<u64, Position>::empty(),
        !s.suspended().pointer_pressed,
        s.suspended().touch_mode == TouchMode::Undecided,
        s.suspended().suspended() == s.suspended(),
{
}

/// Going to the background drops the renderer and forgets keys, fingers and
/// buttons; what the device says of gestures stays. Forgetting a gesture alone
/// leaves the renderer, the keys and the buttons.
pub proof fn law_suspending_keeps_what_the_device_says(s: BackendView)
    ensures
        s.suspended() == (BackendView {
            rendering: false,
            key_counter: 0,
            touch_points: Map::empty(),
            scroll_centroid: None,
            touch_mode: TouchMode::Undecided,
            touch_down_position: None,
            touch_down_time: None,
            touch_slop_px: s.touch_slop_px,
            long_press_timeout_ms: s.long_press_timeout_ms,
            pointer_pressed: false,
        }),
        s.untouched() == (BackendView {
            rendering: s.rendering,
            key_counter: s.key_counter,
            pointer_pressed: s.pointer_pressed,
            ..s.suspended()
        }),
{
}

/// The page shows the progress of the setup at its port, or that the device is
/// not supported.
pub proof fn law_the_page_is_given_its_port(port: u16)
    ensures
        page_url(true, port) == "file:///android_asset/unsupported.html"@,
        page_url(false, port) == "file:///android_asset/setup-progress.html?port="@ + dec(
            port as nat,
        ),
{
}

} // verus!
