//! The daemon's window: it starts and stops the daemon, and hides in the tray
//! instead of closing while the daemon runs.
use vstd::prelude::*;
use vstd::string::*;
use crate::number::{dec, print_u64};
use crate::server::{port_of, typed_port};
use crate::text::{concat2, concat3, trim};

verus! {

/// The daemon's window.
pub struct ServerWindow {
    pub port: String,
    pub token: String,
    pub ffmpeg: String,
    /// The daemon runs.
    pub running: bool,
    /// The window is in the tray.
    pub hidden: bool,
    pub status: String,
}

/// The contents of a [`ServerWindow`].
#[verifier::ext_equal]
pub struct ServerWindowView {
    pub port: Seq<char>,
    pub token: Seq<char>,
    pub ffmpeg: Seq<char>,
    pub running: bool,
    pub hidden: bool,
    pub status: Seq<char>,
}

/// What becomes of a window that is asked to close.
#[derive(Clone, Copy, PartialEq, Eq, Structural, Debug)]
pub enum Closing {
    /// It goes to the tray.
    Hide,
    /// The program ends.
    Exit,
}

impl ServerWindow {
    pub open spec fn view(&self) -> ServerWindowView {
        ServerWindowView {
            port: self.port@,
            token: self.token@,
            ffmpeg: self.ffmpeg@,
            running: self.running,
            hidden: self.hidden,
            status: self.status@,
        }
    }

    /// A window for a daemon that is stopped. `token` is the one that the
    /// environment gives.
    pub fn new(ffmpeg: &str, token: &Option<String>) -> (r: ServerWindow)
        ensures
            r@ == (ServerWindowView {
                port: "7878"@,
                token: match token {
                    Some(t) => t@,
                    None => "changeme"@,
                },
                ffmpeg: ffmpeg@,
                running: false,
                hidden: false,
                status: "stopped"@,
            }),
    {
        ServerWindow {
            port: "7878".to_string(),
            token: match token {
                Some(t) => t.clone(),
                None => "changeme".to_string(),
            },
            ffmpeg: ffmpeg.to_string(),
            running: false,
            hidden: false,
            status: "stopped".to_string(),
        }
    }

    /// The port to start the daemon at; none where it runs already.
    pub fn start(&self) -> (r: Option<u16>)
        ensures
            match r {
                Some(p) => !self@.running && p == port_of(Some(trim(self@.port)), 7878),
                None => self@.running,
            },
    {
        if self.running {
            None
        } else {
            Some(typed_port(self.port.as_str()))
        }
    }

    /// The daemon listens at a port.
    pub fn started(&mut self, port: u16)
        ensures
            final(self)@ == (ServerWindowView {
                running: true,
                status: "listening on :"@ + dec(port as int),
                ..old(self)@
            }),
    {
        self.running = true;
        self.status = concat2("listening on :", print_u64(port as u64).as_str());
    }

    /// The daemon could not be started.
    pub fn start_failed(&mut self, error: &str)
        ensures
            final(self)@ == (ServerWindowView {
                status: "didn't start (port in use?): "@ + error@,
                ..old(self)@
            }),
    {
        self.status = concat2("didn't start (port in use?): ", error);
    }

    /// The daemon is stopped.
    pub fn stop(&mut self)
        ensures
            final(self)@ == (ServerWindowView {
                running: false,
                status: "stopped"@,
                ..old(self)@
            }),
    {
        self.running = false;
        self.status = "stopped".to_string();
    }

    /// The window is asked to close: it hides while the daemon runs.
    pub fn close(&mut self) -> (r: Closing)
        ensures
            r == if old(self)@.running {
                Closing::Hide
            } else {
                Closing::Exit
            },
            final(self)@ == (ServerWindowView {
                hidden: old(self)@.hidden || old(self)@.running,
                ..old(self)@
            }),
    {
        if self.running {
            self.hidden = true;
            Closing::Hide
        } else {
            Closing::Exit
        }
    }

    /// The window is put into the tray, or taken out of it.
    pub fn set_hidden(&mut self, hidden: bool)
        ensures
            final(self)@ == (ServerWindowView { hidden, ..old(self)@ }),
    {
        self.hidden = hidden;
    }

    /// In how many milliseconds the window is to be painted again: never while it
    /// is hidden, and soon while there is something to show.
    pub fn repaint_after(&self, clients: usize, jobs: usize, queue: usize) -> (r: Option<u64>)
        ensures
            r == if self@.hidden {
                None
            } else if self@.running && (clients > 0 || jobs > 0 || queue > 0) {
                Some(250u64)
            } else {
                Some(1000u64)
            },
    {
        if self.hidden {
            None
        } else if self.running && (clients > 0 || jobs > 0 || queue > 0) {
            Some(250)
        } else {
            Some(1000)
        }
    }
}

/// The line that tells what the daemon does.
pub fn counts_line(clients: usize, jobs: usize, queue: usize) -> (r: String)
    ensures
        r@ == "clients "@ + dec(clients as int) + "   ·   encoding "@ + dec(jobs as int)
            + "   ·   queue "@ + dec(queue as int),
{
    let a = concat3("clients ", print_u64(clients as u64).as_str(), "   ·   encoding ");
    let b = concat3(a.as_str(), print_u64(jobs as u64).as_str(), "   ·   queue ");
    concat2(b.as_str(), print_u64(queue as u64).as_str())
}

// ---------------------------------------------------------------- the icon
/// The side of the tray's icon, in pixels.
pub const ICON_SIDE: usize = 32;

/// The bytes of the icon: red, green, blue and opacity of each pixel in turn.
pub open spec fn icon_byte(i: int) -> u8 {
    if i % 4 == 0 {
        60
    } else if i % 4 == 1 {
        130
    } else if i % 4 == 2 {
        220
    } else {
        255
    }
}

/// The tray's icon: one colour all over.
pub fn icon_pixels() -> (r: Vec<u8>)
    ensures
        r@ == Seq::new((ICON_SIDE * ICON_SIDE * 4) as nat, |i: int| icon_byte(i)),
{
    let mut v: Vec<u8> = Vec::new();
    let mut i: usize = 0;
    while i < 1024
        invariant
            i <= 1024,
            v@ == Seq::new((4 * i) as nat, |k: int| icon_byte(k)),
        decreases 1024 - i,
    {
        v.push(60);
        v.push(130);
        v.push(220);
        v.push(255);
        i += 1;
        assert(v@ =~= Seq::new((4 * i) as nat, |k: int| icon_byte(k)));
    }
    v
}

// ---------------------------------------------------------------- the place on the screen
/// A signed number as an unsigned one of 32 bits.
pub open spec fn wrapped(n: int) -> int {
    if n < 0 {
        n + 0x1_0000_0000
    } else {
        n
    }
}

/// An unsigned number of 32 bits as a signed one.
pub open spec fn unwrapped(n: int) -> int {
    if n >= 0x8000_0000 {
        n - 0x1_0000_0000
    } else {
        n
    }
}

/// A place on the screen in one number.
pub open spec fn packed(left: int, top: int) -> int {
    wrapped(left) * 0x1_0000_0000 + wrapped(top)
}

/// The place that a number stands for; a default where none was kept.
pub open spec fn place_of(n: int) -> (int, int) {
    if n == 0 {
        (200, 200)
    } else {
        (unwrapped(n / 0x1_0000_0000), unwrapped(n % 0x1_0000_0000))
    }
}

fn wrap(n: i32) -> (r: u64)
    ensures
        r == wrapped(n as int),
        r < 0x1_0000_0000,
{
    if n < 0 {
        (n as i64 + 0x1_0000_0000) as u64
    } else {
        n as u64
    }
}

fn unwrap(n: u64) -> (r: i32)
    requires
        n < 0x1_0000_0000,
    ensures
        r == unwrapped(n as int),
{
    if n >= 0x8000_0000 {
        (n as i64 - 0x1_0000_0000) as i32
    } else {
        n as i32
    }
}

/// The place of a window, to be kept while it is hidden. A window that is far off
/// the screen is hidden already: its place is not kept.
pub fn keep_place(left: i32, top: i32) -> (r: Option<u64>)
    ensures
        match r {
            Some(n) => left > -30000 && n == packed(left as int, top as int),
            None => left <= -30000,
        },
{
    if left > -30000 {
        Some(wrap(left) * 0x1_0000_0000 + wrap(top))
    } else {
        None
    }
}

/// The place where a window is shown again.
pub fn kept_place(n: u64) -> (r: (i32, i32))
    ensures
        (r.0 as int, r.1 as int) == place_of(n as int),
{
    if n == 0 {
        (200, 200)
    } else {
        (unwrap(n / 0x1_0000_0000), unwrap(n % 0x1_0000_0000))
    }
}

// ---------------------------------------------------------------- fatal errors
/// What is logged where a program cannot go on.
pub fn fatal_line(program: &str, msg: &str) -> (r: String)
    ensures
        r@ == program@ + " fatal: "@ + msg@ + "\r\n"@,
{
    let a = concat3(program, " fatal: ", msg);
    concat2(a.as_str(), "\r\n")
}

/// The file that it is logged in.
pub fn fatal_file(program: &str) -> (r: String)
    ensures
        r@ == program@ + "_error.log"@,
{
    concat2(program, "_error.log")
}

// ---------------------------------------------------------------- laws
/// A window is shown again where it was, unless that was the very corner.
pub proof fn place_is_kept(left: i32, top: i32)
    requires
        left != 0 || top != 0,
    ensures
        place_of(packed(left as int, top as int)) == (left as int, top as int),
{
}

/// The icon is one opaque blue of 32 by 32 pixels.
pub proof fn icon_is_one_colour(i: int)
    requires
        i >= 0,
    ensures
        ICON_SIDE == 32,
        icon_byte(4 * i) == 60,
        icon_byte(4 * i + 1) == 130,
        icon_byte(4 * i + 2) == 220,
        icon_byte(4 * i + 3) == 255,
{
}

/// A window whose place was not kept is shown at (200, 200); a place is kept in 32 bits
/// for each side, the left one first.
pub proof fn places_are_packed(left: int, top: int)
    requires
        0 <= left < 0x8000_0000,
        0 <= top < 0x8000_0000,
    ensures
        place_of(0) == (200int, 200int),
        packed(left, top) == left * 0x1_0000_0000 + top,
        packed(-1, 0) == 0xffff_ffff * 0x1_0000_0000,
{
}

} // verus!
