//! The window around the fluids: which of them is shown, what the keys of the
//! window do, when a picture is taken, and what it is called.

use crate::gpu::backend::Key;
use crate::scalar::Scalar;
#[allow(unused_imports)]
use crate::scalar::{exact, ge, greater, lit, prod, quot, sum};
use vstd::prelude::*;
use vstd::string::{StrSliceExecFns, StringExecFns};

verus! {

/// A fluid that can be shown.
#[derive(Clone, Copy, PartialEq, Eq, Debug, Structural)]
pub enum Fluid {
    SphCpu,
    Smoke,
    Flip,
    Sph,
    GpuSmoke,
    GpuFlip,
}

/// The fluid that goes by a digit. What goes by none is the first.
pub open spec fn fluid_of(digit: u8) -> Fluid {
    if digit == 2 {
        Fluid::Smoke
    } else if digit == 3 {
        Fluid::Flip
    } else if digit == 4 {
        Fluid::Sph
    } else if digit == 5 {
        Fluid::GpuSmoke
    } else if digit == 6 {
        Fluid::GpuFlip
    } else {
        Fluid::SphCpu
    }
}

/// The fluid that goes by a digit.
pub fn make_backend(digit: u8) -> (fluid: Fluid)
    ensures
        fluid == fluid_of(digit),
{
    match digit {
        2 => Fluid::Smoke,
        3 => Fluid::Flip,
        4 => Fluid::Sph,
        5 => Fluid::GpuSmoke,
        6 => Fluid::GpuFlip,
        _ => Fluid::SphCpu,
    }
}

/// What a key does to the window.
#[derive(Clone, Copy, PartialEq, Eq, Debug, Structural)]
pub enum KeyAction {
    Nothing,
    Exit,
    Switch(Fluid),
    Screenshot,
}

/// What a key does to the window when it goes down, unless it repeats.
pub open spec fn action_of(code: Key, down: bool, repeat: bool) -> KeyAction {
    if !down || repeat {
        KeyAction::Nothing
    } else {
        match code {
            Key::Escape => KeyAction::Exit,
            Key::Digit1 => KeyAction::Switch(fluid_of(1)),
            Key::Digit2 => KeyAction::Switch(fluid_of(2)),
            Key::Digit3 => KeyAction::Switch(fluid_of(3)),
            Key::Digit4 => KeyAction::Switch(fluid_of(4)),
            Key::Digit5 => KeyAction::Switch(fluid_of(5)),
            Key::Digit6 => KeyAction::Switch(fluid_of(6)),
            Key::KeyP => KeyAction::Screenshot,
            _ => KeyAction::Nothing,
        }
    }
}

/// Pictures that an unattended run takes.
pub const SHOTS: usize = 3;

/// Digit of the fluid that picture `k` of an unattended run shows.
pub open spec fn shot_digit(k: int) -> u8 {
    if k == 0 {
        4
    } else if k == 1 {
        6
    } else {
        5
    }
}

/// Seconds that the fluid of picture `k` of an unattended run is left to develop.
pub open spec fn shot_warmup<T: Scalar>(k: int) -> T {
    if k == 0 {
        lit(16, 10)
    } else if k == 1 {
        lit(35, 10)
    } else {
        lit(2, 1)
    }
}

/// Entry `k` of the plan of an unattended run: the digit of a fluid, and the
/// seconds that it is left to develop.
pub fn capture_plan<T: Scalar>(k: usize) -> (entry: (u8, T))
    requires
        exact::<T>(),
        k < SHOTS,
    ensures
        entry.0 == shot_digit(k as int),
        entry.1 == shot_warmup::<T>(k as int),
{
    if k == 0 {
        (4, T::ratio(16, 10))
    } else if k == 1 {
        (6, T::ratio(35, 10))
    } else {
        (5, T::ratio(2, 1))
    }
}

/// What follows a frame.
#[derive(Clone, Copy, PartialEq, Eq, Debug, Structural)]
pub enum AfterFrame {
    /// The next frame.
    Continue,
    /// The end.
    Exit,
    /// The next fluid of an unattended run, from its start.
    Switch(Fluid),
}

/// The window: its frame rate, whether a picture is to be taken, and how far an
/// unattended run has come.
pub struct Shell<T> {
    pub fps: T,
    pub screenshot: bool,
    pub capture: bool,
    pub shot_idx: usize,
}

impl<T: Scalar> Shell<T> {
    /// The window at the start.
    pub open spec fn opened(capture: bool) -> Shell<T> {
        Shell { fps: lit(60, 1), screenshot: false, capture, shot_idx: 0 }
    }

    /// The fluid that is shown first.
    pub open spec fn first(capture: bool) -> Fluid {
        if capture {
            fluid_of(shot_digit(0))
        } else {
            Fluid::SphCpu
        }
    }

    /// The frame rate smoothed over time.
    pub open spec fn rate(self, dt: T) -> T {
        sum(
            prod(self.fps, lit(9, 10)),
            prod(quot(lit(1, 1), greater(dt, lit(1, 10000))), lit(1, 10)),
        )
    }

    /// The fluid of an unattended run has had its time.
    pub open spec fn is_due(self, elapsed: T) -> bool {
        &&& self.capture
        &&& self.shot_idx < SHOTS
        &&& ge(elapsed, shot_warmup(self.shot_idx as int))
    }

    /// The window after `dt` seconds, with a picture asked for if it is due.
    pub open spec fn ticked(self, dt: T, elapsed: T) -> Shell<T> {
        Shell {
            fps: self.rate(dt),
            screenshot: self.screenshot || self.is_due(elapsed),
            ..self
        }
    }

    /// What follows a frame in which a picture was due or not.
    pub open spec fn outcome(self, due: bool) -> AfterFrame {
        if due && !self.screenshot {
            if self.shot_idx + 1 >= SHOTS {
                AfterFrame::Exit
            } else {
                AfterFrame::Switch(fluid_of(shot_digit(self.shot_idx + 1)))
            }
        } else {
            AfterFrame::Continue
        }
    }

    /// The window after a frame in which a picture was due or not. A picture that
    /// could not be taken is still asked for.
    pub open spec fn finished(self, due: bool) -> Shell<T> {
        if due && !self.screenshot {
            Shell { shot_idx: (self.shot_idx + 1) as usize, ..self }
        } else {
            self
        }
    }

    /// Open the window. With `capture` the run is unattended: it takes its
    /// pictures and ends.
    pub fn new(capture: bool) -> (r: (Self, Fluid))
        requires
            exact::<T>(),
        ensures
            r.0 == Shell::<T>::opened(capture),
            r.1 == Shell::<T>::first(capture),
    {
        let fluid: Fluid = if capture {
            let (digit, _warmup): (u8, T) = capture_plan(0);
            make_backend(digit)
        } else {
            Fluid::SphCpu
        };
        (Shell { fps: T::ratio(60, 1), screenshot: false, capture, shot_idx: 0 }, fluid)
    }

    /// Take note of a key, and say what it does to the window.
    pub fn key(&mut self, code: Key, down: bool, repeat: bool) -> (action: KeyAction)
        ensures
            action == action_of(code, down, repeat),
            *final(self) == (Shell {
                screenshot: old(self).screenshot || action == KeyAction::Screenshot,
                ..*old(self)
            }),
    {
        if !down || repeat {
            return KeyAction::Nothing;
        }
        match code {
            Key::Escape => KeyAction::Exit,
            Key::Digit1 => KeyAction::Switch(make_backend(1)),
            Key::Digit2 => KeyAction::Switch(make_backend(2)),
            Key::Digit3 => KeyAction::Switch(make_backend(3)),
            Key::Digit4 => KeyAction::Switch(make_backend(4)),
            Key::Digit5 => KeyAction::Switch(make_backend(5)),
            Key::Digit6 => KeyAction::Switch(make_backend(6)),
            Key::KeyP => {
                self.screenshot = true;
                KeyAction::Screenshot
            },
            _ => KeyAction::Nothing,
        }
    }

    /// Begin a frame `dt` seconds after the last and `elapsed` seconds after the
    /// fluid was first shown, and say whether a picture is due.
    pub fn tick(&mut self, dt: T, elapsed: T) -> (due: bool)
        requires
            exact::<T>(),
        ensures
            *final(self) == old(self).ticked(dt, elapsed),
            due == old(self).is_due(elapsed),
    {
        let now: T = T::ratio(1, 1).over(dt.upper(T::ratio(1, 10000)));
        self.fps = self.fps.times(T::ratio(9, 10)).plus(now.times(T::ratio(1, 10)));
        let mut due: bool = false;
        if self.capture && self.shot_idx < SHOTS {
            let (_digit, warmup): (u8, T) = capture_plan(self.shot_idx);
            due = elapsed.at_least(warmup);
        }
        if due {
            self.screenshot = true;
        }
        due
    }

    /// A frame was drawn: say whether a picture of it is to be taken.
    pub fn drawn(&mut self) -> (take: bool)
        ensures
            take == old(self).screenshot,
            *final(self) == (Shell { screenshot: false, ..*old(self) }),
    {
        let take: bool = self.screenshot;
        self.screenshot = false;
        take
    }

    /// End a frame in which a picture was due or not, and say what follows.
    pub fn finish(&mut self, due: bool) -> (after: AfterFrame)
        requires
            exact::<T>(),
            due ==> old(self).shot_idx < SHOTS,
        ensures
            *final(self) == old(self).finished(due),
            after == old(self).outcome(due),
    {
        if due && !self.screenshot {
            self.shot_idx = self.shot_idx + 1;
            if self.shot_idx >= SHOTS {
                AfterFrame::Exit
            } else {
                let (digit, _warmup): (u8, T) = capture_plan(self.shot_idx);
                AfterFrame::Switch(make_backend(digit))
            }
        } else {
            AfterFrame::Continue
        }
    }
}

/// Whether a character is a letter or a number, as `char::is_alphanumeric` has it.
pub uninterp spec fn alphanumeric(c: char) -> bool;

/// `char::is_alphanumeric`: whether the character has the property Alphabetic or
/// one of the numeric general categories of Unicode. Its result is given a name;
/// nothing more is claimed of it.
#[verifier::external_body]
fn is_alphanumeric(c: char) -> (yes: bool)
    ensures
        yes == alphanumeric(c),
{
    c.is_alphanumeric()
}

/// `String::push` appends a character to the end of a string.
pub assume_specification[ String::push ](s: &mut String, c: char)
    ensures
        final(s)@ == old(s)@.push(c),
;

/// A character of a name as it stands in the name of a file, where it is known
/// whether it is a letter or a number: capitals become small, and what is
/// neither becomes a dash.
pub open spec fn slugged(c: char, alnum: bool) -> char {
    if !alnum {
        '-'
    } else if 'A' <= c && c <= 'Z' {
        (c as u32 + 32) as char
    } else {
        c
    }
}

/// A character of a name as it stands in the name of a file, where it is known
/// whether it is a letter or a number.
pub fn slug_char(c: char, alnum: bool) -> (r: char)
    ensures
        r == slugged(c, alnum),
{
    if !alnum {
        return '-';
    }
    if 'A' <= c && c <= 'Z' {
        (c as u8 + 32) as char
    } else {
        c
    }
}

/// A name as it stands in the name of a file.
pub open spec fn slug_of(name: Seq<char>) -> Seq<char> {
    Seq::new(name.len(), |i: int| slugged(name[i], alphanumeric(name[i])))
}

/// Name of the file that a picture of the fluid with the given name goes into.
pub fn picture_name(name: &str) -> (file: String)
    ensures
        file@ == "ripple-"@ + slug_of(name@) + ".png"@,
{
    let mut file: String = String::from_str("ripple-");
    let n: usize = name.unicode_len();
    let mut i: usize = 0;
    while i < n
        invariant
            i <= n,
            n == name@.len(),
            file@ == "ripple-"@ + slug_of(name@).subrange(0, i as int),
        decreases n - i,
    {
        let c: char = name.get_char(i);
        file.push(slug_char(c, is_alphanumeric(c)));
        i = i + 1;
        assert(file@ =~= "ripple-"@ + slug_of(name@).subrange(0, i as int));
    }
    assert(slug_of(name@).subrange(0, n as int) =~= slug_of(name@));
    file.append(".png");
    file
}

/// Every digit from one to six has a fluid of its own, and its key shows it.
pub proof fn law_digits_choose_the_fluids(a: u8, b: u8)
    requires
        1 <= a <= 6,
        1 <= b <= 6,
        fluid_of(a) == fluid_of(b),
    ensures
        a == b,
{
}

/// A key that repeats, or that goes up, does nothing to the window.
pub proof fn law_repeats_do_nothing(code: Key, down: bool, repeat: bool)
    requires
        repeat || !down,
    ensures
        action_of(code, down, repeat) == KeyAction::Nothing,
{
}

/// An unattended run goes on to the next fluid only once the picture of the
/// current one has been taken. A frame that could not be drawn leaves the picture
/// asked for; the next frame that is drawn takes it.
pub proof fn law_pictures_are_not_lost<T: Scalar>(shell: Shell<T>, dt: T, elapsed: T)
    requires
        shell.is_due(elapsed),
    ensures
        shell.ticked(dt, elapsed).screenshot,
        shell.ticked(dt, elapsed).finished(true) == shell.ticked(dt, elapsed),
        shell.ticked(dt, elapsed).outcome(true) == AfterFrame::Continue,
        ({
            let drawn = Shell { screenshot: false, ..shell.ticked(dt, elapsed) };
            &&& drawn.finished(true).shot_idx == shell.shot_idx + 1
            &&& drawn.outcome(true) != AfterFrame::Continue
        }),
{
}

/// An unattended run ends with its last picture, and no sooner.
pub proof fn law_run_ends_with_its_plan<T: Scalar>(shell: Shell<T>)
    requires
        !shell.screenshot,
        shell.shot_idx < SHOTS,
    ensures
        shell.outcome(true) == AfterFrame::Exit <==> shell.shot_idx == SHOTS - 1,
        shell.outcome(true) == AfterFrame::Exit ==> shell.finished(true).shot_idx == SHOTS,
        shell.outcome(false) == AfterFrame::Continue,
{
}

} // verus!
