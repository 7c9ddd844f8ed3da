//! What the user does: the keys that are held down, those that went down in the
//! current frame, and the mouse.

use crate::scalar::Scalar;
use std::collections::HashSet;
#[allow(unused_imports)]
use crate::scalar::{diff, exact, lit};
use vstd::prelude::*;

verus! {

/// A key. Those that nothing is bound to go by a number.
#[derive(Clone, Copy, PartialEq, Eq, Debug, Structural)]
pub enum Key {
    ArrowLeft,
    ArrowRight,
    ArrowUp,
    ArrowDown,
    Space,
    KeyC,
    KeyM,
    KeyP,
    KeyR,
    KeyS,
    KeyV,
    Digit1,
    Digit2,
    Digit3,
    Digit4,
    Digit5,
    Digit6,
    Escape,
    Other(u32),
}

impl Key {
    /// Number of the key.
    pub open spec fn number(self) -> u64 {
        match self {
            Key::ArrowLeft => 0,
            Key::ArrowRight => 1,
            Key::ArrowUp => 2,
            Key::ArrowDown => 3,
            Key::Space => 4,
            Key::KeyC => 5,
            Key::KeyM => 6,
            Key::KeyP => 7,
            Key::KeyR => 8,
            Key::KeyS => 9,
            Key::KeyV => 10,
            Key::Digit1 => 11,
            Key::Digit2 => 12,
            Key::Digit3 => 13,
            Key::Digit4 => 14,
            Key::Digit5 => 15,
            Key::Digit6 => 16,
            Key::Escape => 17,
            Key::Other(code) => (code + 18) as u64,
        }
    }

    /// Number of the key.
    fn id(self) -> (n: u64)
        ensures
            n == self.number(),
    {
        match self {
            Key::ArrowLeft => 0,
            Key::ArrowRight => 1,
            Key::ArrowUp => 2,
            Key::ArrowDown => 3,
            Key::Space => 4,
            Key::KeyC => 5,
            Key::KeyM => 6,
            Key::KeyP => 7,
            Key::KeyR => 8,
            Key::KeyS => 9,
            Key::KeyV => 10,
            Key::Digit1 => 11,
            Key::Digit2 => 12,
            Key::Digit3 => 13,
            Key::Digit4 => 14,
            Key::Digit5 => 15,
            Key::Digit6 => 16,
            Key::Escape => 17,
            Key::Other(code) => code as u64 + 18,
        }
    }
}

/// What the user does.
#[verifier::ext_equal]
pub struct InputModel<T> {
    pub held: Set<Key>,
    pub pressed: Set<Key>,
    pub mouse: (T, T),
    pub prev_mouse: (T, T),
    pub mouse_down: bool,
}

impl<T: Scalar> InputModel<T> {
    /// Nobody at the keys, and the mouse in the corner.
    pub open spec fn idle() -> InputModel<T> {
        InputModel {
            held: Set::empty(),
            pressed: Set::empty(),
            mouse: (lit(0, 1), lit(0, 1)),
            prev_mouse: (lit(0, 1), lit(0, 1)),
            mouse_down: false,
        }
    }

    /// A key gone down or up. One that repeats by itself while it is held does
    /// not count as pressed.
    pub open spec fn keyed(self, code: Key, down: bool, repeat: bool) -> InputModel<T> {
        InputModel {
            held: if down {
                self.held.insert(code)
            } else {
                self.held.remove(code)
            },
            pressed: if down && !repeat {
                self.pressed.insert(code)
            } else {
                self.pressed
            },
            ..self
        }
    }

    /// How far the mouse moved in the frame.
    pub open spec fn drag(self) -> (T, T) {
        (diff(self.mouse.0, self.prev_mouse.0), diff(self.mouse.1, self.prev_mouse.1))
    }

    /// The mouse moved to `at`.
    pub open spec fn moved(self, at: (T, T)) -> InputModel<T> {
        InputModel { mouse: at, ..self }
    }

    /// The left button gone down or up.
    pub open spec fn clicked(self, down: bool) -> InputModel<T> {
        InputModel { mouse_down: down, ..self }
    }

    /// The next frame begun.
    pub open spec fn ended(self) -> InputModel<T> {
        InputModel { pressed: Set::empty(), prev_mouse: self.mouse, ..self }
    }
}

/// What the user does.
pub struct Input<T> {
    held: HashSet<u64>,
    pressed: HashSet<u64>,
    /// Where the mouse is, in pixels.
    pub mouse: (T, T),
    prev_mouse: (T, T),
    /// Whether the left button is down.
    pub mouse_down: bool,
}

/// The keys with the given numbers.
pub open spec fn keys(numbers: Set<u64>) -> Set<Key> {
    Set::new(|k: Key| numbers.contains(k.number()))
}

impl<T: Scalar> View for Input<T> {
    type V = InputModel<T>;

    closed spec fn view(&self) -> InputModel<T> {
        InputModel {
            held: keys(self.held@),
            pressed: keys(self.pressed@),
            mouse: self.mouse,
            prev_mouse: self.prev_mouse,
            mouse_down: self.mouse_down,
        }
    }
}

broadcast use vstd::std_specs::hash::group_hash_axioms;

impl<T: Scalar> Input<T> {
    /// Nobody at the keys.
    pub fn new() -> (input: Self)
        requires
            exact::<T>(),
        ensures
            input@ == InputModel::<T>::idle(),
    {
        let zero: T = T::ratio(0, 1);
        let input = Input {
            held: HashSet::new(),
            pressed: HashSet::new(),
            mouse: (zero, zero),
            prev_mouse: (zero, zero),
            mouse_down: false,
        };
        assert(input@ =~= InputModel::<T>::idle());
        input
    }

    /// Take note that a key went down or up.
    pub fn key(&mut self, code: Key, down: bool, repeat: bool)
        ensures
            final(self)@ == old(self)@.keyed(code, down, repeat),
    {
        if down {
            if !repeat {
                self.pressed.insert(code.id());
            }
            self.held.insert(code.id());
        } else {
            self.held.remove(&code.id());
        }
        assert(self@ =~= old(self)@.keyed(code, down, repeat));
    }

    /// Take note that the mouse moved to `at`, in pixels.
    pub fn set_mouse(&mut self, at: (T, T))
        ensures
            final(self)@ == old(self)@.moved(at),
    {
        self.mouse = at;
    }

    /// Take note that the left button went down or up.
    pub fn set_mouse_down(&mut self, down: bool)
        ensures
            final(self)@ == old(self)@.clicked(down),
    {
        self.mouse_down = down;
    }

    /// Whether a key is held down.
    pub fn held(&self, code: Key) -> (held: bool)
        ensures
            held == self@.held.contains(code),
    {
        self.held.contains(&code.id())
    }

    /// Whether a key went down in this frame.
    pub fn pressed(&self, code: Key) -> (pressed: bool)
        ensures
            pressed == self@.pressed.contains(code),
    {
        self.pressed.contains(&code.id())
    }

    /// Where the mouse is, in pixels.
    pub fn pointer(&self) -> (at: (T, T))
        ensures
            at == self@.mouse,
    {
        self.mouse
    }

    /// Whether the left button is down.
    pub fn dragging(&self) -> (down: bool)
        ensures
            down == self@.mouse_down,
    {
        self.mouse_down
    }

    /// How far the mouse moved in this frame.
    pub fn mouse_delta(&self) -> (d: (T, T))
        requires
            exact::<T>(),
        ensures
            d == self@.drag(),
    {
        (self.mouse.0.minus(self.prev_mouse.0), self.mouse.1.minus(self.prev_mouse.1))
    }

    /// Begin the next frame: forget what went down, and where the mouse was.
    pub fn end_frame(&mut self)
        ensures
            final(self)@ == old(self)@.ended(),
    {
        self.pressed.clear();
        self.prev_mouse = self.mouse;
        assert(self@ =~= old(self)@.ended());
    }
}

/// No two keys have the same number.
pub proof fn law_keys_are_told_apart(a: Key, b: Key)
    requires
        a.number() == b.number(),
    ensures
        a == b,
{
}

/// A key that goes down is held, and pressed unless it repeats, until it goes up
/// or the frame ends; no other key is affected.
pub proof fn law_keys_do_not_mix<T: Scalar>(
    input: InputModel<T>,
    code: Key,
    other: Key,
    down: bool,
    repeat: bool,
)
    ensures
        input.keyed(code, down, repeat).held.contains(code) == down,
        down && !repeat ==> input.keyed(code, down, repeat).pressed.contains(code),
        repeat ==> input.keyed(code, down, repeat).pressed == input.pressed,
        other != code ==> input.keyed(code, down, repeat).held.contains(other)
            == input.held.contains(other),
        other != code ==> input.keyed(code, down, repeat).pressed.contains(other)
            == input.pressed.contains(other),
{
}

/// After a frame has ended no key counts as pressed, what is held stays held, and
/// the mouse and its button are as they were. Ending it again changes nothing.
pub proof fn law_frame_ends_clean<T: Scalar>(input: InputModel<T>, code: Key)
    ensures
        !input.ended().pressed.contains(code),
        input.ended().held == input.held,
        input.ended().prev_mouse == input.mouse,
        input.ended().mouse == input.mouse,
        input.ended().mouse_down == input.mouse_down,
        input.ended().ended() == input.ended(),
{
}

/// After a frame has ended the mouse has not moved, whatever the keys and the
/// button do, until it is moved again. This is said of coordinates that differ by
/// zero from themselves, as all finite numbers do.
pub proof fn law_mouse_rests_between_frames<T: Scalar>(
    input: InputModel<T>,
    code: Key,
    down: bool,
    repeat: bool,
)
    requires
        diff(input.mouse.0, input.mouse.0) == lit::<T>(0, 1),
        diff(input.mouse.1, input.mouse.1) == lit::<T>(0, 1),
    ensures
        input.ended().drag() == (lit::<T>(0, 1), lit::<T>(0, 1)),
        input.ended().keyed(code, down, repeat).drag() == (lit::<T>(0, 1), lit::<T>(0, 1)),
        input.ended().clicked(down).drag() == (lit::<T>(0, 1), lit::<T>(0, 1)),
        input.ended().moved(input.mouse).drag() == (lit::<T>(0, 1), lit::<T>(0, 1)),
{
}

} // verus!
