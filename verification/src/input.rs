//! Platform-neutral button identifiers and per-frame button state with edge transitions.
//!
//! Buttons are kept by a 64-bit code that identifies each button; the contracts speak of the
//! sets of buttons held, pressed this frame and released this frame.
use std::collections::HashSet;
use std::marker::PhantomData;
use vstd::prelude::*;

verus! {

broadcast use vstd::std_specs::hash::group_hash_axioms;

/// Platform-neutral keyboard identifiers.
#[derive(Clone, Copy, Debug, PartialEq, Eq, Hash, Structural)]
pub enum KeyCode {
    A,
    D,
    E,
    Escape,
    Q,
    S,
    Space,
    W,
    Unknown(u32),
}

/// Platform-neutral mouse buttons.
#[derive(Clone, Copy, Debug, PartialEq, Eq, Hash, Structural)]
pub enum MouseButton {
    Left,
    Middle,
    Right,
    Other(u8),
}

/// Buttons identified by a 64-bit code: distinct buttons have distinct codes.
pub trait ButtonCode: Copy {
    spec fn code_spec(self) -> u64;

    fn code(&self) -> (c: u64)
        ensures
            c == self.code_spec(),
    ;

    proof fn lemma_code_injective(a: Self, b: Self)
        ensures
            a.code_spec() == b.code_spec() ==> a == b,
    ;
}

impl ButtonCode for KeyCode {
    open spec fn code_spec(self) -> u64 {
        match self {
            KeyCode::A => 0,
            KeyCode::D => 1,
            KeyCode::E => 2,
            KeyCode::Escape => 3,
            KeyCode::Q => 4,
            KeyCode::S => 5,
            KeyCode::Space => 6,
            KeyCode::W => 7,
            KeyCode::Unknown(n) => (8 + n) as u64,
        }
    }

    fn code(&self) -> (c: u64) {
        match *self {
            KeyCode::A => 0,
            KeyCode::D => 1,
            KeyCode::E => 2,
            KeyCode::Escape => 3,
            KeyCode::Q => 4,
            KeyCode::S => 5,
            KeyCode::Space => 6,
            KeyCode::W => 7,
            KeyCode::Unknown(n) => 8 + n as u64,
        }
    }

    proof fn lemma_code_injective(a: Self, b: Self) {
    }
}

impl ButtonCode for MouseButton {
    open spec fn code_spec(self) -> u64 {
        match self {
            MouseButton::Left => 0,
            MouseButton::Middle => 1,
            MouseButton::Right => 2,
            MouseButton::Other(n) => (3 + n) as u64,
        }
    }

    fn code(&self) -> (c: u64) {
        match *self {
            MouseButton::Left => 0,
            MouseButton::Middle => 1,
            MouseButton::Right => 2,
            MouseButton::Other(n) => 3 + n as u64,
        }
    }

    proof fn lemma_code_injective(a: Self, b: Self) {
    }
}

/// Generic button state with edge transitions for one frame.
#[derive(Debug)]
pub struct ButtonInput<T> {
    pressed: HashSet<u64>,
    just_pressed: HashSet<u64>,
    just_released: HashSet<u64>,
    buttons: PhantomData<T>,
}

/// The buttons whose codes are in `codes`.
pub open spec fn buttons_of<T: ButtonCode>(codes: Set<u64>) -> Set<T> {
    Set::new(|b: T| codes.contains(b.code_spec()))
}

impl<T: ButtonCode> ButtonInput<T> {
    /// Buttons currently held.
    pub closed spec fn held(&self) -> Set<T> {
        buttons_of(self.pressed@)
    }

    /// Buttons that went down during the current frame.
    pub closed spec fn went_down(&self) -> Set<T> {
        buttons_of(self.just_pressed@)
    }

    /// Buttons that went up during the current frame.
    pub closed spec fn went_up(&self) -> Set<T> {
        buttons_of(self.just_released@)
    }
}

impl<T: ButtonCode> Default for ButtonInput<T> {
    fn default() -> (r: Self)
        ensures
            r.held() == Set::<T>::empty(),
            r.went_down() == Set::<T>::empty(),
            r.went_up() == Set::<T>::empty(),
    {
        Self::new()
    }
}

/// Adding the code of `b` to a code set adds `b` to its buttons.
proof fn lemma_insert_code<T: ButtonCode>(codes: Set<u64>, b: T)
    ensures
        buttons_of::<T>(codes.insert(b.code_spec())) == buttons_of::<T>(codes).insert(b),
{
    assert forall|x: T| #[trigger] buttons_of::<T>(codes.insert(b.code_spec())).contains(x) == buttons_of::<T>(
        codes,
    ).insert(b).contains(x) by {
        T::lemma_code_injective(x, b);
    }
    assert(buttons_of::<T>(codes.insert(b.code_spec())) =~= buttons_of::<T>(codes).insert(b));
}

/// Removing the code of `b` from a code set removes `b` from its buttons.
proof fn lemma_remove_code<T: ButtonCode>(codes: Set<u64>, b: T)
    ensures
        buttons_of::<T>(codes.remove(b.code_spec())) == buttons_of::<T>(codes).remove(b),
{
    assert forall|x: T| #[trigger] buttons_of::<T>(codes.remove(b.code_spec())).contains(x) == buttons_of::<T>(
        codes,
    ).remove(b).contains(x) by {
        T::lemma_code_injective(x, b);
    }
    assert(buttons_of::<T>(codes.remove(b.code_spec())) =~= buttons_of::<T>(codes).remove(b));
}

impl<T: ButtonCode> ButtonInput<T> {
    /// No button is held and no edge has been seen.
    fn new() -> (r: Self)
        ensures
            r.held() == Set::<T>::empty(),
            r.went_down() == Set::<T>::empty(),
            r.went_up() == Set::<T>::empty(),
    {
        let r = ButtonInput {
            pressed: HashSet::new(),
            just_pressed: HashSet::new(),
            just_released: HashSet::new(),
            buttons: PhantomData,
        };
        assert(r.held() =~= Set::<T>::empty());
        assert(r.went_down() =~= Set::<T>::empty());
        assert(r.went_up() =~= Set::<T>::empty());
        r
    }

    /// Holds `button`; it went down this frame if it was not already held.
    pub fn press(&mut self, button: T)
        ensures
            final(self).held() == old(self).held().insert(button),
            final(self).went_down() == (if old(self).held().contains(button) {
                old(self).went_down()
            } else {
                old(self).went_down().insert(button)
            }),
            final(self).went_up() == old(self).went_up(),
    {
        let code = button.code();
        proof {
            lemma_insert_code::<T>(self.pressed@, button);
            lemma_insert_code::<T>(self.just_pressed@, button);
        }
        if self.pressed.insert(code) {
            self.just_pressed.insert(code);
        }
    }

    /// Lets `button` go; it went up this frame if it was held.
    pub fn release(&mut self, button: T)
        ensures
            final(self).held() == old(self).held().remove(button),
            final(self).went_up() == (if old(self).held().contains(button) {
                old(self).went_up().insert(button)
            } else {
                old(self).went_up()
            }),
            final(self).went_down() == old(self).went_down(),
    {
        let code = button.code();
        proof {
            lemma_remove_code::<T>(self.pressed@, button);
            lemma_insert_code::<T>(self.just_released@, button);
        }
        if self.pressed.remove(&code) {
            self.just_released.insert(code);
        }
    }

    pub fn pressed(&self, button: T) -> (r: bool)
        ensures
            r == self.held().contains(button),
    {
        self.pressed.contains(&button.code())
    }

    pub fn just_pressed(&self, button: T) -> (r: bool)
        ensures
            r == self.went_down().contains(button),
    {
        self.just_pressed.contains(&button.code())
    }

    pub fn just_released(&self, button: T) -> (r: bool)
        ensures
            r == self.went_up().contains(button),
    {
        self.just_released.contains(&button.code())
    }

    /// Edges last for one frame: both edge sets are emptied, held buttons stay held.
    pub fn end_frame(&mut self)
        ensures
            final(self).held() == old(self).held(),
            final(self).went_down() == Set::<T>::empty(),
            final(self).went_up() == Set::<T>::empty(),
    {
        self.just_pressed.clear();
        self.just_released.clear();
        assert(self.went_down() =~= Set::<T>::empty());
        assert(self.went_up() =~= Set::<T>::empty());
    }

    /// Releases everything without recording edges.
    pub fn clear(&mut self)
        ensures
            final(self).held() == Set::<T>::empty(),
            final(self).went_down() == Set::<T>::empty(),
            final(self).went_up() == Set::<T>::empty(),
    {
        self.pressed.clear();
        self.end_frame();
        assert(self.held() =~= Set::<T>::empty());
    }
}

} // verus!
