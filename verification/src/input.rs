//! The keys that the program reacts to.

use vstd::prelude::*;

verus! {

/// A key that the program reacts to.
#[derive(Clone, Copy, Debug, PartialEq, Eq, Structural)]
pub enum Key {
    C,
    D,
}

/// The keys that went down since the last tick.
#[derive(Clone, Copy, Debug, PartialEq, Eq, Structural)]
pub struct KeyInput {
    pub c: bool,
    pub d: bool,
}

impl KeyInput {
    pub open spec fn pressed(self, key: Key) -> bool {
        match key {
            Key::C => self.c,
            Key::D => self.d,
        }
    }

    /// No key went down.
    pub fn new() -> (input: Self)
        ensures
            input == (KeyInput { c: false, d: false }),
    {
        KeyInput { c: false, d: false }
    }

    /// Notes that `key` went down.
    pub fn press(&mut self, key: Key)
        ensures
            forall|k: Key| final(self).pressed(k) == (k == key || old(self).pressed(k)),
    {
        match key {
            Key::C => {
                self.c = true;
            },
            Key::D => {
                self.d = true;
            },
        }
    }

    /// Forgets every key.
    pub fn clear(&mut self)
        ensures
            *final(self) == (KeyInput { c: false, d: false }),
    {
        self.c = false;
        self.d = false;
    }

    /// Whether `key` went down since the last tick.
    pub fn just_pressed(&self, key: Key) -> (down: bool)
        ensures
            down == self.pressed(key),
    {
        match key {
            Key::C => self.c,
            Key::D => self.d,
        }
    }
}

} // verus!
