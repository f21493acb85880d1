//! Colors.

use vstd::prelude::*;

use crate::text::{cat5, Text};

verus! {

/// ANSI colors, enabled only on a terminal and unless NO_COLOR is set.
pub struct Palette {
    pub on: bool,
}

/// `s` between the escape sequences that switch a color on and off.
pub open spec fn painted(on: bool, code: Text, s: Text) -> Text {
    if on {
        "\x1b["@ + code + "m"@ + s + "\x1b[0m"@
    } else {
        s
    }
}

impl Palette {
    pub fn new(terminal: bool, no_color: bool) -> (r: Palette)
        ensures
            r.on == (terminal && !no_color),
    {
        Palette { on: terminal && !no_color }
    }

    pub fn paint(&self, code: &str, s: &str) -> (r: String)
        ensures
            r@ == painted(self.on, code@, s@),
    {
        if self.on {
            cat5("\x1b[", code, "m", s, "\x1b[0m")
        } else {
            s.to_owned()
        }
    }

    pub fn bold(&self, s: &str) -> (r: String)
        ensures
            r@ == painted(self.on, "1"@, s@),
    {
        self.paint("1", s)
    }

    pub fn dim(&self, s: &str) -> (r: String)
        ensures
            r@ == painted(self.on, "2"@, s@),
    {
        self.paint("2", s)
    }

    pub fn green(&self, s: &str) -> (r: String)
        ensures
            r@ == painted(self.on, "32"@, s@),
    {
        self.paint("32", s)
    }

    pub fn yellow(&self, s: &str) -> (r: String)
        ensures
            r@ == painted(self.on, "33"@, s@),
    {
        self.paint("33", s)
    }

    pub fn red(&self, s: &str) -> (r: String)
        ensures
            r@ == painted(self.on, "31"@, s@),
    {
        self.paint("31", s)
    }
}

} // verus!
