//! The console that works once the firmware is gone: output is drawn on a
//! surface, input comes from the keyboard's queue.

use crate::arch::keyboard::{Decoder, Keyboard, ScancodeQueue};
use crate::fbcon::{Surface, TextConsole};
use crate::hal::console::ConsoleKey;
use vstd::prelude::*;
use vstd::string::*;

verus! {

use crate::arch::keyboard::first_key;
use crate::fbcon::Screen;

pub struct HardwareConsole<S: Surface> {
    /// `None` when there is nothing to draw on: output is then dropped, but
    /// everything else keeps working.
    pub display: Option<TextConsole<S>>,
    pub keyboard: Keyboard,
}

impl<S: Surface> HardwareConsole<S> {
    /// What is on the display, if there is one.
    pub open spec fn screen(&self) -> Option<Screen> {
        match self.display {
            Some(display) => Some(display.screen()),
            None => None,
        }
    }

    /// The cursor is where it can be.
    pub open spec fn wf(&self) -> bool {
        self.screen() matches Some(screen) ==> screen.wf()
    }

    pub fn new(surface: Option<S>) -> (r: Self)
        ensures
            r.wf(),
            r.keyboard.decoder == (Decoder {
                left_shift: false,
                right_shift: false,
                expecting_extended: false,
            }),
            match surface {
                Some(s) => r.screen() == Some(
                    Screen {
                        cols: s.grid().0 as int,
                        rows: s.grid().1 as int,
                        col: 0,
                        row: 0,
                        ops: s.ops().push(crate::fbcon::Op::Clear),
                    },
                ),
                None => r.screen() is None,
            },
    {
        let display = match surface {
            Some(surface) => Some(TextConsole::new(surface)),
            None => None,
        };
        HardwareConsole { display, keyboard: Keyboard::new() }
    }

    /// The next key of the keyboard's queue, if it holds a complete one.
    pub fn read_key(&mut self, queue: &mut ScancodeQueue) -> (r: Option<ConsoleKey>)
        ensures
            ({
                let (after, taken, key) = first_key(old(self).keyboard.decoder, old(queue)@);
                &&& r == key
                &&& final(self).keyboard.decoder == after
                &&& final(queue)@ == old(queue)@.skip(taken)
            }),
            final(self).display == old(self).display,
    {
        self.keyboard.read_key(queue)
    }

    /// Draws text, where there is something to draw on.
    pub fn write_str(&mut self, s: &str)
        requires
            old(self).wf(),
            old(self).screen() matches Some(screen) ==> screen.cols > 0 || screen.can_write(
                s.spec_bytes(),
            ),
        ensures
            final(self).wf(),
            final(self).keyboard == old(self).keyboard,
            final(self).screen() == match old(self).screen() {
                Some(screen) => Some(screen.write(s.spec_bytes())),
                None => None,
            },
    {
        if let Some(display) = &mut self.display {
            display.write_str(s);
        }
    }

    pub fn clear(&mut self)
        requires
            old(self).wf(),
        ensures
            final(self).wf(),
            final(self).keyboard == old(self).keyboard,
            final(self).screen() == match old(self).screen() {
                Some(screen) => Some(screen.clear()),
                None => None,
            },
    {
        if let Some(display) = &mut self.display {
            display.clear();
        }
    }
}

} // verus!
