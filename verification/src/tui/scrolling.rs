//! Which way the keys scroll the panes.
use vstd::prelude::*;

use super::app::{Pane, UiShape, LOG_LIMIT};
use super::keys::{plain, Key};
use super::view::{breakpoint_rows, frame_rows, register_rows, room, window_from};

verus! {

impl UiShape {
    /// The first row that the focused pane shows.
    pub open spec fn first_row(self, height: u16) -> int {
        match (self.pane, self.snapshot) {
            (Pane::Log, _) => self.first_log(height),
            (_, None) => 0,
            (Pane::Source, Some(_)) => self.source_pane(height).scroll as int,
            (Pane::Registers, Some(snapshot)) => window_from(
                register_rows(snapshot.registers).len(),
                self.scroll.registers as nat,
                room(height),
            ) as int,
            (Pane::Breakpoints, Some(snapshot)) => window_from(
                breakpoint_rows(snapshot.breakpoints).len(),
                self.scroll.breakpoints as nat,
                room(height),
            ) as int,
            (Pane::Backtrace, Some(snapshot)) => window_from(
                frame_rows(snapshot.backtrace).len(),
                self.scroll.backtrace as nat,
                room(height),
            ) as int,
        }
    }

    /// The same after a key.
    pub open spec fn after(self, key: Key) -> UiShape {
        self.handle_key(plain(key)).state()
    }
}

/// In every pane page up shows what stands before and page down what stands behind. So do up and
/// down in every pane but the log.
pub proof fn lemma_keys_scroll(s: UiShape, height: u16)
    requires
        s.logs.len() <= LOG_LIMIT,
    ensures
        s.after(Key::PageUp).first_row(height) <= s.first_row(height),
        s.after(Key::PageDown).first_row(height) >= s.first_row(height),
        !(s.pane is Log) ==> s.after(Key::Up).first_row(height) <= s.first_row(height),
        !(s.pane is Log) ==> s.after(Key::Down).first_row(height) >= s.first_row(height),
{
}

/// In the log, page up shows ten older messages and down one, as long as there are older ones.
/// Page down and up go back to the later ones, unless the log was scrolled on past its first
/// message.
pub proof fn lemma_log_scrolls(s: UiShape, height: u16)
    requires
        s.pane is Log,
        s.logs.len() <= LOG_LIMIT,
    ensures
        ({
            let first = s.first_log(height);
            let latest = s.logs.len() - room(height);
            &&& s.after(Key::PageUp).first_log(height) == (if first > 10 {
                first - 10
            } else {
                0
            })
            &&& s.after(Key::Down).first_log(height) == (if first > 1 {
                first - 1
            } else {
                0
            })
            &&& s.scroll.log <= latest ==> s.after(Key::PageDown).first_log(height) == (if first
                + 10 < latest {
                first + 10
            } else {
                latest
            })
            &&& s.scroll.log <= latest ==> s.after(Key::Up).first_log(height) == (if first + 1
                < latest {
                first + 1
            } else {
                latest
            })
        }),
{
}

} // verus!
