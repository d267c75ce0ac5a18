use vstd::prelude::*;
use std::collections::VecDeque;

verus! {

/// Maximum messages retained; older ones are dropped first.
pub const MAX_LOG_SIZE: usize = 100;
/// Lines shown in the log panel at once.
pub const LOG_LINES: usize = 5;

/// One logged message and the time it was recorded at.
pub struct LogEntry<T> {
    pub text: String,
    pub timestamp: T,
}

/// All past game messages (oldest first, at most [`MAX_LOG_SIZE`]) and the
/// panel's scroll position, counted in lines up from the newest message.
/// `T` is the type of the timestamps the messages carry.
pub struct GameLog<T> {
    messages: VecDeque<LogEntry<T>>,
    scroll_offset: usize,
}

/// Window of the log shown at scroll offset `off` over `len` messages:
/// `(top, bottom)`, the range of message indices shown.
pub open spec fn window(len: int, off: int) -> (int, int) {
    let bottom = if off <= len { len - off } else { 0 };
    let top = if bottom >= LOG_LINES { bottom - LOG_LINES } else { 0 };
    (top, bottom)
}

/// Scroll offset after one line up from `off`, stopping at `max`.
pub open spec fn offset_up(off: int, max: int) -> int {
    if off + 1 <= max { off + 1 } else { max }
}

/// Scroll offset after one line down from `off`, stopping at the newest.
pub open spec fn offset_down(off: int) -> int {
    if off > 0 { off - 1 } else { 0 }
}

/// One line up and one line down undo each other, as long as neither runs
/// into an end: up then down returns from any offset below the largest, and
/// down then up from any positive offset up to the largest.
pub proof fn lemma_scroll_round_trip(off: int, max: int)
    requires
        0 <= off <= max,
    ensures
        off < max ==> offset_down(offset_up(off, max)) == off,
        off > 0 ==> offset_up(offset_down(off), max) == off,
{
}

impl<T: Copy> GameLog<T> {
    /// The messages, oldest first, as (text, timestamp) pairs.
    pub closed spec fn entries(&self) -> Seq<(Seq<char>, T)> {
        self.messages@.map_values(|e: LogEntry<T>| (e.text@, e.timestamp))
    }

    /// Lines scrolled up from the newest message.
    pub closed spec fn offset(&self) -> int {
        self.scroll_offset as int
    }

    /// Largest offset that still shows a full panel (or 0 with fewer lines).
    pub open spec fn spec_max_scroll(&self) -> int {
        if self.entries().len() >= LOG_LINES {
            self.entries().len() - LOG_LINES
        } else {
            0
        }
    }

    /// Panel line `k` (0 = top): the visible messages are aligned to the
    /// bottom of the panel, newest lowest; lines above them are blank.
    pub open spec fn visible_slot(&self, k: int, blank: T) -> (Seq<char>, T) {
        let (top, bottom) = window(self.entries().len() as int, self.offset());
        let start_idx = LOG_LINES - (bottom - top);
        if k >= start_idx {
            self.entries()[top + k - start_idx]
        } else {
            (Seq::<char>::empty(), blank)
        }
    }

    pub fn new() -> (log: Self)
        ensures
            log.entries().len() == 0,
            log.offset() == 0,
    {
        let log = GameLog { messages: VecDeque::new(), scroll_offset: 0 };
        assert(log.entries() =~= Seq::<(Seq<char>, T)>::empty());
        log
    }

    /// Number of retained messages.
    pub fn len(&self) -> (n: usize)
        ensures
            n == self.entries().len(),
    {
        self.messages.len()
    }

    pub fn scroll_offset(&self) -> (n: usize)
        ensures
            n == self.offset(),
    {
        self.scroll_offset
    }

    /// Append a message recorded at `timestamp` and reset the view to the
    /// bottom so the new line is immediately visible.  When more than
    /// [`MAX_LOG_SIZE`] messages would be kept, the oldest is dropped.
    pub fn push(&mut self, text: &str, timestamp: T)
        ensures
            final(self).entries() == ({
                let e = old(self).entries().push((text@, timestamp));
                if e.len() > MAX_LOG_SIZE {
                    e.drop_first()
                } else {
                    e
                }
            }),
            final(self).offset() == 0,
            old(self).entries().len() <= MAX_LOG_SIZE ==> final(self).entries().len() <= MAX_LOG_SIZE,
            final(self).visible_slot(LOG_LINES - 1, timestamp) == (text@, timestamp),
    {
        let ghost old_msgs = self.messages@;
        self.messages.push_back(LogEntry { text: text.to_owned(), timestamp });
        if self.messages.len() > MAX_LOG_SIZE {
            self.messages.pop_front();
        }
        self.scroll_offset = 0;
        proof {
            let e = old(self).entries().push((text@, timestamp));
            if e.len() > MAX_LOG_SIZE {
                assert(self.entries() =~= e.drop_first());
            } else {
                assert(self.entries() =~= e);
            }
            let n = self.entries().len();
            assert(self.entries()[n - 1] == (text@, timestamp));
        }
    }

    /// Largest valid scroll offset (cannot scroll past the first message).
    pub fn max_scroll(&self) -> (n: usize)
        ensures
            n == self.spec_max_scroll(),
    {
        if self.messages.len() >= LOG_LINES {
            self.messages.len() - LOG_LINES
        } else {
            0
        }
    }

    /// Scroll one line towards older messages, stopping at [`Self::max_scroll`].
    pub fn scroll_up(&mut self)
        ensures
            final(self).entries() == old(self).entries(),
            final(self).offset() == offset_up(old(self).offset(), old(self).spec_max_scroll()),
            final(self).offset() <= final(self).spec_max_scroll(),
    {
        let max = self.max_scroll();
        self.scroll_offset = if self.scroll_offset < max { self.scroll_offset + 1 } else { max };
    }

    /// Scroll one line towards newer messages, stopping at the newest.
    pub fn scroll_down(&mut self)
        ensures
            final(self).entries() == old(self).entries(),
            final(self).offset() == offset_down(old(self).offset()),
    {
        if self.scroll_offset > 0 {
            self.scroll_offset = self.scroll_offset - 1;
        }
    }

    /// Text and timestamp of panel line `k`.
    fn slot(&self, k: usize, blank: T) -> (r: (&str, T))
        requires
            k < LOG_LINES,
        ensures
            r.0@ == self.visible_slot(k as int, blank).0,
            r.1 == self.visible_slot(k as int, blank).1,
    {
        let len = self.messages.len();
        let bottom = if self.scroll_offset <= len { len - self.scroll_offset } else { 0 };
        let top = if bottom >= LOG_LINES { bottom - LOG_LINES } else { 0 };
        let start_idx = LOG_LINES - (bottom - top);
        if k >= start_idx {
            let e = &self.messages[top + k - start_idx];
            proof {
                assert(self.entries()[top + k - start_idx] == (e.text@, e.timestamp));
            }
            (e.text.as_str(), e.timestamp)
        } else {
            proof {
                reveal_strlit("");
            }
            ("", blank)
        }
    }

    /// Returns `(text, timestamp)` pairs for the [`LOG_LINES`] lines visible
    /// at the current scroll offset, ordered oldest-first (index 0 = top of
    /// panel, `LOG_LINES − 1` = bottom / newest).  Empty lines are
    /// `("", blank)`.
    pub fn visible_entries(&self, blank: T) -> (r: [(&str, T); 5])
        ensures
            forall|k: int|
                0 <= k < LOG_LINES ==> (#[trigger] r@[k]).0@ == self.visible_slot(k, blank).0
                    && r@[k].1 == self.visible_slot(k, blank).1,
    {
        let r = [
            self.slot(0, blank),
            self.slot(1, blank),
            self.slot(2, blank),
            self.slot(3, blank),
            self.slot(4, blank),
        ];
        assert(r@[0] == r[0]);
        r
    }
}

/// Scrolling up by one line, while there is room to, moves every panel line
/// down by one: each line shows what the line above it showed before.
pub proof fn lemma_scroll_shifts_window<T: Copy>(before: &GameLog<T>, after: &GameLog<T>, blank: T)
    requires
        after.entries() == before.entries(),
        after.offset() == before.offset() + 1,
        0 <= before.offset(),
        after.offset() <= before.spec_max_scroll(),
    ensures
        forall|k: int| 1 <= k < LOG_LINES ==> #[trigger] after.visible_slot(k, blank) == before.visible_slot(k - 1, blank),
        after.visible_slot(0, blank) == before.entries()[before.entries().len() - before.offset() - LOG_LINES - 1],
{
}

/// A line to append to the game log; an alert is also shown as a large
/// centred overlay.
pub struct GameMessage {
    pub text: String,
    /// When `true` the message is also displayed as a large centred overlay.
    pub alert: bool,
}

impl GameMessage {
    /// A normal log line with no alert overlay.
    pub fn new(s: &str) -> (m: Self)
        ensures
            m.text@ == s@,
            !m.alert,
    {
        GameMessage { text: s.to_owned(), alert: false }
    }

    /// A log line that also triggers the centred alert overlay.
    pub fn alert(s: &str) -> (m: Self)
        ensures
            m.text@ == s@,
            m.alert,
    {
        GameMessage { text: s.to_owned(), alert: true }
    }
}

} // verus!
