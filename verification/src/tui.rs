//! The interactive selector's session logic: pattern buffer, cursor, the
//! windowed bottom-anchored view, and the decision taken on each input
//! event.
//!
//! The terminal itself (raw mode, event stream, drawing) is the caller's
//! business.  Each iteration the caller derives the filtered view with
//! [`SessionState::filtered_view`], windows it with [`window_suffix`],
//! renders the rows of [`Tui::ui`], reads one event, and applies it with
//! [`SessionState::step`] until the step decides the session's outcome.
//!
//! The cursor counts positions *up from the end* of the filtered list and
//! is clamped to `[1, len]`: cursor 1 selects the last, best-ranked element
//! so that the best match sits just above the input line at the bottom of
//! the screen.

use vstd::prelude::*;
use vstd::string::StrSliceExecFns;

use crate::select::Target;
use crate::select::deref_seq;
use crate::select::score_ordering;
use crate::select::score_targets;
use crate::select::target_display;

verus! {

/// One input event of the selector session.
#[derive(Debug, Clone, Copy)]
pub enum SessionEvent {
    /// A printable character is appended to the pattern.
    Char(char),
    /// The last pattern character is dropped.
    Backspace,
    /// Trailing characters pop until a space has been popped or the
    /// pattern is empty.
    WordDelete,
    /// The cursor moves up, away from the bottom.
    CursorUp,
    /// The cursor moves down, towards the bottom.
    CursorDown,
    /// The targeted element is selected.
    Enter,
    /// The session is abandoned.
    Cancel,
    /// Anything else: resizes, mouse events; ignored.
    Other,
}

/// What one step of the session decides.
#[derive(Debug, PartialEq, Eq, Structural)]
pub enum SessionOutcome {
    /// Keep editing: render and wait for the next event.
    Continue,
    /// The element of the filtered list at this index is selected.
    Selected(usize),
    /// Enter was pressed while the filtered list was empty.
    NoMatch,
    /// The user cancelled the session.
    Cancelled,
}

/// The pattern after a word-delete: trailing characters pop until a space
/// has been popped or the buffer is empty.
pub open spec fn word_deleted(s: Seq<char>) -> Seq<char>
    decreases s.len(),
{
    if s.len() == 0 {
        s
    } else if s.last() == ' ' {
        s.drop_last()
    } else {
        word_deleted(s.drop_last())
    }
}

/// The cursor clamped to `[1, v_len]`; an empty list clamps to 1.
pub open spec fn clamped_cursor(cursor: int, v_len: int) -> int {
    let m = if cursor < v_len {
        cursor
    } else {
        v_len
    };
    if m < 1 {
        1
    } else {
        m
    }
}

/// Cursor inversion: on a filtered list of length `v_len`, cursor 1 maps
/// to index `v_len - 1` (the last element), cursor `v_len` to index 0.
pub proof fn lemma_cursor_inversion(v_len: int)
    requires
        v_len > 0,
    ensures
        v_len - clamped_cursor(1, v_len) == v_len - 1,
        v_len - clamped_cursor(v_len, v_len) == 0,
{
}

/// The number of list rows the window shows: `min(v_len, height - 1)`,
/// with one row always reserved for the input line.
pub open spec fn window_len(v_len: int, height: int) -> int {
    let rows = if height >= 1 {
        height - 1
    } else {
        0
    };
    if v_len < rows {
        v_len
    } else {
        rows
    }
}

/// The rendered slice: the window-length suffix of the filtered list, so
/// the list is bottom-anchored and ends with its best-ranked element.
pub fn window_suffix<'a>(v: &Vec<&'a Target>, height: usize) -> (res: Vec<&'a Target>)
    ensures
        res@.len() == window_len(v@.len() as int, height as int),
        res@ == v@.skip(v@.len() - window_len(v@.len() as int, height as int)),
{
    let rows: usize = if height >= 1 {
        height - 1
    } else {
        0
    };
    let take_n: usize = if v.len() < rows {
        v.len()
    } else {
        rows
    };
    let start: usize = v.len() - take_n;
    let mut res: Vec<&'a Target> = Vec::new();
    let mut i: usize = start;
    while i < v.len()
        invariant
            start <= i <= v@.len(),
            start == v@.len() - take_n,
            take_n <= v@.len(),
            res@ == v@.subrange(start as int, i as int),
        decreases v@.len() - i,
    {
        let t: &'a Target = v[i];
        res.push(t);
        proof {
            assert(res@ =~= v@.subrange(start as int, i + 1));
        }
        i = i + 1;
    }
    proof {
        assert(res@ =~= v@.skip(start as int));
    }
    res
}

/// The selector session's mutable state: the pattern being typed and the
/// cursor, counted up from the end of the filtered list.
pub struct SessionState {
    pub pattern: String,
    pub cursor: usize,
}

impl SessionState {
    /// A fresh session: empty pattern, cursor at the bottom.
    pub fn new() -> (r: SessionState)
        ensures
            r.pattern@ == Seq::<char>::empty(),
            r.cursor == 0,
    {
        SessionState { pattern: String::new(), cursor: 0 }
    }

    /// The filtered view of the target list under the current pattern: the
    /// unfiltered list for an empty pattern (the scorer is bypassed by
    /// design), the scorer's ranking otherwise.
    pub fn filtered_view<'a>(&self, targets: &'a Vec<Target>) -> (res: Vec<&'a Target>)
        ensures
            self.pattern@.len() == 0 ==> deref_seq(res@) == targets@,
            self.pattern@.len() > 0 ==> deref_seq(res@) == score_ordering(
                targets@,
                self.pattern@,
            ),
    {
        if self.pattern.as_str().unicode_len() == 0 {
            let mut all: Vec<&'a Target> = Vec::new();
            let mut i: usize = 0;
            proof {
                assert(deref_seq(all@) =~= targets@.take(0));
            }
            while i < targets.len()
                invariant
                    i <= targets@.len(),
                    deref_seq(all@) == targets@.take(i as int),
                decreases targets@.len() - i,
            {
                let ghost all0 = all@;
                let t: &'a Target = &targets[i];
                all.push(t);
                proof {
                    assert(deref_seq(all@) =~= deref_seq(all0).push(targets@[i as int]));
                    assert(targets@.take(i + 1) =~= targets@.take(i as int).push(
                        targets@[i as int],
                    ));
                }
                i = i + 1;
            }
            proof {
                assert(targets@.take(targets@.len() as int) =~= targets@);
            }
            all
        } else {
            score_targets(targets, self.pattern.as_str())
        }
    }

    /// Applies one event against a filtered list of length `v_len`.  The
    /// cursor is first clamped to `[1, v_len]` as the rendering step does;
    /// Enter selects the filtered-list index `v_len - cursor`, so cursor 1
    /// takes the last, best-ranked element.
    pub fn step(&mut self, event: SessionEvent, v_len: usize) -> (o: SessionOutcome)
        ensures
            ({
                let cc = clamped_cursor(old(self).cursor as int, v_len as int);
                let fp = final(self).pattern@;
                let fc = final(self).cursor as int;
                let op = old(self).pattern@;
                match event {
                    SessionEvent::Char(c) => fp == op.push(c) && fc == cc && o
                        == SessionOutcome::Continue,
                    SessionEvent::Backspace => fp == (if op.len() > 0 {
                        op.drop_last()
                    } else {
                        op
                    }) && fc == cc && o == SessionOutcome::Continue,
                    SessionEvent::WordDelete => fp == word_deleted(op) && fc == cc && o
                        == SessionOutcome::Continue,
                    SessionEvent::CursorUp => fp == op && fc == (if cc < usize::MAX as int {
                        cc + 1
                    } else {
                        cc
                    }) && o == SessionOutcome::Continue,
                    SessionEvent::CursorDown => fp == op && fc == cc - 1 && o
                        == SessionOutcome::Continue,
                    SessionEvent::Enter => fp == op && fc == cc && (if v_len == 0 {
                        o == SessionOutcome::NoMatch
                    } else {
                        o == SessionOutcome::Selected((v_len - cc) as usize) && v_len - cc < v_len
                    }),
                    SessionEvent::Cancel => fp == op && fc == cc && o == SessionOutcome::Cancelled,
                    SessionEvent::Other => fp == op && fc == cc && o == SessionOutcome::Continue,
                }
            }),
    {
        let mut c: usize = self.cursor;
        if c > v_len {
            c = v_len;
        }
        if c < 1 {
            c = 1;
        }
        self.cursor = c;
        match event {
            SessionEvent::Char(ch) => {
                push_char(&mut self.pattern, ch);
                SessionOutcome::Continue
            },
            SessionEvent::Backspace => {
                let plen: usize = self.pattern.as_str().unicode_len();
                if plen > 0 {
                    let np = self.pattern.as_str().substring_char(0, plen - 1).to_owned();
                    proof {
                        assert(np@ =~= self.pattern@.drop_last());
                    }
                    self.pattern = np;
                }
                SessionOutcome::Continue
            },
            SessionEvent::WordDelete => {
                let ghost orig = self.pattern@;
                let mut plen: usize = self.pattern.as_str().unicode_len();
                loop
                    invariant_except_break
                        word_deleted(orig) == word_deleted(self.pattern@),
                    invariant
                        plen == self.pattern@.len(),
                        self.cursor == c,
                    ensures
                        self.pattern@ == word_deleted(orig),
                    decreases plen,
                {
                    if plen == 0 {
                        break;
                    }
                    let ch = self.pattern.as_str().get_char(plen - 1);
                    let np = self.pattern.as_str().substring_char(0, plen - 1).to_owned();
                    proof {
                        assert(np@ =~= self.pattern@.drop_last());
                    }
                    if ch == ' ' {
                        self.pattern = np;
                        plen = plen - 1;
                        break;
                    }
                    self.pattern = np;
                    plen = plen - 1;
                }
                SessionOutcome::Continue
            },
            SessionEvent::CursorUp => {
                if c < usize::MAX {
                    self.cursor = c + 1;
                }
                SessionOutcome::Continue
            },
            SessionEvent::CursorDown => {
                self.cursor = c - 1;
                SessionOutcome::Continue
            },
            SessionEvent::Enter => {
                if v_len == 0 {
                    SessionOutcome::NoMatch
                } else {
                    SessionOutcome::Selected(v_len - c)
                }
            },
            SessionEvent::Cancel => SessionOutcome::Cancelled,
            SessionEvent::Other => SessionOutcome::Continue,
        }
    }
}

/// Relies on `String::push`: appends exactly the given character.
#[verifier::external_body]
fn push_char(s: &mut String, c: char)
    ensures
        final(s)@ == old(s)@.push(c),
{
    s.push(c);
}

/// The renderer's frame model.
pub struct Tui;

impl Tui {
    /// The text rows of one frame: blank rows pad the windowed display
    /// strings down to the input line, which holds the pattern and always
    /// occupies the final row.
    pub fn ui(windowed: &Vec<&Target>, pattern: &String, height: usize) -> (rows: Vec<String>)
        requires
            windowed@.len() == window_len(windowed@.len() as int, height as int),
        ensures
            rows@.len() == (if height >= 1 {
                height as int
            } else {
                1
            }),
            forall|i: int|
                0 <= i < rows@.len() - 1 - windowed@.len() ==> (#[trigger] rows@[i])@
                    == Seq::<char>::empty(),
            forall|i: int|
                0 <= i < windowed@.len() ==> (#[trigger] rows@[rows@.len() - 1 - windowed@.len()
                    + i])@ == target_display(*windowed@[i]),
            rows@.last()@ == pattern@,
    {
        let rows_avail: usize = if height >= 1 {
            height - 1
        } else {
            0
        };
        let pad: usize = rows_avail - windowed.len();
        let mut rows: Vec<String> = Vec::new();
        let mut i: usize = 0;
        while i < pad
            invariant
                i <= pad,
                rows@.len() == i,
                forall|k: int| 0 <= k < i ==> (#[trigger] rows@[k])@ == Seq::<char>::empty(),
            decreases pad - i,
        {
            rows.push(String::new());
            i = i + 1;
        }
        let mut j: usize = 0;
        while j < windowed.len()
            invariant
                j <= windowed@.len(),
                rows@.len() == pad + j,
                forall|k: int| 0 <= k < pad ==> (#[trigger] rows@[k])@ == Seq::<char>::empty(),
                forall|k: int|
                    0 <= k < j ==> (#[trigger] rows@[pad + k])@ == target_display(*windowed@[k]),
            decreases windowed@.len() - j,
        {
            let line = windowed[j].display_string();
            rows.push(line);
            j = j + 1;
        }
        rows.push(pattern.clone());
        rows
    }
}

} // verus!
