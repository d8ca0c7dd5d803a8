//! Guardian: the built-in kernel agent's console.
//!
//! The interactive loop reads keys from the keyboard and bytes from the
//! serial line into a line editor; a finished line goes to the intent layer.

use crate::syscall::SyscallResult;
use vstd::prelude::*;

verus! {

/// Longest line the editor holds, in bytes.
pub const LINE_MAX: usize = 255;

/// What a key did to the line.
#[derive(Debug)]
pub enum LineEvent {
    /// Enter: the finished line (possibly empty); the editor is cleared.
    Submit(Vec<u8>),
    /// Backspace removed the last character.
    Erase,
    /// A printable character was added.
    Echo(u8),
    /// The key changed nothing.
    Ignore,
}

/// A printable ASCII byte.
pub open spec fn printable(b: u8) -> bool {
    0x20 <= b <= 0x7E
}

/// A byte that ends the line: newline, and carriage return where it counts.
pub open spec fn is_enter(b: u8, cr_submits: bool) -> bool {
    b == 0x0A || (cr_submits && b == 0x0D)
}

/// A backspace or delete byte.
pub open spec fn is_backspace(b: u8) -> bool {
    b == 0x08 || b == 0x7F
}

/// One byte, as `feed` handles it: the line goes from `before` to `after`
/// and `ev` is what the call returned.
pub open spec fn feed_step(before: Seq<u8>, after: Seq<u8>, b: u8, cr_submits: bool, ev: LineEvent) -> bool {
    if is_enter(b, cr_submits) {
        (ev matches LineEvent::Submit(line) && line@ == before) && after == Seq::<u8>::empty()
    } else if is_backspace(b) {
        if before.len() > 0 {
            ev is Erase && after == before.drop_last()
        } else {
            ev is Ignore && after == before
        }
    } else if printable(b) {
        if before.len() < LINE_MAX {
            (ev matches LineEvent::Echo(c) && c == b) && after == before.push(b)
        } else {
            ev is Ignore && after == before
        }
    } else {
        ev is Ignore && after == before
    }
}

/// Printable bytes fed to an empty line, one after another, are each echoed
/// and kept in order.
proof fn lemma_typed_prefix(lines: Seq<Seq<u8>>, bytes: Seq<u8>, evs: Seq<LineEvent>, cr_submits: bool, m: int)
    requires
        0 <= m < lines.len(),
        lines.len() == bytes.len() + 1,
        evs.len() == bytes.len(),
        lines[0].len() == 0,
        m <= LINE_MAX,
        forall|i: int| 0 <= i < bytes.len() ==> feed_step(lines[i], #[trigger] lines[i + 1], bytes[i], cr_submits, evs[i]),
        forall|i: int| 0 <= i < m ==> 0x20 <= #[trigger] bytes[i] <= 0x7E,
    ensures
        lines[m] == bytes.take(m),
        forall|i: int| 0 <= i < m ==> (#[trigger] evs[i] matches LineEvent::Echo(c) && c == bytes[i]),
    decreases m,
{
    if m == 0 {
        assert(lines[0] =~= bytes.take(0));
    } else {
        let k = m - 1;
        lemma_typed_prefix(lines, bytes, evs, cr_submits, k);
        assert(feed_step(lines[k], lines[k + 1], bytes[k], cr_submits, evs[k]));
        assert(0x20 <= bytes[k] <= 0x7E);
        assert(bytes.take(k).push(bytes[k]) =~= bytes.take(m));
    }
}

/// A line typed, then Enter: every byte from space to tilde (0x20..=0x7E),
/// fed to a new editor while the line is shorter than `LINE_MAX`, is echoed
/// and appended, and the Enter that follows submits exactly those bytes and
/// leaves the line empty.
pub proof fn lemma_typed_line_submitted(lines: Seq<Seq<u8>>, bytes: Seq<u8>, evs: Seq<LineEvent>, cr_submits: bool)
    requires
        bytes.len() >= 1,
        bytes.len() - 1 <= LINE_MAX,
        lines.len() == bytes.len() + 1,
        evs.len() == bytes.len(),
        lines[0].len() == 0,
        forall|i: int| 0 <= i < bytes.len() ==> feed_step(lines[i], #[trigger] lines[i + 1], bytes[i], cr_submits, evs[i]),
        forall|i: int| 0 <= i < bytes.len() - 1 ==> 0x20 <= #[trigger] bytes[i] <= 0x7E,
        bytes.last() == 0x0A,
    ensures
        forall|i: int| 0 <= i < bytes.len() - 1 ==> (#[trigger] evs[i] matches LineEvent::Echo(c) && c == bytes[i]),
        evs.last() matches LineEvent::Submit(line) && line@ == bytes.drop_last(),
        lines.last() == Seq::<u8>::empty(),
{
    let n = bytes.len() - 1;
    lemma_typed_prefix(lines, bytes, evs, cr_submits, n);
    assert(bytes.take(n) =~= bytes.drop_last());
    assert(feed_step(lines[n], lines[n + 1], bytes[n], cr_submits, evs[n]));
    assert(bytes[n] == bytes.last());
    assert(lines[n + 1] == lines.last());
}

/// Console line editor.
pub struct LineEditor {
    buf: Vec<u8>,
}

impl LineEditor {
    /// The line so far.
    pub closed spec fn view(&self) -> Seq<u8> {
        self.buf@
    }

    /// An empty line.
    pub fn new() -> (e: Self)
        ensures
            e@ == Seq::<u8>::empty(),
    {
        LineEditor { buf: Vec::new() }
    }

    /// Handle one input byte. Enter gives the line and clears it; backspace
    /// drops the last character; a printable character is added while the
    /// line is shorter than `LINE_MAX`; anything else is ignored.
    pub fn feed(&mut self, b: u8, cr_submits: bool) -> (ev: LineEvent)
        requires
            old(self)@.len() <= LINE_MAX,
        ensures
            final(self)@.len() <= LINE_MAX,
            (b == 0x0A || (cr_submits && b == 0x0D)) ==> (ev matches LineEvent::Submit(line) && line@ == old(self)@)
                && final(self)@ == Seq::<u8>::empty(),
            !(b == 0x0A || (cr_submits && b == 0x0D)) && (b == 0x08 || b == 0x7F) ==> if old(self)@.len() > 0 {
                ev is Erase && final(self)@ == old(self)@.drop_last()
            } else {
                ev is Ignore && final(self)@ == old(self)@
            },
            0x20 <= b <= 0x7E ==> if old(self)@.len() < LINE_MAX {
                (ev matches LineEvent::Echo(c) && c == b) && final(self)@ == old(self)@.push(b)
            } else {
                ev is Ignore && final(self)@ == old(self)@
            },
            !(b == 0x0A || (cr_submits && b == 0x0D)) && !(b == 0x08 || b == 0x7F) && !(0x20 <= b <= 0x7E)
                ==> ev is Ignore && final(self)@ == old(self)@,
            feed_step(old(self)@, final(self)@, b, cr_submits, ev),
    {
        if b == 0x0A || (cr_submits && b == 0x0D) {
            let mut line: Vec<u8> = Vec::new();
            core::mem::swap(&mut line, &mut self.buf);
            return LineEvent::Submit(line);
        }
        if b == 0x08 || b == 0x7F {
            if self.buf.len() > 0 {
                self.buf.pop();
                return LineEvent::Erase;
            }
            return LineEvent::Ignore;
        }
        if 0x20 <= b && b <= 0x7E {
            if self.buf.len() < LINE_MAX {
                self.buf.push(b);
                return LineEvent::Echo(b);
            }
            return LineEvent::Ignore;
        }
        LineEvent::Ignore
    }
}

/// How a syscall result is reported: any success is `OK ok`, a failure
/// `DENIED FAIL`.
pub fn result_status(result: &SyscallResult) -> (s: &'static str)
    ensures
        s@ == if result is Failure {
            "DENIED FAIL"@
        } else {
            "OK ok"@
        },
{
    match result {
        SyscallResult::Success | SyscallResult::Value(_) | SyscallResult::Handle(_) => "OK ok",
        SyscallResult::Failure(_) => "DENIED FAIL",
    }
}

} // verus!
