//! PS/2 keyboard: scancode decoding and the key buffer.
//!
//! The interrupt handler reads a scancode from the controller and hands it to
//! a `KeyDecoder`, which tracks Shift and gives the ASCII key, if any; keys
//! wait in a `KeyBuffer` until the shell reads them.

use vstd::prelude::*;

verus! {

/// Slots of the key ring; one stays empty, so it holds at most 63 keys.
pub const KEY_BUF_SIZE: usize = 64;

/// Key event buffer (ring buffer).
pub struct KeyBuffer {
    buf: Vec<u8>,
    head: usize,
    tail: usize,
}

impl KeyBuffer {
    /// Keys waiting, oldest first.
    pub closed spec fn view(&self) -> Seq<u8> {
        let n = (self.head + KEY_BUF_SIZE - self.tail) % (KEY_BUF_SIZE as int);
        Seq::new(n as nat, |k: int| self.buf@[(self.tail + k) % (KEY_BUF_SIZE as int)])
    }

    /// The ring has its slots and both ends point into it.
    pub closed spec fn wf(&self) -> bool {
        &&& self.buf@.len() == KEY_BUF_SIZE
        &&& self.head < KEY_BUF_SIZE
        &&& self.tail < KEY_BUF_SIZE
    }

    /// An empty buffer.
    pub fn new() -> (b: Self)
        ensures
            b.wf(),
            b@ == Seq::<u8>::empty(),
    {
        let mut buf: Vec<u8> = Vec::new();
        let mut i: usize = 0;
        while i < KEY_BUF_SIZE
            invariant
                i <= KEY_BUF_SIZE,
                buf@.len() == i,
            decreases KEY_BUF_SIZE - i,
        {
            buf.push(0);
            i += 1;
        }
        let b = KeyBuffer { buf, head: 0, tail: 0 };
        assert(b@ =~= Seq::<u8>::empty());
        b
    }

    /// At most 63 keys wait.
    pub proof fn lemma_len(&self)
        requires
            self.wf(),
        ensures
            self@.len() < KEY_BUF_SIZE,
    {
    }

    /// Queue a key; a key that finds the buffer full is dropped.
    pub fn push(&mut self, key: u8)
        requires
            old(self).wf(),
        ensures
            final(self).wf(),
            final(self)@ == if old(self)@.len() < KEY_BUF_SIZE - 1 {
                old(self)@.push(key)
            } else {
                old(self)@
            },
    {
        let next = (self.head + 1) % KEY_BUF_SIZE;
        if next != self.tail {
            let ghost q = self@;
            let h = self.head;
            self.buf.set(h, key);
            self.head = next;
            proof {
                assert(q.len() < KEY_BUF_SIZE - 1);
                assert forall|k: int| 0 <= k < q.len() implies self@[k] == q[k] by {
                    assert((self.tail + k) % 64 != h as int);
                }
                assert(self@[q.len() as int] == key);
                assert(self@ =~= q.push(key));
            }
        } else {
            proof {
                assert(old(self)@.len() == KEY_BUF_SIZE - 1);
            }
        }
    }

    /// Take the oldest key, if any.
    pub fn pop(&mut self) -> (r: Option<u8>)
        requires
            old(self).wf(),
        ensures
            final(self).wf(),
            old(self)@.len() == 0 ==> r is None && final(self)@ == old(self)@,
            old(self)@.len() > 0 ==> r == Some(old(self)@[0]) && final(self)@ == old(self)@.drop_first(),
    {
        if self.head == self.tail {
            None
        } else {
            let ghost q = self@;
            let key = self.buf[self.tail];
            self.tail = (self.tail + 1) % KEY_BUF_SIZE;
            proof {
                assert forall|k: int| 0 <= k < q.len() - 1 implies self@[k] == q[k + 1] by {
                    assert((old(self).tail + (k + 1)) % 64 == (self.tail + k) % 64);
                }
                assert(self@ =~= q.drop_first());
            }
            Some(key)
        }
    }
}

/// Keys come out in the order they went in: pushing `a` then `b` onto an
/// empty buffer and popping gives `a` first, then `b`.
pub proof fn lemma_key_fifo(a: u8, b: u8)
    ensures
        Seq::<u8>::empty().push(a).push(b)[0] == a,
        Seq::<u8>::empty().push(a).push(b).drop_first() == seq![b],
{
    assert(Seq::<u8>::empty().push(a).push(b).drop_first() =~= seq![b]);
}

/// Read a key from the buffer (non-blocking).
pub fn read_key(keys: &mut KeyBuffer) -> (r: Option<u8>)
    requires
        old(keys).wf(),
    ensures
        final(keys).wf(),
        old(keys)@.len() == 0 ==> r is None && final(keys)@ == old(keys)@,
        old(keys)@.len() > 0 ==> r == Some(old(keys)@[0]) && final(keys)@ == old(keys)@.drop_first(),
{
    keys.pop()
}

/// US QWERTY scancode set 1 to ASCII, without Shift (0 = no key).
pub open spec fn plain_keymap() -> Seq<u8> {
    seq![
        0, 27, 0x31, 0x32, 0x33, 0x34, 0x35, 0x36, 0x37, 0x38, 0x39, 0x30, 0x2D, 0x3D, 8, 0x09,
        0x71, 0x77, 0x65, 0x72, 0x74, 0x79, 0x75, 0x69, 0x6F, 0x70, 0x5B, 0x5D, 0x0A, 0, 0x61, 0x73,
        0x64, 0x66, 0x67, 0x68, 0x6A, 0x6B, 0x6C, 0x3B, 0x27, 0x60, 0, 0x5C, 0x7A, 0x78, 0x63, 0x76,
        0x62, 0x6E, 0x6D, 0x2C, 0x2E, 0x2F, 0, 0x2A, 0, 0x20, 0, 0, 0, 0, 0, 0,
        0, 0, 0, 0, 0, 0, 0, 0, 0, 0, 0, 0, 0, 0, 0, 0,
        0, 0, 0, 0, 0, 0, 0, 0, 0, 0, 0, 0, 0, 0, 0, 0,
        0, 0, 0, 0, 0, 0, 0, 0, 0, 0, 0, 0, 0, 0, 0, 0,
        0, 0, 0, 0, 0, 0, 0, 0, 0, 0, 0, 0, 0, 0, 0, 0,
    ]
}

/// US QWERTY scancode set 1 to ASCII, with Shift held (0 = no key).
pub open spec fn shift_keymap() -> Seq<u8> {
    seq![
        0, 27, 0x21, 0x40, 0x23, 0x24, 0x25, 0x5E, 0x26, 0x2A, 0x28, 0x29, 0x5F, 0x2B, 8, 0x09,
        0x51, 0x57, 0x45, 0x52, 0x54, 0x59, 0x55, 0x49, 0x4F, 0x50, 0x7B, 0x7D, 0x0A, 0, 0x41, 0x53,
        0x44, 0x46, 0x47, 0x48, 0x4A, 0x4B, 0x4C, 0x3A, 0x22, 0x7E, 0, 0x7C, 0x5A, 0x58, 0x43, 0x56,
        0x42, 0x4E, 0x4D, 0x3C, 0x3E, 0x3F, 0, 0x2A, 0, 0x20, 0, 0, 0, 0, 0, 0,
        0, 0, 0, 0, 0, 0, 0, 0, 0, 0, 0, 0, 0, 0, 0, 0,
        0, 0, 0, 0, 0, 0, 0, 0, 0, 0, 0, 0, 0, 0, 0, 0,
        0, 0, 0, 0, 0, 0, 0, 0, 0, 0, 0, 0, 0, 0, 0, 0,
        0, 0, 0, 0, 0, 0, 0, 0, 0, 0, 0, 0, 0, 0, 0, 0,
    ]
}

/// The ASCII key of a scancode (0 for none, and for codes past the table).
pub open spec fn scancode_ascii(sc: u8, shift: bool) -> u8 {
    if sc < 128 {
        if shift {
            shift_keymap()[sc as int]
        } else {
            plain_keymap()[sc as int]
        }
    } else {
        0
    }
}

/// The ASCII key of a scancode.
pub fn translate(sc: u8, shift: bool) -> (a: u8)
    ensures
        a == scancode_ascii(sc, shift),
        is_letter_key(sc) && !shift ==> a == qwerty_letter(sc) as u8,
        is_letter_key(sc) && shift ==> a + 0x20 == qwerty_letter(sc) as u8,
{
    proof {
        if is_letter_key(sc) {
            lemma_letter_keys(sc);
        }
    }
    let plain: [u8; 128] = [
        0, 27, 0x31, 0x32, 0x33, 0x34, 0x35, 0x36, 0x37, 0x38, 0x39, 0x30, 0x2D, 0x3D, 8, 0x09,
        0x71, 0x77, 0x65, 0x72, 0x74, 0x79, 0x75, 0x69, 0x6F, 0x70, 0x5B, 0x5D, 0x0A, 0, 0x61, 0x73,
        0x64, 0x66, 0x67, 0x68, 0x6A, 0x6B, 0x6C, 0x3B, 0x27, 0x60, 0, 0x5C, 0x7A, 0x78, 0x63, 0x76,
        0x62, 0x6E, 0x6D, 0x2C, 0x2E, 0x2F, 0, 0x2A, 0, 0x20, 0, 0, 0, 0, 0, 0,
        0, 0, 0, 0, 0, 0, 0, 0, 0, 0, 0, 0, 0, 0, 0, 0,
        0, 0, 0, 0, 0, 0, 0, 0, 0, 0, 0, 0, 0, 0, 0, 0,
        0, 0, 0, 0, 0, 0, 0, 0, 0, 0, 0, 0, 0, 0, 0, 0,
        0, 0, 0, 0, 0, 0, 0, 0, 0, 0, 0, 0, 0, 0, 0, 0,
    ];
    let shifted: [u8; 128] = [
        0, 27, 0x21, 0x40, 0x23, 0x24, 0x25, 0x5E, 0x26, 0x2A, 0x28, 0x29, 0x5F, 0x2B, 8, 0x09,
        0x51, 0x57, 0x45, 0x52, 0x54, 0x59, 0x55, 0x49, 0x4F, 0x50, 0x7B, 0x7D, 0x0A, 0, 0x41, 0x53,
        0x44, 0x46, 0x47, 0x48, 0x4A, 0x4B, 0x4C, 0x3A, 0x22, 0x7E, 0, 0x7C, 0x5A, 0x58, 0x43, 0x56,
        0x42, 0x4E, 0x4D, 0x3C, 0x3E, 0x3F, 0, 0x2A, 0, 0x20, 0, 0, 0, 0, 0, 0,
        0, 0, 0, 0, 0, 0, 0, 0, 0, 0, 0, 0, 0, 0, 0, 0,
        0, 0, 0, 0, 0, 0, 0, 0, 0, 0, 0, 0, 0, 0, 0, 0,
        0, 0, 0, 0, 0, 0, 0, 0, 0, 0, 0, 0, 0, 0, 0, 0,
        0, 0, 0, 0, 0, 0, 0, 0, 0, 0, 0, 0, 0, 0, 0, 0,
    ];
    assert(plain@ =~= plain_keymap());
    assert(shifted@ =~= shift_keymap());
    if sc >= 128 {
        0
    } else if shift {
        shifted[sc as usize]
    } else {
        plain[sc as usize]
    }
}

/// A letter key of scancode set 1: the top, home and bottom letter rows.
pub open spec fn is_letter_key(sc: u8) -> bool {
    (0x10 <= sc <= 0x19) || (0x1E <= sc <= 0x26) || (0x2C <= sc <= 0x32)
}

/// The letter a QWERTY key bears: the rows read "qwertyuiop", "asdfghjkl"
/// and "zxcvbnm" from the left.
pub open spec fn qwerty_letter(sc: u8) -> char {
    if 0x10 <= sc <= 0x19 {
        "qwertyuiop"@[sc - 0x10]
    } else if 0x1E <= sc <= 0x26 {
        "asdfghjkl"@[sc - 0x1E]
    } else {
        "zxcvbnm"@[sc - 0x2C]
    }
}

/// Letter keys type their letter: lowercase without Shift, and with Shift
/// the same letter in uppercase (32 below it in ASCII).
pub proof fn lemma_letter_keys(sc: u8)
    requires
        is_letter_key(sc),
    ensures
        scancode_ascii(sc, false) == qwerty_letter(sc) as u8,
        0x61 <= scancode_ascii(sc, false) <= 0x7A,
        scancode_ascii(sc, true) + 0x20 == scancode_ascii(sc, false),
{
    reveal_strlit("qwertyuiop");
    reveal_strlit("asdfghjkl");
    reveal_strlit("zxcvbnm");
    let plain: [u8; 128] = [
        0, 27, 0x31, 0x32, 0x33, 0x34, 0x35, 0x36, 0x37, 0x38, 0x39, 0x30, 0x2D, 0x3D, 8, 0x09,
        0x71, 0x77, 0x65, 0x72, 0x74, 0x79, 0x75, 0x69, 0x6F, 0x70, 0x5B, 0x5D, 0x0A, 0, 0x61, 0x73,
        0x64, 0x66, 0x67, 0x68, 0x6A, 0x6B, 0x6C, 0x3B, 0x27, 0x60, 0, 0x5C, 0x7A, 0x78, 0x63, 0x76,
        0x62, 0x6E, 0x6D, 0x2C, 0x2E, 0x2F, 0, 0x2A, 0, 0x20, 0, 0, 0, 0, 0, 0,
        0, 0, 0, 0, 0, 0, 0, 0, 0, 0, 0, 0, 0, 0, 0, 0,
        0, 0, 0, 0, 0, 0, 0, 0, 0, 0, 0, 0, 0, 0, 0, 0,
        0, 0, 0, 0, 0, 0, 0, 0, 0, 0, 0, 0, 0, 0, 0, 0,
        0, 0, 0, 0, 0, 0, 0, 0, 0, 0, 0, 0, 0, 0, 0, 0,
    ];
    let shifted: [u8; 128] = [
        0, 27, 0x21, 0x40, 0x23, 0x24, 0x25, 0x5E, 0x26, 0x2A, 0x28, 0x29, 0x5F, 0x2B, 8, 0x09,
        0x51, 0x57, 0x45, 0x52, 0x54, 0x59, 0x55, 0x49, 0x4F, 0x50, 0x7B, 0x7D, 0x0A, 0, 0x41, 0x53,
        0x44, 0x46, 0x47, 0x48, 0x4A, 0x4B, 0x4C, 0x3A, 0x22, 0x7E, 0, 0x7C, 0x5A, 0x58, 0x43, 0x56,
        0x42, 0x4E, 0x4D, 0x3C, 0x3E, 0x3F, 0, 0x2A, 0, 0x20, 0, 0, 0, 0, 0, 0,
        0, 0, 0, 0, 0, 0, 0, 0, 0, 0, 0, 0, 0, 0, 0, 0,
        0, 0, 0, 0, 0, 0, 0, 0, 0, 0, 0, 0, 0, 0, 0, 0,
        0, 0, 0, 0, 0, 0, 0, 0, 0, 0, 0, 0, 0, 0, 0, 0,
        0, 0, 0, 0, 0, 0, 0, 0, 0, 0, 0, 0, 0, 0, 0, 0,
    ];
    assert(plain@ =~= plain_keymap());
    assert(shifted@ =~= shift_keymap());
}

/// The digit row types "1234567890" without Shift and "!@#$%^&*()" with
/// it; Escape, Backspace, Tab, Enter and Space type 27, 8, tab, newline and
/// space either way; scancodes past the table type nothing.
pub proof fn lemma_other_keys(sc: u8, shift: bool)
    ensures
        0x02 <= sc <= 0x0B && !shift ==> scancode_ascii(sc, shift) == "1234567890"@[sc - 0x02] as u8,
        0x02 <= sc <= 0x0B && shift ==> scancode_ascii(sc, shift) == "!@#$%^&*()"@[sc - 0x02] as u8,
        sc == 0x01 ==> scancode_ascii(sc, shift) == 27,
        sc == 0x0E ==> scancode_ascii(sc, shift) == 8,
        sc == 0x0F ==> scancode_ascii(sc, shift) == '\t' as u8,
        sc == 0x1C ==> scancode_ascii(sc, shift) == '\n' as u8,
        sc == 0x39 ==> scancode_ascii(sc, shift) == ' ' as u8,
        sc >= 0x80 ==> scancode_ascii(sc, shift) == 0,
{
    reveal_strlit("1234567890");
    reveal_strlit("!@#$%^&*()");
    let plain: [u8; 128] = [
        0, 27, 0x31, 0x32, 0x33, 0x34, 0x35, 0x36, 0x37, 0x38, 0x39, 0x30, 0x2D, 0x3D, 8, 0x09,
        0x71, 0x77, 0x65, 0x72, 0x74, 0x79, 0x75, 0x69, 0x6F, 0x70, 0x5B, 0x5D, 0x0A, 0, 0x61, 0x73,
        0x64, 0x66, 0x67, 0x68, 0x6A, 0x6B, 0x6C, 0x3B, 0x27, 0x60, 0, 0x5C, 0x7A, 0x78, 0x63, 0x76,
        0x62, 0x6E, 0x6D, 0x2C, 0x2E, 0x2F, 0, 0x2A, 0, 0x20, 0, 0, 0, 0, 0, 0,
        0, 0, 0, 0, 0, 0, 0, 0, 0, 0, 0, 0, 0, 0, 0, 0,
        0, 0, 0, 0, 0, 0, 0, 0, 0, 0, 0, 0, 0, 0, 0, 0,
        0, 0, 0, 0, 0, 0, 0, 0, 0, 0, 0, 0, 0, 0, 0, 0,
        0, 0, 0, 0, 0, 0, 0, 0, 0, 0, 0, 0, 0, 0, 0, 0,
    ];
    let shifted: [u8; 128] = [
        0, 27, 0x21, 0x40, 0x23, 0x24, 0x25, 0x5E, 0x26, 0x2A, 0x28, 0x29, 0x5F, 0x2B, 8, 0x09,
        0x51, 0x57, 0x45, 0x52, 0x54, 0x59, 0x55, 0x49, 0x4F, 0x50, 0x7B, 0x7D, 0x0A, 0, 0x41, 0x53,
        0x44, 0x46, 0x47, 0x48, 0x4A, 0x4B, 0x4C, 0x3A, 0x22, 0x7E, 0, 0x7C, 0x5A, 0x58, 0x43, 0x56,
        0x42, 0x4E, 0x4D, 0x3C, 0x3E, 0x3F, 0, 0x2A, 0, 0x20, 0, 0, 0, 0, 0, 0,
        0, 0, 0, 0, 0, 0, 0, 0, 0, 0, 0, 0, 0, 0, 0, 0,
        0, 0, 0, 0, 0, 0, 0, 0, 0, 0, 0, 0, 0, 0, 0, 0,
        0, 0, 0, 0, 0, 0, 0, 0, 0, 0, 0, 0, 0, 0, 0, 0,
        0, 0, 0, 0, 0, 0, 0, 0, 0, 0, 0, 0, 0, 0, 0, 0,
    ];
    assert(plain@ =~= plain_keymap());
    assert(shifted@ =~= shift_keymap());
}

/// Different letter keys type different letters.
pub proof fn lemma_letter_keys_distinct(a: u8, b: u8)
    requires
        is_letter_key(a),
        is_letter_key(b),
        a != b,
    ensures
        scancode_ascii(a, false) != scancode_ascii(b, false),
        scancode_ascii(a, true) != scancode_ascii(b, true),
{
    lemma_letter_keys(a);
    lemma_letter_keys(b);
    reveal_strlit("qwertyuiop");
    reveal_strlit("asdfghjkl");
    reveal_strlit("zxcvbnm");
}

/// Left Shift make code.
pub const SC_LEFT_SHIFT: u8 = 0x2A;

/// Right Shift make code.
pub const SC_RIGHT_SHIFT: u8 = 0x36;

/// Shift state across scancodes.
pub struct KeyDecoder {
    pub shift_held: bool,
}

/// A scancode names a Shift key.
pub open spec fn is_shift(sc: u8) -> bool {
    sc == SC_LEFT_SHIFT || sc == SC_RIGHT_SHIFT
}

impl KeyDecoder {
    /// No modifier held.
    pub fn new() -> (d: Self)
        ensures
            !d.shift_held,
    {
        KeyDecoder { shift_held: false }
    }

    /// Handle one scancode: a release (bit 7 set) of Shift lets go of it; a
    /// Shift press holds it; any other press gives its ASCII key, if it has
    /// one.
    pub fn on_scancode(&mut self, scancode: u8) -> (r: Option<u8>)
        ensures
            scancode >= 0x80 ==> r is None && final(self).shift_held == (old(self).shift_held && !is_shift(
                (scancode - 0x80) as u8,
            )),
            scancode < 0x80 && is_shift(scancode) ==> r is None && final(self).shift_held,
            scancode < 0x80 && !is_shift(scancode) ==> {
                &&& final(self).shift_held == old(self).shift_held
                &&& r == if scancode_ascii(scancode, old(self).shift_held) != 0 {
                    Some(scancode_ascii(scancode, old(self).shift_held))
                } else {
                    None
                }
            },
    {
        if scancode & 0x80 != 0 {
            let released = scancode & 0x7F;
            assert(scancode & 0x80 != 0 ==> scancode >= 0x80 && scancode & 0x7F == scancode - 0x80) by (bit_vector);
            if released == SC_LEFT_SHIFT || released == SC_RIGHT_SHIFT {
                self.shift_held = false;
            }
            return None;
        }
        assert(scancode & 0x80 == 0 ==> scancode < 0x80) by (bit_vector);
        if scancode == SC_LEFT_SHIFT || scancode == SC_RIGHT_SHIFT {
            self.shift_held = true;
            return None;
        }
        let ascii = translate(scancode, self.shift_held);
        if ascii != 0 {
            Some(ascii)
        } else {
            None
        }
    }
}

} // verus!
