//! Chat UI: the conversational screen.
//!
//! A centred column of message bubbles (system on the left, user on the
//! right) between a header and an input bar. This module keeps the
//! conversation and the line being typed, and lays the screen out as
//! rectangles and text runs; the display driver paints them with an 8x16
//! font at twice its size.

use crate::text::{decode_or, utf8_or};
use vstd::prelude::*;
use vstd::string::StringSliceAdditionalSpecFns;
use vstd::utf8::{encode_utf8, valid_utf8};

verus! {

/// Bytes a chat message keeps.
pub const MSG_CAPACITY: usize = 200;

/// Longest input line, in bytes.
pub const INPUT_MAX: usize = 199;

pub const BG_MAIN: u32 = 0x0C0C18;
pub const HEADER_BG: u32 = 0x14142A;
pub const HEADER_ACCENT: u32 = 0x5B7FFF;
pub const DIVIDER: u32 = 0x252545;
pub const SYS_BUBBLE: u32 = 0x1C1C38;
pub const SYS_BORDER: u32 = 0x2E2E55;
pub const USR_BUBBLE: u32 = 0x2952CC;
pub const USR_BORDER: u32 = 0x3D66E6;
pub const INPUT_BG: u32 = 0x14142A;
pub const FIELD_BG: u32 = 0x0C0C18;
pub const FIELD_BORDER: u32 = 0x3A3A60;
pub const TXT_BRIGHT: u32 = 0xEAEAF6;
pub const TXT_DIM: u32 = 0x7878A0;
pub const CURSOR: u32 = 0x5B7FFF;

/// Glyph scale: the 8x16 font is drawn at twice its size.
pub const SCALE: u32 = 2;

/// Character cell width on screen.
pub const CW: u32 = 16;

/// Character cell height on screen.
pub const CH: u32 = 32;

/// Who wrote a message.
#[derive(Debug, Clone, Copy, PartialEq, Eq, Structural)]
pub enum Sender {
    System,
    User,
}

/// A chat message: up to 200 bytes of text.
#[derive(Clone, Copy)]
pub struct Message {
    pub sender: Sender,
    pub data: [u8; 200],
    pub len: usize,
}

/// The bytes a message keeps of `text`: its first 200.
pub open spec fn kept_text(text: Seq<u8>) -> Seq<u8> {
    if text.len() <= MSG_CAPACITY {
        text
    } else {
        text.take(MSG_CAPACITY as int)
    }
}

impl Message {
    /// The bytes this message holds.
    pub open spec fn spec_bytes(&self) -> Seq<u8> {
        self.data@.take(self.len as int)
    }

    /// A message holds at most 200 bytes.
    pub open spec fn wf(&self) -> bool {
        self.len <= MSG_CAPACITY
    }

    /// A message from `sender` keeping the first 200 bytes of `text`.
    pub fn new(sender: Sender, text: &str) -> (m: Self)
        ensures
            m.wf(),
            m.sender == sender,
            m.spec_bytes() == kept_text(text.spec_bytes()),
    {
        let bytes = text.as_bytes();
        let len = if bytes.len() < MSG_CAPACITY {
            bytes.len()
        } else {
            MSG_CAPACITY
        };
        let mut data = [0u8; 200];
        let mut i: usize = 0;
        while i < len
            invariant
                len <= MSG_CAPACITY,
                len <= bytes@.len(),
                i <= len,
                data@.len() == MSG_CAPACITY,
                forall|k: int| 0 <= k < i ==> data@[k] == bytes@[k],
            decreases len - i,
        {
            data[i] = bytes[i];
            i += 1;
        }
        let m = Message { sender, data, len };
        assert(m.spec_bytes() =~= kept_text(bytes@));
        m
    }

    /// The message text; empty when its bytes are not UTF-8 (a cut in the
    /// middle of a character).
    pub fn as_str(&self) -> (s: &str)
        requires
            self.wf(),
        ensures
            s@ == decode_or(self.spec_bytes(), ""@),
    {
        let all: &[u8] = self.data.as_slice();
        let slice = &all[0..self.len];
        assert(slice@ =~= self.spec_bytes());
        utf8_or(slice, "")
    }
}

/// Text a message shows, in bytes: all of it when it is UTF-8, else none.
pub open spec fn shown_len(m: Message) -> int {
    if valid_utf8(m.spec_bytes()) {
        m.len as int
    } else {
        0
    }
}

/// Where a text run's text comes from.
#[derive(Debug, Clone, Copy, PartialEq, Eq, Structural)]
pub enum TextSource {
    /// `TuniCore`
    Title,
    /// `v0.6.0`
    Version,
    /// `Type a message...`
    Placeholder,
    /// The line being typed.
    Input,
    /// Message number `i` of the conversation.
    Message(usize),
}

/// A drawing step of the chat screen.
#[derive(Debug, Clone, Copy, PartialEq, Eq, Structural)]
pub enum DrawOp {
    /// Fill a rectangle, clipped to the screen.
    Rect { x: u32, y: u32, w: u32, h: u32, color: u32 },
    /// Draw text with its top-left corner at (`x`, `y`).
    Text { x: u32, y: u32, color: u32, source: TextSource },
}

/// The chat screen state.
pub struct ChatUI {
    width: u32,
    height: u32,
    pitch: u32,
    messages: Vec<Message>,
    input_buf: [u8; 200],
    input_len: usize,
}

/// The ten rectangles of a bubble with 6-pixel rounded corners.
pub open spec fn bubble_ops(x: u32, y: u32, w: u32, h: u32, c: u32) -> Seq<DrawOp> {
    let r = 6int;
    seq![
        DrawOp::Rect { x: (x + r) as u32, y, w: (if w >= 2 * r { w - 2 * r } else { 0 }) as u32, h, color: c },
        DrawOp::Rect { x, y: (y + r) as u32, w, h: (if h >= 2 * r { h - 2 * r } else { 0 }) as u32, color: c },
        DrawOp::Rect { x: (x + 2) as u32, y: (y + 1) as u32, w: 5, h: 5, color: c },
        DrawOp::Rect { x: (x + 1) as u32, y: (y + 2) as u32, w: 5, h: 5, color: c },
        DrawOp::Rect { x: (x + w - r - 1) as u32, y: (y + 1) as u32, w: 5, h: 5, color: c },
        DrawOp::Rect { x: (x + w - r) as u32, y: (y + 2) as u32, w: 5, h: 5, color: c },
        DrawOp::Rect { x: (x + 2) as u32, y: (y + h - r) as u32, w: 5, h: 5, color: c },
        DrawOp::Rect { x: (x + 1) as u32, y: (y + h - r - 1) as u32, w: 5, h: 5, color: c },
        DrawOp::Rect { x: (x + w - r - 1) as u32, y: (y + h - r) as u32, w: 5, h: 5, color: c },
        DrawOp::Rect { x: (x + w - r) as u32, y: (y + h - r - 1) as u32, w: 5, h: 5, color: c },
    ]
}

/// The rectangles of a bubble.
fn bubble(ops: &mut Vec<DrawOp>, x: u32, y: u32, w: u32, h: u32, c: u32)
    requires
        x + w >= 7,
        y + h >= 7,
        x + w <= u32::MAX,
        y + h <= u32::MAX,
        x + 6 <= u32::MAX,
        y + 6 <= u32::MAX,
    ensures
        final(ops)@ == old(ops)@ + bubble_ops(x, y, w, h, c),
{
    let r: u32 = 6;
    let ghost before = ops@;
    ops.push(DrawOp::Rect { x: x + r, y, w: w.saturating_sub(r * 2), h, color: c });
    ops.push(DrawOp::Rect { x, y: y + r, w, h: h.saturating_sub(r * 2), color: c });
    ops.push(DrawOp::Rect { x: x + 2, y: y + 1, w: r - 1, h: r - 1, color: c });
    ops.push(DrawOp::Rect { x: x + 1, y: y + 2, w: r - 1, h: r - 1, color: c });
    ops.push(DrawOp::Rect { x: x + w - r - 1, y: y + 1, w: r - 1, h: r - 1, color: c });
    ops.push(DrawOp::Rect { x: x + w - r, y: y + 2, w: r - 1, h: r - 1, color: c });
    ops.push(DrawOp::Rect { x: x + 2, y: y + h - r, w: r - 1, h: r - 1, color: c });
    ops.push(DrawOp::Rect { x: x + 1, y: y + h - r - 1, w: r - 1, h: r - 1, color: c });
    ops.push(DrawOp::Rect { x: x + w - r - 1, y: y + h - r, w: r - 1, h: r - 1, color: c });
    ops.push(DrawOp::Rect { x: x + w - r, y: y + h - r - 1, w: r - 1, h: r - 1, color: c });
    assert(ops@ =~= before + bubble_ops(x, y, w, h, c));
}

/// Width of the content column: 700 pixels, or the screen less 40.
pub open spec fn column_width(w: u32) -> u32 {
    if w - 40 < 700 {
        (w - 40) as u32
    } else {
        700
    }
}

/// Left edge of the centred content column.
pub open spec fn column_x(w: u32) -> u32 {
    ((w - column_width(w)) / 2) as u32
}

/// Top of the input bar.
pub open spec fn input_top(h: u32) -> u32 {
    if h >= 80 {
        (h - 80) as u32
    } else {
        0
    }
}

/// Lowest pixel row a message bubble may reach.
pub open spec fn messages_bottom(h: u32) -> u32 {
    if input_top(h) >= 12 {
        (input_top(h) - 12) as u32
    } else {
        0
    }
}

/// Header, input bar and input field.
pub open spec fn frame_ops(w: u32, h: u32, input_len: usize) -> Seq<DrawOp> {
    let col_w = column_width(w);
    let col_x = column_x(w);
    let inp_y = input_top(h);
    let fy = (inp_y + 20) as u32;
    seq![
        DrawOp::Rect { x: 0, y: 0, w, h, color: BG_MAIN },
        DrawOp::Rect { x: 0, y: 0, w, h: 70, color: HEADER_BG },
        DrawOp::Rect { x: 0, y: 69, w, h: 1, color: DIVIDER },
        DrawOp::Text { x: col_x, y: 20, color: HEADER_ACCENT, source: TextSource::Title },
        DrawOp::Text { x: (col_x + 9 * CW) as u32, y: 20, color: TXT_DIM, source: TextSource::Version },
        DrawOp::Rect { x: 0, y: inp_y, w, h: 80, color: INPUT_BG },
        DrawOp::Rect { x: 0, y: inp_y, w, h: 1, color: DIVIDER },
        DrawOp::Rect { x: (col_x - 1) as u32, y: (fy - 1) as u32, w: (col_w + 2) as u32, h: 42, color: FIELD_BORDER },
        DrawOp::Rect { x: col_x, y: fy, w: col_w, h: 40, color: FIELD_BG },
    ] + if input_len == 0 {
        seq![DrawOp::Text { x: (col_x + 16) as u32, y: (fy + 5) as u32, color: TXT_DIM, source: TextSource::Placeholder }]
    } else {
        seq![
            DrawOp::Text { x: (col_x + 16) as u32, y: (fy + 5) as u32, color: TXT_BRIGHT, source: TextSource::Input },
            DrawOp::Rect { x: (col_x + 16 + input_len * CW) as u32, y: (fy + 4) as u32, w: 2, h: CH, color: CURSOR },
        ]
    }
}

/// Bubble height: a text line and 20 pixels of padding.
pub const BUBBLE_H: u32 = 52;

/// Vertical gap between bubbles.
pub const BUBBLE_GAP: u32 = 16;

/// Top of the first bubble.
pub const MSG_TOP: u32 = 90;

/// The bubble of message `i`, drawn at height `y`.
pub open spec fn message_bubble_ops(m: Message, i: int, y: u32, col_x: u32, col_w: u32) -> Seq<DrawOp> {
    let tw = shown_len(m) * 16;
    let bw = (if tw + 32 < col_w {
        tw + 32
    } else {
        col_w as int
    }) as u32;
    match m.sender {
        Sender::System => bubble_ops(col_x, y, (bw + 2) as u32, (BUBBLE_H + 2) as u32, SYS_BORDER) + bubble_ops(
            (col_x + 1) as u32,
            (y + 1) as u32,
            bw,
            BUBBLE_H,
            SYS_BUBBLE,
        ) + seq![DrawOp::Text { x: (col_x + 16) as u32, y: (y + 10) as u32, color: TXT_BRIGHT, source: TextSource::Message(i as usize) }],
        Sender::User => {
            let bx = (col_x + col_w - bw) as u32;
            bubble_ops((bx - 2) as u32, y, (bw + 2) as u32, (BUBBLE_H + 2) as u32, USR_BORDER) + bubble_ops(
                (bx - 1) as u32,
                (y + 1) as u32,
                bw,
                BUBBLE_H,
                USR_BUBBLE,
            ) + seq![DrawOp::Text { x: (bx + 14) as u32, y: (y + 10) as u32, color: TXT_BRIGHT, source: TextSource::Message(i as usize) }]
        },
    }
}

/// Bubbles of messages `i..` of `msgs`, the first at height `y`, one below
/// the other, as long as they fit above `bottom`.
pub open spec fn bubbles_from(msgs: Seq<Message>, i: int, y: int, col_x: u32, col_w: u32, bottom: u32) -> Seq<DrawOp>
    decreases msgs.len() - i,
{
    if i >= msgs.len() || i < 0 || y + BUBBLE_H > bottom {
        Seq::empty()
    } else {
        message_bubble_ops(msgs[i], i, y as u32, col_x, col_w) + bubbles_from(
            msgs,
            i + 1,
            y + BUBBLE_H + BUBBLE_GAP,
            col_x,
            col_w,
            bottom,
        )
    }
}

/// How many bubbles fit on a screen of height `h`.
pub open spec fn visible_messages(h: u32) -> int {
    (messages_bottom(h) - MSG_TOP) / ((BUBBLE_H + BUBBLE_GAP) as int)
}

/// The first message shown: the newest ones that fit are shown.
pub open spec fn first_shown(n: int, h: u32) -> int {
    if n > visible_messages(h) {
        n - visible_messages(h)
    } else {
        0
    }
}

/// Draw the bubble of message `i` at height `y`.
fn push_bubble(ops: &mut Vec<DrawOp>, msg: &Message, i: usize, y: u32, col_x: u32, col_w: u32)
    requires
        msg.wf(),
        20 <= col_x,
        col_w <= 700,
        col_x as int + col_w + 100 <= u32::MAX,
        y as int + 100 <= u32::MAX,
    ensures
        final(ops)@ == old(ops)@ + message_bubble_ops(*msg, i as int, y, col_x, col_w),
{
    let s = msg.as_str();
    let ghost before = ops@;
    proof {
        reveal_strlit("");
        vstd::utf8::encode_utf8_decode_utf8(s@);
        if valid_utf8(msg.spec_bytes()) {
            vstd::utf8::decode_utf8_encode_utf8(msg.spec_bytes());
        }
        assert(s.spec_bytes().len() == shown_len(*msg));
    }
    let tw = s.len() as u32 * CW;
    let bw = if tw + 32 < col_w {
        tw + 32
    } else {
        col_w
    };
    match msg.sender {
        Sender::System => {
            let bx = col_x;
            bubble(ops, bx, y, bw + 2, BUBBLE_H + 2, SYS_BORDER);
            bubble(ops, bx + 1, y + 1, bw, BUBBLE_H, SYS_BUBBLE);
            ops.push(DrawOp::Text { x: bx + 16, y: y + 10, color: TXT_BRIGHT, source: TextSource::Message(i) });
        },
        Sender::User => {
            let bx = col_x + col_w - bw;
            bubble(ops, bx - 2, y, bw + 2, BUBBLE_H + 2, USR_BORDER);
            bubble(ops, bx - 1, y + 1, bw, BUBBLE_H, USR_BUBBLE);
            ops.push(DrawOp::Text { x: bx + 14, y: y + 10, color: TXT_BRIGHT, source: TextSource::Message(i) });
        },
    }
    assert(ops@ =~= before + message_bubble_ops(*msg, i as int, y, col_x, col_w));
}

/// The whole chat screen.
pub open spec fn chat_layout(w: u32, h: u32, input_len: usize, msgs: Seq<Message>) -> Seq<DrawOp> {
    frame_ops(w, h, input_len) + bubbles_from(
        msgs,
        first_shown(msgs.len() as int, h),
        MSG_TOP as int,
        column_x(w),
        column_width(w),
        messages_bottom(h),
    )
}

/// The line being typed after key `key` arrives at line `input`: Enter
/// sends a non-empty line and leaves it empty, Backspace drops the last
/// byte, a printable byte is added while the line is shorter than
/// `INPUT_MAX`, and other keys leave it alone.
pub open spec fn input_after(input: Seq<u8>, key: u8) -> Seq<u8> {
    if key == 0x0A || key == 0x0D {
        Seq::<u8>::empty()
    } else if key == 0x08 || key == 0x7F {
        if input.len() > 0 {
            input.drop_last()
        } else {
            input
        }
    } else if 0x20 <= key <= 0x7E && input.len() < INPUT_MAX {
        input.push(key)
    } else {
        input
    }
}

/// The line being typed after the keys `keys` arrive, in order.
pub open spec fn input_after_keys(input: Seq<u8>, keys: Seq<u8>) -> Seq<u8>
    decreases keys.len(),
{
    if keys.len() == 0 {
        input
    } else {
        input_after(input_after_keys(input, keys.drop_last()), keys.last())
    }
}

/// One key, as `key_input` handles it: `b` is `a` after `key`, and `r` is
/// what the call returned (the text of the line it sent, if any).
pub open spec fn key_step(a: ChatUI, b: ChatUI, key: u8, r: Option<Seq<char>>) -> bool {
    &&& b.wf()
    &&& b.spec_input() == input_after(a.spec_input(), key)
    &&& if (key == 0x0A || key == 0x0D) && a.spec_input().len() > 0 {
        &&& r == Some(decode_or(a.spec_input(), ""@))
        &&& sent_line(a.spec_messages(), b.spec_messages(), a.spec_input())
    } else {
        &&& r is None
        &&& b.spec_messages() == a.spec_messages()
    }
}

/// `after` is `before` with one more user message, holding `line`.
pub open spec fn sent_line(before: Seq<Message>, after: Seq<Message>, line: Seq<u8>) -> bool {
    &&& after.len() == before.len() + 1
    &&& after.drop_last() == before
    &&& after.last().sender == Sender::User
    &&& after.last().spec_bytes() == kept_text(encode_utf8(decode_or(line, ""@)))
}

/// Keys other than Enter, handled one after another from `uis[0]`, return
/// nothing, leave the conversation alone, and build the line
/// `input_after_keys`.
proof fn lemma_keys_before_enter(uis: Seq<ChatUI>, keys: Seq<u8>, rs: Seq<Option<Seq<char>>>, m: int)
    requires
        0 <= m < uis.len(),
        uis.len() == keys.len() + 1,
        rs.len() == keys.len(),
        forall|i: int| 0 <= i < keys.len() ==> key_step(uis[i], #[trigger] uis[i + 1], keys[i], rs[i]),
        forall|i: int| 0 <= i < m ==> #[trigger] keys[i] != 0x0A && keys[i] != 0x0D,
    ensures
        uis[m].spec_input() == input_after_keys(uis[0].spec_input(), keys.take(m)),
        uis[m].spec_messages() == uis[0].spec_messages(),
        forall|i: int| 0 <= i < m ==> #[trigger] rs[i] is None,
    decreases m,
{
    if m > 0 {
        lemma_keys_before_enter(uis, keys, rs, m - 1);
        let k = m - 1;
        assert(key_step(uis[k], uis[k + 1], keys[k], rs[k]));
        assert(keys[k] != 0x0A && keys[k] != 0x0D);
        assert(keys.take(m).drop_last() =~= keys.take(k));
        assert(keys.take(m).last() == keys[k]);
    }
}

/// A typed line, then Enter: starting from an empty line, each key before
/// the Enter returns nothing and leaves the conversation alone; the Enter
/// returns the line built from those keys and adds it as one user message,
/// or returns nothing when the line is empty. Either way the line is empty
/// afterwards.
pub proof fn lemma_line_then_enter(uis: Seq<ChatUI>, keys: Seq<u8>, rs: Seq<Option<Seq<char>>>)
    requires
        keys.len() >= 1,
        uis.len() == keys.len() + 1,
        rs.len() == keys.len(),
        uis[0].spec_input().len() == 0,
        forall|i: int| 0 <= i < keys.len() ==> key_step(uis[i], #[trigger] uis[i + 1], keys[i], rs[i]),
        forall|i: int| 0 <= i < keys.len() - 1 ==> #[trigger] keys[i] != 0x0A && keys[i] != 0x0D,
        keys.last() == 0x0A || keys.last() == 0x0D,
    ensures
        ({
            let b = input_after_keys(Seq::<u8>::empty(), keys.drop_last());
            let n = keys.len() - 1;
            &&& forall|i: int| 0 <= i < n ==> #[trigger] rs[i] is None
            &&& uis[n].spec_messages() == uis[0].spec_messages()
            &&& b.len() == 0 ==> rs.last() is None && uis.last().spec_messages() == uis[0].spec_messages()
            &&& b.len() > 0 ==> rs.last() == Some(decode_or(b, ""@)) && sent_line(
                uis[0].spec_messages(),
                uis.last().spec_messages(),
                b,
            )
            &&& uis.last().spec_input().len() == 0
        }),
{
    let n = keys.len() - 1;
    lemma_keys_before_enter(uis, keys, rs, n);
    assert(keys.take(n) =~= keys.drop_last());
    assert(uis[0].spec_input() =~= Seq::<u8>::empty());
    assert(key_step(uis[n], uis[n + 1], keys[n], rs[n]));
    assert(uis[n + 1] == uis.last());
    assert(keys[n] == keys.last());
}

/// Printable keys typed into the line are appended in order, and those that
/// arrive once the line holds `INPUT_MAX` bytes are dropped.
pub proof fn lemma_typed_keys_append(input: Seq<u8>, keys: Seq<u8>)
    requires
        input.len() <= INPUT_MAX,
        forall|i: int| 0 <= i < keys.len() ==> 0x20 <= #[trigger] keys[i] <= 0x7E,
    ensures
        input_after_keys(input, keys) == if input.len() + keys.len() <= INPUT_MAX {
            input + keys
        } else {
            (input + keys).take(INPUT_MAX as int)
        },
    decreases keys.len(),
{
    if keys.len() > 0 {
        let front = keys.drop_last();
        lemma_typed_keys_append(input, front);
        assert((input + front).push(keys.last()) =~= input + keys);
        if input.len() + front.len() >= INPUT_MAX {
            assert((input + front).take(INPUT_MAX as int) =~= (input + keys).take(INPUT_MAX as int));
            if input.len() + front.len() == INPUT_MAX {
                assert((input + front).take(INPUT_MAX as int) =~= input + front);
            }
        }
    }
}

/// Backspace undoes a printable key that was added to the line.
pub proof fn lemma_backspace_undoes_key(input: Seq<u8>, key: u8)
    requires
        input.len() < INPUT_MAX,
        0x20 <= key <= 0x7E,
    ensures
        input_after(input_after(input, key), 0x08) == input,
{
    assert(input.push(key).drop_last() =~= input);
}


impl ChatUI {
    /// Screen width in pixels.
    pub closed spec fn spec_width(&self) -> u32 {
        self.width
    }

    /// Screen height in pixels.
    pub closed spec fn spec_height(&self) -> u32 {
        self.height
    }

    /// Bytes per scanline.
    pub closed spec fn spec_pitch(&self) -> u32 {
        self.pitch
    }

    /// Screen width in pixels.
    pub fn width(&self) -> (w: u32)
        ensures
            w == self.spec_width(),
    {
        self.width
    }

    /// Screen height in pixels.
    pub fn height(&self) -> (h: u32)
        ensures
            h == self.spec_height(),
    {
        self.height
    }

    /// Bytes per scanline.
    pub fn pitch(&self) -> (p: u32)
        ensures
            p == self.spec_pitch(),
    {
        self.pitch
    }

    /// The conversation, oldest first.
    pub closed spec fn spec_messages(&self) -> Seq<Message> {
        self.messages@
    }

    /// The line being typed.
    pub closed spec fn spec_input(&self) -> Seq<u8> {
        self.input_buf@.take(self.input_len as int)
    }

    /// The input holds at most 199 printable bytes and every message at most
    /// 200 bytes.
    pub closed spec fn wf(&self) -> bool {
        &&& self.input_len <= INPUT_MAX
        &&& forall|i: int| 0 <= i < self.messages@.len() ==> (#[trigger] self.messages@[i]).wf()
    }

    /// An empty conversation on a `width` × `height` screen with `pitch`
    /// bytes per scanline.
    pub fn new(width: u32, height: u32, pitch: u32) -> (ui: Self)
        ensures
            ui.wf(),
            ui.spec_width() == width,
            ui.spec_height() == height,
            ui.spec_pitch() == pitch,
            ui.spec_messages() == Seq::<Message>::empty(),
            ui.spec_input() == Seq::<u8>::empty(),
    {
        let ui = ChatUI { width, height, pitch, messages: Vec::new(), input_buf: [0u8; 200], input_len: 0 };
        assert(ui.spec_input() =~= Seq::<u8>::empty());
        ui
    }

    /// Add a system message.
    pub fn system_msg(&mut self, text: &str)
        requires
            old(self).wf(),
        ensures
            final(self).wf(),
            final(self).spec_width() == old(self).spec_width() && final(self).spec_height() == old(self).spec_height(),
            final(self).spec_input() == old(self).spec_input(),
            final(self).spec_messages().len() == old(self).spec_messages().len() + 1,
            final(self).spec_messages().drop_last() == old(self).spec_messages(),
            final(self).spec_messages().last().sender == Sender::System,
            final(self).spec_messages().last().spec_bytes() == kept_text(text.spec_bytes()),
    {
        self.messages.push(Message::new(Sender::System, text));
        proof {
            assert(self.messages@.drop_last() =~= old(self).messages@);
        }
    }

    /// Add a user message.
    pub fn user_msg(&mut self, text: &str)
        requires
            old(self).wf(),
        ensures
            final(self).wf(),
            final(self).spec_width() == old(self).spec_width() && final(self).spec_height() == old(self).spec_height(),
            final(self).spec_input() == old(self).spec_input(),
            final(self).spec_messages().len() == old(self).spec_messages().len() + 1,
            final(self).spec_messages().drop_last() == old(self).spec_messages(),
            final(self).spec_messages().last().sender == Sender::User,
            final(self).spec_messages().last().spec_bytes() == kept_text(text.spec_bytes()),
    {
        self.messages.push(Message::new(Sender::User, text));
        proof {
            assert(self.messages@.drop_last() =~= old(self).messages@);
        }
    }

    /// The line being typed, as text.
    pub fn input_text(&self) -> (s: &str)
        requires
            self.wf(),
        ensures
            s@ == decode_or(self.spec_input(), ""@),
    {
        let all: &[u8] = self.input_buf.as_slice();
        let slice = &all[0..self.input_len];
        assert(slice@ =~= self.spec_input());
        utf8_or(slice, "")
    }

    /// The text of message `i`; `None` past the last message.
    pub fn message_text(&self, i: usize) -> (s: Option<&str>)
        requires
            self.wf(),
        ensures
            s is None <==> i >= self.spec_messages().len(),
            s matches Some(t) ==> t@ == decode_or(self.spec_messages()[i as int].spec_bytes(), ""@),
    {
        if i < self.messages.len() {
            proof {
                assert(self.messages@[i as int].wf());
            }
            Some(self.messages[i].as_str())
        } else {
            None
        }
    }

    /// Handle a key. Enter with a non-empty line sends it: the line becomes
    /// a user message and is returned, and the input is cleared. Backspace
    /// removes the last character; a printable character is added while the
    /// line is shorter than 199 bytes. Other keys do nothing.
    pub fn key_input(&mut self, key: u8) -> (r: Option<String>)
        requires
            old(self).wf(),
        ensures
            final(self).wf(),
            final(self).spec_width() == old(self).spec_width() && final(self).spec_height() == old(self).spec_height(),
            (key == 0x0A || key == 0x0D) && old(self).spec_input().len() > 0 ==> {
                &&& r matches Some(cmd) && cmd@ == decode_or(old(self).spec_input(), ""@)
                &&& final(self).spec_input() == Seq::<u8>::empty()
                &&& final(self).spec_messages().drop_last() == old(self).spec_messages()
                &&& final(self).spec_messages().len() == old(self).spec_messages().len() + 1
                &&& final(self).spec_messages().last().sender == Sender::User
                &&& final(self).spec_messages().last().spec_bytes() == kept_text(
                    encode_utf8(decode_or(old(self).spec_input(), ""@)),
                )
            },
            !((key == 0x0A || key == 0x0D) && old(self).spec_input().len() > 0) ==> r is None
                && final(self).spec_messages() == old(self).spec_messages(),
            (key == 0x0A || key == 0x0D) && old(self).spec_input().len() == 0 ==> final(self).spec_input()
                == old(self).spec_input(),
            (key == 0x08 || key == 0x7F) ==> final(self).spec_input() == if old(self).spec_input().len() > 0 {
                old(self).spec_input().drop_last()
            } else {
                old(self).spec_input()
            },
            0x20 <= key <= 0x7E ==> final(self).spec_input() == if old(self).spec_input().len() < INPUT_MAX {
                old(self).spec_input().push(key)
            } else {
                old(self).spec_input()
            },
            !(key == 0x0A || key == 0x0D || key == 0x08 || key == 0x7F || 0x20 <= key <= 0x7E)
                ==> final(self).spec_input() == old(self).spec_input(),
            final(self).spec_input() == input_after(old(self).spec_input(), key),
            key_step(
                *old(self),
                *final(self),
                key,
                match r {
                    Some(cmd) => Some(cmd@),
                    None => None,
                },
            ),
    {
        if key == 0x0A || key == 0x0D {
            if self.input_len == 0 {
                return None;
            }
            let cmd = self.input_text().to_owned();
            self.user_msg(cmd.as_str());
            self.input_len = 0;
            proof {
                assert(self.spec_input() =~= Seq::<u8>::empty());
            }
            return Some(cmd);
        }
        if key == 0x08 || key == 0x7F {
            if self.input_len > 0 {
                self.input_len -= 1;
                proof {
                    assert(self.spec_input() =~= old(self).spec_input().drop_last());
                }
            }
            return None;
        }
        if 0x20 <= key && key <= 0x7E {
            if self.input_len < INPUT_MAX {
                let ghost before = self.spec_input();
                self.input_buf[self.input_len] = key;
                self.input_len += 1;
                proof {
                    assert(self.spec_input() =~= before.push(key));
                }
            }
            return None;
        }
        None
    }

    /// Lay the screen out: background, header, input bar, and the newest
    /// messages that fit, each in a bubble.
    pub fn layout(&self) -> (ops: Vec<DrawOp>)
        requires
            self.wf(),
            self.spec_width() >= 40,
            self.spec_height() >= 182,
        ensures
            ops@ == chat_layout(self.spec_width(), self.spec_height(), self.spec_input().len() as usize, self.spec_messages()),
    {
        let w = self.width;
        let h = self.height;
        let col_w = if w - 40 < 700 {
            w - 40
        } else {
            700
        };
        let col_x = (w - col_w) / 2;
        let mut ops: Vec<DrawOp> = Vec::new();
        ops.push(DrawOp::Rect { x: 0, y: 0, w, h, color: BG_MAIN });
        let hdr_h: u32 = 70;
        ops.push(DrawOp::Rect { x: 0, y: 0, w, h: hdr_h, color: HEADER_BG });
        ops.push(DrawOp::Rect { x: 0, y: hdr_h - 1, w, h: 1, color: DIVIDER });
        ops.push(DrawOp::Text { x: col_x, y: 20, color: HEADER_ACCENT, source: TextSource::Title });
        ops.push(DrawOp::Text { x: col_x + 9 * CW, y: 20, color: TXT_DIM, source: TextSource::Version });
        let inp_h: u32 = 80;
        let inp_y = h.saturating_sub(inp_h);
        ops.push(DrawOp::Rect { x: 0, y: inp_y, w, h: inp_h, color: INPUT_BG });
        ops.push(DrawOp::Rect { x: 0, y: inp_y, w, h: 1, color: DIVIDER });
        let fy = inp_y + 20;
        let fh: u32 = 40;
        ops.push(DrawOp::Rect { x: col_x - 1, y: fy - 1, w: col_w + 2, h: fh + 2, color: FIELD_BORDER });
        ops.push(DrawOp::Rect { x: col_x, y: fy, w: col_w, h: fh, color: FIELD_BG });
        if self.input_len == 0 {
            ops.push(DrawOp::Text { x: col_x + 16, y: fy + 5, color: TXT_DIM, source: TextSource::Placeholder });
        } else {
            ops.push(DrawOp::Text { x: col_x + 16, y: fy + 5, color: TXT_BRIGHT, source: TextSource::Input });
            let cx = col_x + 16 + self.input_len as u32 * CW;
            ops.push(DrawOp::Rect { x: cx, y: fy + 4, w: 2, h: CH, color: CURSOR });
        }
        assert(ops@ =~= frame_ops(w, h, self.input_len));
        let msg_top = MSG_TOP;
        let msg_bot = inp_y.saturating_sub(12);
        let max_msgs = ((msg_bot - msg_top) / (BUBBLE_H + BUBBLE_GAP)) as usize;
        let n = self.messages.len();
        let start = n.saturating_sub(max_msgs);
        let ghost frame = ops@;
        let mut i = start;
        let mut y = msg_top;
        while i < n
            invariant
                self.wf(),
                n == self.messages@.len(),
                start <= i <= n,
                MSG_TOP <= y,
                y <= msg_bot + BUBBLE_GAP,
                msg_bot as int + 92 <= u32::MAX,
                msg_bot == messages_bottom(h),
                col_w == column_width(w),
                col_x == column_x(w),
                20 <= col_x,
                col_x + col_w <= w,
                col_w <= 700,
                ops@ + bubbles_from(self.messages@, i as int, y as int, col_x, col_w, msg_bot) == frame
                    + bubbles_from(self.messages@, start as int, MSG_TOP as int, col_x, col_w, msg_bot),
            ensures
                i >= n || y + BUBBLE_H > msg_bot,
                ops@ + bubbles_from(self.messages@, i as int, y as int, col_x, col_w, msg_bot) == frame
                    + bubbles_from(self.messages@, start as int, MSG_TOP as int, col_x, col_w, msg_bot),
            decreases n - i,
        {
            if y + BUBBLE_H > msg_bot {
                break;
            }
            let ghost before = ops@;
            proof {
                assert(self.messages@[i as int].wf());
            }
            push_bubble(&mut ops, &self.messages[i], i, y, col_x, col_w);
            proof {
                assert(bubbles_from(self.messages@, i as int, y as int, col_x, col_w, msg_bot) == message_bubble_ops(
                    self.messages@[i as int],
                    i as int,
                    y,
                    col_x,
                    col_w,
                ) + bubbles_from(self.messages@, i + 1, y + BUBBLE_H + BUBBLE_GAP, col_x, col_w, msg_bot));
                assert(ops@ == before + message_bubble_ops(self.messages@[i as int], i as int, y, col_x, col_w));
                assert(before + message_bubble_ops(self.messages@[i as int], i as int, y, col_x, col_w) + bubbles_from(self.messages@, i + 1, y + BUBBLE_H + BUBBLE_GAP, col_x, col_w, msg_bot)
                    =~= before + bubbles_from(self.messages@, i as int, y as int, col_x, col_w, msg_bot));
            }
            y += BUBBLE_H + BUBBLE_GAP;
            i += 1;
        }
        proof {
            assert(bubbles_from(self.messages@, i as int, y as int, col_x, col_w, msg_bot) =~= Seq::<DrawOp>::empty());
            assert(ops@ =~= frame + bubbles_from(self.messages@, start as int, MSG_TOP as int, col_x, col_w, msg_bot));
        }
        ops
    }
}

/// Add a system message to the chat screen, if there is one.
pub fn system_msg(chat: &mut Option<ChatUI>, text: &str)
    requires
        *old(chat) matches Some(ui) ==> ui.wf(),
    ensures
        *old(chat) is None ==> *final(chat) is None,
        *old(chat) matches Some(ui) ==> *final(chat) matches Some(ui2) && ui2.wf() && ui2.spec_messages().drop_last()
            == ui.spec_messages() && ui2.spec_messages().len() == ui.spec_messages().len() + 1
            && ui2.spec_messages().last().sender == Sender::System && ui2.spec_messages().last().spec_bytes()
            == kept_text(text.spec_bytes()) && ui2.spec_input() == ui.spec_input(),
{
    match chat {
        Some(ui) => ui.system_msg(text),
        None => {},
    }
}

} // verus!
