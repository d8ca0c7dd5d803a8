use tunicore::framebuffer::{Console, ConsoleOp};
use tunicore::hwdetect::{detect, detect_vendor, yn, CpuVendor, CpuidReadings};
use tunicore::keyboard::{read_key, translate, KeyBuffer, KeyDecoder, KEY_BUF_SIZE};
use tunicore::llm::{frame_query, LlmQuery, PollResult, ResponseReader, ETX, STX, TIMEOUT_ITERS};

#[test]
fn query_frame_bytes() {
    assert_eq!(frame_query("hi"), vec![STX, b'L', b'L', b'M', b':', b'h', b'i', ETX]);
    assert_eq!(frame_query(""), vec![STX, b'L', b'L', b'M', b':', ETX]);
}

fn feed_all(q: &mut LlmQuery, bytes: &[u8]) -> PollResult {
    let mut last = PollResult::Pending;
    for b in bytes {
        last = q.poll(Some(*b));
        if last != PollResult::Pending {
            break;
        }
    }
    last
}

#[test]
fn response_frame_is_read() {
    let mut q = LlmQuery::new();
    assert_eq!(q.poll(None), PollResult::Pending);
    let mut frame = vec![b'x', STX, b'R', b'X', STX, b'R', b'S', b'P', b':'];
    frame.extend_from_slice("hej då".as_bytes());
    frame.push(ETX);
    assert_eq!(feed_all(&mut q, &frame), PollResult::Done);
    assert_eq!(q.response(), "hej då");
}

#[test]
fn response_is_cut_and_checked() {
    let mut r = ResponseReader::new();
    for b in [STX, b'R', b'S', b'P', b':'] {
        assert!(!r.feed(b));
    }
    for _ in 0..1100 {
        assert!(!r.feed(b'a'));
    }
    assert!(r.feed(ETX));
    assert_eq!(r.response().len(), 1024);
    let mut bad = ResponseReader::new();
    for b in [STX, b'R', b'S', b'P', b':', 0xFF] {
        bad.feed(b);
    }
    assert!(bad.feed(ETX));
    assert_eq!(bad.response(), "[invalid utf8]");
}

#[test]
fn query_times_out() {
    let mut q = LlmQuery::new();
    for _ in 0..TIMEOUT_ITERS {
        assert_eq!(q.poll(None), PollResult::Pending);
    }
    assert_eq!(q.poll(None), PollResult::TimedOut);
    assert_eq!(q.poll(Some(STX)), PollResult::TimedOut);
}

#[test]
fn key_buffer_fifo_and_capacity() {
    let mut k = KeyBuffer::new();
    assert_eq!(read_key(&mut k), None);
    k.push(b'a');
    k.push(b'b');
    assert_eq!(read_key(&mut k), Some(b'a'));
    assert_eq!(k.pop(), Some(b'b'));
    assert_eq!(k.pop(), None);
    for i in 0..KEY_BUF_SIZE as u8 {
        k.push(i);
    }
    for i in 0..(KEY_BUF_SIZE - 1) as u8 {
        assert_eq!(k.pop(), Some(i));
    }
    assert_eq!(k.pop(), None);
}

#[test]
fn scancodes_to_ascii() {
    assert_eq!(translate(0x1E, false), b'a');
    assert_eq!(translate(0x1E, true), b'A');
    assert_eq!(translate(0x02, true), b'!');
    assert_eq!(translate(0x1C, false), b'\n');
    assert_eq!(translate(0x0E, false), 8);
    assert_eq!(translate(0x39, true), b' ');
    assert_eq!(translate(0x3B, false), 0);
    assert_eq!(translate(0xC0, false), 0);
    let mut d = KeyDecoder::new();
    assert_eq!(d.on_scancode(0x10), Some(b'q'));
    assert_eq!(d.on_scancode(0x2A), None);
    assert!(d.shift_held);
    assert_eq!(d.on_scancode(0x10), Some(b'Q'));
    assert_eq!(d.on_scancode(0x90), None);
    assert!(d.shift_held);
    assert_eq!(d.on_scancode(0xAA), None);
    assert!(!d.shift_held);
    assert_eq!(d.on_scancode(0x36), None);
    assert_eq!(d.on_scancode(0x35), Some(b'?'));
    assert_eq!(d.on_scancode(0xB6), None);
    assert_eq!(d.on_scancode(0x1D), None);
}

fn readings() -> CpuidReadings {
    CpuidReadings {
        max_leaf: 0x16,
        vendor_ebx: 0x68747541,
        vendor_ecx: 0x444d4163,
        vendor_edx: 0x69746e65,
        leaf1_ecx: (1 << 21) | (1 << 20),
        leaf1_edx: 1 << 9,
        leaf7_ebx: 1,
        leaf7_ecx: 1 << 13,
        max_ext_leaf: 0x8000_0020,
        ext1_edx: 1 << 26,
        sev_eax: 0b10,
    }
}

#[test]
fn cpu_features() {
    assert_eq!(detect_vendor(0x756e6547, 0x6c65746e, 0x49656e69), CpuVendor::Intel);
    assert_eq!(detect_vendor(0x68747541, 0x444d4163, 0x69746e65), CpuVendor::Amd);
    assert_eq!(detect_vendor(0, 0, 0), CpuVendor::Unknown);
    let c = detect(&readings());
    assert_eq!(c.vendor, CpuVendor::Amd);
    assert!(c.apic && c.x2apic && c.sse42 && c.fsgsbase && c.gigabyte_pages && c.sev);
    assert!(!c.tsc_deadline && !c.rdrand && !c.sev_snp && !c.tme);
    let mut r = readings();
    r.max_leaf = 6;
    r.max_ext_leaf = 0x8000_0000;
    let c = detect(&r);
    assert!(!c.fsgsbase && !c.gigabyte_pages && !c.sev);
    let mut i = readings();
    i.vendor_ebx = 0x756e6547;
    i.vendor_ecx = 0x6c65746e;
    i.vendor_edx = 0x49656e69;
    let c = detect(&i);
    assert_eq!(c.vendor, CpuVendor::Intel);
    assert!(c.tme && !c.sev);
    assert_eq!(yn(true), "yes");
    assert_eq!(yn(false), "no");
}

#[test]
fn console_cursor() {
    let mut c = Console::new(24, 20, 96);
    assert_eq!((c.cols(), c.rows()), (3, 2));
    assert_eq!((c.width(), c.height(), c.pitch()), (24, 20, 96));
    let ops = c.write_str("ab\rc");
    assert_eq!(
        ops,
        vec![
            ConsoleOp::DrawChar { ch: b'a', x: 0, y: 0 },
            ConsoleOp::DrawChar { ch: b'b', x: 8, y: 0 },
            ConsoleOp::DrawChar { ch: b'c', x: 0, y: 0 },
        ]
    );
    assert_eq!((c.col(), c.row()), (1, 0));
    let ops = c.write_str("xy\nz\n");
    assert_eq!(
        ops,
        vec![
            ConsoleOp::DrawChar { ch: b'x', x: 8, y: 0 },
            ConsoleOp::DrawChar { ch: b'y', x: 16, y: 0 },
            ConsoleOp::Scroll,
            ConsoleOp::DrawChar { ch: b'z', x: 0, y: 10 },
            ConsoleOp::Scroll,
        ]
    );
    assert_eq!((c.col(), c.row()), (0, 1));
}

#[test]
fn serial_line_endings() {
    assert_eq!(tunicore::text::serial_bytes("a\nb\n"), b"a\r\nb\r\n".to_vec());
    assert_eq!(tunicore::text::serial_bytes("x\r"), b"x\r".to_vec());
    assert_eq!(tunicore::text::serial_bytes(""), Vec::<u8>::new());
}

#[test]
fn query_starts_with_frame() {
    let (frame, mut q) = tunicore::llm::query("ok?");
    assert_eq!(frame, frame_query("ok?"));
    assert_eq!(q.poll(Some(STX)), PollResult::Pending);
}

#[test]
fn text_helpers() {
    assert_eq!(tunicore::text::utf8_or(b"abc", "?"), "abc");
    assert_eq!(tunicore::text::utf8_or(&[0xC3], "?"), "?");
    assert_eq!(tunicore::text::utf8_or("é".as_bytes(), "?"), "é");
    assert!(tunicore::text::str_eq("ab", "ab"));
    assert!(!tunicore::text::str_eq("ab", "abc"));
}

#[test]
fn console_cursor_stays_on_screen() {
    let mut c = Console::new(40, 30, 160);
    assert_eq!((c.cols(), c.rows()), (5, 3));
    c.write_str("abc");
    assert_eq!((c.col(), c.row()), (3, 0));
    c.write_str("defghijklmnop\n\n\n\nq");
    assert!(c.col() < c.cols() && c.row() < c.rows());
    assert_eq!((c.col(), c.row()), (1, 2));
    c.write_str("x\r");
    assert_eq!(c.col(), 0);
    let mut tiny = Console::new(4, 5, 16);
    assert_eq!((tiny.cols(), tiny.rows()), (0, 0));
    assert_eq!(tiny.write_str("\r\r"), Vec::new());
    assert_eq!((tiny.col(), tiny.row()), (0, 0));
}
