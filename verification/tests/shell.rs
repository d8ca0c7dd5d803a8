use tunicore::agent::{AgentState, AgentTable, MAX_AGENTS, ResourceBudget};
use tunicore::audit::AuditLog;
use tunicore::cap_table::{AgentId, CapError, CapTable};
use tunicore::capability::Rights;
use tunicore::channel::{ChannelRegistry, Message};
use tunicore::chat_ui::{system_msg, ChatUI, DrawOp, Message as ChatMessage, Sender, TextSource};
use tunicore::guardian::{LineEditor, LineEvent, LINE_MAX};
use tunicore::wasm_runtime::{
    activate_agent, finish_agent, host_chan_recv, host_chan_send, log_allowed, log_len, prepare_agent,
    send_len, AGENT_LIFETIME,
};

#[test]
fn line_editor_keys() {
    let mut e = LineEditor::new();
    assert!(matches!(e.feed(b'h', true), LineEvent::Echo(b'h')));
    assert!(matches!(e.feed(b'x', true), LineEvent::Echo(b'x')));
    assert!(matches!(e.feed(0x7F, true), LineEvent::Erase));
    assert!(matches!(e.feed(b'i', true), LineEvent::Echo(b'i')));
    assert!(matches!(e.feed(0x1B, true), LineEvent::Ignore));
    match e.feed(b'\r', true) {
        LineEvent::Submit(line) => assert_eq!(line, b"hi".to_vec()),
        other => panic!("{:?}", other),
    }
    assert!(matches!(e.feed(0x08, false), LineEvent::Ignore));
    assert!(matches!(e.feed(b'\r', false), LineEvent::Ignore));
    match e.feed(b'\n', false) {
        LineEvent::Submit(line) => assert!(line.is_empty()),
        other => panic!("{:?}", other),
    }
    for _ in 0..LINE_MAX {
        assert!(matches!(e.feed(b'a', true), LineEvent::Echo(_)));
    }
    assert!(matches!(e.feed(b'a', true), LineEvent::Ignore));
}

#[test]
fn agent_lifecycle_grants_and_revokes() {
    let mut agents = AgentTable::new();
    let mut caps = CapTable::new();
    let mut audit = AuditLog::new();
    let mut chans = ChannelRegistry::new();
    let chan = chans.create().unwrap();
    let host = prepare_agent(&mut agents, &mut caps, &mut audit, "sender.wasm", None, Some(chan), None, 10).unwrap();
    assert_eq!(host.agent_id, AgentId(1));
    assert_eq!(audit.total_events(), 1);
    let a = agents.get(host.agent_id).unwrap();
    assert_eq!(a.max_lifetime, AGENT_LIFETIME);
    assert_eq!(a.state, AgentState::Initializing);
    assert!(host.serial_cap.is_some());
    assert!(host.channel_read_cap.is_none());
    let (wcap, wchan) = host.channel_write_cap.unwrap();
    assert_eq!(wchan, chan);
    assert!(caps.check(wcap, Rights::write(), 11).is_ok());
    activate_agent(&mut agents, host.agent_id);
    assert_eq!(agents.get(host.agent_id).unwrap().state, AgentState::Active);
    assert!(log_allowed(&caps, &host, 11));
    assert_eq!(host_chan_send(&caps, &mut chans, &host, Some(b"ping"), 11), 4);
    assert_eq!(host_chan_send(&caps, &mut chans, &host, None, 11), -1);
    assert_eq!(chans.get(chan).unwrap().message_count(), 1);
    assert_eq!(host_chan_recv(&caps, &mut chans, &host, 16, 11), None);
    finish_agent(&mut agents, &mut caps, &mut audit, host.agent_id, 20);
    assert_eq!(agents.get(host.agent_id).unwrap().state, AgentState::Terminated);
    assert_eq!(caps.check(wcap, Rights::write(), 21).err(), Some(CapError::Revoked));
    assert!(!log_allowed(&caps, &host, 21));
    assert_eq!(host_chan_send(&caps, &mut chans, &host, Some(b"late"), 21), -1);
    assert_eq!(audit.total_events(), 2);
}

#[test]
fn receiver_reads_through_its_capability() {
    let mut agents = AgentTable::new();
    let mut caps = CapTable::new();
    let mut audit = AuditLog::new();
    let mut chans = ChannelRegistry::new();
    let chan = chans.create().unwrap();
    chans.get_mut(chan).unwrap().send(Message::new(AgentId(9), b"hello world", 0)).unwrap();
    chans.get_mut(chan).unwrap().send(Message::new(AgentId(9), b"second", 0)).unwrap();
    let host = prepare_agent(&mut agents, &mut caps, &mut audit, "receiver.wasm", None, None, Some(chan), 0).unwrap();
    assert_eq!(host_chan_recv(&caps, &mut chans, &host, 5, 1), Some(b"hello".to_vec()));
    assert_eq!(host_chan_recv(&caps, &mut chans, &host, -1, 1), Some(b"second".to_vec()));
    assert_eq!(host_chan_recv(&caps, &mut chans, &host, 5, 1), None);
    assert_eq!(host_chan_send(&caps, &mut chans, &host, Some(b"x"), 1), -1);
}

#[test]
fn prepare_fails_when_agents_full() {
    let mut agents = AgentTable::new();
    let mut caps = CapTable::new();
    let mut audit = AuditLog::new();
    for _ in 0..MAX_AGENTS {
        agents.spawn("a", None, ResourceBudget::default_budget(), 0, 0).unwrap();
    }
    let r = prepare_agent(&mut agents, &mut caps, &mut audit, "x", None, None, None, 0);
    assert_eq!(r.err(), Some("max agents reached"));
    assert_eq!(audit.total_events(), 0);
}

#[test]
fn host_lengths() {
    assert_eq!(log_len(10), 10);
    assert_eq!(log_len(1000), 255);
    assert_eq!(log_len(-1), 255);
    assert_eq!(send_len(256), 256);
    assert_eq!(send_len(300), 256);
    assert_eq!(send_len(-5), 256);
    assert_eq!(send_len(0), 0);
}

#[test]
fn chat_messages_and_input() {
    let mut ui = ChatUI::new(800, 600, 3200);
    ui.system_msg("Welcome to TuniCore!");
    for b in b"help" {
        assert_eq!(ui.key_input(*b), None);
    }
    assert_eq!(ui.input_text(), "help");
    assert_eq!(ui.key_input(8), None);
    assert_eq!(ui.input_text(), "hel");
    assert_eq!(ui.key_input(0x01), None);
    assert_eq!(ui.key_input(b'p'), None);
    assert_eq!(ui.key_input(b'\n'), Some("help".to_string()));
    assert_eq!(ui.input_text(), "");
    assert_eq!(ui.key_input(13), None);
    for _ in 0..250 {
        ui.key_input(b'z');
    }
    assert_eq!(ui.input_text().len(), 199);
    let long = "y".repeat(300);
    ui.user_msg(&long);
    let m = ChatMessage::new(Sender::User, &long);
    assert_eq!(m.len, 200);
    assert_eq!(m.as_str(), &long[..200]);
    let cut = ChatMessage::new(Sender::System, &("é".repeat(100) + "x"));
    assert_eq!(cut.as_str().len(), 200);
    let split = ChatMessage::new(Sender::System, &("a".to_string() + &"é".repeat(100)));
    assert_eq!(split.as_str(), "");
    let mut none: Option<ChatUI> = None;
    system_msg(&mut none, "x");
    assert!(none.is_none());
}

#[test]
fn chat_layout_shows_newest_messages() {
    let mut ui = ChatUI::new(800, 600, 3200);
    for i in 0..10 {
        ui.system_msg(&format!("m{}", i));
    }
    ui.user_msg("hi");
    let ops = ui.layout();
    assert_eq!(ops[0], DrawOp::Rect { x: 0, y: 0, w: 800, h: 600, color: 0x0C0C18 });
    assert_eq!(ops[3], DrawOp::Text { x: 50, y: 20, color: 0x5B7FFF, source: TextSource::Title });
    assert_eq!(ops[9], DrawOp::Text { x: 66, y: 545, color: 0x7878A0, source: TextSource::Placeholder });
    let shown: Vec<usize> = ops
        .iter()
        .filter_map(|op| match op {
            DrawOp::Text { source: TextSource::Message(i), .. } => Some(*i),
            _ => None,
        })
        .collect();
    assert_eq!(shown, vec![5, 6, 7, 8, 9, 10]);
    let last = ops.last().unwrap();
    assert_eq!(*last, DrawOp::Text { x: 700, y: 440, color: 0xEAEAF6, source: TextSource::Message(10) });
}

#[test]
fn typed_keys_fill_the_line_in_order() {
    let mut ui = ChatUI::new(800, 600, 3200);
    for b in b"deploy hello" {
        assert_eq!(ui.key_input(*b), None);
    }
    assert_eq!(ui.input_text(), "deploy hello");
    ui.key_input(b'!');
    ui.key_input(0x7F);
    assert_eq!(ui.input_text(), "deploy hello");
    assert_eq!(ui.key_input(b'\r'), Some("deploy hello".to_string()));
    assert_eq!(ui.input_text(), "");
    let line: Vec<u8> = (0..250u32).map(|k| b'a' + (k % 26) as u8).collect();
    for b in &line {
        ui.key_input(*b);
    }
    assert_eq!(ui.input_text().as_bytes(), &line[..199]);
}
