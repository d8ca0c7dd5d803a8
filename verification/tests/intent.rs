use tunicore::agent::AgentTable;
use tunicore::audit::AuditLog;
use tunicore::cap_table::{AgentId, CapTable};
use tunicore::channel::{ChannelRegistry, CHANNEL_CAPACITY, MAX_CHANNELS};
use tunicore::intent::{
    audit_count, command_for, deploy_channel_roles, deploy_target, ensure_channel_0, execute, parse_u64,
    pipe_names, pipe_sink, pipe_source, send_text, split_first_space, system_status,
    write_args, BuiltinAgent, Command, SendOutcome, SystemStatus,
};
use tunicore::suggest::{levenshtein, suggest};
use tunicore::virtfs::VirtFs;

#[test]
fn blank_lines_ask_nothing() {
    assert!(execute("").is_none());
    assert!(execute("   \t\n").is_none());
    assert!(execute("\u{3000}").is_none());
}

#[test]
fn commands_and_short_forms() {
    let cases = [
        ("help", Command::Help),
        ("?", Command::Help),
        ("status", Command::Status),
        ("s", Command::Status),
        ("agents", Command::Agents),
        ("a", Command::Agents),
        ("caps", Command::Caps),
        ("c", Command::Caps),
        ("audit", Command::Audit),
        ("deploy", Command::Deploy),
        ("d", Command::Deploy),
        ("pipe", Command::Pipe),
        ("p", Command::Pipe),
        ("send", Command::Send),
        ("tick", Command::Tick),
        ("ls", Command::Ls),
        ("cat", Command::Cat),
        ("write", Command::Write),
        ("w", Command::Write),
        ("rm", Command::Rm),
        ("touch", Command::Touch),
        ("about", Command::About),
        ("Help", Command::Unknown),
        ("frobnicate", Command::Unknown),
    ];
    for (word, cmd) in cases {
        assert_eq!(command_for(word), cmd, "{}", word);
        assert_eq!(execute(word).unwrap().command, cmd, "{}", word);
    }
}

#[test]
fn words_and_arguments() {
    let it = execute("  deploy   hello  ").unwrap();
    assert_eq!(it.command, Command::Deploy);
    assert_eq!(it.word, "deploy");
    assert_eq!(it.args, "hello");
    let it = execute("write notes.txt  two  spaces ").unwrap();
    assert_eq!(it.args, "notes.txt  two  spaces");
    let it = execute("frob x").unwrap();
    assert_eq!(it.command, Command::Unknown);
    assert_eq!(it.word, "frob");
    let it = execute("ls").unwrap();
    assert_eq!(it.args, "");
    let it = execute("cat\tfile").unwrap();
    assert_eq!(it.word, "cat\tfile");
    assert_eq!(it.command, Command::Unknown);
}

#[test]
fn trimming_and_splitting() {
    let it = execute("\u{a0} tick \u{2003}x y\u{3000}").unwrap();
    assert_eq!(it.command, Command::Tick);
    assert_eq!(it.args, "x y");
    assert_eq!(split_first_space("a b c"), ("a", "b c"));
    assert_eq!(split_first_space("abc"), ("abc", ""));
    assert_eq!(split_first_space(" x"), ("", "x"));
    assert_eq!(split_first_space("é ü"), ("é", "ü"));
}

#[test]
fn numbers_parse_like_std() {
    for s in ["0", "42", "+7", "18446744073709551615", "", "+", "-1", "1x", "18446744073709551616", " 1"] {
        assert_eq!(parse_u64(s), s.parse::<u64>().ok(), "{:?}", s);
    }
    assert_eq!(audit_count("12"), 12);
    assert_eq!(audit_count(""), 5);
    assert_eq!(audit_count("many"), 5);
}

#[test]
fn agents_for_deploy_and_pipe() {
    assert_eq!(deploy_target("hello"), Some(BuiltinAgent::Hello));
    assert_eq!(deploy_target("writer"), Some(BuiltinAgent::Writer));
    assert_eq!(deploy_target("sender"), Some(BuiltinAgent::Sender));
    assert_eq!(deploy_target("receiver"), Some(BuiltinAgent::Receiver));
    assert_eq!(deploy_target("greeter"), None);
    assert_eq!(deploy_channel_roles(BuiltinAgent::Sender), (true, false));
    assert_eq!(deploy_channel_roles(BuiltinAgent::Receiver), (false, true));
    assert_eq!(deploy_channel_roles(BuiltinAgent::Hello), (false, false));
    assert_eq!(pipe_source("sender"), Some(BuiltinAgent::Sender));
    assert_eq!(pipe_source("receiver"), None);
    assert_eq!(pipe_sink("receiver"), Some(BuiltinAgent::Receiver));
    assert_eq!(pipe_sink("sender"), None);
    assert_eq!(pipe_source("writer"), Some(BuiltinAgent::Writer));
    assert_eq!(pipe_sink("hello"), Some(BuiltinAgent::Hello));
    assert_eq!(pipe_names("sender  receiver "), Some(("sender", "receiver")));
    assert_eq!(pipe_names("sender"), None);
    assert_eq!(pipe_names(""), None);
    assert_eq!(write_args("f.txt some data"), Some(("f.txt", "some data")));
    assert_eq!(write_args("f.txt"), Some(("f.txt", "")));
    assert_eq!(write_args(" x"), None);
}

#[test]
fn channel_zero_and_send() {
    let mut ch = ChannelRegistry::new();
    assert_eq!(send_text(&mut ch, 0, "hi", 1), SendOutcome::NoChannel);
    assert_eq!(ensure_channel_0(&mut ch), 0);
    assert_eq!(ensure_channel_0(&mut ch), 0);
    assert_eq!(send_text(&mut ch, 0, "hi", 1), SendOutcome::Sent);
    let c = ch.get_mut(0).unwrap();
    let m = c.recv().unwrap();
    assert_eq!(m.payload(), b"hi");
    assert_eq!(m.sender, AgentId(0));
    for _ in 0..CHANNEL_CAPACITY {
        assert_eq!(send_text(&mut ch, 0, "x", 2), SendOutcome::Sent);
    }
    assert_eq!(send_text(&mut ch, 0, "x", 2), SendOutcome::ChannelFull);
}

#[test]
fn ensure_channel_when_registry_full() {
    let mut ch = ChannelRegistry::new();
    for _ in 0..MAX_CHANNELS {
        ch.create().unwrap();
    }
    assert_eq!(ensure_channel_0(&mut ch), 0);
}

#[test]
fn status_overview() {
    let mut caps = CapTable::new();
    let mut agents = AgentTable::new();
    let mut audit = AuditLog::new();
    let mut fs = VirtFs::new();
    fs.write("a", b"123", 0).unwrap();
    agents.spawn("x", None, tunicore::agent::ResourceBudget::default_budget(), 0, 0).unwrap();
    caps.grant(AgentId(1), tunicore::resource::ResourceRef::Serial, tunicore::capability::Rights::read(), 0, 0).unwrap();
    audit.record(0, AgentId(1), tunicore::audit::AuditEvent::CapGranted, tunicore::cap_table::CapHandle(0), 0);
    assert_eq!(
        system_status(&caps, &agents, &audit, &fs, 77),
        SystemStatus { tick: 77, agents: 1, caps: 1, audit_events: 1, files: 1, fs_bytes: 3 }
    );
}

#[test]
fn levenshtein_distances() {
    assert_eq!(levenshtein(b"deply", b"deploy"), 1);
    assert_eq!(levenshtein(b"kitten", b"sitting"), 3);
    assert_eq!(levenshtein(b"", b"abc"), 3);
    assert_eq!(levenshtein(b"abc", b""), 3);
    assert_eq!(levenshtein(b"status", b"status"), 0);
    assert_eq!(levenshtein(b"flaw", b"lawn"), 2);
}

#[test]
fn unknown_words_get_the_nearest_command() {
    assert_eq!(suggest("deply"), Some("deploy"));
    assert_eq!(suggest("stauts"), Some("status"));
    assert_eq!(suggest("agnets"), Some("agents"));
    assert_eq!(suggest("xyzzyplugh"), None);
    // Ties go to the first name in help order: "ls" comes before "rm".
    assert_eq!(suggest("x"), Some("ls"));
    assert_eq!(suggest("cap"), Some("caps"));
}

#[test]
fn unknown_command_carries_its_suggestion() {
    let it = execute("deply hello").unwrap();
    assert_eq!(it.command, Command::Unknown);
    assert_eq!(it.word, "deply");
    assert_eq!(it.suggestion, Some("deploy"));
    let it = execute("xyzzyplugh now").unwrap();
    assert_eq!(it.command, Command::Unknown);
    assert_eq!(it.suggestion, None);
    let it = execute("deploy hello").unwrap();
    assert_eq!(it.command, Command::Deploy);
    assert_eq!(it.suggestion, None);
}
