//! Intent layer: the conversational interface.
//!
//! A line typed at the console is a command word followed by arguments.
//! This module decides what a line asks for; the shell carries it out.

use crate::agent::{AgentTable, live_agents};
use crate::audit::AuditLog;
use crate::cap_table::{AgentId, CapTable, active_set};
use crate::channel::{
    Channel, ChannelRegistry, Message, MAX_CHANNELS, CHANNEL_CAPACITY, first_channel_with_id, has_channel,
    kept_payload,
};
use crate::suggest::{suggest, suggestion_ok};
use crate::text::str_eq;
use crate::virtfs::{VirtFs, fs_pairs, total_bytes};
use vstd::prelude::*;
use vstd::string::StringSliceAdditionalSpecFns;
use vstd::utf8::{
    decode_utf8, encode_utf8, encode_utf8_decode_utf8, encode_utf8_valid_utf8, is_char_boundary,
    is_char_boundary_iff_not_is_continuation_byte, is_char_boundary_start_end_of_seq,
    is_continuation_byte, valid_utf8, valid_utf8_split,
};

verus! {

// ─── Whitespace and words ───────────────────────────────────────

/// Unicode `White_Space`, the whitespace that `str::trim` removes.
pub open spec fn is_white_space(c: char) -> bool {
    let u = c as u32;
    ||| 0x09 <= u <= 0x0D
    ||| u == 0x20
    ||| u == 0x85
    ||| u == 0xA0
    ||| u == 0x1680
    ||| 0x2000 <= u <= 0x200A
    ||| u == 0x2028
    ||| u == 0x2029
    ||| u == 0x202F
    ||| u == 0x205F
    ||| u == 0x3000
}

/// `s` without its leading whitespace.
pub open spec fn trim_start_ws(s: Seq<char>) -> Seq<char>
    decreases s.len(),
{
    if s.len() > 0 && is_white_space(s[0]) {
        trim_start_ws(s.drop_first())
    } else {
        s
    }
}

/// `s` without its trailing whitespace.
pub open spec fn trim_end_ws(s: Seq<char>) -> Seq<char>
    decreases s.len(),
{
    if s.len() > 0 && is_white_space(s.last()) {
        trim_end_ws(s.drop_last())
    } else {
        s
    }
}

/// `s` without leading and trailing whitespace.
pub open spec fn trim_ws(s: Seq<char>) -> Seq<char> {
    trim_end_ws(trim_start_ws(s))
}

/// Remove leading and trailing whitespace.
///
/// Wraps `str::trim`. Claimed of it, as its documentation states: the result
/// is `s` with leading and trailing Unicode `White_Space` removed.
#[verifier::external_body]
pub(crate) fn str_trim(s: &str) -> (r: &str)
    ensures
        r@ == trim_ws(s@),
{
    s.trim()
}

/// Byte `i` of `b` is a space and no earlier byte is.
pub open spec fn is_first_space(b: Seq<u8>, i: int) -> bool {
    &&& 0 <= i < b.len()
    &&& b[i] == 0x20u8
    &&& forall|j: int| 0 <= j < i ==> b[j] != 0x20u8
}

/// `b` holds no space byte.
pub open spec fn no_space(b: Seq<u8>) -> bool {
    forall|j: int| 0 <= j < b.len() ==> b[j] != 0x20u8
}

/// `t` cut at its first space: the text before it and the text after it.
/// Without a space, the whole of `t` and nothing.
pub open spec fn split_at_space(t: Seq<char>) -> (Seq<char>, Seq<char>) {
    let b = encode_utf8(t);
    if exists|i: int| is_first_space(b, i) {
        let i = choose|i: int| is_first_space(b, i);
        (decode_utf8(b.take(i)), decode_utf8(b.skip(i + 1)))
    } else {
        (t, Seq::empty())
    }
}

proof fn lemma_first_space_unique(b: Seq<u8>, i: int, k: int)
    requires
        is_first_space(b, i),
        is_first_space(b, k),
    ensures
        i == k,
{
}

/// Split `s` at its first space, as `splitn(2, ' ')` does; the second part
/// is empty when there is no space.
pub fn split_first_space<'a>(s: &'a str) -> (r: (&'a str, &'a str))
    ensures
        (r.0@, r.1@) == split_at_space(s@),
{
    let b = s.as_bytes();
    let ghost bs = s.spec_bytes();
    proof {
        encode_utf8_valid_utf8(s@);
        encode_utf8_decode_utf8(s@);
    }
    let mut i: usize = 0;
    while i < b.len()
        invariant
            b@ == bs,
            i <= bs.len(),
            forall|j: int| 0 <= j < i ==> bs[j] != 0x20u8,
        ensures
            i <= bs.len(),
            forall|j: int| 0 <= j < i ==> bs[j] != 0x20u8,
            i < bs.len() ==> bs[i as int] == 0x20u8,
        decreases bs.len() - i,
    {
        if b[i] == 0x20u8 {
            break;
        }
        i += 1;
    }
    if i == b.len() {
        let empty = "";
        proof {
            reveal_strlit("");
            assert(!exists|k: int| is_first_space(bs, k));
        }
        return (s, empty);
    }
    proof {
        assert(is_first_space(bs, i as int));
        is_char_boundary_iff_not_is_continuation_byte(bs, i as int);
        assert(!is_continuation_byte(0x20u8));
    }
    let (head, tail) = s.split_at(i);
    proof {
        valid_utf8_split(bs, i as int);
        let tb = bs.subrange(i as int, bs.len() as int);
        assert(tail.spec_bytes() == tb);
        assert(tb[0] == 0x20u8);
        reveal_with_fuel(is_char_boundary, 2);
        assert(is_char_boundary(tb, 1));
    }
    let (_sp, rest) = tail.split_at(1);
    proof {
        let k = choose|k: int| is_first_space(bs, k);
        lemma_first_space_unique(bs, i as int, k);
        encode_utf8_decode_utf8(head@);
        encode_utf8_decode_utf8(rest@);
        assert(head.spec_bytes() =~= bs.take(i as int));
        assert(rest.spec_bytes() =~= bs.skip(i + 1));
    }
    (head, rest)
}


// ─── Commands ───────────────────────────────────────────────────

/// What a console line asks for.
#[derive(Debug, Clone, Copy, PartialEq, Eq, Structural)]
pub enum Command {
    Help,
    Status,
    Agents,
    Caps,
    Audit,
    Deploy,
    Pipe,
    Send,
    Tick,
    Ls,
    Cat,
    Write,
    Rm,
    Touch,
    About,
    Unknown,
}

/// The command a word names, with the short forms.
pub open spec fn command_of(w: Seq<char>) -> Command {
    if w == "help"@ || w == "?"@ {
        Command::Help
    } else if w == "status"@ || w == "s"@ {
        Command::Status
    } else if w == "agents"@ || w == "a"@ {
        Command::Agents
    } else if w == "caps"@ || w == "c"@ {
        Command::Caps
    } else if w == "audit"@ {
        Command::Audit
    } else if w == "deploy"@ || w == "d"@ {
        Command::Deploy
    } else if w == "pipe"@ || w == "p"@ {
        Command::Pipe
    } else if w == "send"@ {
        Command::Send
    } else if w == "tick"@ {
        Command::Tick
    } else if w == "ls"@ {
        Command::Ls
    } else if w == "cat"@ {
        Command::Cat
    } else if w == "write"@ || w == "w"@ {
        Command::Write
    } else if w == "rm"@ {
        Command::Rm
    } else if w == "touch"@ {
        Command::Touch
    } else if w == "about"@ {
        Command::About
    } else {
        Command::Unknown
    }
}

/// The command a word names.
pub fn command_for(w: &str) -> (c: Command)
    ensures
        c == command_of(w@),
{
    if str_eq(w, "help") || str_eq(w, "?") {
        Command::Help
    } else if str_eq(w, "status") || str_eq(w, "s") {
        Command::Status
    } else if str_eq(w, "agents") || str_eq(w, "a") {
        Command::Agents
    } else if str_eq(w, "caps") || str_eq(w, "c") {
        Command::Caps
    } else if str_eq(w, "audit") {
        Command::Audit
    } else if str_eq(w, "deploy") || str_eq(w, "d") {
        Command::Deploy
    } else if str_eq(w, "pipe") || str_eq(w, "p") {
        Command::Pipe
    } else if str_eq(w, "send") {
        Command::Send
    } else if str_eq(w, "tick") {
        Command::Tick
    } else if str_eq(w, "ls") {
        Command::Ls
    } else if str_eq(w, "cat") {
        Command::Cat
    } else if str_eq(w, "write") || str_eq(w, "w") {
        Command::Write
    } else if str_eq(w, "rm") {
        Command::Rm
    } else if str_eq(w, "touch") {
        Command::Touch
    } else if str_eq(w, "about") {
        Command::About
    } else {
        Command::Unknown
    }
}

/// A parsed console line: the command, the word that named it, its
/// arguments with surrounding whitespace removed, and, for a word that names
/// no command, the nearest command name to suggest.
#[derive(Debug, Clone, Copy)]
pub struct Intent<'a> {
    pub command: Command,
    pub word: &'a str,
    pub args: &'a str,
    pub suggestion: Option<&'static str>,
}

/// The command word of a line: the trimmed line up to its first space.
pub open spec fn intent_word(line: Seq<char>) -> Seq<char> {
    split_at_space(trim_ws(line)).0
}

/// The arguments of a line: what follows the first space, trimmed.
pub open spec fn intent_args(line: Seq<char>) -> Seq<char> {
    trim_ws(split_at_space(trim_ws(line)).1)
}

/// Decide what a console line asks for; the shell carries it out. A blank
/// line asks for nothing.
pub fn execute<'a>(input: &'a str) -> (r: Option<Intent<'a>>)
    ensures
        r is None <==> trim_ws(input@).len() == 0,
        r matches Some(it) ==> {
            &&& it.word@ == intent_word(input@)
            &&& it.args@ == intent_args(input@)
            &&& it.command == command_of(it.word@)
            &&& it.command == Command::Unknown ==> suggestion_ok(
                it.word.spec_bytes(),
                match it.suggestion {
                    Some(s) => Some(s@),
                    None => None,
                },
            )
            &&& it.command != Command::Unknown ==> it.suggestion is None
        },
{
    let trimmed = str_trim(input);
    if trimmed.is_empty() {
        return None;
    }
    let (word, rest) = split_first_space(trimmed);
    let args = str_trim(rest);
    let command = command_for(word);
    let suggestion = if command == Command::Unknown {
        suggest(word)
    } else {
        None
    };
    Some(Intent { command, word, args, suggestion })
}

// ─── Numbers ────────────────────────────────────────────────────

/// An ASCII decimal digit.
pub open spec fn is_digit(b: u8) -> bool {
    0x30 <= b <= 0x39
}

/// Every byte of `d` is a decimal digit.
pub open spec fn all_digits(d: Seq<u8>) -> bool {
    forall|i: int| 0 <= i < d.len() ==> is_digit(#[trigger] d[i])
}

/// The value of a string of decimal digits.
pub open spec fn digits_value(d: Seq<u8>) -> int
    decreases d.len(),
{
    if d.len() == 0 {
        0
    } else {
        digits_value(d.drop_last()) * 10 + (d.last() - 0x30)
    }
}

/// What `str::parse::<u64>` gives for text with UTF-8 bytes `b`: an optional
/// `+`, then one or more decimal digits whose value fits in 64 bits.
pub open spec fn parse_u64_spec(b: Seq<u8>) -> Option<u64> {
    let d = if b.len() > 0 && b[0] == 0x2Bu8 {
        b.drop_first()
    } else {
        b
    };
    if d.len() > 0 && all_digits(d) && digits_value(d) <= u64::MAX {
        Some(digits_value(d) as u64)
    } else {
        None
    }
}

proof fn lemma_digits_prefix(d: Seq<u8>, k: int, n: int)
    requires
        0 <= k <= n <= d.len(),
        forall|i: int| 0 <= i < d.len() ==> is_digit(#[trigger] d[i]),
    ensures
        0 <= digits_value(d.take(k)) <= digits_value(d.take(n)),
    decreases n - k,
{
    if k < n {
        lemma_digits_prefix(d, k, n - 1);
        assert(d.take(n).drop_last() =~= d.take(n - 1));
    } else {
        lemma_digits_nonneg(d.take(k));
    }
}

proof fn lemma_digits_nonneg(d: Seq<u8>)
    requires
        forall|i: int| 0 <= i < d.len() ==> is_digit(#[trigger] d[i]),
    ensures
        digits_value(d) >= 0,
    decreases d.len(),
{
    if d.len() > 0 {
        lemma_digits_nonneg(d.drop_last());
    }
}

/// Digits whose prefix already exceeds 64 bits never make a 64-bit number.
proof fn lemma_too_large(d: Seq<u8>, k: int)
    requires
        0 < k <= d.len(),
        digits_value(d.take(k)) > u64::MAX,
    ensures
        !(all_digits(d) && digits_value(d) <= u64::MAX),
{
    if all_digits(d) {
        lemma_digits_prefix(d, k, d.len() as int);
        assert(d.take(d.len() as int) =~= d);
    }
}

/// Parse `s` as `str::parse::<u64>` does.
pub fn parse_u64(s: &str) -> (r: Option<u64>)
    ensures
        r == parse_u64_spec(s.spec_bytes()),
{
    let b = s.as_bytes();
    let ghost bs = b@;
    let mut start: usize = 0;
    if b.len() > 0 && b[0] == 0x2Bu8 {
        start = 1;
    }
    let ghost d = if bs.len() > 0 && bs[0] == 0x2Bu8 {
        bs.drop_first()
    } else {
        bs
    };
    assert(d =~= bs.skip(start as int));
    if start == b.len() {
        return None;
    }
    let mut v: u64 = 0;
    let mut i: usize = start;
    while i < b.len()
        invariant
            b@ == bs,
            bs == s.spec_bytes(),
            d == (if bs.len() > 0 && bs[0] == 0x2Bu8 {
                bs.drop_first()
            } else {
                bs
            }),
            d.len() > 0,
            start <= i <= bs.len(),
            d =~= bs.skip(start as int),
            forall|k: int| 0 <= k < i - start ==> is_digit(#[trigger] d[k]),
            v == digits_value(d.take(i - start)),
        decreases bs.len() - i,
    {
        let c = b[i];
        if c < 0x30u8 || c > 0x39u8 {
            proof {
                assert(!is_digit(d[i - start]));
                assert(!all_digits(d));
            }
            return None;
        }
        proof {
            assert(d.take(i - start + 1).drop_last() =~= d.take(i - start));
        }
        let digit = (c - 0x30u8) as u64;
        proof {
            assert(digits_value(d.take(i - start + 1)) == v * 10 + digit);
        }
        match v.checked_mul(10) {
            Some(t) => match t.checked_add(digit) {
                Some(u) => {
                    v = u;
                },
                None => {
                    proof {
                        lemma_too_large(d, i - start + 1);
                    }
                    return None;
                },
            },
            None => {
                proof {
                    lemma_too_large(d, i - start + 1);
                }
                return None;
            },
        }
        i += 1;
    }
    proof {
        assert(d.take(i - start) =~= d);
    }
    Some(v)
}


/// How many audit events `audit [n]` shows: `n` when it is a number, else 5.
pub fn audit_count(args: &str) -> (n: u64)
    ensures
        n == match parse_u64_spec(args.spec_bytes()) {
            Some(v) => v,
            None => 5,
        },
{
    match parse_u64(args) {
        Some(v) => v,
        None => 5,
    }
}

// ─── Built-in agents ────────────────────────────────────────────

/// The WASM agents built into the kernel.
#[derive(Debug, Clone, Copy, PartialEq, Eq, Structural)]
pub enum BuiltinAgent {
    Hello,
    Sender,
    Receiver,
    Writer,
}

/// The name the console uses for a built-in agent.
pub open spec fn agent_name(a: BuiltinAgent) -> Seq<char> {
    match a {
        BuiltinAgent::Hello => "hello"@,
        BuiltinAgent::Sender => "sender"@,
        BuiltinAgent::Receiver => "receiver"@,
        BuiltinAgent::Writer => "writer"@,
    }
}

/// The agent `deploy <name>` runs: any built-in agent by name.
pub open spec fn deploy_target_spec(name: Seq<char>) -> Option<BuiltinAgent> {
    if name == "hello"@ {
        Some(BuiltinAgent::Hello)
    } else if name == "writer"@ {
        Some(BuiltinAgent::Writer)
    } else if name == "sender"@ {
        Some(BuiltinAgent::Sender)
    } else if name == "receiver"@ {
        Some(BuiltinAgent::Receiver)
    } else {
        None
    }
}

/// The agent `deploy <name>` runs.
pub fn deploy_target(name: &str) -> (r: Option<BuiltinAgent>)
    ensures
        r == deploy_target_spec(name@),
        r is Some <==> (name@ == "hello"@ || name@ == "sender"@ || name@ == "receiver"@ || name@
            == "writer"@),
        r matches Some(a) ==> name@ == agent_name(a),
{
    if str_eq(name, "hello") {
        Some(BuiltinAgent::Hello)
    } else if str_eq(name, "writer") {
        Some(BuiltinAgent::Writer)
    } else if str_eq(name, "sender") {
        Some(BuiltinAgent::Sender)
    } else if str_eq(name, "receiver") {
        Some(BuiltinAgent::Receiver)
    } else {
        None
    }
}

/// A deployed sender writes to channel 0.
pub open spec fn writes_channel_zero(a: BuiltinAgent) -> bool {
    a == BuiltinAgent::Sender
}

/// A deployed receiver reads from channel 0.
pub open spec fn reads_channel_zero(a: BuiltinAgent) -> bool {
    a == BuiltinAgent::Receiver
}

/// Which ends of channel 0 a deployed agent is given: (write, read).
pub fn deploy_channel_roles(a: BuiltinAgent) -> (r: (bool, bool))
    ensures
        r == (writes_channel_zero(a), reads_channel_zero(a)),
        r.0 <==> a == BuiltinAgent::Sender,
        r.1 <==> a == BuiltinAgent::Receiver,
{
    match a {
        BuiltinAgent::Sender => (true, false),
        BuiltinAgent::Receiver => (false, true),
        _ => (false, false),
    }
}

/// The agents that may head a pipeline: they write to the channel.
pub open spec fn pipe_source_spec(name: Seq<char>) -> Option<BuiltinAgent> {
    if name == "hello"@ {
        Some(BuiltinAgent::Hello)
    } else if name == "sender"@ {
        Some(BuiltinAgent::Sender)
    } else if name == "writer"@ {
        Some(BuiltinAgent::Writer)
    } else {
        None
    }
}

/// The agents that may end a pipeline: they read from the channel.
pub open spec fn pipe_sink_spec(name: Seq<char>) -> Option<BuiltinAgent> {
    if name == "hello"@ {
        Some(BuiltinAgent::Hello)
    } else if name == "receiver"@ {
        Some(BuiltinAgent::Receiver)
    } else if name == "writer"@ {
        Some(BuiltinAgent::Writer)
    } else {
        None
    }
}

/// The agent that heads `pipe <a> <b>`.
pub fn pipe_source(name: &str) -> (r: Option<BuiltinAgent>)
    ensures
        r == pipe_source_spec(name@),
        r is Some <==> (name@ == "hello"@ || name@ == "sender"@ || name@ == "writer"@),
        r matches Some(a) ==> name@ == agent_name(a),
{
    if str_eq(name, "hello") {
        Some(BuiltinAgent::Hello)
    } else if str_eq(name, "sender") {
        Some(BuiltinAgent::Sender)
    } else if str_eq(name, "writer") {
        Some(BuiltinAgent::Writer)
    } else {
        None
    }
}

/// The agent that ends `pipe <a> <b>`.
pub fn pipe_sink(name: &str) -> (r: Option<BuiltinAgent>)
    ensures
        r == pipe_sink_spec(name@),
        r is Some <==> (name@ == "hello"@ || name@ == "receiver"@ || name@ == "writer"@),
        r matches Some(a) ==> name@ == agent_name(a),
{
    if str_eq(name, "hello") {
        Some(BuiltinAgent::Hello)
    } else if str_eq(name, "receiver") {
        Some(BuiltinAgent::Receiver)
    } else if str_eq(name, "writer") {
        Some(BuiltinAgent::Writer)
    } else {
        None
    }
}


/// The four agent names are different words.
proof fn lemma_agent_names_distinct()
    ensures
        forall|a: BuiltinAgent, b: BuiltinAgent| #[trigger] agent_name(a) == #[trigger] agent_name(b) ==> a == b,
{
    reveal_strlit("hello");
    reveal_strlit("sender");
    reveal_strlit("receiver");
    reveal_strlit("writer");
    assert("hello"@.len() == 5 && "sender"@.len() == 6 && "receiver"@.len() == 8 && "writer"@.len() == 6);
    assert("sender"@[0] == 's' && "writer"@[0] == 'w');
    assert forall|a: BuiltinAgent, b: BuiltinAgent| #[trigger] agent_name(a) == #[trigger] agent_name(b) implies a == b by {
        if agent_name(a) == agent_name(b) {
            assert(agent_name(a).len() == agent_name(b).len());
            if agent_name(a).len() == 6 {
                assert(agent_name(a)[0] == agent_name(b)[0]);
            }
        }
    }
}

/// The agent names, pairwise different.
proof fn lemma_names_pairwise()
    ensures
        agent_name(BuiltinAgent::Hello) != agent_name(BuiltinAgent::Sender),
        agent_name(BuiltinAgent::Hello) != agent_name(BuiltinAgent::Receiver),
        agent_name(BuiltinAgent::Hello) != agent_name(BuiltinAgent::Writer),
        agent_name(BuiltinAgent::Sender) != agent_name(BuiltinAgent::Receiver),
        agent_name(BuiltinAgent::Sender) != agent_name(BuiltinAgent::Writer),
        agent_name(BuiltinAgent::Receiver) != agent_name(BuiltinAgent::Writer),
{
    lemma_agent_names_distinct();
    assert(agent_name(BuiltinAgent::Hello) != agent_name(BuiltinAgent::Sender));
    assert(agent_name(BuiltinAgent::Hello) != agent_name(BuiltinAgent::Receiver));
    assert(agent_name(BuiltinAgent::Hello) != agent_name(BuiltinAgent::Writer));
    assert(agent_name(BuiltinAgent::Sender) != agent_name(BuiltinAgent::Receiver));
    assert(agent_name(BuiltinAgent::Sender) != agent_name(BuiltinAgent::Writer));
    assert(agent_name(BuiltinAgent::Receiver) != agent_name(BuiltinAgent::Writer));
}

/// `deploy` accepts every built-in agent, by its name and by nothing else:
/// the agent it runs for a name is the one that name names.
pub proof fn lemma_deploy_by_name(name: Seq<char>, a: BuiltinAgent)
    ensures
        deploy_target_spec(agent_name(a)) == Some(a),
        deploy_target_spec(name) == Some(a) <==> name == agent_name(a),
{
    lemma_names_pairwise();
    reveal_strlit("hello");
    reveal_strlit("sender");
    reveal_strlit("receiver");
    reveal_strlit("writer");
}

/// Pipeline roles: an agent may head a pipeline exactly when it is a
/// built-in agent other than the receiver, and may end one exactly when it
/// is one other than the sender; either way under its own name.
pub proof fn lemma_pipe_roles(name: Seq<char>)
    ensures
        pipe_source_spec(name) == match deploy_target_spec(name) {
            Some(BuiltinAgent::Receiver) => None,
            other => other,
        },
        pipe_sink_spec(name) == match deploy_target_spec(name) {
            Some(BuiltinAgent::Sender) => None,
            other => other,
        },
{
    lemma_names_pairwise();
}

/// Channel 0 on `deploy`: an agent gets the write end exactly when it can
/// head a pipeline but not end one (it only writes), and the read end
/// exactly when it can end a pipeline but not head one (it only reads).
/// Agents that do both, or neither, get no channel.
pub proof fn lemma_channel_roles_follow_pipe_roles(a: BuiltinAgent)
    ensures
        writes_channel_zero(a) <==> pipe_source_spec(agent_name(a)) == Some(a) && pipe_sink_spec(
            agent_name(a),
        ) is None,
        reads_channel_zero(a) <==> pipe_sink_spec(agent_name(a)) == Some(a) && pipe_source_spec(
            agent_name(a),
        ) is None,
{
    lemma_pipe_roles(agent_name(a));
    lemma_deploy_by_name(agent_name(a), a);
}

/// The two agent names of `pipe <a> <b>`, each trimmed; `None` when either
/// is missing (the usage message is due).
pub fn pipe_names<'a>(args: &'a str) -> (r: Option<(&'a str, &'a str)>)
    ensures
        r is None <==> trim_ws(split_at_space(args@).0).len() == 0 || trim_ws(split_at_space(args@).1).len()
            == 0,
        r matches Some(p) ==> p.0@ == trim_ws(split_at_space(args@).0) && p.1@ == trim_ws(
            split_at_space(args@).1,
        ),
{
    let (a, b) = split_first_space(args);
    let a = str_trim(a);
    let b = str_trim(b);
    if a.is_empty() || b.is_empty() {
        None
    } else {
        Some((a, b))
    }
}

/// The file name and content of `write <file> <content>`: the text up to the
/// first space, and everything after it as typed. `None` when the name is
/// empty (the usage message is due).
pub fn write_args<'a>(args: &'a str) -> (r: Option<(&'a str, &'a str)>)
    ensures
        r is None <==> split_at_space(args@).0.len() == 0,
        r matches Some(p) ==> (p.0@, p.1@) == split_at_space(args@),
{
    let (name, content) = split_first_space(args);
    if name.is_empty() {
        None
    } else {
        Some((name, content))
    }
}

// ─── Channels ───────────────────────────────────────────────────

/// Make sure channel 0 exists, creating a channel when it does not; gives the
/// ID to use (0 when no channel can be created).
pub fn ensure_channel_0(channels: &mut ChannelRegistry) -> (id: u64)
    requires
        old(channels).wf(),
    ensures
        final(channels).wf(),
        has_channel(old(channels)@, 0) ==> id == 0 && final(channels)@ == old(channels)@,
        !has_channel(old(channels)@, 0) && old(channels)@.len() >= MAX_CHANNELS ==> id == 0
            && final(channels)@ == old(channels)@,
        !has_channel(old(channels)@, 0) && old(channels)@.len() < MAX_CHANNELS ==> {
            &&& id == old(channels).spec_next_id()
            &&& final(channels)@.drop_last() == old(channels)@
            &&& final(channels)@.len() == old(channels)@.len() + 1
            &&& final(channels)@.last().chan_id() == id
            &&& final(channels)@.last()@ == Seq::<Message>::empty()
        },
{
    if channels.get(0).is_some() {
        return 0;
    }
    match channels.create() {
        Ok(id) => id,
        Err(_) => 0,
    }
}

/// What became of a message sent from the console.
#[derive(Debug, Clone, Copy, PartialEq, Eq, Structural)]
pub enum SendOutcome {
    /// Queued on the channel.
    Sent,
    /// The channel's queue was full.
    ChannelFull,
    /// No channel has that ID.
    NoChannel,
}

/// Send `text` to channel `chan_id` as a message from the kernel (agent 0).
pub fn send_text(channels: &mut ChannelRegistry, chan_id: u64, text: &str, tick: u64) -> (r: SendOutcome)
    requires
        old(channels).wf(),
    ensures
        final(channels).wf(),
        final(channels).spec_next_id() == old(channels).spec_next_id(),
        r == SendOutcome::NoChannel <==> !has_channel(old(channels)@, chan_id),
        r != SendOutcome::Sent ==> final(channels)@ == old(channels)@,
        has_channel(old(channels)@, chan_id) ==> exists|i: int|
            first_channel_with_id(old(channels)@, chan_id, i) && if old(channels)@[i]@.len() < CHANNEL_CAPACITY {
                &&& r == SendOutcome::Sent
                &&& final(channels)@ == old(channels)@.update(i, final(channels)@[i])
                &&& final(channels)@[i].chan_id() == chan_id
                &&& final(channels)@[i].wf()
                &&& final(channels)@[i]@.drop_last() == old(channels)@[i]@
                &&& final(channels)@[i]@.len() == old(channels)@[i]@.len() + 1
                &&& final(channels)@[i]@.last().sender == AgentId(0)
                &&& final(channels)@[i]@.last().tick == tick
                &&& final(channels)@[i]@.last().spec_payload() == kept_payload(text.spec_bytes())
            } else {
                r == SendOutcome::ChannelFull
            },
{
    let msg = Message::new(AgentId(0), text.as_bytes(), tick);
    let ghost r0 = *channels;
    proof {
        r0.lemma_wf_ids();
    }
    let r = match channels.get_mut(chan_id) {
        Some(ch) => match ch.send(msg) {
            Ok(()) => SendOutcome::Sent,
            Err(_) => SendOutcome::ChannelFull,
        },
        None => SendOutcome::NoChannel,
    };
    proof {
        if has_channel(r0@, chan_id) {
            assert(exists|i: int| first_channel_with_id(r0@, chan_id, i) && channels@ == r0@.update(i, channels@[i]));
            let i = choose|i: int| first_channel_with_id(r0@, chan_id, i) && channels@ == r0@.update(i, channels@[i]);
            assert(channels@[i].wf());
            assert(channels@[i].chan_id() == r0@[i].chan_id());
            ChannelRegistry::lemma_update_keeps_wf(&r0, channels, i, channels@[i]);
            if r != SendOutcome::Sent {
                assert(channels@ =~= r0@);
            }
        } else {
            ChannelRegistry::lemma_same_wf(&r0, channels);
        }
    }
    r
}

// ─── Status ─────────────────────────────────────────────────────

/// The figures of the `status` overview.
#[derive(Debug, Clone, Copy, PartialEq, Eq, Structural)]
pub struct SystemStatus {
    pub tick: u64,
    pub agents: usize,
    pub caps: usize,
    pub audit_events: u64,
    pub files: usize,
    pub fs_bytes: usize,
}

/// Gather the `status` overview.
pub fn system_status(caps: &CapTable, agents: &AgentTable, audit: &AuditLog, fs: &VirtFs, tick: u64) -> (s: SystemStatus)
    requires
        caps.wf(),
        total_bytes(fs@) <= usize::MAX,
    ensures
        s == (SystemStatus {
            tick,
            agents: live_agents(agents@).len() as usize,
            caps: active_set(caps@).len() as usize,
            audit_events: audit.spec_total(),
            files: fs@.len() as usize,
            fs_bytes: total_bytes(fs@) as usize,
        }),
{
    SystemStatus {
        tick,
        agents: agents.active_count(),
        caps: caps.active_count(),
        audit_events: audit.total_events(),
        files: fs.file_count(),
        fs_bytes: fs.total_size(),
    }
}

} // verus!
