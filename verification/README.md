# TuniCore

A capability-based kernel where the agent is the interface and the kernel is
the guard: agents start with no rights, receive capabilities they can only
narrow when they pass them on, lose everything a revoked capability led to,
a handle is of use only to the agent that holds it, and every syscall's
decision is written to an audit log whose hash chain covers every field of
every entry.

## Layout

- `src/` — the kernel's logic, verified with Verus:
  - `capability/`, `cap_table.rs`, `resource.rs` — rights, capability
    tokens, the capability table with delegation and cascading revocation;
  - `agent.rs` — agents, budgets, lifetimes and the agent table;
  - `syscall.rs` — the syscall gate: check, execute, audit;
  - `audit.rs`, `klog.rs` — the hash-chained audit ring and the kernel log;
  - `channel.rs`, `virtfs.rs`, `env.rs`, `alias.rs`, `kv.rs` — IPC channels,
    the in-memory file system and the small key/value stores;
  - `memory/` — the bitmap page frame allocator;
  - `intent.rs`, `suggest.rs`, `guardian.rs`, `chat_ui.rs`, `framebuffer.rs`
    — the conversational shell: line parsing, "did you mean" suggestions by
    Levenshtein distance, line editing, screen layout;
  - `llm.rs`, `keyboard.rs`, `hwdetect.rs`, `wasm_runtime.rs` — the serial
    LLM protocol, scancode decoding, CPUID feature decoding, and the
    capability rules around sandboxed WASM agents.
- `app/` — the bootable kernel around the library: boot protocol, GDT/IDT,
  APIC and timer, serial and keyboard drivers, the heap, framebuffer
  painting, the wasmi engine, and the console loop.
- `tests/` — tests of the library.

The kernel binary embeds its WASM agents and fonts from `app/assets/`.
