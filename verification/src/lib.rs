//! TuniCore kernel logic: capabilities, agents, IPC, storage and the
//! small protocols of the conversational shell.

// The guard: rights, capabilities, agents, syscalls and the audit trail.
pub mod capability;
pub mod resource;
pub mod cap_table;
pub mod agent;
pub mod syscall;
pub mod audit;
pub mod klog;

// Agent communication and storage.
pub mod channel;
pub mod kv;
pub mod env;
pub mod alias;
pub mod virtfs;

// Physical memory.
pub mod memory;

// The shell and its devices.
pub mod text;
pub mod intent;
pub mod suggest;
pub mod guardian;
pub mod llm;
pub mod keyboard;
pub mod hwdetect;
pub mod framebuffer;
pub mod chat_ui;
pub mod wasm_runtime;
