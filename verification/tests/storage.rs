use tunicore::alias::{AliasTable, MAX_ALIASES};
use tunicore::env::{init_defaults, EnvStore, MAX_ENTRIES};
use tunicore::virtfs::{VirtFile, VirtFs, MAX_FILES, MAX_FILE_SIZE};

#[test]
fn env_set_get_unset() {
    let mut e = EnvStore::new();
    assert!(e.set("user", "root").is_ok());
    assert_eq!(e.get("user"), Some("root"));
    assert!(e.set("user", "agent").is_ok());
    assert_eq!(e.get("user"), Some("agent"));
    assert_eq!(e.len(), 1);
    assert!(e.unset("user"));
    assert!(!e.unset("user"));
    assert_eq!(e.get("user"), None);
    assert_eq!(e.len(), 0);
}

#[test]
fn env_errors() {
    let mut e = EnvStore::new();
    assert_eq!(e.set(&"k".repeat(33), "v"), Err("key too long"));
    assert_eq!(e.set("k", &"v".repeat(129)), Err("value too long"));
    assert!(e.set(&"k".repeat(32), &"v".repeat(128)).is_ok());
    let mut f = EnvStore::new();
    for i in 0..MAX_ENTRIES {
        f.set(&format!("k{}", i), "v").unwrap();
    }
    assert_eq!(f.set("another", "v"), Err("env full"));
    assert!(f.set("k0", "w").is_ok());
}

#[test]
fn env_defaults() {
    let mut e = EnvStore::new();
    init_defaults(&mut e);
    assert_eq!(e.len(), 7);
    assert_eq!(e.get("hostname"), Some("tunicore"));
    assert_eq!(e.get("version"), Some("0.6.0"));
    assert_eq!(e.get("owner"), Some("tuncore"));
    assert_eq!(e.get("lang"), Some("en"));
    assert_eq!(e.get("arch"), Some("x86_64"));
    assert_eq!(e.get("shell"), Some("intent/v2"));
    assert_eq!(e.get("heap_mb"), Some("32"));
    let pairs = e.iter();
    assert_eq!(pairs[0], ("hostname", "tunicore"));
    assert_eq!(pairs[1], ("version", "0.6.0"));
    assert_eq!(pairs[2], ("owner", "tuncore"));
    assert_eq!(pairs[3], ("lang", "en"));
    assert_eq!(pairs[6], ("heap_mb", "32"));
}

#[test]
fn alias_define_resolve_remove() {
    let mut a = AliasTable::new();
    assert!(a.define("ll", "ls -l").is_ok());
    assert_eq!(a.resolve("ll"), Some("ls -l"));
    assert!(a.define("ll", "ls").is_ok());
    assert_eq!(a.resolve("ll"), Some("ls"));
    assert_eq!(a.len(), 1);
    assert_eq!(a.iter(), vec![("ll", "ls")]);
    assert!(a.remove("ll"));
    assert!(!a.remove("ll"));
    assert_eq!(a.resolve("ll"), None);
}

#[test]
fn alias_errors() {
    let mut a = AliasTable::new();
    assert_eq!(a.define("", "x"), Err("empty name"));
    assert_eq!(a.define("x", ""), Err("empty expansion"));
    assert_eq!(a.define(&"n".repeat(17), "x"), Err("name too long (max 16)"));
    for i in 0..MAX_ALIASES {
        a.define(&format!("a{}", i), "x").unwrap();
    }
    assert_eq!(a.define("zz", "x"), Err("alias table full"));
}

#[test]
fn file_write_read_and_rewrite() {
    let mut fs = VirtFs::new();
    assert!(fs.write("notes.txt", b"hello", 1).is_ok());
    assert_eq!(fs.read("notes.txt"), Some(&b"hello"[..]));
    assert!(fs.write("notes.txt", b"bye", 2).is_ok());
    assert_eq!(fs.read("notes.txt"), Some(&b"bye"[..]));
    assert_eq!(fs.file_count(), 1);
    assert_eq!(fs.list()[0].modified_at, 2);
    assert_eq!(fs.list()[0].size(), 3);
    assert!(fs.file_exists("notes.txt"));
    assert!(!fs.file_exists("other"));
    assert_eq!(fs.read("other"), None);
}

#[test]
fn file_append_touch_remove_and_size() {
    let mut fs = VirtFs::new();
    assert!(fs.append("log", b"ab", 1).is_ok());
    assert!(fs.append("log", b"cd", 2).is_ok());
    assert_eq!(fs.read("log"), Some(&b"abcd"[..]));
    assert!(fs.touch("empty", 3).is_ok());
    assert_eq!(fs.read("empty"), Some(&b""[..]));
    assert!(fs.touch("log", 9).is_ok());
    assert_eq!(fs.list()[0].modified_at, 9);
    assert_eq!(fs.read("log"), Some(&b"abcd"[..]));
    assert_eq!(fs.total_size(), 4);
    assert!(fs.remove("log").is_ok());
    assert_eq!(fs.remove("log"), Err("file not found"));
    assert_eq!(fs.file_count(), 1);
    assert_eq!(fs.total_size(), 0);
}

#[test]
fn file_limits() {
    let mut fs = VirtFs::new();
    let big = vec![0u8; MAX_FILE_SIZE + 1];
    assert_eq!(fs.write("big", &big, 0), Err("file too large (max 64 KiB)"));
    assert!(fs.write("max", &big[..MAX_FILE_SIZE], 0).is_ok());
    assert_eq!(fs.append("max", b"x", 0), Err("file would exceed max size"));
    for i in 1..MAX_FILES {
        fs.touch(&format!("f{}", i), 0).unwrap();
    }
    assert_eq!(fs.write("new", b"x", 0), Err("filesystem full (max 256 files)"));
    assert_eq!(fs.touch("new", 0), Err("filesystem full"));
    assert_eq!(fs.append("new", b"x", 0), Err("filesystem full (max 256 files)"));
}

#[test]
fn virt_file_new_is_empty() {
    let f = VirtFile::new("a", 4);
    assert_eq!(f.size(), 0);
    assert_eq!(f.name, "a");
    assert_eq!(f.created_at, 4);
}
