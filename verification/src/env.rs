//! Kernel environment store: key-value configuration.
//!
//! An in-memory configuration store, readable by agents and settable from
//! the shell.

use crate::kv::{
    kv_find, kv_first, kv_set, kv_has, kv_keys_distinct, kv_lookup, kv_pairs, kv_remove_all, kv_without,
    lemma_kv_lookup, lemma_kv_lookup_at, lemma_kv_without_lookup, lemma_push_facts, lemma_set_facts,
    lemma_without_facts, KvEntry,
};
use vstd::prelude::*;
use vstd::string::StringSliceAdditionalSpecFns;

verus! {

/// Max entries
pub const MAX_ENTRIES: usize = 64;

/// Max key length (bytes)
pub const MAX_KEY: usize = 32;

/// Max value length (bytes)
pub const MAX_VAL: usize = 128;

/// The pairs after setting `k` to `v`, or the message of the refusal.
pub open spec fn env_set_result(p: Seq<(Seq<char>, Seq<char>)>, k: &str, v: &str) -> Result<
    Seq<(Seq<char>, Seq<char>)>,
    Seq<char>,
> {
    if k.len() > MAX_KEY {
        Err("key too long"@)
    } else if v.len() > MAX_VAL {
        Err("value too long"@)
    } else if kv_has(p, k@) {
        Ok(kv_set(p, k@, v@))
    } else if p.len() >= MAX_ENTRIES {
        Err("env full"@)
    } else {
        Ok(p.push((k@, v@)))
    }
}

/// The pairs after setting `k` to `v`; unchanged when the set is refused.
pub open spec fn env_after_set(p: Seq<(Seq<char>, Seq<char>)>, k: &str, v: &str) -> Seq<
    (Seq<char>, Seq<char>),
> {
    match env_set_result(p, k, v) {
        Ok(q) => q,
        Err(_) => p,
    }
}

/// Environment store
pub struct EnvStore {
    entries: Vec<KvEntry>,
}

impl EnvStore {
    /// The (key, value) pairs, in insertion order.
    pub closed spec fn view(&self) -> Seq<(Seq<char>, Seq<char>)> {
        kv_pairs(self.entries@)
    }

    /// No key is stored twice, and the store is within its size.
    pub open spec fn wf(&self) -> bool {
        kv_keys_distinct(self@) && self@.len() <= MAX_ENTRIES
    }

    /// An empty store.
    pub fn new() -> (e: Self)
        ensures
            e@ == Seq::<(Seq<char>, Seq<char>)>::empty(),
            e.wf(),
    {
        let e = Self { entries: Vec::new() };
        assert(e@ =~= Seq::<(Seq<char>, Seq<char>)>::empty());
        e
    }

    /// Set a key-value pair (insert or update)
    pub fn set(&mut self, key: &str, value: &str) -> (r: Result<(), &'static str>)
        ensures
            match env_set_result(old(self)@, key, value) {
                Ok(q) => r is Ok && final(self)@ == q,
                Err(m) => r matches Err(e) && e@ == m && final(self)@ == old(self)@,
            },
            old(self).wf() ==> final(self).wf(),
            r is Ok ==> kv_lookup(final(self)@, key@) == Some(value@),
            old(self).wf() ==> forall|k: Seq<char>|
                k != key@ ==> kv_lookup(final(self)@, k) == kv_lookup(old(self)@, k),
    {
        let ghost p = self@;
        proof {
            reveal_strlit("key too long");
            reveal_strlit("value too long");
            reveal_strlit("env full");
        }
        if key.len() > MAX_KEY {
            return Err("key too long");
        }
        if value.len() > MAX_VAL {
            return Err("value too long");
        }
        // Update existing
        match kv_find(&self.entries, key) {
            Some(i) => {
                self.entries[i].value = value.to_owned();
                proof {
                    assert(self@ =~= p.update(i as int, (key@, value@)));
                    crate::kv::lemma_kv_set_at(p, key@, value@, i as int);
                    lemma_set_facts(p, key@, value@, i as int);
                }
                return Ok(());
            },
            None => {},
        }
        // Insert new
        if self.entries.len() >= MAX_ENTRIES {
            return Err("env full");
        }
        self.entries.push(KvEntry { key: key.to_owned(), value: value.to_owned() });
        proof {
            assert(self@ =~= p.push((key@, value@)));
            lemma_push_facts(p, key@, value@);
        }
        Ok(())
    }

    /// Get a value by key
    pub fn get(&self, key: &str) -> (r: Option<&str>)
        ensures
            match kv_lookup(self@, key@) {
                Some(v) => r matches Some(s) && s@ == v,
                None => r is None,
            },
    {
        match kv_find(&self.entries, key) {
            Some(i) => {
                proof {
                    crate::kv::lemma_kv_lookup_first(self@, key@, i as int);
                }
                Some(self.entries[i].value.as_str())
            },
            None => {
                proof {
                    crate::kv::lemma_kv_lookup_missing(self@, key@);
                }
                None
            },
        }
    }

    /// Remove a key; tells whether anything was removed.
    pub fn unset(&mut self, key: &str) -> (removed: bool)
        ensures
            final(self)@ == kv_without(old(self)@, key@),
            removed == (final(self)@.len() < old(self)@.len()),
            removed == kv_has(old(self)@, key@),
            old(self).wf() ==> final(self).wf(),
            kv_lookup(final(self)@, key@) is None,
    {
        let ghost p = self@;
        let before = self.entries.len();
        kv_remove_all(&mut self.entries, key);
        proof {
            lemma_without_facts(p, key@);
            lemma_kv_without_lookup(p, key@, key@);
        }
        self.entries.len() < before
    }

    /// All entries, in insertion order
    pub fn iter(&self) -> (r: Vec<(&str, &str)>)
        ensures
            r@.len() == self@.len(),
            forall|i: int| 0 <= i < r@.len() ==> r@[i].0@ == self@[i].0 && r@[i].1@ == self@[i].1,
    {
        let mut out: Vec<(&str, &str)> = Vec::new();
        let mut i: usize = 0;
        while i < self.entries.len()
            invariant
                i <= self.entries@.len(),
                out@.len() == i,
                forall|k: int| 0 <= k < i ==> out@[k].0@ == self@[k].0 && out@[k].1@ == self@[k].1,
            decreases self.entries@.len() - i,
        {
            out.push((self.entries[i].key.as_str(), self.entries[i].value.as_str()));
            i += 1;
        }
        out
    }

    /// Number of entries
    pub fn len(&self) -> (n: usize)
        ensures
            n as int == self@.len(),
    {
        self.entries.len()
    }
}

/// Initialize the default environment variables: the configuration that
/// `show configuration` first lists (hostname, version, owner, language),
/// then the platform entries.
pub fn init_defaults(env: &mut EnvStore)
    ensures
        final(env)@ == env_after_set(
            env_after_set(
                env_after_set(
                    env_after_set(
                        env_after_set(
                            env_after_set(
                                env_after_set(old(env)@, "hostname", "tunicore"),
                                "version",
                                "0.6.0",
                            ),
                            "owner",
                            "tuncore",
                        ),
                        "lang",
                        "en",
                    ),
                    "arch",
                    "x86_64",
                ),
                "shell",
                "intent/v2",
            ),
            "heap_mb",
            "32",
        ),
        old(env).wf() ==> final(env).wf(),
{
    env.set("hostname", "tunicore").ok();
    env.set("version", "0.6.0").ok();
    env.set("owner", "tuncore").ok();
    env.set("lang", "en").ok();
    env.set("arch", "x86_64").ok();
    env.set("shell", "intent/v2").ok();
    env.set("heap_mb", "32").ok();
}

} // verus!
