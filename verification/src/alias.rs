//! Command aliases: user-defined commands that expand to existing commands.

use crate::kv::{
    kv_find, kv_has, kv_keys_distinct, kv_lookup, kv_pairs, kv_remove_all, kv_set, kv_without,
    lemma_kv_without_lookup, lemma_push_facts, lemma_set_facts, lemma_without_facts, KvEntry,
};
use vstd::prelude::*;

verus! {

/// Max aliases
pub const MAX_ALIASES: usize = 32;

/// Max alias name length (bytes)
pub const MAX_ALIAS_NAME: usize = 16;

/// The aliases after defining `name` as `expansion`, or the message of the refusal.
pub open spec fn alias_define_result(p: Seq<(Seq<char>, Seq<char>)>, name: &str, expansion: &str) -> Result<
    Seq<(Seq<char>, Seq<char>)>,
    Seq<char>,
> {
    if name@.len() == 0 {
        Err("empty name"@)
    } else if expansion@.len() == 0 {
        Err("empty expansion"@)
    } else if name.len() > MAX_ALIAS_NAME {
        Err("name too long (max 16)"@)
    } else if kv_has(p, name@) {
        Ok(kv_set(p, name@, expansion@))
    } else if p.len() >= MAX_ALIASES {
        Err("alias table full"@)
    } else {
        Ok(p.push((name@, expansion@)))
    }
}

/// Alias table
pub struct AliasTable {
    aliases: Vec<KvEntry>,
}

impl AliasTable {
    /// The (name, expansion) pairs, in definition order.
    pub closed spec fn view(&self) -> Seq<(Seq<char>, Seq<char>)> {
        kv_pairs(self.aliases@)
    }

    /// No name is defined twice, and the table is within its size.
    pub open spec fn wf(&self) -> bool {
        kv_keys_distinct(self@) && self@.len() <= MAX_ALIASES
    }

    /// An empty table.
    pub fn new() -> (t: Self)
        ensures
            t@ == Seq::<(Seq<char>, Seq<char>)>::empty(),
            t.wf(),
    {
        let t = Self { aliases: Vec::new() };
        assert(t@ =~= Seq::<(Seq<char>, Seq<char>)>::empty());
        t
    }

    /// Define or update an alias
    pub fn define(&mut self, name: &str, expansion: &str) -> (r: Result<(), &'static str>)
        ensures
            match alias_define_result(old(self)@, name, expansion) {
                Ok(q) => r is Ok && final(self)@ == q,
                Err(m) => r matches Err(e) && e@ == m && final(self)@ == old(self)@,
            },
            old(self).wf() ==> final(self).wf(),
            r is Ok ==> kv_lookup(final(self)@, name@) == Some(expansion@),
            old(self).wf() ==> forall|k: Seq<char>|
                k != name@ ==> kv_lookup(final(self)@, k) == kv_lookup(old(self)@, k),
    {
        let ghost p = self@;
        if name.is_empty() {
            return Err("empty name");
        }
        if expansion.is_empty() {
            return Err("empty expansion");
        }
        if name.len() > MAX_ALIAS_NAME {
            return Err("name too long (max 16)");
        }
        // Update existing
        match kv_find(&self.aliases, name) {
            Some(i) => {
                self.aliases[i].value = expansion.to_owned();
                proof {
                    assert(self@ =~= p.update(i as int, (name@, expansion@)));
                    crate::kv::lemma_kv_set_at(p, name@, expansion@, i as int);
                    lemma_set_facts(p, name@, expansion@, i as int);
                }
                return Ok(());
            },
            None => {},
        }
        if self.aliases.len() >= MAX_ALIASES {
            return Err("alias table full");
        }
        self.aliases.push(KvEntry { key: name.to_owned(), value: expansion.to_owned() });
        proof {
            assert(self@ =~= p.push((name@, expansion@)));
            lemma_push_facts(p, name@, expansion@);
        }
        Ok(())
    }

    /// Look up an alias
    pub fn resolve(&self, name: &str) -> (r: Option<&str>)
        ensures
            match kv_lookup(self@, name@) {
                Some(v) => r matches Some(s) && s@ == v,
                None => r is None,
            },
    {
        match kv_find(&self.aliases, name) {
            Some(i) => {
                proof {
                    crate::kv::lemma_kv_lookup_first(self@, name@, i as int);
                }
                Some(self.aliases[i].value.as_str())
            },
            None => {
                proof {
                    crate::kv::lemma_kv_lookup_missing(self@, name@);
                }
                None
            },
        }
    }

    /// Remove an alias; tells whether anything was removed.
    pub fn remove(&mut self, name: &str) -> (removed: bool)
        ensures
            final(self)@ == kv_without(old(self)@, name@),
            removed == (final(self)@.len() < old(self)@.len()),
            removed == kv_has(old(self)@, name@),
            old(self).wf() ==> final(self).wf(),
            kv_lookup(final(self)@, name@) is None,
    {
        let ghost p = self@;
        let before = self.aliases.len();
        kv_remove_all(&mut self.aliases, name);
        proof {
            lemma_without_facts(p, name@);
            lemma_kv_without_lookup(p, name@, name@);
        }
        self.aliases.len() < before
    }

    /// All aliases as (name, expansion), in definition order
    pub fn iter(&self) -> (r: Vec<(&str, &str)>)
        ensures
            r@.len() == self@.len(),
            forall|i: int| 0 <= i < r@.len() ==> r@[i].0@ == self@[i].0 && r@[i].1@ == self@[i].1,
    {
        let mut out: Vec<(&str, &str)> = Vec::new();
        let mut i: usize = 0;
        while i < self.aliases.len()
            invariant
                i <= self.aliases@.len(),
                out@.len() == i,
                forall|k: int| 0 <= k < i ==> out@[k].0@ == self@[k].0 && out@[k].1@ == self@[k].1,
            decreases self.aliases@.len() - i,
        {
            out.push((self.aliases[i].key.as_str(), self.aliases[i].value.as_str()));
            i += 1;
        }
        out
    }

    /// Count
    pub fn len(&self) -> (n: usize)
        ensures
            n as int == self@.len(),
    {
        self.aliases.len()
    }
}

} // verus!
