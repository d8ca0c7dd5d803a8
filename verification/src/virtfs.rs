//! VirtFS — in-memory virtual filesystem.
//!
//! Files live in kernel memory; no disk required.

use crate::kv::{kv_first, kv_has, kv_keys_distinct, kv_lookup, lemma_kv_lookup_first, lemma_kv_lookup_missing};
use crate::text::str_eq;
use vstd::prelude::*;
use vstd::slice::slice_to_vec;

verus! {

/// Max files in the filesystem
pub const MAX_FILES: usize = 256;

/// Max file size (64 KiB)
pub const MAX_FILE_SIZE: usize = 64 * 1024;

/// A file in VirtFS
pub struct VirtFile {
    pub name: String,
    pub data: Vec<u8>,
    pub created_at: u64,
    pub modified_at: u64,
}

impl VirtFile {
    /// An empty file named `name`, created at `tick`.
    pub fn new(name: &str, tick: u64) -> (f: Self)
        ensures
            f.name@ == name@,
            f.data@ == Seq::<u8>::empty(),
            f.created_at == tick,
            f.modified_at == tick,
    {
        Self { name: name.to_owned(), data: Vec::new(), created_at: tick, modified_at: tick }
    }

    /// Size of the file in bytes.
    pub fn size(&self) -> (n: usize)
        ensures
            n as int == self.data@.len(),
    {
        self.data.len()
    }
}

/// The (name, contents) pairs of a list of files, in order.
pub open spec fn fs_pairs(s: Seq<VirtFile>) -> Seq<(Seq<char>, Seq<u8>)> {
    s.map_values(|f: VirtFile| (f.name@, f.data@))
}

/// Total number of bytes held by `s`.
pub open spec fn total_bytes(s: Seq<VirtFile>) -> int
    decreases s.len(),
{
    if s.len() == 0 {
        0
    } else {
        total_bytes(s.drop_last()) + s.last().data@.len()
    }
}

/// `t` is `s` with file `i` now holding `data`, modified at `tick`; all
/// else is unchanged.
pub open spec fn file_rewritten(s: Seq<VirtFile>, t: Seq<VirtFile>, i: int, data: Seq<u8>, tick: u64) -> bool {
    &&& t.len() == s.len()
    &&& forall|j: int| 0 <= j < s.len() && j != i ==> t[j] == s[j]
    &&& t[i].name@ == s[i].name@
    &&& t[i].data@ == data
    &&& t[i].created_at == s[i].created_at
    &&& t[i].modified_at == tick
}

/// `t` is `s` with a new file `name` holding `data`, created at `tick`, at the end.
pub open spec fn file_appended(s: Seq<VirtFile>, t: Seq<VirtFile>, name: Seq<char>, data: Seq<u8>, tick: u64) -> bool {
    &&& t.len() == s.len() + 1
    &&& t.drop_last() == s
    &&& t.last().name@ == name
    &&& t.last().data@ == data
    &&& t.last().created_at == tick
    &&& t.last().modified_at == tick
}

/// The virtual filesystem
pub struct VirtFs {
    files: Vec<VirtFile>,
}

impl VirtFs {
    /// The files, in creation order.
    pub closed spec fn view(&self) -> Seq<VirtFile> {
        self.files@
    }

    /// No name is used twice, and the filesystem is within its size.
    pub open spec fn wf(&self) -> bool {
        kv_keys_distinct(fs_pairs(self@)) && self@.len() <= MAX_FILES
    }

    /// An empty filesystem.
    pub fn new() -> (fs: Self)
        ensures
            fs@ == Seq::<VirtFile>::empty(),
            fs.wf(),
    {
        let fs = Self { files: Vec::new() };
        assert(fs_pairs(fs@) =~= Seq::<(Seq<char>, Seq<u8>)>::empty());
        fs
    }

    /// List all files
    pub fn list(&self) -> (l: &[VirtFile])
        ensures
            l@ == self@,
    {
        self.files.as_slice()
    }

    /// Get file count
    pub fn file_count(&self) -> (n: usize)
        ensures
            n as int == self@.len(),
    {
        self.files.len()
    }

    /// Index of the first file named `name`.
    fn find(&self, name: &str) -> (r: Option<usize>)
        ensures
            match r {
                Some(i) => kv_first(fs_pairs(self@), name@, i as int),
                None => !kv_has(fs_pairs(self@), name@),
            },
    {
        let mut i: usize = 0;
        while i < self.files.len()
            invariant
                i <= self.files@.len(),
                forall|j: int| 0 <= j < i ==> (#[trigger] self.files@[j]).name@ != name@,
            decreases self.files@.len() - i,
        {
            if str_eq(self.files[i].name.as_str(), name) {
                return Some(i);
            }
            i += 1;
        }
        None
    }

    /// Check if a file exists
    pub fn file_exists(&self, name: &str) -> (b: bool)
        ensures
            b == kv_has(fs_pairs(self@), name@),
    {
        self.find(name).is_some()
    }

    /// Read file contents
    pub fn read(&self, name: &str) -> (r: Option<&[u8]>)
        ensures
            match kv_lookup(fs_pairs(self@), name@) {
                Some(d) => r matches Some(b) && b@ == d,
                None => r is None,
            },
    {
        match self.find(name) {
            Some(i) => {
                proof {
                    lemma_kv_lookup_first(fs_pairs(self@), name@, i as int);
                }
                Some(self.files[i].data.as_slice())
            },
            None => {
                proof {
                    lemma_kv_lookup_missing(fs_pairs(self@), name@);
                }
                None
            },
        }
    }

    /// Create or overwrite a file
    pub fn write(&mut self, name: &str, data: &[u8], tick: u64) -> (r: Result<(), &'static str>)
        ensures
            data@.len() > MAX_FILE_SIZE ==> (r matches Err(e) && e@ == "file too large (max 64 KiB)"@
                && final(self)@ == old(self)@),
            data@.len() <= MAX_FILE_SIZE && kv_has(fs_pairs(old(self)@), name@) ==> r is Ok
                && exists|i: int|
                kv_first(fs_pairs(old(self)@), name@, i) && file_rewritten(
                    old(self)@,
                    final(self)@,
                    i,
                    data@,
                    tick,
                ),
            data@.len() <= MAX_FILE_SIZE && !kv_has(fs_pairs(old(self)@), name@) && old(self)@.len()
                >= MAX_FILES ==> (r matches Err(e) && e@ == "filesystem full (max 256 files)"@
                && final(self)@ == old(self)@),
            data@.len() <= MAX_FILE_SIZE && !kv_has(fs_pairs(old(self)@), name@) && old(self)@.len()
                < MAX_FILES ==> r is Ok && file_appended(old(self)@, final(self)@, name@, data@, tick),
            r is Ok ==> kv_lookup(fs_pairs(final(self)@), name@) == Some(data@),
            r is Ok && old(self).wf() ==> forall|other: Seq<char>|
                other != name@ ==> kv_lookup(fs_pairs(final(self)@), other) == kv_lookup(
                    fs_pairs(old(self)@),
                    other,
                ),
            old(self).wf() ==> final(self).wf(),
    {
        let ghost s0 = self@;
        if data.len() > MAX_FILE_SIZE {
            return Err("file too large (max 64 KiB)");
        }
        // Update existing
        match self.find(name) {
            Some(i) => {
                self.files[i].data = slice_to_vec(data);
                self.files[i].modified_at = tick;
                proof {
                    assert(fs_pairs(self@) =~= fs_pairs(s0).update(i as int, (name@, data@)));
                    crate::kv::lemma_set_facts(fs_pairs(s0), name@, data@, i as int);
                }
                return Ok(());
            },
            None => {},
        }
        // Create new
        if self.files.len() >= MAX_FILES {
            return Err("filesystem full (max 256 files)");
        }
        let mut file = VirtFile::new(name, tick);
        file.data = slice_to_vec(data);
        self.files.push(file);
        proof {
            assert(self@.drop_last() =~= s0);
            assert(fs_pairs(self@) =~= fs_pairs(s0).push((name@, data@)));
            crate::kv::lemma_push_facts(fs_pairs(s0), name@, data@);
        }
        Ok(())
    }

    /// Create empty file (touch); an existing file only gets a new modification time
    pub fn touch(&mut self, name: &str, tick: u64) -> (r: Result<(), &'static str>)
        ensures
            kv_has(fs_pairs(old(self)@), name@) ==> r is Ok && exists|i: int|
                kv_first(fs_pairs(old(self)@), name@, i) && file_rewritten(
                    old(self)@,
                    final(self)@,
                    i,
                    old(self)@[i].data@,
                    tick,
                ),
            !kv_has(fs_pairs(old(self)@), name@) && old(self)@.len() >= MAX_FILES ==> (r matches Err(e)
                && e@ == "filesystem full"@ && final(self)@ == old(self)@),
            !kv_has(fs_pairs(old(self)@), name@) && old(self)@.len() < MAX_FILES ==> r is Ok
                && file_appended(old(self)@, final(self)@, name@, Seq::<u8>::empty(), tick),
            fs_pairs(final(self)@) == if r is Ok && !kv_has(fs_pairs(old(self)@), name@) {
                fs_pairs(old(self)@).push((name@, Seq::<u8>::empty()))
            } else {
                fs_pairs(old(self)@)
            },
            old(self).wf() ==> final(self).wf(),
    {
        let ghost s0 = self@;
        if self.file_exists(name) {
            // Update modified time
            match self.find(name) {
                Some(i) => {
                    self.files[i].modified_at = tick;
                    proof {
                        assert(fs_pairs(self@) =~= fs_pairs(s0));
                    }
                },
                None => {},
            }
            return Ok(());
        }
        if self.files.len() >= MAX_FILES {
            return Err("filesystem full");
        }
        self.files.push(VirtFile::new(name, tick));
        proof {
            assert(self@.drop_last() =~= s0);
            assert(fs_pairs(self@) =~= fs_pairs(s0).push((name@, Seq::<u8>::empty())));
            crate::kv::lemma_push_facts(fs_pairs(s0), name@, Seq::<u8>::empty());
        }
        Ok(())
    }

    /// Append data to a file (creates it when missing)
    pub fn append(&mut self, name: &str, data: &[u8], tick: u64) -> (r: Result<(), &'static str>)
        requires
            kv_lookup(fs_pairs(old(self)@), name@) matches Some(cur) ==> cur.len() + data@.len()
                <= usize::MAX,
        ensures
            kv_lookup(fs_pairs(old(self)@), name@) matches Some(cur) ==> {
                &&& cur.len() + data@.len() > MAX_FILE_SIZE ==> (r matches Err(e) && e@
                    == "file would exceed max size"@ && final(self)@ == old(self)@)
                &&& cur.len() + data@.len() <= MAX_FILE_SIZE ==> r is Ok && exists|i: int|
                    kv_first(fs_pairs(old(self)@), name@, i) && file_rewritten(
                        old(self)@,
                        final(self)@,
                        i,
                        cur + data@,
                        tick,
                    )
            },
            !kv_has(fs_pairs(old(self)@), name@) ==> {
                &&& data@.len() > MAX_FILE_SIZE ==> (r matches Err(e) && e@
                    == "file too large (max 64 KiB)"@ && final(self)@ == old(self)@)
                &&& data@.len() <= MAX_FILE_SIZE && old(self)@.len() >= MAX_FILES ==> (r matches Err(e)
                    && e@ == "filesystem full (max 256 files)"@ && final(self)@ == old(self)@)
                &&& data@.len() <= MAX_FILE_SIZE && old(self)@.len() < MAX_FILES ==> r is Ok
                    && file_appended(old(self)@, final(self)@, name@, data@, tick)
            },
            r is Ok ==> kv_lookup(fs_pairs(final(self)@), name@) == Some(
                match kv_lookup(fs_pairs(old(self)@), name@) {
                    Some(cur) => cur + data@,
                    None => data@,
                },
            ),
            old(self).wf() ==> final(self).wf(),
    {
        let ghost s0 = self@;
        match self.find(name) {
            Some(i) => {
                proof {
                    lemma_kv_lookup_first(fs_pairs(s0), name@, i as int);
                }
                if self.files[i].data.len() + data.len() > MAX_FILE_SIZE {
                    return Err("file would exceed max size");
                }
                self.files[i].data.extend_from_slice(data);
                self.files[i].modified_at = tick;
                proof {
                    assert(self@[i as int].data@ =~= s0[i as int].data@ + data@);
                    assert(fs_pairs(self@) =~= fs_pairs(s0).update(
                        i as int,
                        (name@, s0[i as int].data@ + data@),
                    ));
                    crate::kv::lemma_set_facts(fs_pairs(s0), name@, s0[i as int].data@ + data@, i as int);
                }
                return Ok(());
            },
            None => {},
        }
        proof {
            lemma_kv_lookup_missing(fs_pairs(s0), name@);
        }
        // Create new
        self.write(name, data, tick)
    }

    /// Delete a file
    pub fn remove(&mut self, name: &str) -> (r: Result<(), &'static str>)
        ensures
            r is Err <==> !kv_has(fs_pairs(old(self)@), name@),
            r matches Err(e) ==> e@ == "file not found"@ && final(self)@ == old(self)@,
            r is Ok ==> exists|i: int|
                kv_first(fs_pairs(old(self)@), name@, i) && final(self)@ == old(self)@.remove(i),
            old(self).wf() ==> final(self).wf(),
            old(self).wf() ==> kv_lookup(fs_pairs(final(self)@), name@) is None,
    {
        let ghost s0 = self@;
        match self.find(name) {
            Some(i) => {
                self.files.remove(i);
                proof {
                    let p = fs_pairs(s0);
                    let q = fs_pairs(self@);
                    assert(q =~= p.remove(i as int));
                    if kv_keys_distinct(p) {
                        assert forall|a: int, b: int| 0 <= a < b < q.len() implies #[trigger] q[a].0
                            != #[trigger] q[b].0 by {
                            let a0 = if a < i { a } else { a + 1 };
                            let b0 = if b < i { b } else { b + 1 };
                            assert(q[a] == p[a0]);
                            assert(q[b] == p[b0]);
                        }
                        assert(!kv_has(q, name@)) by {
                            if kv_has(q, name@) {
                                let j = choose|j: int| 0 <= j < q.len() && q[j].0 == name@;
                                let j0 = if j < i { j } else { j + 1 };
                                assert(q[j] == p[j0]);
                            }
                        }
                        lemma_kv_lookup_missing(q, name@);
                    }
                }
                Ok(())
            },
            None => {
                proof {
                    lemma_kv_lookup_missing(fs_pairs(s0), name@);
                }
                Err("file not found")
            },
        }
    }

    /// Total bytes used
    pub fn total_size(&self) -> (n: usize)
        requires
            total_bytes(self@) <= usize::MAX,
        ensures
            n as int == total_bytes(self@),
    {
        let mut total: usize = 0;
        let mut i: usize = 0;
        while i < self.files.len()
            invariant
                i <= self.files@.len(),
                total as int == total_bytes(self@.take(i as int)),
                total_bytes(self@) <= usize::MAX,
            decreases self.files@.len() - i,
        {
            proof {
                assert(self@.take(i + 1).drop_last() =~= self@.take(i as int));
                lemma_total_bytes_prefix(self@, i + 1);
            }
            total = total + self.files[i].data.len();
            i += 1;
        }
        assert(self@.take(i as int) =~= self@);
        total
    }
}

/// A prefix holds no more bytes than the whole list.
pub proof fn lemma_total_bytes_prefix(s: Seq<VirtFile>, n: int)
    requires
        0 <= n <= s.len(),
    ensures
        total_bytes(s.take(n)) <= total_bytes(s),
        total_bytes(s.take(n)) >= 0,
    decreases s.len(),
{
    if n < s.len() {
        assert(s.drop_last().take(n) =~= s.take(n));
        lemma_total_bytes_prefix(s.drop_last(), n);
    } else {
        assert(s.take(n) =~= s);
    }
    lemma_total_bytes_nonneg(s);
}

/// Byte totals are never negative.
pub proof fn lemma_total_bytes_nonneg(s: Seq<VirtFile>)
    ensures
        total_bytes(s) >= 0,
    decreases s.len(),
{
    if s.len() > 0 {
        lemma_total_bytes_nonneg(s.drop_last());
    }
}

} // verus!
