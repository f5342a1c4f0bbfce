//! The modeled export tree.
//!
//! The server confines every client-visible object to the export root,
//! so a path is a list of validated component names, relative to that
//! root. Each node carries the attributes GETATTR reports and, for a
//! regular file, its content and whether that content has been made
//! durable; WRITE with a non-zero stable flag and COMMIT set the
//! durability mark before they acknowledge.

use vstd::prelude::*;
use vstd::assert_seqs_equal;
use vstd::map::*;
use crate::protocol::NfsTime;
use crate::table::{assoc_map, assoc_unique, lemma_assoc_contains, lemma_assoc_index,
    lemma_assoc_push, lemma_assoc_update};
use crate::xdr::{zero_bytes, copy_range, push_bytes, push_zeros, seq_assoc};

verus! {

// ---------------------------------------------------------------------------
// Component names
// ---------------------------------------------------------------------------

/// A name taken from the wire may stand for one path component only:
/// it must be non-empty, must not be `.` or `..`, and must not contain
/// a separator.
pub open spec fn valid_name(s: Seq<char>) -> bool {
    &&& s.len() > 0
    &&& !(s.len() == 1 && s[0] == '.')
    &&& !(s.len() == 2 && s[0] == '.' && s[1] == '.')
    &&& forall|i: int| 0 <= i < s.len() ==> s[i] != '/'
}

pub open spec fn valid_path(p: Seq<Seq<char>>) -> bool {
    forall|i: int| 0 <= i < p.len() ==> valid_name(#[trigger] p[i])
}

/// Checks a wire name against `valid_name`.
pub fn is_valid_name(s: &String) -> (r: bool)
    ensures
        r == valid_name(s@),
{
    let st = s.as_str();
    let n = st.unicode_len();
    if n == 0 {
        return false;
    }
    if n == 1 && st.get_char(0) == '.' {
        return false;
    }
    if n == 2 && st.get_char(0) == '.' && st.get_char(1) == '.' {
        return false;
    }
    let mut i: usize = 0;
    while i < n
        invariant
            n == s@.len(),
            st@ == s@,
            i <= n,
            forall|j: int| 0 <= j < i ==> s@[j] != '/',
        decreases n - i,
    {
        if st.get_char(i) == '/' {
            return false;
        }
        i = i + 1;
    }
    true
}

// ---------------------------------------------------------------------------
// Paths
// ---------------------------------------------------------------------------

pub fn path_eq(a: &Vec<String>, b: &Vec<String>) -> (r: bool)
    ensures
        r == (a.deep_view() == b.deep_view()),
{
    if a.len() != b.len() {
        proof {
            assert(a.deep_view().len() != b.deep_view().len());
        }
        return false;
    }
    let mut i: usize = 0;
    while i < a.len()
        invariant
            a@.len() == b@.len(),
            i <= a@.len(),
            forall|j: int| 0 <= j < i ==> a.deep_view()[j] == b.deep_view()[j],
        decreases a@.len() - i,
    {
        if !(a[i].eq(&b[i])) {
            proof {
                assert(a.deep_view()[i as int] != b.deep_view()[i as int]);
            }
            return false;
        }
        i = i + 1;
    }
    proof {
        assert_seqs_equal!(a.deep_view() == b.deep_view());
    }
    true
}

pub fn clone_path(p: &Vec<String>) -> (r: Vec<String>)
    ensures
        r.deep_view() == p.deep_view(),
{
    let mut r: Vec<String> = Vec::new();
    let mut i: usize = 0;
    while i < p.len()
        invariant
            i <= p@.len(),
            r@.len() == i,
            forall|j: int| 0 <= j < i ==> r.deep_view()[j] == p.deep_view()[j],
        decreases p@.len() - i,
    {
        r.push(p[i].clone());
        i = i + 1;
    }
    proof {
        assert_seqs_equal!(r.deep_view() == p.deep_view());
    }
    r
}

/// The child path `p / name`.
pub fn path_child(p: &Vec<String>, name: &String) -> (r: Vec<String>)
    ensures
        r.deep_view() == p.deep_view().push(name@),
{
    let mut r = clone_path(p);
    r.push(name.clone());
    proof {
        assert_seqs_equal!(r.deep_view() == p.deep_view().push(name@));
    }
    r
}

/// The parent path: everything but the last component.
pub fn path_parent(p: &Vec<String>) -> (r: Vec<String>)
    requires
        p@.len() > 0,
    ensures
        r.deep_view() == p.deep_view().drop_last(),
{
    let mut r = clone_path(p);
    let _last = r.pop();
    proof {
        assert_seqs_equal!(r.deep_view() == p.deep_view().drop_last());
    }
    r
}

// ---------------------------------------------------------------------------
// Decimal rendering of owner and group identifiers
// ---------------------------------------------------------------------------

pub open spec fn digit_char(d: int) -> char {
    if d == 0 {
        '0'
    } else if d == 1 {
        '1'
    } else if d == 2 {
        '2'
    } else if d == 3 {
        '3'
    } else if d == 4 {
        '4'
    } else if d == 5 {
        '5'
    } else if d == 6 {
        '6'
    } else if d == 7 {
        '7'
    } else if d == 8 {
        '8'
    } else {
        '9'
    }
}

/// The decimal digits of `n`, most significant first.
pub open spec fn dec_digits(n: int) -> Seq<char>
    recommends
        n >= 0,
    decreases n,
{
    if n < 10 {
        seq![digit_char(n)]
    } else {
        dec_digits(n / 10) + seq![digit_char(n % 10)]
    }
}

fn digit_str(d: u32) -> (r: &'static str)
    requires
        d < 10,
    ensures
        r@ == seq![digit_char(d as int)],
{
    let r: &'static str = if d == 0 {
        "0"
    } else if d == 1 {
        "1"
    } else if d == 2 {
        "2"
    } else if d == 3 {
        "3"
    } else if d == 4 {
        "4"
    } else if d == 5 {
        "5"
    } else if d == 6 {
        "6"
    } else if d == 7 {
        "7"
    } else if d == 8 {
        "8"
    } else {
        "9"
    };
    proof {
        reveal_strlit("0");
        reveal_strlit("1");
        reveal_strlit("2");
        reveal_strlit("3");
        reveal_strlit("4");
        reveal_strlit("5");
        reveal_strlit("6");
        reveal_strlit("7");
        reveal_strlit("8");
        reveal_strlit("9");
        assert_seqs_equal!(r@ == seq![digit_char(d as int)]);
    }
    r
}

fn push_decimal(s: &mut String, n: u32)
    ensures
        final(s)@ == old(s)@ + dec_digits(n as int),
    decreases n,
{
    if n < 10 {
        s.append(digit_str(n));
    } else {
        push_decimal(s, n / 10);
        s.append(digit_str(n % 10));
        proof {
            seq_assoc(old(s)@, dec_digits(n as int / 10), seq![digit_char(n as int % 10)]);
        }
    }
}

/// Renders `n` in decimal, as owner and group are reported.
pub fn u32_to_decimal(n: u32) -> (r: String)
    ensures
        r@ == dec_digits(n as int),
{
    let mut s = String::new();
    push_decimal(&mut s, n);
    proof {
        assert_seqs_equal!(Seq::<char>::empty() + dec_digits(n as int) == dec_digits(n as int));
    }
    s
}

// ---------------------------------------------------------------------------
// File content semantics
// ---------------------------------------------------------------------------

/// The content of a file after writing `d` at `offset`: the prefix up
/// to the offset (zero-filled past the old end), the data, and
/// whatever old content lies beyond it.
pub open spec fn write_content(c: Seq<u8>, offset: int, d: Seq<u8>) -> Seq<u8>
    recommends
        offset >= 0,
{
    let pre = if offset <= c.len() {
        c.take(offset)
    } else {
        c + zero_bytes(offset - c.len())
    };
    let post = if offset + d.len() < c.len() {
        c.skip(offset + d.len())
    } else {
        Seq::<u8>::empty()
    };
    pre + d + post
}

/// The bytes a read of `count` at `offset` returns: short at end of
/// file, empty past it.
pub open spec fn read_content(c: Seq<u8>, offset: int, count: int) -> Seq<u8>
    recommends
        offset >= 0,
        count >= 0,
{
    if offset >= c.len() {
        Seq::<u8>::empty()
    } else if offset + count <= c.len() {
        c.subrange(offset, offset + count)
    } else {
        c.subrange(offset, c.len() as int)
    }
}

/// Writing data at the start of a file and reading that many bytes
/// back yields the data, whatever the file held before.
pub proof fn lemma_write_then_read(c: Seq<u8>, d: Seq<u8>)
    ensures
        read_content(write_content(c, 0, d), 0, d.len() as int) == d,
{
    let w = write_content(c, 0, d);
    assert(w.len() >= d.len());
    if d.len() == 0 {
        assert(read_content(w, 0, 0) =~= d);
    } else {
        assert(read_content(w, 0, d.len() as int) =~= d);
    }
}

/// A read at or past end of file returns no bytes rather than failing.
pub proof fn lemma_read_past_eof(c: Seq<u8>, offset: int, count: int)
    requires
        offset >= c.len(),
    ensures
        read_content(c, offset, count) == Seq::<u8>::empty(),
{
}

/// The space GETATTR reports: the content rounded up to whole 512-byte
/// blocks, clipped at the 64-bit ceiling.
pub open spec fn spec_space_used(size: u64) -> u64 {
    if size % 512 == 0 {
        size
    } else if size / 512 * 512 + 512 <= u64::MAX {
        (size / 512 * 512 + 512) as u64
    } else {
        u64::MAX
    }
}

pub fn space_used_for(size: u64) -> (r: u64)
    ensures
        r == spec_space_used(size),
{
    if size % 512 == 0 {
        size
    } else {
        let base = size / 512 * 512;
        if base <= u64::MAX - 512 {
            base + 512
        } else {
            u64::MAX
        }
    }
}

// ---------------------------------------------------------------------------
// Nodes
// ---------------------------------------------------------------------------

#[derive(Debug, Clone, Copy, PartialEq, Eq, Structural)]
pub struct FsMeta {
    pub mode: u32,
    pub uid: u32,
    pub gid: u32,
    pub atime: NfsTime,
    pub mtime: NfsTime,
}

#[derive(Debug, Clone)]
pub struct FsNode {
    pub is_dir: bool,
    pub meta: FsMeta,
    pub content: Vec<u8>,
    pub durable: bool,
}

pub struct FsNodeV {
    pub is_dir: bool,
    pub meta: FsMeta,
    pub content: Seq<u8>,
    pub durable: bool,
}

impl DeepView for FsNode {
    type V = FsNodeV;

    open spec fn deep_view(&self) -> FsNodeV {
        FsNodeV { is_dir: self.is_dir, meta: self.meta, content: self.content@, durable: self.durable }
    }
}

/// One filesystem effect of an operation, for the surrounding program
/// to replay on the real export directory: paths are component lists
/// relative to the export root.
#[derive(Debug, Clone)]
pub enum FsAction {
    CreateFile(Vec<String>),
    CreateDir(Vec<String>),
    WriteFile(Vec<String>, u64, Vec<u8>, bool),
    SyncNode(Vec<String>),
}

pub enum FsActionV {
    CreateFile(Seq<Seq<char>>),
    CreateDir(Seq<Seq<char>>),
    WriteFile(Seq<Seq<char>>, u64, Seq<u8>, bool),
    SyncNode(Seq<Seq<char>>),
}

impl DeepView for FsAction {
    type V = FsActionV;

    open spec fn deep_view(&self) -> FsActionV {
        match self {
            FsAction::CreateFile(p) => FsActionV::CreateFile(p.deep_view()),
            FsAction::CreateDir(p) => FsActionV::CreateDir(p.deep_view()),
            FsAction::WriteFile(p, off, d, sync) => FsActionV::WriteFile(
                p.deep_view(),
                *off,
                d@,
                *sync,
            ),
            FsAction::SyncNode(p) => FsActionV::SyncNode(p.deep_view()),
        }
    }
}

/// What GETATTR needs of a node, copied out.
pub struct FsStat {
    pub is_dir: bool,
    pub meta: FsMeta,
    pub size: u64,
}

// ---------------------------------------------------------------------------
// The tree
// ---------------------------------------------------------------------------

pub struct Fs {
    pub entries: Vec<(Vec<String>, FsNode)>,
}

impl Fs {
    /// The key/value pairs the entry list denotes, over views.
    pub open spec fn kv_pairs(&self) -> Seq<(Seq<Seq<char>>, FsNodeV)> {
        Seq::new(self.entries@.len(), |i: int| (self.entries@[i].0.deep_view(),
            self.entries@[i].1.deep_view()))
    }

    pub open spec fn as_map(&self) -> Map<Seq<Seq<char>>, FsNodeV> {
        assoc_map(self.kv_pairs())
    }

    /// Unique paths, a root directory, and only validated components.
    pub open spec fn wf(&self) -> bool {
        &&& assoc_unique(self.kv_pairs())
        &&& self.as_map().contains_key(Seq::<Seq<char>>::empty())
        &&& self.as_map()[Seq::<Seq<char>>::empty()].is_dir
        &&& forall|i: int| 0 <= i < self.kv_pairs().len() ==> valid_path(
            (#[trigger] self.kv_pairs()[i]).0,
        )
    }

    /// An export tree holding only its root directory.
    pub fn new(mode: u32, uid: u32, gid: u32) -> (r: Fs)
        ensures
            r.wf(),
            r.as_map() == Map::<Seq<Seq<char>>, FsNodeV>::empty().insert(
                Seq::<Seq<char>>::empty(),
                (FsNodeV {
                    is_dir: true,
                    meta: (FsMeta {
                        mode,
                        uid,
                        gid,
                        atime: (NfsTime { seconds: 0, nseconds: 0 }),
                        mtime: (NfsTime { seconds: 0, nseconds: 0 }),
                    }),
                    content: Seq::<u8>::empty(),
                    durable: true,
                }),
            ),
    {
        let root: Vec<String> = Vec::new();
        let node = FsNode {
            is_dir: true,
            meta: FsMeta {
                mode,
                uid,
                gid,
                atime: NfsTime { seconds: 0, nseconds: 0 },
                mtime: NfsTime { seconds: 0, nseconds: 0 },
            },
            content: Vec::new(),
            durable: true,
        };
        let mut entries: Vec<(Vec<String>, FsNode)> = Vec::new();
        entries.push((root, node));
        let r = Fs { entries };
        proof {
            let pairs = r.kv_pairs();
            assert(pairs.len() == 1);
            assert(pairs[0].0 =~= Seq::<Seq<char>>::empty());
            assert(pairs[0].1.content =~= Seq::<u8>::empty());
            let e = Seq::<(Seq<Seq<char>>, FsNodeV)>::empty();
            assert(assoc_map(e) =~= Map::<Seq<Seq<char>>, FsNodeV>::empty());
            assert_seqs_equal!(pairs.drop_last() == e);
            assert(r.as_map() == assoc_map(e).insert(pairs.last().0, pairs.last().1));
            assert_maps_equal!(r.as_map(),
                Map::<Seq<Seq<char>>, FsNodeV>::empty().insert(
                    Seq::<Seq<char>>::empty(),
                    pairs[0].1));
        }
        r
    }

    /// The index of the entry for `path`, if the tree holds it.
    fn find(&self, path: &Vec<String>) -> (r: Option<usize>)
        requires
            self.wf(),
        ensures
            match r {
                Some(i) => i < self.entries@.len() && self.kv_pairs()[i as int].0
                    == path.deep_view() && self.as_map().contains_key(path.deep_view())
                    && self.as_map()[path.deep_view()] == self.kv_pairs()[i as int].1,
                None => !self.as_map().contains_key(path.deep_view()),
            },
    {
        let key = Ghost(path.deep_view());
        let mut i: usize = 0;
        while i < self.entries.len()
            invariant
                self.wf(),
                key@ == path.deep_view(),
                i <= self.entries@.len(),
                forall|j: int| 0 <= j < i ==> (#[trigger] self.kv_pairs()[j]).0 != key@,
            decreases self.entries@.len() - i,
        {
            if path_eq(&self.entries[i].0, path) {
                proof {
                    lemma_assoc_index(self.kv_pairs(), i as int);
                }
                return Some(i);
            }
            i = i + 1;
        }
        proof {
            lemma_assoc_contains(self.kv_pairs(), key@);
        }
        None
    }

    /// Whether the tree holds `path`, and what kind of node it is.
    pub fn stat(&self, path: &Vec<String>) -> (r: Option<FsStat>)
        requires
            self.wf(),
        ensures
            r is Some <==> self.as_map().contains_key(path.deep_view()),
            r matches Some(st) ==> {
                let node = self.as_map()[path.deep_view()];
                st.is_dir == node.is_dir && st.meta == node.meta && st.size == node.content.len()
            },
    {
        match self.find(path) {
            None => None,
            Some(i) => {
                let e = &self.entries[i];
                Some(FsStat { is_dir: e.1.is_dir, meta: e.1.meta, size: e.1.content.len() as u64 })
            },
        }
    }

    /// Binds a path to a node: adds it if the tree lacks the path,
    /// replaces the node otherwise. Refuses invalid components, and
    /// refuses to replace the export root with anything but a
    /// directory.
    pub fn put_node(&mut self, path: Vec<String>, node: FsNode) -> (r: bool)
        requires
            old(self).wf(),
        ensures
            final(self).wf(),
            r <==> valid_path(path.deep_view()) && (path.deep_view().len() > 0 || node.is_dir),
            r ==> final(self).as_map() == old(self).as_map().insert(
                path.deep_view(),
                node.deep_view(),
            ),
            !r ==> *final(self) == *old(self),
    {
        let ghost key = path.deep_view();
        let mut ok = true;
        let mut i: usize = 0;
        while i < path.len()
            invariant
                key == path.deep_view(),
                i <= path@.len(),
                ok == (forall|j: int| 0 <= j < i ==> valid_name(#[trigger] key[j])),
            decreases path@.len() - i,
        {
            if !is_valid_name(&path[i]) {
                ok = false;
                proof {
                    assert(!valid_name(key[i as int]));
                }
                i = path.len();
            } else {
                i = i + 1;
            }
        }
        if !ok {
            return false;
        }
        if path.len() == 0 && !node.is_dir {
            return false;
        }
        match self.find(&path) {
            None => {
                let ghost pairs0 = self.kv_pairs();
                let ghost nodev = node.deep_view();
                self.entries.push((path, node));
                proof {
                    assert_seqs_equal!(self.kv_pairs() == pairs0.push((key, nodev)));
                    lemma_assoc_push(pairs0, key, nodev);
                    assert(forall|i2: int|
                        0 <= i2 < self.kv_pairs().len() ==> valid_path(
                            (#[trigger] self.kv_pairs()[i2]).0,
                        )) by {
                        assert(forall|i2: int|
                            0 <= i2 < pairs0.len() ==> (#[trigger] self.kv_pairs()[i2])
                                == pairs0[i2]);
                        assert(self.kv_pairs()[pairs0.len() as int].0 == key);
                    }
                    if key.len() > 0 {
                        assert(self.as_map()[Seq::<Seq<char>>::empty()]
                            == old(self).as_map()[Seq::<Seq<char>>::empty()]);
                    }
                }
                true
            },
            Some(i2) => {
                let ghost pairs0 = self.kv_pairs();
                let ghost nodev = node.deep_view();
                let entry = &mut self.entries[i2];
                entry.1 = node;
                proof {
                    assert_seqs_equal!(self.kv_pairs() == pairs0.update(i2 as int, (key, nodev)));
                    lemma_assoc_update(pairs0, i2 as int, nodev);
                    assert(forall|j: int|
                        0 <= j < self.kv_pairs().len() ==> valid_path(
                            (#[trigger] self.kv_pairs()[j]).0,
                        )) by {
                        assert(forall|j: int|
                            0 <= j < pairs0.len() ==> (#[trigger] self.kv_pairs()[j]).0
                                == pairs0[j].0);
                    }
                    if key.len() > 0 {
                        assert(self.as_map()[Seq::<Seq<char>>::empty()]
                            == old(self).as_map()[Seq::<Seq<char>>::empty()]);
                    }
                }
                true
            },
        }
    }

    /// Overwrites a regular file's content at an offset, recording
    /// whether the new content is durable.
    pub fn write_file(&mut self, path: &Vec<String>, offset: u64, data: &Vec<u8>, durable: bool)
        -> (r: bool)
        requires
            old(self).wf(),
        ensures
            final(self).wf(),
            r <==> old(self).as_map().contains_key(path.deep_view()) && !old(self).as_map()[
                path.deep_view()].is_dir && offset + data@.len() <= usize::MAX,
            r ==> final(self).as_map() == old(self).as_map().insert(
                path.deep_view(),
                (FsNodeV {
                    is_dir: false,
                    meta: old(self).as_map()[path.deep_view()].meta,
                    content: write_content(
                        old(self).as_map()[path.deep_view()].content,
                        offset as int,
                        data@,
                    ),
                    durable,
                }),
            ),
            !r ==> *final(self) == *old(self),
    {
        let ghost key = path.deep_view();
        let i = match self.find(path) {
            None => {
                return false;
            },
            Some(i) => i,
        };
        if self.entries[i].1.is_dir {
            return false;
        }
        if data.len() as u64 > u64::MAX - offset || offset + data.len() as u64 > usize::MAX as u64 {
            return false;
        }
        let off = offset as usize;
        let meta = self.entries[i].1.meta;
        let clen = self.entries[i].1.content.len();
        let ghost c = self.entries@[i as int].1.content@;
        let mut nc: Vec<u8>;
        if off <= clen {
            nc = copy_range(&self.entries[i].1.content, 0, off);
        } else {
            nc = copy_range(&self.entries[i].1.content, 0, clen);
            push_zeros(&mut nc, off - clen);
            proof {
                assert_seqs_equal!(nc@ == c + zero_bytes(off - c.len()));
            }
        }
        push_bytes(&mut nc, data.as_slice());
        if off + data.len() < clen {
            let tail = copy_range(&self.entries[i].1.content, off + data.len(), clen);
            push_bytes(&mut nc, tail.as_slice());
        }
        proof {
            assert_seqs_equal!(nc@ == write_content(c, offset as int, data@));
        }
        let ghost pairs0 = self.kv_pairs();
        let entry = &mut self.entries[i];
        entry.1 = FsNode { is_dir: false, meta, content: nc, durable };
        proof {
            let nodev = FsNodeV {
                is_dir: false,
                meta,
                content: write_content(c, offset as int, data@),
                durable,
            };
            assert_seqs_equal!(self.kv_pairs() == pairs0.update(i as int, (key, nodev)));
            lemma_assoc_update(pairs0, i as int, nodev);
            assert(forall|i2: int|
                0 <= i2 < self.kv_pairs().len() ==> valid_path(
                    (#[trigger] self.kv_pairs()[i2]).0,
                )) by {
                assert(forall|i2: int|
                    0 <= i2 < pairs0.len() ==> (#[trigger] self.kv_pairs()[i2]).0
                        == pairs0[i2].0);
            }
            assert(self.as_map()[Seq::<Seq<char>>::empty()].is_dir);
        }
        true
    }

    /// Marks a node's content durable, as a full sync leaves it.
    pub fn sync_node(&mut self, path: &Vec<String>) -> (r: bool)
        requires
            old(self).wf(),
        ensures
            final(self).wf(),
            r <==> old(self).as_map().contains_key(path.deep_view()),
            r ==> final(self).as_map() == old(self).as_map().insert(
                path.deep_view(),
                (FsNodeV {
                    is_dir: old(self).as_map()[path.deep_view()].is_dir,
                    meta: old(self).as_map()[path.deep_view()].meta,
                    content: old(self).as_map()[path.deep_view()].content,
                    durable: true,
                }),
            ),
            !r ==> *final(self) == *old(self),
    {
        let ghost key = path.deep_view();
        let i = match self.find(path) {
            None => {
                return false;
            },
            Some(i) => i,
        };
        let ghost pairs0 = self.kv_pairs();
        let ghost oldnode = self.kv_pairs()[i as int].1;
        let entry = &mut self.entries[i];
        entry.1.durable = true;
        proof {
            let nodev = FsNodeV {
                is_dir: oldnode.is_dir,
                meta: oldnode.meta,
                content: oldnode.content,
                durable: true,
            };
            assert_seqs_equal!(self.kv_pairs() == pairs0.update(i as int, (key, nodev)));
            lemma_assoc_update(pairs0, i as int, nodev);
            assert(forall|i2: int|
                0 <= i2 < self.kv_pairs().len() ==> valid_path(
                    (#[trigger] self.kv_pairs()[i2]).0,
                )) by {
                assert(forall|i2: int|
                    0 <= i2 < pairs0.len() ==> (#[trigger] self.kv_pairs()[i2]).0
                        == pairs0[i2].0);
            }
            assert(self.as_map()[Seq::<Seq<char>>::empty()].is_dir);
        }
        true
    }

    /// Reads up to `count` bytes at `offset` from a regular file.
    pub fn read_file(&self, path: &Vec<String>, offset: u64, count: u32) -> (r: Option<Vec<u8>>)
        requires
            self.wf(),
        ensures
            r is Some <==> self.as_map().contains_key(path.deep_view()) && !self.as_map()[
                path.deep_view()].is_dir,
            r matches Some(v) ==> v@ == read_content(
                self.as_map()[path.deep_view()].content,
                offset as int,
                count as int,
            ),
    {
        let i = match self.find(path) {
            None => {
                return None;
            },
            Some(i) => i,
        };
        if self.entries[i].1.is_dir {
            return None;
        }
        let content = &self.entries[i].1.content;
        let clen = content.len();
        if offset >= clen as u64 {
            proof {
                assert(read_content(content@, offset as int, count as int)
                    =~= Seq::<u8>::empty());
            }
            return Some(Vec::new());
        }
        let off = offset as usize;
        let end: usize = if (count as u64) <= (clen - off) as u64 {
            off + count as usize
        } else {
            clen
        };
        let v = copy_range(content, off, end);
        proof {
            assert(v@ =~= read_content(content@, offset as int, count as int));
        }
        Some(v)
    }
}


// ---------------------------------------------------------------------------
// Claim paths: splitting on separators
// ---------------------------------------------------------------------------

/// Prepends characters onto the first of a list of components.
pub open spec fn cons_first(c: Seq<char>, parts: Seq<Seq<char>>) -> Seq<Seq<char>>
    recommends
        parts.len() >= 1,
{
    seq![c + parts[0]] + parts.drop_first()
}

/// The components of `s[from..]`, split at every separator: one more
/// component than there are separators, in order, possibly empty.
pub open spec fn split_from(s: Seq<char>, from: int) -> Seq<Seq<char>>
    recommends
        0 <= from <= s.len(),
    decreases s.len() - from,
{
    if from >= s.len() {
        seq![Seq::<char>::empty()]
    } else if s[from] == '/' {
        seq![Seq::<char>::empty()] + split_from(s, from + 1)
    } else {
        cons_first(seq![s[from]], split_from(s, from + 1))
    }
}

pub open spec fn spec_split_path(s: Seq<char>) -> Seq<Seq<char>> {
    split_from(s, 0)
}

pub proof fn lemma_split_nonempty(s: Seq<char>, from: int)
    requires
        0 <= from <= s.len(),
    ensures
        split_from(s, from).len() >= 1,
    decreases s.len() - from,
{
    if from < s.len() {
        lemma_split_nonempty(s, from + 1);
    }
}

/// Splits a claim path on separators into its components.
pub fn split_path(s: &str) -> (r: Vec<String>)
    ensures
        r.deep_view() == spec_split_path(s@),
        r@.len() >= 1,
{
    let n = s.unicode_len();
    let mut done: Vec<String> = Vec::new();
    let mut start: usize = 0;
    let mut pos: usize = 0;
    proof {
        lemma_split_nonempty(s@, 0);
        assert(s@.subrange(0, 0) =~= Seq::<char>::empty());
        assert(cons_first(s@.subrange(0, 0), split_from(s@, 0)) =~= split_from(s@, 0));
        assert(done.deep_view() =~= Seq::<Seq<char>>::empty());
        assert(done.deep_view() + split_from(s@, 0) =~= split_from(s@, 0));
    }
    while pos < n
        invariant
            n == s@.len(),
            start <= pos <= n,
            spec_split_path(s@) == done.deep_view() + cons_first(
                s@.subrange(start as int, pos as int),
                split_from(s@, pos as int),
            ),
        decreases n - pos,
    {
        let ghost cur = s@.subrange(start as int, pos as int);
        proof {
            lemma_split_nonempty(s@, pos as int + 1);
        }
        if s.get_char(pos) == '/' {
            let piece = s.substring_char(start, pos).to_owned();
            let ghost d0 = done.deep_view();
            done.push(piece);
            proof {
                let tail = split_from(s@, pos as int + 1);
                assert(split_from(s@, pos as int) == seq![Seq::<char>::empty()] + tail);
                assert(cons_first(cur, seq![Seq::<char>::empty()] + tail) =~= seq![cur] + tail);
                assert_seqs_equal!(done.deep_view() == d0.push(cur));
                assert(s@.subrange(pos as int + 1, pos as int + 1) =~= Seq::<char>::empty());
                assert(cons_first(Seq::<char>::empty(), tail) =~= tail);
                assert(d0 + (seq![cur] + tail) =~= done.deep_view() + tail);
            }
            start = pos + 1;
        } else {
            proof {
                let tail = split_from(s@, pos as int + 1);
                assert(split_from(s@, pos as int) == cons_first(seq![s@[pos as int]], tail));
                assert(cons_first(cur, cons_first(seq![s@[pos as int]], tail)) =~= cons_first(
                    s@.subrange(start as int, pos as int + 1),
                    tail,
                )) by {
                    assert(cur + (seq![s@[pos as int]] + tail[0]) =~= s@.subrange(
                        start as int,
                        pos as int + 1,
                    ) + tail[0]);
                }
            }
        }
        pos = pos + 1;
    }
    let last = s.substring_char(start, n).to_owned();
    let ghost d0 = done.deep_view();
    done.push(last);
    proof {
        assert(split_from(s@, n as int) == seq![Seq::<char>::empty()]);
        assert(cons_first(s@.subrange(start as int, n as int), seq![Seq::<char>::empty()])
            =~= seq![s@.subrange(start as int, n as int)]);
        assert_seqs_equal!(done.deep_view()
            == d0 + seq![s@.subrange(start as int, n as int)]);
    }
    done
}

/// Checks every split component against `valid_name`.
pub fn all_components_valid(p: &Vec<String>) -> (r: bool)
    ensures
        r == valid_path(p.deep_view()),
{
    let mut i: usize = 0;
    while i < p.len()
        invariant
            i <= p@.len(),
            forall|j: int| 0 <= j < i ==> valid_name(#[trigger] p.deep_view()[j]),
        decreases p@.len() - i,
    {
        if !is_valid_name(&p[i]) {
            proof {
                assert(!valid_name(p.deep_view()[i as int]));
            }
            return false;
        }
        i = i + 1;
    }
    true
}

} // verus!
