//! The filehandle table and the open-state table.
//!
//! A filehandle is an opaque 16-byte token bound to a path under the
//! export root; an open-state identifier is a 16-byte token bound to
//! one open instance of a file: its path, the share-access mask it was
//! opened with, and the client's sequence id. Every path either table
//! stores is a list of validated components, so everything a handle or
//! stateid can reach lies under the export root.

use vstd::prelude::*;
use vstd::assert_seqs_equal;
use crate::fs::{valid_path, clone_path};
use crate::table::{assoc_map, assoc_unique, lemma_assoc_contains, lemma_assoc_index,
    lemma_assoc_push, lemma_assoc_update, lemma_assoc_remove};

verus! {

pub fn bytes_eq(a: &Vec<u8>, b: &Vec<u8>) -> (r: bool)
    ensures
        r == (a@ == b@),
{
    if a.len() != b.len() {
        return false;
    }
    let mut i: usize = 0;
    while i < a.len()
        invariant
            a@.len() == b@.len(),
            i <= a@.len(),
            forall|j: int| 0 <= j < i ==> a@[j] == b@[j],
        decreases a@.len() - i,
    {
        if a[i] != b[i] {
            return false;
        }
        i = i + 1;
    }
    proof {
        assert_seqs_equal!(a@ == b@);
    }
    true
}

pub fn bytes16_eq(a: &[u8; 16], b: &[u8; 16]) -> (r: bool)
    ensures
        r == (a@ == b@),
{
    let mut i: usize = 0;
    while i < 16
        invariant
            i <= 16,
            forall|j: int| 0 <= j < i ==> a@[j] == b@[j],
        decreases 16 - i,
    {
        if a[i] != b[i] {
            return false;
        }
        i = i + 1;
    }
    proof {
        assert_seqs_equal!(a@ == b@);
    }
    true
}

// ---------------------------------------------------------------------------
// Filehandles
// ---------------------------------------------------------------------------

pub struct HandleTable {
    pub entries: Vec<(Vec<u8>, Vec<String>)>,
}

impl HandleTable {
    pub open spec fn kv_pairs(&self) -> Seq<(Seq<u8>, Seq<Seq<char>>)> {
        Seq::new(self.entries@.len(), |i: int| (self.entries@[i].0@,
            self.entries@[i].1.deep_view()))
    }

    pub open spec fn as_map(&self) -> Map<Seq<u8>, Seq<Seq<char>>> {
        assoc_map(self.kv_pairs())
    }

    /// Unique handles, each 16 bytes, each bound to a path of
    /// validated components under the export root.
    pub open spec fn wf(&self) -> bool {
        &&& assoc_unique(self.kv_pairs())
        &&& forall|i: int| 0 <= i < self.kv_pairs().len() ==> (#[trigger] self.kv_pairs()[
            i]).0.len() == 16
        &&& forall|i: int| 0 <= i < self.kv_pairs().len() ==> valid_path(
            (#[trigger] self.kv_pairs()[i]).1,
        )
    }

    pub fn new() -> (r: HandleTable)
        ensures
            r.wf(),
            r.as_map() == Map::<Seq<u8>, Seq<Seq<char>>>::empty(),
    {
        let r = HandleTable { entries: Vec::new() };
        proof {
            assert(r.kv_pairs().len() == 0);
            assert(r.as_map() =~= Map::<Seq<u8>, Seq<Seq<char>>>::empty());
        }
        r
    }

    fn find(&self, h: &Vec<u8>) -> (r: Option<usize>)
        requires
            self.wf(),
        ensures
            match r {
                Some(i) => i < self.entries@.len() && self.kv_pairs()[i as int].0 == h@
                    && self.as_map().contains_key(h@) && self.as_map()[h@] == self.kv_pairs()[
                    i as int].1,
                None => !self.as_map().contains_key(h@),
            },
    {
        let mut i: usize = 0;
        while i < self.entries.len()
            invariant
                self.wf(),
                i <= self.entries@.len(),
                forall|j: int| 0 <= j < i ==> (#[trigger] self.kv_pairs()[j]).0 != h@,
            decreases self.entries@.len() - i,
        {
            if bytes_eq(&self.entries[i].0, h) {
                proof {
                    lemma_assoc_index(self.kv_pairs(), i as int);
                }
                return Some(i);
            }
            i = i + 1;
        }
        proof {
            lemma_assoc_contains(self.kv_pairs(), h@);
        }
        None
    }

    pub fn contains(&self, h: &Vec<u8>) -> (r: bool)
        requires
            self.wf(),
        ensures
            r == self.as_map().contains_key(h@),
    {
        self.find(h).is_some()
    }

    /// The path the handle is bound to, copied out.
    pub fn get(&self, h: &Vec<u8>) -> (r: Option<Vec<String>>)
        requires
            self.wf(),
        ensures
            r is Some <==> self.as_map().contains_key(h@),
            r matches Some(p) ==> p.deep_view() == self.as_map()[h@],
    {
        match self.find(h) {
            None => None,
            Some(i) => Some(clone_path(&self.entries[i].1)),
        }
    }

    /// Binds a handle the table does not hold yet.
    pub fn insert_fresh(&mut self, h: Vec<u8>, path: Vec<String>)
        requires
            old(self).wf(),
            !old(self).as_map().contains_key(h@),
            h@.len() == 16,
            valid_path(path.deep_view()),
        ensures
            final(self).wf(),
            final(self).as_map() == old(self).as_map().insert(h@, path.deep_view()),
    {
        let ghost pairs0 = self.kv_pairs();
        let ghost key = h@;
        let ghost val = path.deep_view();
        self.entries.push((h, path));
        proof {
            assert_seqs_equal!(self.kv_pairs() == pairs0.push((key, val)));
            lemma_assoc_push(pairs0, key, val);
            assert(forall|i: int|
                0 <= i < pairs0.len() ==> (#[trigger] self.kv_pairs()[i]) == pairs0[i]);
            assert(self.kv_pairs()[pairs0.len() as int] == (key, val));
        }
    }
}

// ---------------------------------------------------------------------------
// Open-state identifiers
// ---------------------------------------------------------------------------

#[derive(Debug, Clone)]
pub struct FileState {
    pub path: Vec<String>,
    pub open_mode: u32,
    pub seqid: u32,
}

pub struct FileStateV {
    pub path: Seq<Seq<char>>,
    pub open_mode: u32,
    pub seqid: u32,
}

impl DeepView for FileState {
    type V = FileStateV;

    open spec fn deep_view(&self) -> FileStateV {
        FileStateV { path: self.path.deep_view(), open_mode: self.open_mode, seqid: self.seqid }
    }
}

pub struct StateidTable {
    pub entries: Vec<([u8; 16], FileState)>,
}

impl StateidTable {
    pub open spec fn kv_pairs(&self) -> Seq<(Seq<u8>, FileStateV)> {
        Seq::new(self.entries@.len(), |i: int| (self.entries@[i].0@,
            self.entries@[i].1.deep_view()))
    }

    pub open spec fn as_map(&self) -> Map<Seq<u8>, FileStateV> {
        assoc_map(self.kv_pairs())
    }

    /// Unique 16-byte identifiers, each open state on a path of
    /// validated components under the export root.
    pub open spec fn wf(&self) -> bool {
        &&& assoc_unique(self.kv_pairs())
        &&& forall|i: int| 0 <= i < self.kv_pairs().len() ==> valid_path(
            (#[trigger] self.kv_pairs()[i]).1.path,
        )
    }

    pub fn new() -> (r: StateidTable)
        ensures
            r.wf(),
            r.as_map() == Map::<Seq<u8>, FileStateV>::empty(),
    {
        let r = StateidTable { entries: Vec::new() };
        proof {
            assert(r.kv_pairs().len() == 0);
            assert(r.as_map() =~= Map::<Seq<u8>, FileStateV>::empty());
        }
        r
    }

    fn find(&self, sid: &[u8; 16]) -> (r: Option<usize>)
        requires
            self.wf(),
        ensures
            match r {
                Some(i) => i < self.entries@.len() && self.kv_pairs()[i as int].0 == sid@
                    && self.as_map().contains_key(sid@) && self.as_map()[sid@] == self.kv_pairs()[
                    i as int].1,
                None => !self.as_map().contains_key(sid@),
            },
    {
        let mut i: usize = 0;
        while i < self.entries.len()
            invariant
                self.wf(),
                i <= self.entries@.len(),
                forall|j: int| 0 <= j < i ==> (#[trigger] self.kv_pairs()[j]).0 != sid@,
            decreases self.entries@.len() - i,
        {
            if bytes16_eq(&self.entries[i].0, sid) {
                proof {
                    lemma_assoc_index(self.kv_pairs(), i as int);
                }
                return Some(i);
            }
            i = i + 1;
        }
        proof {
            lemma_assoc_contains(self.kv_pairs(), sid@);
        }
        None
    }

    pub fn contains(&self, sid: &[u8; 16]) -> (r: bool)
        requires
            self.wf(),
        ensures
            r == self.as_map().contains_key(sid@),
    {
        self.find(sid).is_some()
    }

    /// The open state the identifier names, copied out.
    pub fn get(&self, sid: &[u8; 16]) -> (r: Option<FileState>)
        requires
            self.wf(),
        ensures
            r is Some <==> self.as_map().contains_key(sid@),
            r matches Some(st) ==> st.deep_view() == self.as_map()[sid@],
    {
        match self.find(sid) {
            None => None,
            Some(i) => {
                let e = &self.entries[i];
                Some(
                    FileState {
                        path: clone_path(&e.1.path),
                        open_mode: e.1.open_mode,
                        seqid: e.1.seqid,
                    },
                )
            },
        }
    }

    /// Records an open state under an identifier the table does not
    /// hold yet.
    pub fn insert_fresh(&mut self, sid: [u8; 16], st: FileState)
        requires
            old(self).wf(),
            !old(self).as_map().contains_key(sid@),
            valid_path(st.path.deep_view()),
        ensures
            final(self).wf(),
            final(self).as_map() == old(self).as_map().insert(sid@, st.deep_view()),
    {
        let ghost pairs0 = self.kv_pairs();
        let ghost key = sid@;
        let ghost val = st.deep_view();
        self.entries.push((sid, st));
        proof {
            assert_seqs_equal!(self.kv_pairs() == pairs0.push((key, val)));
            lemma_assoc_push(pairs0, key, val);
            assert(forall|i: int|
                0 <= i < pairs0.len() ==> (#[trigger] self.kv_pairs()[i]) == pairs0[i]);
            assert(self.kv_pairs()[pairs0.len() as int] == (key, val));
        }
    }

    /// Drops the open state the identifier names, as CLOSE does.
    pub fn remove(&mut self, sid: &[u8; 16]) -> (r: bool)
        requires
            old(self).wf(),
        ensures
            final(self).wf(),
            r <==> old(self).as_map().contains_key(sid@),
            r ==> final(self).as_map() == old(self).as_map().remove(sid@),
            !r ==> *final(self) == *old(self),
    {
        let i = match self.find(sid) {
            None => {
                return false;
            },
            Some(i) => i,
        };
        let ghost pairs0 = self.kv_pairs();
        let _ = self.entries.remove(i);
        proof {
            assert_seqs_equal!(self.kv_pairs() == pairs0.remove(i as int));
            lemma_assoc_remove(pairs0, i as int);
            assert(forall|j: int|
                0 <= j < self.kv_pairs().len() ==> (#[trigger] self.kv_pairs()[j])
                    == pairs0.remove(i as int)[j]);
            assert(forall|j: int|
                0 <= j < pairs0.remove(i as int).len() ==> (#[trigger] pairs0.remove(i as int)[j])
                    == (if j < i { pairs0[j] } else { pairs0[j + 1] }));
        }
        true
    }

    /// Replaces the stored sequence id, as OPEN_CONFIRM does.
    pub fn set_seqid(&mut self, sid: &[u8; 16], seqid: u32) -> (r: bool)
        requires
            old(self).wf(),
        ensures
            final(self).wf(),
            r <==> old(self).as_map().contains_key(sid@),
            r ==> final(self).as_map() == old(self).as_map().insert(
                sid@,
                (FileStateV {
                    path: old(self).as_map()[sid@].path,
                    open_mode: old(self).as_map()[sid@].open_mode,
                    seqid,
                }),
            ),
            !r ==> *final(self) == *old(self),
    {
        let i = match self.find(sid) {
            None => {
                return false;
            },
            Some(i) => i,
        };
        let ghost pairs0 = self.kv_pairs();
        let ghost oldst = self.kv_pairs()[i as int].1;
        let entry = &mut self.entries[i];
        entry.1.seqid = seqid;
        proof {
            let stv = FileStateV { path: oldst.path, open_mode: oldst.open_mode, seqid };
            assert_seqs_equal!(self.kv_pairs()
                == pairs0.update(i as int, (pairs0[i as int].0, stv)));
            lemma_assoc_update(pairs0, i as int, stv);
            assert(forall|j: int|
                0 <= j < self.kv_pairs().len() ==> (#[trigger] self.kv_pairs()[j]).1.path
                    == pairs0.update(i as int, (pairs0[i as int].0, stv))[j].1.path);
        }
        true
    }
}

} // verus!
