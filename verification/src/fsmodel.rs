//! The filesystem as an explicit value.
//!
//! The model stores each entry under its canonical name (trailing
//! separators dropped) together with its kind and an optional applied
//! permission mode; the root, under the empty canonical name, always
//! exists as a directory. Whether the platform supports permission
//! modes at all is an explicit capability of the value, so the
//! advisory no-op on platforms without mode bits is part of the
//! verified contract rather than conditional compilation.
//!
//! Creation is idempotent and atomic: an operation that refuses leaves
//! the model exactly as it was, and no operation ever removes or
//! re-kinds an existing entry — kinds only grow, which is what isolates
//! one path's failure from the rest of a batch.

use vstd::prelude::*;

use crate::pathname::canon;
use crate::pathname::canon_of;
use crate::pathname::in_chain;
use crate::pathname::is_boundary;
use crate::pathname::lemma_canon_idempotent;
use crate::pathname::lemma_canon_len;
use crate::pathname::SEP;
use crate::report::FsError;

verus! {

#[derive(Clone, Copy, PartialEq, Eq, Structural, Debug)]
pub enum EntryKind {
    Dir,
    File,
}

/// One filesystem entry: a canonical non-empty name, a kind, and the
/// permission mode last applied to it, if any.
#[derive(Debug)]
pub struct Entry {
    pub name: Vec<u8>,
    pub kind: EntryKind,
    pub mode: Option<u32>,
}

/// The first entry named `q`, if any.
pub open spec fn find(entries: Seq<Entry>, q: Seq<u8>) -> Option<Entry>
    decreases entries.len(),
{
    if entries.len() == 0 {
        None
    } else if entries[0].name@ == q {
        Some(entries[0])
    } else {
        find(entries.drop_first(), q)
    }
}

#[derive(Debug)]
pub struct Fs {
    pub entries: Vec<Entry>,
    pub modes_supported: bool,
    pub root_mode: Option<u32>,
}

impl Fs {
    /// Entry names are canonical, non-empty and unique.
    pub open spec fn wf(&self) -> bool {
        &&& forall|i: int|
            0 <= i < self.entries@.len() ==> canon(#[trigger] self.entries@[i].name@)
                == self.entries@[i].name@ && self.entries@[i].name@.len() > 0
        &&& forall|a: int, b: int|
            #![trigger self.entries@[a], self.entries@[b]]
            0 <= a < b < self.entries@.len() ==> self.entries@[a].name@ != self.entries@[b].name@
    }

    /// What stands at `p`: the root is always a directory; anything else
    /// is looked up under its canonical name.
    pub open spec fn kind_at(&self, p: Seq<u8>) -> Option<EntryKind> {
        if canon(p).len() == 0 {
            Some(EntryKind::Dir)
        } else {
            match find(self.entries@, canon(p)) {
                Some(e) => Some(e.kind),
                None => None,
            }
        }
    }

    /// The mode last applied to the entry at `p`, if the entry exists
    /// and a mode was applied; the root carries its own mode.
    pub open spec fn mode_at(&self, p: Seq<u8>) -> Option<u32> {
        if canon(p).len() == 0 {
            self.root_mode
        } else {
            match find(self.entries@, canon(p)) {
                Some(e) => e.mode,
                None => None,
            }
        }
    }
}

proof fn lemma_find_skip(entries: Seq<Entry>, q: Seq<u8>, i: int)
    requires
        0 <= i <= entries.len(),
        forall|j: int| 0 <= j < i ==> entries[j].name@ != q,
    ensures
        find(entries, q) == find(entries.skip(i), q),
    decreases i,
{
    if i > 0 {
        assert(entries.drop_first() =~= entries.skip(1));
        lemma_find_skip(entries.skip(1), q, i - 1);
        assert(entries.skip(1).skip(i - 1) =~= entries.skip(i));
    } else {
        assert(entries.skip(0) =~= entries);
    }
}

proof fn lemma_find_none(entries: Seq<Entry>, q: Seq<u8>)
    ensures
        (find(entries, q) is None) <==> (forall|j: int|
            0 <= j < entries.len() ==> entries[j].name@ != q),
    decreases entries.len(),
{
    if entries.len() > 0 {
        lemma_find_none(entries.drop_first(), q);
        if entries[0].name@ != q {
            assert forall|j: int| 0 <= j < entries.len() && (find(entries, q) is None) implies
                entries[j].name@ != q by {
                if j > 0 {
                    assert(entries.drop_first()[j - 1].name@ != q);
                }
            }
        }
    }
}

proof fn lemma_find_push(entries: Seq<Entry>, e: Entry, q: Seq<u8>)
    ensures
        find(entries.push(e), q) == if find(entries, q) is Some {
            find(entries, q)
        } else if e.name@ == q {
            Some(e)
        } else {
            None
        },
    decreases entries.len(),
{
    if entries.len() == 0 {
        assert(entries.push(e)[0] == e);
        assert(entries.push(e).drop_first() =~= Seq::<Entry>::empty());
    } else {
        assert(entries.push(e)[0] == entries[0]);
        if entries[0].name@ != q {
            assert(entries.push(e).drop_first() =~= entries.drop_first().push(e));
            lemma_find_push(entries.drop_first(), e, q);
        }
    }
}

proof fn lemma_find_update(entries: Seq<Entry>, i: int, e: Entry, q: Seq<u8>)
    requires
        0 <= i < entries.len(),
        e.name@ == entries[i].name@,
        forall|a: int, b: int|
            #![trigger entries[a], entries[b]]
            0 <= a < b < entries.len() ==> entries[a].name@ != entries[b].name@,
    ensures
        find(entries.update(i, e), q) == if q == e.name@ {
            Some(e)
        } else {
            find(entries, q)
        },
    decreases entries.len(),
{
    let up = entries.update(i, e);
    if i == 0 {
        assert(up[0] == e);
        if e.name@ != q {
            assert(up.drop_first() =~= entries.drop_first());
        }
    } else {
        assert(up[0] == entries[0]);
        if entries[0].name@ == q {
            assert(entries[0].name@ != entries[i].name@);
        } else {
            assert(up.drop_first() =~= entries.drop_first().update(i - 1, e));
            assert forall|a: int, b: int|
                #![trigger entries.drop_first()[a], entries.drop_first()[b]]
                0 <= a < b < entries.drop_first().len() implies entries.drop_first()[a].name@
                != entries.drop_first()[b].name@ by {
                assert(entries[a + 1].name@ != entries[b + 1].name@);
            }
            assert(entries.drop_first()[i - 1] == entries[i]);
            lemma_find_update(entries.drop_first(), i - 1, e, q);
        }
    }
}

/// Two byte strings hold the same bytes.
pub fn bytes_eq(a: &[u8], b: &[u8]) -> (r: bool)
    ensures
        r == (a@ == b@),
{
    if a.len() != b.len() {
        return false;
    }
    let mut i: usize = 0;
    while i < a.len()
        invariant
            a@.len() == b@.len(),
            i <= a@.len(),
            forall|j: int| 0 <= j < i ==> a@[j] == b@[j],
        decreases a.len() - i,
    {
        if a[i] != b[i] {
            return false;
        }
        i = i + 1;
    }
    proof {
        assert(a@ =~= b@);
    }
    true
}

impl Fs {
    /// An empty filesystem, on a platform with or without permission
    /// modes.
    pub fn new(modes_supported: bool) -> (r: Fs)
        ensures
            r.wf(),
            r.modes_supported == modes_supported,
            forall|x: Seq<u8>| #![trigger r.kind_at(x)]
                r.kind_at(x) == if canon(x).len() == 0 {
                    Some(EntryKind::Dir)
                } else {
                    None::<EntryKind>
                },
            forall|x: Seq<u8>| #![trigger r.mode_at(x)] r.mode_at(x) is None,
    {
        Fs { entries: Vec::new(), modes_supported, root_mode: None }
    }

    /// The index of the entry named `q`, if any; `q` must be canonical
    /// for the lookup to mean anything, which internal callers ensure.
    fn find_index(&self, q: &[u8]) -> (r: Option<usize>)
        ensures
            match r {
                Some(i) => i < self.entries@.len() && self.entries@[i as int].name@ == q@ && find(
                    self.entries@,
                    q@,
                ) == Some(self.entries@[i as int]),
                None => find(self.entries@, q@) is None,
            },
    {
        let mut i: usize = 0;
        while i < self.entries.len()
            invariant
                i <= self.entries@.len(),
                forall|j: int| 0 <= j < i ==> self.entries@[j].name@ != q@,
            decreases self.entries@.len() - i,
        {
            if bytes_eq(self.entries[i].name.as_slice(), q) {
                proof {
                    lemma_find_skip(self.entries@, q@, i as int);
                    assert(self.entries@.skip(i as int)[0] == self.entries@[i as int]);
                }
                return Some(i);
            }
            i = i + 1;
        }
        proof {
            lemma_find_skip(self.entries@, q@, self.entries@.len() as int);
            assert(self.entries@.skip(self.entries@.len() as int) =~= Seq::<Entry>::empty());
        }
        None
    }

    /// What stands at `p`.
    pub fn kind_of(&self, p: &[u8]) -> (r: Option<EntryKind>)
        ensures
            r == self.kind_at(p@),
    {
        let q = canon_of(p);
        if q.len() == 0 {
            Some(EntryKind::Dir)
        } else {
            match self.find_index(q.as_slice()) {
                Some(i) => Some(self.entries[i].kind),
                None => None,
            }
        }
    }

    /// The entry at `p` is a directory (the root always is).
    pub fn is_dir(&self, p: &[u8]) -> (r: bool)
        ensures
            r == (self.kind_at(p@) == Some(EntryKind::Dir)),
    {
        match self.kind_of(p) {
            Some(EntryKind::Dir) => true,
            _ => false,
        }
    }

    /// The entry at `p` exists, as a file or a directory.
    pub fn entry_exists(&self, p: &[u8]) -> (r: bool)
        ensures
            r == (self.kind_at(p@) is Some),
    {
        self.kind_of(p).is_some()
    }

    /// The mode last applied at `p`, observable right after it was set.
    pub fn mode_of(&self, p: &[u8]) -> (r: Option<u32>)
        ensures
            r == self.mode_at(p@),
    {
        let q = canon_of(p);
        if q.len() == 0 {
            return self.root_mode;
        }
        match self.find_index(q.as_slice()) {
            Some(i) => self.entries[i].mode,
            None => None,
        }
    }
}

/// Why `ensure_file` would refuse `q` (a canonical path) on `fs`, if it
/// would: an empty path names nothing; a component that is a plain file
/// cannot be descended into; and a file cannot stand where a directory
/// does. Missing parent directories are not an error — they are created.
pub open spec fn ensure_file_err(fs: Fs, q: Seq<u8>) -> Option<FsError> {
    if q.len() == 0 {
        Some(FsError::EmptyPath)
    } else if exists|i: int|
        is_boundary(q, i) && i < q.len() && fs.kind_at(q.take(i)) == Some(EntryKind::File) {
        Some(FsError::ComponentIsFile)
    } else if fs.kind_at(q) == Some(EntryKind::Dir) {
        Some(FsError::TargetIsDirectory)
    } else {
        None
    }
}

impl Fs {
    /// Pushes a fresh entry named `name`, which must be canonical,
    /// non-empty and absent.
    fn push_new(&mut self, name: Vec<u8>, kind: EntryKind)
        requires
            old(self).wf(),
            canon(name@) == name@,
            name@.len() > 0,
            old(self).kind_at(name@) is None,
        ensures
            final(self).wf(),
            final(self).modes_supported == old(self).modes_supported,
            final(self).kind_at(name@) == Some(kind),
            forall|x: Seq<u8>| #![trigger final(self).kind_at(x)]
                final(self).kind_at(x) == if canon(x) == name@ {
                    Some(kind)
                } else {
                    old(self).kind_at(x)
                },
            forall|x: Seq<u8>| #![trigger final(self).mode_at(x)] final(self).mode_at(x) == old(self).mode_at(x),
    {
        let ghost pre = self.entries@;
        let e = Entry { name, kind, mode: None };
        proof {
            lemma_find_none(pre, e.name@);
        }
        self.entries.push(e);
        proof {
            assert forall|x: Seq<u8>| true implies #[trigger] self.kind_at(x) == (if canon(x)
                == e.name@ {
                Some(kind)
            } else {
                old(self).kind_at(x)
            }) by {
                lemma_find_push(pre, e, canon(x));
            }
            assert forall|x: Seq<u8>| true implies #[trigger] self.mode_at(x) == old(self).mode_at(
                x,
            ) by {
                lemma_find_push(pre, e, canon(x));
            }
            assert forall|a: int, b: int|
                #![trigger self.entries@[a], self.entries@[b]]
                0 <= a < b < self.entries@.len() implies self.entries@[a].name@
                != self.entries@[b].name@ by {
                if b == self.entries@.len() - 1 {
                    assert(pre[a].name@ != e.name@);
                }
            }
        }
    }
}

impl Fs {
    /// Creates the directory at `p` together with all missing ancestor
    /// directories; pre-existing directories are not an error. Refuses
    /// exactly when a component of the path (the target included)
    /// already stands as a plain file, and then changes nothing.
    pub fn create_dir_all(&mut self, p: &[u8]) -> (r: Result<(), FsError>)
        requires
            old(self).wf(),
        ensures
            final(self).wf(),
            final(self).modes_supported == old(self).modes_supported,
            (r is Ok) <==> (forall|i: int|
                is_boundary(canon(p@), i) ==> old(self).kind_at(canon(p@).take(i)) != Some(
                    EntryKind::File,
                )),
            match r {
                Ok(()) => {
                    &&& forall|i: int|
                        is_boundary(canon(p@), i) ==> final(self).kind_at(canon(p@).take(i))
                            == Some(EntryKind::Dir)
                    &&& forall|x: Seq<u8>| #![trigger final(self).kind_at(x)]
                        final(self).kind_at(x) == old(self).kind_at(x) || (old(self).kind_at(x)
                            is None && final(self).kind_at(x) == Some(EntryKind::Dir))
                    &&& forall|x: Seq<u8>| #![trigger final(self).kind_at(x)]
                        final(self).kind_at(x) != old(self).kind_at(x) ==> in_chain(
                            canon(p@),
                            canon(x),
                        )
                    &&& forall|x: Seq<u8>| #![trigger final(self).mode_at(x)]
                        final(self).mode_at(x) == old(self).mode_at(x)
                },
                Err(e) => {
                    &&& e == FsError::ComponentIsFile
                    &&& *final(self) == *old(self)
                },
            },
    {
        let q = canon_of(p);
        let s: &[u8] = q.as_slice();
        // First pass: refuse if any component, the target included,
        // stands as a plain file; nothing is changed yet.
        let mut i: usize = 0;
        while i < q.len()
            invariant
                *self == *old(self),
                old(self).wf(),
                q@ == canon(p@),
                s@ == canon(p@),
                i <= q.len(),
                forall|j: int|
                    0 <= j < i && is_boundary(canon(p@), j) ==> old(self).kind_at(canon(p@).take(j)) != Some(
                        EntryKind::File,
                    ),
            decreases q.len() - i,
        {
            if q[i] == SEP {
                let pref = canon_of(&s[0..i]);
                proof {
                    assert(s@.subrange(0, i as int) =~= canon(p@).take(i as int));
                    lemma_canon_idempotent(canon(p@).take(i as int));
                }
                match self.kind_of(pref.as_slice()) {
                    Some(EntryKind::File) => {
                        proof {
                            assert(is_boundary(canon(p@), i as int));
                        }
                        return Err(FsError::ComponentIsFile);
                    },
                    _ => {},
                }
            }
            i = i + 1;
        }
        match self.kind_of(s) {
            Some(EntryKind::File) => {
                proof {
                    lemma_canon_idempotent(p@);
                    assert(canon(p@).take(canon(p@).len() as int) =~= canon(p@));
                    assert(is_boundary(canon(p@), canon(p@).len() as int));
                }
                return Err(FsError::ComponentIsFile);
            },
            _ => {},
        }
        proof {
            lemma_canon_idempotent(p@);
            assert(canon(p@).take(canon(p@).len() as int) =~= canon(p@));
            assert forall|j: int|
                is_boundary(canon(p@), j) implies old(self).kind_at(canon(p@).take(j)) != Some(
                EntryKind::File,
            ) by {}
        }
        // Second pass: create every missing component, the target last.
        let mut i: usize = 0;
        while i < q.len()
            invariant
                self.wf(),
                self.modes_supported == old(self).modes_supported,
                q@ == canon(p@),
                s@ == canon(p@),
                i <= q.len(),
                forall|j: int|
                    is_boundary(canon(p@), j) ==> old(self).kind_at(canon(p@).take(j)) != Some(EntryKind::File),
                forall|x: Seq<u8>| #![trigger self.kind_at(x)]
                    self.kind_at(x) == old(self).kind_at(x) || (old(self).kind_at(x) is None
                        && self.kind_at(x) == Some(EntryKind::Dir)),
                forall|x: Seq<u8>| #![trigger self.kind_at(x)]
                    self.kind_at(x) != old(self).kind_at(x) ==> in_chain(canon(p@), canon(x)),
                forall|x: Seq<u8>| #![trigger self.mode_at(x)] self.mode_at(x) == old(self).mode_at(x),
                forall|j: int|
                    0 <= j < i && is_boundary(canon(p@), j) ==> self.kind_at(canon(p@).take(j)) == Some(
                        EntryKind::Dir,
                    ),
            decreases q.len() - i,
        {
            if q[i] == SEP {
                let pref = canon_of(&s[0..i]);
                proof {
                    assert(s@.subrange(0, i as int) =~= canon(p@).take(i as int));
                    lemma_canon_idempotent(canon(p@).take(i as int));
                }
                match self.kind_of(pref.as_slice()) {
                    None => {
                        let ghost before = *self;
                        proof {
                            assert(pref@.len() > 0);
                        }
                        self.push_new(pref, EntryKind::Dir);
                        proof {
                            assert forall|x: Seq<u8>|
                                self.kind_at(x) != old(self).kind_at(x) implies in_chain(
                                canon(p@),
                                canon(x),
                            ) by {
                                if self.kind_at(x) != before.kind_at(x) {
                                    assert(is_boundary(canon(p@), i as int));
                                    assert(canon(canon(p@).take(i as int)) == canon(x));
                                    assert(in_chain(canon(p@), canon(x)));
                                }
                            }
                        }
                    },
                    _ => {},
                }
            }
            i = i + 1;
        }
        proof {
            lemma_canon_idempotent(p@);
            assert(canon(p@).take(canon(p@).len() as int) =~= canon(p@));
        }
        match self.kind_of(s) {
            None => {
                let ghost before = *self;
                let own = crate::pathname::copy_bytes(s);
                proof {
                    lemma_canon_idempotent(p@);
                }
                self.push_new(own, EntryKind::Dir);
                proof {
                    assert forall|x: Seq<u8>|
                        self.kind_at(x) != old(self).kind_at(x) implies in_chain(
                        canon(p@),
                        canon(x),
                    ) by {
                        if self.kind_at(x) != before.kind_at(x) {
                            assert(is_boundary(canon(p@), canon(p@).len() as int));
                            assert(canon(canon(p@).take(canon(p@).len() as int)) == canon(x));
                            assert(in_chain(canon(p@), canon(x)));
                        }
                    }
                }
            },
            _ => {},
        }
        Ok(())
    }

    /// Creates the plain file at `p`, creating missing parent
    /// directories first. A pre-existing file is not an error: it is
    /// re-truncated, the touch semantic. Returns whether the file was
    /// newly created and whether any directory had to be created; on
    /// refusal nothing is changed.
    pub fn ensure_file(&mut self, p: &[u8]) -> (r: Result<(bool, bool), FsError>)
        requires
            old(self).wf(),
        ensures
            final(self).wf(),
            final(self).modes_supported == old(self).modes_supported,
            (r is Err) <==> (ensure_file_err(*old(self), canon(p@)) is Some),
            r == Ok::<(bool, bool), FsError>((false, false)) ==> *final(self) == *old(self),
            match r {
                Err(e) => Some(e) == ensure_file_err(*old(self), canon(p@)) && *final(self)
                    == *old(self),
                Ok((created, made_dirs)) => {
                    &&& created == (old(self).kind_at(p@) is None)
                    &&& made_dirs == (exists|i: int|
                        is_boundary(canon(p@), i) && i < canon(p@).len() && old(self).kind_at(
                            canon(p@).take(i),
                        ) is None)
                    &&& final(self).kind_at(p@) == Some(EntryKind::File)
                    &&& forall|i: int|
                        is_boundary(canon(p@), i) && i < canon(p@).len() ==> final(self).kind_at(
                            canon(p@).take(i),
                        ) == Some(EntryKind::Dir)
                    &&& forall|x: Seq<u8>| #![trigger final(self).kind_at(x)]
                        final(self).kind_at(x) == old(self).kind_at(x) || (old(self).kind_at(x)
                            is None && (final(self).kind_at(x) == Some(EntryKind::Dir) || (canon(x)
                            == canon(p@) && final(self).kind_at(x) == Some(EntryKind::File))))
                    &&& forall|x: Seq<u8>| #![trigger final(self).kind_at(x)]
                        final(self).kind_at(x) != old(self).kind_at(x) ==> in_chain(
                            canon(p@),
                            canon(x),
                        )
                    &&& forall|x: Seq<u8>| #![trigger final(self).mode_at(x)]
                        final(self).mode_at(x) == old(self).mode_at(x)
                },
            },
    {
        let q = canon_of(p);
        let s: &[u8] = q.as_slice();
        if q.len() == 0 {
            return Err(FsError::EmptyPath);
        }
        // First pass: refuse if a component stands as a plain file, and
        // note whether any parent directory is missing.
        let mut made_dirs = false;
        let mut i: usize = 0;
        while i < q.len()
            invariant
                *self == *old(self),
                old(self).wf(),
                q@ == canon(p@),
                s@ == canon(p@),
                i <= q.len(),
                forall|j: int|
                    0 <= j < i && is_boundary(canon(p@), j) ==> old(self).kind_at(
                        canon(p@).take(j),
                    ) != Some(EntryKind::File),
                made_dirs == (exists|j: int|
                    0 <= j < i && is_boundary(canon(p@), j) && old(self).kind_at(
                        canon(p@).take(j),
                    ) is None),
            decreases q.len() - i,
        {
            if q[i] == SEP {
                let pref = canon_of(&s[0..i]);
                proof {
                    assert(s@.subrange(0, i as int) =~= canon(p@).take(i as int));
                    lemma_canon_idempotent(canon(p@).take(i as int));
                    assert(is_boundary(canon(p@), i as int));
                }
                match self.kind_of(pref.as_slice()) {
                    Some(EntryKind::File) => {
                        return Err(FsError::ComponentIsFile);
                    },
                    None => {
                        made_dirs = true;
                    },
                    _ => {},
                }
            }
            i = i + 1;
        }
        proof {
            lemma_canon_idempotent(p@);
        }
        let created: bool = match self.kind_of(s) {
            Some(EntryKind::Dir) => {
                return Err(FsError::TargetIsDirectory);
            },
            Some(EntryKind::File) => false,
            None => true,
        };
        // Second pass: create every missing parent directory.
        let mut i: usize = 0;
        while i < q.len()
            invariant
                self.wf(),
                self.modes_supported == old(self).modes_supported,
                q@ == canon(p@),
                s@ == canon(p@),
                i <= q.len(),
                forall|j: int|
                    is_boundary(canon(p@), j) && j < canon(p@).len() ==> old(self).kind_at(
                        canon(p@).take(j),
                    ) != Some(EntryKind::File),
                forall|x: Seq<u8>| #![trigger self.kind_at(x)]
                    self.kind_at(x) == old(self).kind_at(x) || (old(self).kind_at(x) is None
                        && self.kind_at(x) == Some(EntryKind::Dir)),
                forall|x: Seq<u8>| #![trigger self.kind_at(x)]
                    self.kind_at(x) != old(self).kind_at(x) ==> in_chain(canon(p@), canon(x)),
                forall|x: Seq<u8>| #![trigger self.mode_at(x)] self.mode_at(x) == old(self).mode_at(
                    x,
                ),
                forall|j: int|
                    0 <= j < i && is_boundary(canon(p@), j) ==> self.kind_at(canon(p@).take(j))
                        == Some(EntryKind::Dir),
                self.kind_at(p@) == old(self).kind_at(p@),
                made_dirs == (exists|j: int|
                    0 <= j < canon(p@).len() && is_boundary(canon(p@), j) && old(self).kind_at(
                        canon(p@).take(j),
                    ) is None),
                !made_dirs ==> *self == *old(self),
            decreases q.len() - i,
        {
            if q[i] == SEP {
                let pref = canon_of(&s[0..i]);
                proof {
                    assert(s@.subrange(0, i as int) =~= canon(p@).take(i as int));
                    lemma_canon_idempotent(canon(p@).take(i as int));
                    lemma_canon_len(canon(p@).take(i as int));
                    lemma_canon_idempotent(p@);
                    assert(is_boundary(canon(p@), i as int));
                    assert(pref@.len() <= i < canon(p@).len());
                }
                match self.kind_of(pref.as_slice()) {
                    None => {
                        proof {
                            assert(old(self).kind_at(canon(p@).take(i as int)) is None);
                            assert(made_dirs);
                        }
                        self.push_new(pref, EntryKind::Dir);
                    },
                    _ => {},
                }
            }
            i = i + 1;
        }
        if created {
            let ghost before = *self;
            let own = crate::pathname::copy_bytes(s);
            proof {
                lemma_canon_idempotent(p@);
            }
            self.push_new(own, EntryKind::File);
            proof {
                assert(canon(p@).take(canon(p@).len() as int) =~= canon(p@));
                assert forall|x: Seq<u8>|
                    self.kind_at(x) != old(self).kind_at(x) implies in_chain(
                    canon(p@),
                    canon(x),
                ) by {
                    if self.kind_at(x) != before.kind_at(x) {
                        assert(is_boundary(canon(p@), canon(p@).len() as int));
                        assert(canon(canon(p@).take(canon(p@).len() as int)) == canon(x));
                        assert(in_chain(canon(p@), canon(x)));
                    }
                }
                assert forall|j: int|
                    is_boundary(canon(p@), j) && j < canon(p@).len() implies self.kind_at(
                    canon(p@).take(j),
                ) == Some(EntryKind::Dir) by {
                    lemma_canon_len(canon(p@).take(j));
                }
            }
        }
        proof {
            lemma_canon_idempotent(p@);
        }
        Ok((created, made_dirs))
    }

    /// Applies the numeric permission mode `m` to the entry at `p`. On
    /// a platform without permission modes the request is advisory and
    /// nothing changes. Otherwise the entry must exist (the root always
    /// does), and exactly its mode changes.
    pub fn set_mode(&mut self, p: &[u8], m: u32) -> (r: Result<(), FsError>)
        requires
            old(self).wf(),
        ensures
            final(self).wf(),
            final(self).modes_supported == old(self).modes_supported,
            !old(self).modes_supported ==> r is Ok && *final(self) == *old(self),
            old(self).modes_supported ==> ((r is Ok) <==> (old(self).kind_at(p@) is Some)),
            old(self).modes_supported && r is Err ==> r == Err::<(), FsError>(FsError::NotFound)
                && *final(self) == *old(self),
            old(self).modes_supported && r is Ok ==> final(self).mode_at(p@) == Some(m),
            old(self).modes_supported && r is Ok ==> forall|x: Seq<u8>|
                #![trigger final(self).mode_at(x)]
                canon(x) != canon(p@) ==> final(self).mode_at(x) == old(self).mode_at(x),
            old(self).modes_supported && r is Ok ==> forall|x: Seq<u8>|
                #![trigger final(self).kind_at(x)]
                final(self).kind_at(x) == old(self).kind_at(x),
    {
        if !self.modes_supported {
            return Ok(());
        }
        let q = canon_of(p);
        if q.len() == 0 {
            self.root_mode = Some(m);
            proof {
                assert forall|x: Seq<u8>| canon(x) != canon(p@) implies self.mode_at(x) == old(
                    self,
                ).mode_at(x) by {
                    if canon(x).len() == 0 {
                        assert(canon(x) =~= canon(p@));
                    }
                }
            }
            return Ok(());
        }
        proof {
            lemma_canon_idempotent(p@);
        }
        match self.find_index(q.as_slice()) {
            None => Err(FsError::NotFound),
            Some(i) => {
                let name2 = crate::pathname::copy_bytes(self.entries[i].name.as_slice());
                let e2 = Entry { name: name2, kind: self.entries[i].kind, mode: Some(m) };
                let ghost pre = self.entries@;
                self.entries.set(i, e2);
                proof {
                    assert forall|x: Seq<u8>| true implies #[trigger] self.kind_at(x) == old(
                        self,
                    ).kind_at(x) by {
                        lemma_find_update(pre, i as int, e2, canon(x));
                    }
                    assert forall|x: Seq<u8>| canon(x) != canon(p@) implies #[trigger] self.mode_at(
                        x,
                    ) == old(self).mode_at(x) by {
                        lemma_find_update(pre, i as int, e2, canon(x));
                    }
                    lemma_find_update(pre, i as int, e2, canon(p@));
                    assert forall|a: int, b: int|
                        #![trigger self.entries@[a], self.entries@[b]]
                        0 <= a < b < self.entries@.len() implies self.entries@[a].name@
                        != self.entries@[b].name@ by {
                        assert(pre[a].name@ != pre[b].name@);
                    }
                }
                Ok(())
            },
        }
    }
}

} // verus!
