//! Purely syntactic rules on path strings.
//!
//! Paths are treated as byte strings. A path names a directory exactly
//! when it ends with the separator byte `/`; everything else is file
//! intent. An entry is stored under its canonical name: the path with
//! every trailing separator removed.

use vstd::prelude::*;

verus! {

/// The path-separator byte, `/`.
pub const SEP: u8 = 47;

/// The dot byte, `.`.
pub const DOT: u8 = 46;

/// A path names a directory exactly when it ends with a separator.
pub open spec fn dir_intent(p: Seq<u8>) -> bool {
    p.len() > 0 && p.last() == SEP
}

/// `p` with every trailing separator removed: the canonical name under
/// which the filesystem model stores an entry. The empty canonical name
/// stands for the root, which always exists.
pub open spec fn canon(p: Seq<u8>) -> Seq<u8>
    decreases p.len(),
{
    if p.len() > 0 && p.last() == SEP {
        canon(p.drop_last())
    } else {
        p
    }
}

pub proof fn lemma_canon_idempotent(p: Seq<u8>)
    ensures
        canon(canon(p)) == canon(p),
    decreases p.len(),
{
    if p.len() > 0 && p.last() == SEP {
        lemma_canon_idempotent(p.drop_last());
    }
}

pub proof fn lemma_canon_len(p: Seq<u8>)
    ensures
        canon(p).len() <= p.len(),
    decreases p.len(),
{
    if p.len() > 0 && p.last() == SEP {
        lemma_canon_len(p.drop_last());
    }
}

/// The position `i` is a component boundary of `q`: either a separator
/// or the end of the path.
pub open spec fn is_boundary(q: Seq<u8>, i: int) -> bool {
    0 <= i <= q.len() && (i == q.len() || q[i] == SEP)
}

/// `x` is the canonical name of one of `q`'s component prefixes, the
/// whole of `q` included: the only names creation may add entries under.
pub open spec fn in_chain(q: Seq<u8>, x: Seq<u8>) -> bool {
    exists|i: int| is_boundary(q, i) && canon(q.take(i)) == x
}

/// The prefix of `p` before its last separator, or nothing when `p`
/// holds no separator. For a file-intent path this is the directory
/// chain that has to exist before the file can.
pub open spec fn parent(p: Seq<u8>) -> Option<Seq<u8>> {
    if exists|i: int| 0 <= i < p.len() && p[i] == SEP {
        Some(p.take(last_sep(p) as int))
    } else {
        None
    }
}

/// The index of the last separator of `p`; meaningful only when one exists.
pub open spec fn last_sep(p: Seq<u8>) -> int
    decreases p.len(),
{
    if p.len() == 0 {
        -1
    } else if p.last() == SEP {
        p.len() - 1
    } else {
        last_sep(p.drop_last())
    }
}

pub proof fn lemma_last_sep(p: Seq<u8>)
    requires
        exists|i: int| 0 <= i < p.len() && p[i] == SEP,
    ensures
        0 <= last_sep(p) < p.len(),
        p[last_sep(p)] == SEP,
        forall|j: int| last_sep(p) < j < p.len() ==> p[j] != SEP,
    decreases p.len(),
{
    if p.len() > 0 && p.last() != SEP {
        let i = choose|i: int| 0 <= i < p.len() && p[i] == SEP;
        assert(p.drop_last()[i] == SEP);
        lemma_last_sep(p.drop_last());
        assert forall|j: int| last_sep(p) < j < p.len() implies p[j] != SEP by {
            if j < p.len() - 1 {
                assert(p.drop_last()[j] != SEP);
            }
        }
    }
}

/// Exec mirror of [`dir_intent`].
pub fn is_dir_intent(p: &[u8]) -> (r: bool)
    ensures
        r == dir_intent(p@),
{
    p.len() > 0 && p[p.len() - 1] == SEP
}

/// A fresh copy of a byte slice.
pub fn copy_bytes(p: &[u8]) -> (r: Vec<u8>)
    ensures
        r@ == p@,
{
    let mut r: Vec<u8> = Vec::new();
    let mut i: usize = 0;
    while i < p.len()
        invariant
            i <= p.len(),
            r@ == p@.take(i as int),
        decreases p.len() - i,
    {
        r.push(p[i]);
        i = i + 1;
        proof {
            assert(r@ =~= p@.take(i as int));
        }
    }
    proof {
        assert(p@.take(p@.len() as int) =~= p@);
    }
    r
}

/// Exec mirror of [`canon`]: the path with trailing separators removed.
pub fn canon_of(p: &[u8]) -> (r: Vec<u8>)
    ensures
        r@ == canon(p@),
{
    let mut n: usize = p.len();
    proof {
        assert(p@.take(p@.len() as int) =~= p@);
    }
    while n > 0 && p[n - 1] == SEP
        invariant
            n <= p.len(),
            canon(p@) == canon(p@.take(n as int)),
        decreases n,
    {
        proof {
            assert(p@.take(n as int).drop_last() =~= p@.take(n - 1 as int));
        }
        n = n - 1;
    }
    let mut r: Vec<u8> = Vec::new();
    let mut i: usize = 0;
    while i < n
        invariant
            n <= p.len(),
            i <= n,
            r@ == p@.take(n as int).take(i as int),
        decreases n - i,
    {
        proof {
            assert(p@.take(n as int).take(i + 1 as int) =~= p@.take(n as int).take(
                i as int,
            ).push(p@[i as int]));
        }
        r.push(p[i]);
        i = i + 1;
    }
    proof {
        assert(p@.take(n as int).take(n as int) =~= p@.take(n as int));
    }
    r
}

/// Exec mirror of [`parent`].
pub fn parent_of(p: &[u8]) -> (r: Option<Vec<u8>>)
    ensures
        match r {
            Some(v) => parent(p@) == Some(v@),
            None => parent(p@) is None,
        },
{
    let mut n: usize = p.len();
    while n > 0 && p[n - 1] != SEP
        invariant
            n <= p.len(),
            forall|j: int| n <= j < p@.len() ==> p@[j] != SEP,
        decreases n,
    {
        n = n - 1;
    }
    if n == 0 {
        proof {
            assert(forall|i: int| 0 <= i < p@.len() ==> p@[i] != SEP);
        }
        None
    } else {
        proof {
            assert(p@[n - 1] == SEP);
            lemma_last_sep(p@);
            assert(last_sep(p@) == n - 1) by {
                if last_sep(p@) < n - 1 {
                    assert(p@[n - 1] != SEP);
                }
                if last_sep(p@) > n - 1 {
                    assert(p@[last_sep(p@)] != SEP);
                }
            }
        }
        let mut r: Vec<u8> = Vec::new();
        let mut i: usize = 0;
        while i < n - 1
            invariant
                0 < n <= p.len(),
                i <= n - 1,
                r@ == p@.take(n - 1 as int).take(i as int),
            decreases n - i,
        {
            proof {
                assert(p@.take(n - 1 as int).take(i + 1 as int) =~= p@.take(n - 1 as int).take(
                    i as int,
                ).push(p@[i as int]));
            }
            r.push(p[i]);
            i = i + 1;
        }
        proof {
            assert(p@.take(n - 1 as int).take(n - 1 as int) =~= p@.take(n - 1 as int));
        }
        Some(r)
    }
}

/// `p` with trailing separators and trailing `.` components removed:
/// the platform's path inspection reads a written `a/./` as naming `a`,
/// so the component the module-name rule looks at comes after this
/// stripping. A final `..` component is not touched — the rule refuses
/// it instead of resolving it.
pub open spec fn strip_dot_tail(p: Seq<u8>) -> Seq<u8>
    decreases p.len(),
{
    if p.len() > 0 && p.last() == SEP {
        strip_dot_tail(p.drop_last())
    } else if p.len() == 1 && p.last() == DOT {
        strip_dot_tail(p.drop_last())
    } else if p.len() >= 2 && p.last() == DOT && p[p.len() - 2] == SEP {
        strip_dot_tail(p.drop_last())
    } else {
        p
    }
}

/// Exec mirror of [`strip_dot_tail`].
pub fn strip_of(p: &[u8]) -> (r: Vec<u8>)
    ensures
        r@ == strip_dot_tail(p@),
{
    let mut n: usize = p.len();
    proof {
        assert(p@.take(p@.len() as int) =~= p@);
    }
    while n > 0 && (p[n - 1] == SEP || (n == 1 && p[0] == DOT) || (n >= 2 && p[n - 1] == DOT && p[n
        - 2] == SEP))
        invariant
            n <= p.len(),
            strip_dot_tail(p@) == strip_dot_tail(p@.take(n as int)),
        decreases n,
    {
        proof {
            let t = p@.take(n as int);
            assert(t.drop_last() =~= p@.take(n - 1 as int));
            assert(t.len() == n && t.last() == p@[n - 1]);
            if n >= 2 {
                assert(t[t.len() - 2] == p@[n - 2]);
            }
            if p@[n - 1] == SEP {
                assert(strip_dot_tail(t) == strip_dot_tail(t.drop_last()));
            } else if n == 1 && p@[0] == DOT {
                assert(strip_dot_tail(t) == strip_dot_tail(t.drop_last()));
            } else {
                assert(n >= 2 && p@[n - 1] == DOT && p@[n - 2] == SEP);
                assert(strip_dot_tail(t) == strip_dot_tail(t.drop_last()));
            }
        }
        n = n - 1;
    }
    let mut r: Vec<u8> = Vec::new();
    let mut i: usize = 0;
    while i < n
        invariant
            n <= p.len(),
            i <= n,
            r@ == p@.take(n as int).take(i as int),
        decreases n - i,
    {
        proof {
            assert(p@.take(n as int).take(i + 1 as int) =~= p@.take(n as int).take(
                i as int,
            ).push(p@[i as int]));
        }
        r.push(p[i]);
        i = i + 1;
    }
    proof {
        assert(p@.take(n as int).take(n as int) =~= p@.take(n as int));
    }
    r
}

/// The component of `p` after its last separator, once trailing
/// separators and trailing `.` components are dropped: the name under
/// which a directory is known to the tool that initializes a language
/// module in it.
pub open spec fn last_component(p: Seq<u8>) -> Seq<u8> {
    match parent(strip_dot_tail(p)) {
        Some(q) => strip_dot_tail(p).skip(q.len() as int + 1),
        None => strip_dot_tail(p),
    }
}

/// The placeholder module name used when a directory path yields no
/// usable component: the bytes of `my-project`.
pub open spec fn default_component() -> Seq<u8> {
    seq![109u8, 121u8, 45u8, 112u8, 114u8, 111u8, 106u8, 101u8, 99u8, 116u8]
}

/// A component that cannot serve as a module name: empty, or a final
/// `..` the platform's path inspection refuses to name.
pub open spec fn unusable_component(c: Seq<u8>) -> bool {
    c.len() == 0 || c == seq![46u8, 46u8]
}

/// The module name derived from a directory path: its last written
/// component once trailing separators and `.` components are dropped,
/// or `my-project` when nothing usable is left.
pub open spec fn module_name(p: Seq<u8>) -> Seq<u8> {
    if unusable_component(last_component(p)) {
        default_component()
    } else {
        last_component(p)
    }
}

/// Exec mirror of [`module_name`].
pub fn base_name(p: &[u8]) -> (r: Vec<u8>)
    ensures
        r@ == module_name(p@),
{
    let q = strip_of(p);
    let comp: Vec<u8> = match parent_of(q.as_slice()) {
        Some(par) => {
            proof {
                lemma_last_sep(q@);
                assert(par@ == q@.take(last_sep(q@) as int));
                assert(par@.len() < q@.len());
            }
            let mut c: Vec<u8> = Vec::new();
            let parlen: usize = par.len();
            proof {
                assert(parlen < q.len());
            }
            let mut i: usize = parlen + 1;
            proof {
                assert(q@.skip(par@.len() as int + 1).take(0int) =~= q@.subrange(
                    par@.len() as int + 1,
                    i as int,
                ));
            }
            while i < q.len()
                invariant
                    par@.len() + 1 <= i <= q@.len(),
                    par@.len() < q@.len(),
                    c@ == q@.subrange(par@.len() as int + 1, i as int),
                decreases q.len() - i,
            {
                proof {
                    assert(q@.subrange(par@.len() as int + 1, i + 1 as int) =~= q@.subrange(
                        par@.len() as int + 1,
                        i as int,
                    ).push(q@[i as int]));
                }
                c.push(q[i]);
                i = i + 1;
            }
            proof {
                assert(q@.skip(par@.len() as int + 1) =~= q@.subrange(par@.len() as int + 1, q@.len() as int));
            }
            c
        },
        None => q,
    };
    proof {
        assert(comp@ == last_component(p@));
    }
    let unusable: bool = comp.len() == 0 || (comp.len() == 2 && comp[0] == DOT && comp[1] == DOT);
    proof {
        if comp@.len() == 2 && comp@[0] == 46u8 && comp@[1] == 46u8 {
            assert(comp@ =~= seq![46u8, 46u8]);
        }
        if comp@ == seq![46u8, 46u8] {
            assert(comp@.len() == 2 && comp@[0] == 46u8 && comp@[1] == 46u8);
        }
        assert(unusable == unusable_component(comp@));
    }
    if unusable {
        let mut d: Vec<u8> = Vec::new();
        d.push(109);
        d.push(121);
        d.push(45);
        d.push(112);
        d.push(114);
        d.push(111);
        d.push(106);
        d.push(101);
        d.push(99);
        d.push(116);
        proof {
            assert(d@ =~= default_component());
        }
        d
    } else {
        comp
    }
}

} // verus!
