use vstd::prelude::*;

verus! {

// Byte values used in path checks.
pub const B_SLASH: u8 = 47;
pub const B_BACKSLASH: u8 = 92;
pub const B_COLON: u8 = 58;
pub const B_DOT: u8 = 46;
pub const B_LO: u8 = 111;
pub const B_LF: u8 = 102;
pub const B_LD: u8 = 100;

// ---------------------------------------------------------------------------
// Safety of stored archive entry paths.
//
// An entry path is accepted when it is non-empty and relative and mentions
// no ".." component: a stored path containing ".." attempts traversal and
// is never trusted here, even where it would resolve back inside.
// Backslashes and colons are also refused, rather than reinterpreted as
// windows-style separators or drive prefixes. "." and empty components are
// accepted: the operating system resolves them to the same confined
// location.
// ---------------------------------------------------------------------------

/// Bytes that may appear anywhere in a stored entry path.
pub open spec fn allowed_path_byte(c: u8) -> bool {
    c != B_BACKSLASH && c != B_COLON
}

/// A ".." component begins at position `i` of `s`.
pub open spec fn dotdot_component_at(s: Seq<u8>, i: int) -> bool {
    &&& 0 <= i
    &&& i + 1 < s.len()
    &&& s[i] == B_DOT
    &&& s[i + 1] == B_DOT
    &&& (i == 0 || s[i - 1] == B_SLASH)
    &&& (i + 2 == s.len() || s[i + 2] == B_SLASH)
}

/// The stored path can be materialized strictly under an extraction root:
/// non-empty, relative, without traversal components or windows-style
/// separator bytes.
pub open spec fn safe_rel_path(s: Seq<u8>) -> bool {
    &&& s.len() > 0
    &&& s[0] != B_SLASH
    &&& s[s.len() - 1] != B_SLASH
    &&& (forall|i: int| 0 <= i < s.len() ==> allowed_path_byte(#[trigger] s[i]))
    &&& (forall|i: int| !dotdot_component_at(s, i))
}

/// Decides `safe_rel_path` for a stored entry path.
pub fn check_safe_path(name: &Vec<u8>) -> (b: bool)
    ensures
        b == safe_rel_path(name@),
{
    let n = name.len();
    if n == 0 {
        return false;
    }
    if name[0] == B_SLASH {
        return false;
    }
    if name[n - 1] == B_SLASH {
        return false;
    }
    let mut i: usize = 0;
    while i < n
        invariant
            0 < n == name@.len(),
            0 <= i <= n,
            name@[0] != B_SLASH,
            name@[n - 1] != B_SLASH,
            forall|j: int| 0 <= j < i ==> allowed_path_byte(#[trigger] name@[j]),
            forall|j: int| j < i ==> !dotdot_component_at(name@, j),
        decreases n - i,
    {
        let c = name[i];
        if c == B_BACKSLASH || c == B_COLON {
            assert(!allowed_path_byte(name@[i as int]));
            return false;
        }
        if c == B_DOT && (i == 0 || name[i - 1] == B_SLASH) && i + 1 < n && name[i + 1] == B_DOT
            && (i + 2 == n || name[i + 2] == B_SLASH) {
            assert(dotdot_component_at(name@, i as int));
            return false;
        }
        proof {
            assert(!dotdot_component_at(name@, i as int));
        }
        i = i + 1;
    }
    proof {
        assert(forall|j: int| !dotdot_component_at(name@, j) || 0 <= j < n - 1);
    }
    true
}

// ---------------------------------------------------------------------------
// File names and the container filename extension.
// ---------------------------------------------------------------------------

/// Position where the base name (the part after the last '/') of `b` begins.
pub open spec fn base_start(b: Seq<u8>) -> int
    decreases b.len(),
{
    if b.len() == 0 {
        0
    } else if b[b.len() - 1] == B_SLASH {
        b.len() as int
    } else {
        base_start(b.drop_last())
    }
}

pub proof fn lemma_base_start_bounds(b: Seq<u8>)
    ensures
        0 <= base_start(b) <= b.len(),
    decreases b.len(),
{
    if b.len() != 0 && b[b.len() - 1] != B_SLASH {
        lemma_base_start_bounds(b.drop_last());
    }
}

/// The base name of a path: everything after the last '/'.
pub open spec fn base_name(b: Seq<u8>) -> Seq<u8> {
    b.subrange(base_start(b), b.len() as int)
}

/// The required container filename suffix, as bytes.
pub open spec fn ofd_suffix() -> Seq<u8> {
    seq![B_DOT, B_LO, B_LF, B_LD]
}

/// The path's base name is non-empty apart from the suffix and ends in the
/// exact required extension.
pub open spec fn has_ofd_extension(b: Seq<u8>) -> bool {
    let s = base_name(b);
    s.len() >= 5 && s.subrange(s.len() - 4, s.len() as int) == ofd_suffix()
}

/// Finds where the base name of `pb` begins.
pub fn find_base_start(pb: &[u8]) -> (r: usize)
    ensures
        r == base_start(pb@),
{
    let mut i: usize = pb.len();
    proof {
        assert(pb@.take(pb@.len() as int) =~= pb@);
    }
    loop
        invariant
            0 <= i <= pb@.len(),
            base_start(pb@) == base_start(pb@.take(i as int)),
        decreases i,
    {
        if i == 0 {
            proof {
                assert(pb@.take(0).len() == 0);
            }
            return 0;
        }
        if pb[i - 1] == B_SLASH {
            proof {
                let t = pb@.take(i as int);
                assert(t[t.len() - 1] == B_SLASH);
            }
            return i;
        }
        proof {
            let t = pb@.take(i as int);
            assert(t[t.len() - 1] != B_SLASH);
            assert(t.drop_last() =~= pb@.take(i - 1));
        }
        i = i - 1;
    }
}

/// Decides whether `pb` names a container file: base name ending in the exact
/// required extension, with a non-empty stem.
pub fn check_ofd_extension(pb: &[u8]) -> (b: bool)
    ensures
        b == has_ofd_extension(pb@),
{
    let n = pb.len();
    let bs = find_base_start(pb);
    proof {
        lemma_base_start_bounds(pb@);
    }
    if n - bs < 5 {
        return false;
    }
    let ok = pb[n - 4] == B_DOT && pb[n - 3] == B_LO && pb[n - 2] == B_LF && pb[n - 1] == B_LD;
    proof {
        let s = base_name(pb@);
        assert(s.len() == n - bs);
        assert(s.subrange(s.len() - 4, s.len() as int) =~= seq![
            pb@[n - 4],
            pb@[n - 3],
            pb@[n - 2],
            pb@[n - 1],
        ]);
        if ok {
            assert(s.subrange(s.len() - 4, s.len() as int) =~= ofd_suffix());
        } else {
            assert(s.subrange(s.len() - 4, s.len() as int) != ofd_suffix());
        }
    }
    ok
}

} // verus!
