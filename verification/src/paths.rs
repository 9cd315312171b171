//! Joining paths and taking them apart, component by component.

use vstd::prelude::*;
use crate::extensions::{components, is_absolute, path_components};
use crate::text::{append, bytes_eq, find_byte, find_from, to_vec, DOT, SLASH};

verus! {

/// Whether a relative path begins with a single dot as a piece of its own.
pub open spec fn leads_with_dot(path: Seq<u8>) -> bool {
    !is_absolute(path) && path.subrange(0, find_from(path, SLASH, 0)) == seq![DOT]
}

/// A path as a sequence of parts: the root where the path is absolute, or
/// the dot where it begins with one, and then its components.
pub open spec fn parts(path: Seq<u8>) -> Seq<Seq<u8>> {
    if is_absolute(path) {
        seq![seq![SLASH]] + components(path)
    } else if leads_with_dot(path) {
        seq![seq![DOT]] + components(path)
    } else {
        components(path)
    }
}

/// Whether `path` lies under `base`: the parts of `base` are the first
/// parts of `path`.
pub open spec fn under(path: Seq<u8>, base: Seq<u8>) -> bool {
    parts(base).is_prefix_of(parts(path))
}

/// The parts of a path put together again, one slash between two.
pub open spec fn glue(parts: Seq<Seq<u8>>) -> Seq<u8>
    decreases parts.len(),
{
    if parts.len() == 0 {
        Seq::empty()
    } else if parts.len() == 1 {
        parts[0]
    } else {
        glue(parts.drop_last()) + seq![SLASH] + parts.last()
    }
}

/// `path` without `prefix` in front, if it lies under it.  An empty prefix
/// leaves the path as it is.
pub open spec fn stripped(path: Seq<u8>, prefix: Seq<u8>) -> Option<Seq<u8>> {
    if parts(prefix).len() == 0 {
        Some(path)
    } else if under(path, prefix) {
        Some(glue(parts(path).subrange(parts(prefix).len() as int, parts(path).len() as int)))
    } else {
        None
    }
}

/// `rel` under `base`: an absolute `rel` stands for itself; otherwise it
/// follows `base`, with a slash between the two unless `base` is empty or
/// ends in one.
pub open spec fn joined(base: Seq<u8>, rel: Seq<u8>) -> Seq<u8> {
    if is_absolute(rel) {
        rel
    } else if base.len() == 0 || base.last() == SLASH {
        base + rel
    } else {
        base + seq![SLASH] + rel
    }
}

/// The parts of a path, in order.
pub fn path_parts<'a>(path: &'a [u8]) -> (r: Vec<&'a [u8]>)
    ensures
        r@.len() == parts(path@).len(),
        forall|i: int| 0 <= i < r@.len() ==> (#[trigger] r@[i])@ == parts(path@)[i],
{
    let names = path_components(path);
    let mut out: Vec<&'a [u8]> = Vec::new();
    let ghost mut head: Seq<Seq<u8>> = Seq::empty();
    if path.len() > 0 && path[0] == SLASH {
        out.push(vstd::slice::slice_subrange(path, 0, 1));
        proof {
            assert(path@.subrange(0, 1) =~= seq![SLASH]);
            head = seq![seq![SLASH]];
        }
    } else {
        let end = find_byte(path, SLASH, 0);
        if end == 1 && path[0] == DOT {
            out.push(vstd::slice::slice_subrange(path, 0, 1));
            proof {
                assert(path@.subrange(0, 1) =~= seq![DOT]);
                head = seq![seq![DOT]];
            }
        } else {
            proof {
                let first = path@.subrange(0, end as int);
                if first == seq![DOT] {
                    assert(first.len() == 1);
                    assert(first[0] == DOT);
                    assert(false);
                }
            }
        }
    }
    assert(parts(path@) == head + components(path@));
    let mut i: usize = 0;
    while i < names.len()
        invariant
            i <= names@.len(),
            names@.len() == components(path@).len(),
            forall|k: int| 0 <= k < names@.len() ==> (#[trigger] names@[k])@ == components(path@)[k],
            out@.len() == head.len() + i,
            parts(path@) == head + components(path@),
            forall|k: int| 0 <= k < out@.len() ==> (#[trigger] out@[k])@ == parts(path@)[k],
        decreases names@.len() - i,
    {
        out.push(names[i]);
        i += 1;
    }
    out
}

/// Whether `path` lies under `base`.
pub fn starts_with_path(path: &[u8], base: &[u8]) -> (r: bool)
    ensures
        r == under(path@, base@),
{
    let p = path_parts(path);
    let b = path_parts(base);
    if b.len() > p.len() {
        return false;
    }
    let mut i: usize = 0;
    while i < b.len()
        invariant
            i <= b@.len() <= p@.len(),
            p@.len() == parts(path@).len(),
            b@.len() == parts(base@).len(),
            forall|k: int| 0 <= k < p@.len() ==> (#[trigger] p@[k])@ == parts(path@)[k],
            forall|k: int| 0 <= k < b@.len() ==> (#[trigger] b@[k])@ == parts(base@)[k],
            forall|k: int| 0 <= k < i ==> parts(base@)[k] == parts(path@)[k],
        decreases b@.len() - i,
    {
        if !bytes_eq(p[i], b[i]) {
            proof {
                assert(parts(path@).subrange(0, parts(base@).len() as int)[i as int] != parts(
                    base@,
                )[i as int]);
            }
            return false;
        }
        i += 1;
    }
    proof {
        assert(parts(base@) =~= parts(path@).subrange(0, parts(base@).len() as int));
    }
    true
}

/// The parts from `from` up to `to`, with one slash between two.
pub fn glue_parts_until(items: &Vec<&[u8]>, from: usize, to: usize) -> (r: Vec<u8>)
    requires
        from <= to <= items@.len(),
    ensures
        r@ == glue(Seq::new((to - from) as nat, |k: int| items@[from + k]@)),
{
    let ghost all = Seq::new((to - from) as nat, |k: int| items@[from + k]@);
    let mut out: Vec<u8> = Vec::new();
    let mut i: usize = from;
    proof {
        assert(all.subrange(0, 0) =~= Seq::<Seq<u8>>::empty());
    }
    while i < to
        invariant
            from <= i <= to <= items@.len(),
            all == Seq::new((to - from) as nat, |k: int| items@[from + k]@),
            out@ == glue(all.subrange(0, i - from)),
        decreases to - i,
    {
        proof {
            let next = all.subrange(0, i - from + 1);
            assert(next.drop_last() =~= all.subrange(0, i - from));
            assert(next.last() == items@[i as int]@);
            if i > from {
                assert(next.len() > 1);
            } else {
                assert(next.len() == 1);
                assert(next[0] == items@[i as int]@);
            }
        }
        if i > from {
            out.push(SLASH);
        }
        append(&mut out, items[i]);
        i += 1;
    }
    proof {
        assert(all.subrange(0, i - from) =~= all);
    }
    out
}

/// The parts from `from` on, with one slash between two.
pub fn glue_parts(items: &Vec<&[u8]>, from: usize) -> (r: Vec<u8>)
    requires
        from <= items@.len(),
    ensures
        r@ == glue(Seq::new((items@.len() - from) as nat, |k: int| items@[from + k]@)),
{
    glue_parts_until(items, from, items.len())
}

/// `path` without `prefix` in front, if it lies under it.
pub fn strip_prefix(path: &[u8], prefix: &[u8]) -> (r: Option<Vec<u8>>)
    ensures
        match r {
            Some(rest) => stripped(path@, prefix@) == Some(rest@),
            None => stripped(path@, prefix@) is None,
        },
{
    let b = path_parts(prefix);
    if b.len() == 0 {
        return Some(to_vec(path));
    }
    if !starts_with_path(path, prefix) {
        return None;
    }
    let p = path_parts(path);
    let rest = glue_parts(&p, b.len());
    proof {
        assert(Seq::new((p@.len() - b@.len()) as nat, |k: int| p@[b@.len() + k]@) =~= parts(
            path@,
        ).subrange(parts(prefix@).len() as int, parts(path@).len() as int));
    }
    Some(rest)
}

/// `rel` under `base`.
pub fn join(base: &[u8], rel: &[u8]) -> (r: Vec<u8>)
    ensures
        r@ == joined(base@, rel@),
{
    if rel.len() > 0 && rel[0] == SLASH {
        return to_vec(rel);
    }
    let mut out = to_vec(base);
    if base.len() > 0 && base[base.len() - 1] != SLASH {
        out.push(SLASH);
    }
    append(&mut out, rel);
    out
}

} // verus!
