//! Reordering of skeleton bone lists: drag-and-drop moves with parent
//! index remapping, and matching a reference skeleton's bone order.
//!
//! The bone transform holds the IEEE 754 bit patterns of its 32-bit float
//! entries, so every value is plain data.

use vstd::prelude::*;

use crate::params::Vector4;
use crate::sort::{lemma_sort_map_commute, pair_key, sort_keyed, sort_pairs};

verus! {

/// How a bone is oriented toward the camera.
#[derive(Debug, Clone, Copy, PartialEq, Eq)]
pub enum BillboardType {
    Disabled,
    XAxisViewPointAligned,
    YAxisViewPointAligned,
    Unk3,
    XYAxisViewPointAligned,
    YAxisViewPlaneAligned,
    XYAxisViewPlaneAligned,
}

/// A 4 by 4 matrix in column-major order; each entry holds the bit
/// pattern of a 32-bit float.
#[derive(Debug, Clone, Copy, PartialEq, Eq)]
pub struct Transform {
    pub col0: Vector4,
    pub col1: Vector4,
    pub col2: Vector4,
    pub col3: Vector4,
}

/// One bone of a skeleton: its name, its transform relative to the
/// parent, the index of its parent in the bone list (or `None` for a
/// root), and its billboard mode.
#[derive(Debug, Clone, PartialEq)]
pub struct Bone {
    pub name: String,
    pub transform: Transform,
    pub parent_index: Option<usize>,
    pub billboard_type: BillboardType,
}

/// A skeleton: its format version and its ordered bone list, in which
/// parents are referenced by index.
#[derive(Debug, Clone, PartialEq)]
pub struct Skeleton {
    pub major_version: u16,
    pub minor_version: u16,
    pub bones: Vec<Bone>,
}

/// The identity index sequence 0, 1, ..., n-1.
pub open spec fn identity_indices(n: int) -> Seq<usize> {
    Seq::new(n as nat, |i: int| i as usize)
}

/// The index sequence after a drag-and-drop move: the span between the
/// two positions rotates one step, so the element at `from` lands at
/// `to` when moving toward the front and at `to - 1` when moving toward
/// the end.
pub open spec fn shifted(s: Seq<usize>, from: int, to: int) -> Seq<usize> {
    if from < to {
        s.take(from) + s.subrange(from + 1, to) + seq![s[from]] + s.skip(to)
    } else if from == to {
        s
    } else {
        s.take(to) + seq![s[from]] + s.subrange(to, from) + s.skip(from + 1)
    }
}

/// Relies on `egui_dnd::utils::shift_vec`: it rotates the span of the
/// slice between the two indices by one step, moving the element at
/// `from` to `to` (to `to - 1` when `to > from`), and panics only when
/// an index is out of range, which the precondition rules out.
#[verifier::external_body]
fn shift_indices(from: usize, to: usize, v: &mut Vec<usize>)
    requires
        (from <= to && to <= old(v)@.len()) || (to < from && from < old(v)@.len()),
    ensures
        final(v)@ == shifted(old(v)@, from as int, to as int),
{
    egui_dnd::utils::shift_vec(from, to, v);
}

/// The position of the first occurrence of `p` in `s`, if any.
pub open spec fn position_of(s: Seq<usize>, p: usize) -> Option<usize>
    decreases s.len(),
{
    if s.len() == 0 {
        None
    } else if s.first() == p {
        Some(0usize)
    } else {
        match position_of(s.drop_first(), p) {
            Some(j) => Some((j + 1) as usize),
            None => None,
        }
    }
}

/// The search finds the first occurrence.
proof fn lemma_position_of_at(s: Seq<usize>, p: usize, j: int)
    requires
        0 <= j < s.len(),
        s[j] == p,
        forall|k: int| 0 <= k < j ==> s[k] != p,
        s.len() <= usize::MAX,
    ensures
        position_of(s, p) == Some(j as usize),
    decreases s.len(),
{
    if s.first() == p {
        assert(j == 0);
    } else {
        assert(j > 0);
        let s0 = s.drop_first();
        assert(s0[j - 1] == p);
        assert(forall|k: int| 0 <= k < j - 1 ==> s0[k] == s[k + 1] && s0[k] != p);
        lemma_position_of_at(s0, p, j - 1);
    }
}

/// The search returns nothing when the value is absent.
proof fn lemma_position_of_absent(s: Seq<usize>, p: usize)
    requires
        forall|k: int| 0 <= k < s.len() ==> s[k] != p,
    ensures
        position_of(s, p) == None::<usize>,
    decreases s.len(),
{
    if s.len() > 0 {
        let s0 = s.drop_first();
        assert(forall|k: int| 0 <= k < s0.len() ==> s0[k] == s[k + 1] && s0[k] != p);
        lemma_position_of_absent(s0, p);
    }
}

/// The position of the first occurrence of `p` in `v`, if any.
fn position_in(v: &Vec<usize>, p: usize) -> (r: Option<usize>)
    ensures
        r == position_of(v@, p),
{
    let mut i: usize = 0;
    while i < v.len()
        invariant
            i <= v@.len(),
            forall|k: int| 0 <= k < i ==> v@[k] != p,
        decreases v@.len() - i,
    {
        if v[i] == p {
            proof {
                lemma_position_of_at(v@, p, i as int);
            }
            return Some(i);
        }
        i = i + 1;
    }
    proof {
        lemma_position_of_absent(v@, p);
    }
    None
}

/// The bone that lands at position `m` after a move along `idxs`: the
/// bone previously at `idxs[m]`, with its parent reference re-pointed to
/// the parent's new position (or cleared if the parent index was out of
/// range).
pub open spec fn remapped_bone(bones: Seq<Bone>, idxs: Seq<usize>, m: int) -> Bone {
    let src = bones[idxs[m] as int];
    Bone {
        parent_index: match src.parent_index {
            Some(p) => position_of(idxs, p),
            None => None,
        },
        ..src
    }
}

/// Every index of the shifted identity sequence stays in range.
proof fn lemma_shifted_identity_bounds(n: int, from: int, to: int)
    requires
        0 <= n,
        (from <= to && to <= n) || (to < from && from < n),
        0 <= from,
        0 <= to,
    ensures
        shifted(identity_indices(n), from, to).len() == n,
        forall|m: int|
            0 <= m < n ==> (#[trigger] shifted(identity_indices(n), from, to)[m]) < n,
{
    let s = identity_indices(n);
    let r = shifted(s, from, to);
    assert(r.len() == n);
    assert forall|m: int| 0 <= m < n implies (#[trigger] r[m]) < n by {
        if from < to {
            if m < from {
            } else if m < to - 1 {
                assert(r[m] == s.subrange(from + 1, to)[m - from]);
            } else if m == to - 1 {
                assert(r[m] == s[from]);
            } else {
                assert(r[m] == s.skip(to)[m - to]);
            }
        } else if from == to {
        } else {
            if m < to {
            } else if m == to {
                assert(r[m] == s[from]);
            } else if m <= from {
                assert(r[m] == s.subrange(to, from)[m - to - 1]);
            } else {
                assert(r[m] == s.skip(from + 1)[m - from - 1]);
            }
        }
    }
}

/// Moves the bone at `from` to `to` (one past the target when moving
/// toward the end, matching drag-and-drop), returning the reordered bone
/// list with every parent reference re-pointed at the parent's new
/// position; a parent index that matches no bone becomes `None`.
pub fn move_bone(from: usize, to: usize, bones: &[Bone]) -> (r: Vec<Bone>)
    requires
        (from <= to && to <= bones@.len()) || (to < from && from < bones@.len()),
    ensures
        r@.len() == bones@.len(),
        forall|m: int|
            0 <= m < r@.len() ==> r@[m] == remapped_bone(
                bones@,
                shifted(identity_indices(bones@.len() as int), from as int, to as int),
                m,
            ),
{
    let n = bones.len();
    let mut idxs: Vec<usize> = Vec::new();
    let mut i: usize = 0;
    while i < n
        invariant
            i <= n,
            idxs@.len() == i,
            forall|k: int| 0 <= k < i ==> idxs@[k] == k,
        decreases n - i,
    {
        idxs.push(i);
        i = i + 1;
    }
    proof {
        assert(idxs@ =~= identity_indices(n as int));
    }
    shift_indices(from, to, &mut idxs);
    let ghost moved = shifted(identity_indices(n as int), from as int, to as int);
    proof {
        lemma_shifted_identity_bounds(n as int, from as int, to as int);
    }
    let mut r: Vec<Bone> = Vec::new();
    let mut m: usize = 0;
    while m < n
        invariant
            m <= n,
            n == bones@.len(),
            idxs@ == moved,
            moved.len() == n,
            forall|q: int| 0 <= q < n ==> (#[trigger] moved[q]) < n,
            r@.len() == m,
            forall|q: int| 0 <= q < m ==> r@[q] == remapped_bone(bones@, moved, q),
        decreases n - m,
    {
        let idx = idxs[m];
        let parent = match bones[idx].parent_index {
            Some(p) => position_in(&idxs, p),
            None => None,
        };
        let b = Bone {
            name: bones[idx].name.clone(),
            transform: bones[idx].transform,
            parent_index: parent,
            billboard_type: bones[idx].billboard_type,
        };
        r.push(b);
        proof {
            assert(r@[m as int] == remapped_bone(bones@, moved, m as int));
        }
        m = m + 1;
    }
    r
}

/// The names of a bone list, in list order.
pub open spec fn names_of(bones: Seq<Bone>) -> Seq<Seq<char>> {
    bones.map_values(|b: Bone| b.name@)
}

/// The position of the first name of `names` equal to `name`, or
/// `names.len()` when no name matches.
pub open spec fn ref_position(names: Seq<Seq<char>>, name: Seq<char>) -> int
    decreases names.len(),
{
    if names.len() == 0 {
        0
    } else if names.first() == name {
        0
    } else {
        1 + ref_position(names.drop_first(), name)
    }
}

/// The sort key that orders bones by a reference skeleton: a bone's
/// first position in the reference name list, with unmatched bones
/// ordered after every matched one.
pub open spec fn bone_order_key(names: Seq<Seq<char>>) -> spec_fn(Bone) -> u64 {
    |b: Bone| ref_position(names, b.name@) as u64
}

/// The scan finds the first matching name.
proof fn lemma_ref_position_at(names: Seq<Seq<char>>, name: Seq<char>, j: int)
    requires
        0 <= j < names.len(),
        names[j] == name,
        forall|k: int| 0 <= k < j ==> names[k] != name,
    ensures
        ref_position(names, name) == j,
    decreases names.len(),
{
    if names.first() == name {
        assert(j == 0);
    } else {
        assert(j > 0);
        let s0 = names.drop_first();
        assert(s0[j - 1] == name);
        assert(forall|k: int| 0 <= k < j - 1 ==> s0[k] == names[k + 1] && s0[k] != name);
        lemma_ref_position_at(s0, name, j - 1);
    }
}

/// The scan runs off the end when no name matches.
proof fn lemma_ref_position_absent(names: Seq<Seq<char>>, name: Seq<char>)
    requires
        forall|k: int| 0 <= k < names.len() ==> names[k] != name,
    ensures
        ref_position(names, name) == names.len(),
    decreases names.len(),
{
    if names.len() > 0 {
        let s0 = names.drop_first();
        assert(forall|k: int| 0 <= k < s0.len() ==> s0[k] == names[k + 1] && s0[k] != name);
        lemma_ref_position_absent(s0, name);
    }
}

/// The first position of `name` among the reference skeleton's bone
/// names, or the bone count when no name matches.
fn ref_position_exec(reference: &Skeleton, name: &String) -> (r: usize)
    ensures
        r as int == ref_position(names_of(reference.bones@), name@),
{
    let ghost names = names_of(reference.bones@);
    let mut i: usize = 0;
    while i < reference.bones.len()
        invariant
            names == names_of(reference.bones@),
            i <= names.len(),
            forall|k: int| 0 <= k < i ==> names[k] != name@,
        decreases names.len() - i,
    {
        if reference.bones[i].name == *name {
            proof {
                assert(names[i as int] == name@);
                lemma_ref_position_at(names, name@, i as int);
            }
            return i;
        }
        proof {
            assert(names[i as int] == reference.bones@[i as int].name@);
        }
        i = i + 1;
    }
    proof {
        lemma_ref_position_absent(names, name@);
    }
    i
}

/// Reorders the skeleton's bones to match the reference skeleton's
/// order: each bone is keyed by the first position of its name in the
/// reference, and the list is stably sorted by that key, so bones absent
/// from the reference keep their relative order at the end. The version
/// numbers are unchanged.
pub fn match_skel_order(skel: &mut Skeleton, reference: &Skeleton)
    ensures
        final(skel).major_version == old(skel).major_version,
        final(skel).minor_version == old(skel).minor_version,
        final(skel).bones@ == sort_keyed(
            old(skel).bones@,
            bone_order_key(names_of(reference.bones@)),
        ),
{
    let ghost names = names_of(reference.bones@);
    let ghost key = bone_order_key(names);
    let ghost orig = skel.bones@;
    let ghost f = |b: Bone| (bone_order_key(names)(b), b);
    let mut keyed: Vec<(u64, Bone)> = Vec::new();
    proof {
        assert(keyed@ =~= orig.take(0).map_values(f));
    }
    while skel.bones.len() > 0
        invariant
            names == names_of(reference.bones@),
            f == (|b: Bone| (bone_order_key(names)(b), b)),
            keyed@.len() <= orig.len(),
            skel.bones@ == orig.skip(keyed@.len() as int),
            keyed@ == orig.take(keyed@.len() as int).map_values(f),
            skel.major_version == old(skel).major_version,
            skel.minor_version == old(skel).minor_version,
        decreases skel.bones@.len(),
    {
        let ghost i = keyed@.len() as int;
        let b = skel.bones.remove(0);
        proof {
            assert(b == orig.skip(i)[0]);
            assert(b == orig[i]);
            assert(skel.bones@ =~= orig.skip(i + 1));
        }
        let k = ref_position_exec(reference, &b.name);
        let kb = (k as u64, b);
        keyed.push(kb);
        proof {
            assert(kb == f(orig[i]));
            assert(keyed@ =~= orig.take(i + 1).map_values(f));
        }
    }
    proof {
        assert(orig.take(orig.len() as int) =~= orig);
        assert(keyed@ == orig.map_values(f));
    }
    sort_pairs(&mut keyed);
    let ghost sorted = sort_keyed(orig, key);
    proof {
        lemma_sort_map_commute(orig, key, pair_key::<Bone>(), f);
        assert(keyed@ == sorted.map_values(f));
    }
    while keyed.len() > 0
        invariant
            names == names_of(reference.bones@),
            f == (|b: Bone| (bone_order_key(names)(b), b)),
            sorted == sort_keyed(orig, key),
            skel.bones@.len() <= sorted.len(),
            skel.bones@ == sorted.take(skel.bones@.len() as int),
            keyed@ == sorted.map_values(f).skip(skel.bones@.len() as int),
            skel.major_version == old(skel).major_version,
            skel.minor_version == old(skel).minor_version,
        decreases keyed@.len(),
    {
        let ghost j = skel.bones@.len() as int;
        let pair = keyed.remove(0);
        proof {
            assert(pair == sorted.map_values(f).skip(j)[0]);
            assert(pair == sorted.map_values(f)[j]);
            assert(pair == f(sorted[j]));
            assert(keyed@ =~= sorted.map_values(f).skip(j + 1));
        }
        skel.bones.push(pair.1);
        proof {
            assert(skel.bones@ =~= sorted.take(j + 1));
        }
    }
    proof {
        assert(sorted.take(sorted.len() as int) =~= sorted);
        assert(skel.bones@ == sorted);
    }
}

} // verus!
