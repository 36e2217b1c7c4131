//! Faces found again by family and point size.
use crate::nearest::is_nearer;
#[allow(unused_imports)]
use crate::nearest::{is_nearest, nearer};
use std::collections::HashMap;
use vstd::prelude::*;

verus! {

/// The number under which a family and a point size are filed together.
pub open spec fn face_key(font_id: i16, size: i16) -> u32 {
    ((font_id + 0x8000) * 0x10000 + (size + 0x8000)) as u32
}

/// Two families or two sizes never share a number.
pub proof fn lemma_face_key_injective(a: (i16, i16), b: (i16, i16))
    requires
        face_key(a.0, a.1) == face_key(b.0, b.1),
    ensures
        a == b,
{
}

/// A set of faces, at most one for each family and point size.
pub struct FaceCache<F: 'static> {
    faces: HashMap<u32, &'static F>,
}

impl<F: 'static> View for FaceCache<F> {
    type V = Map<(i16, i16), F>;

    closed spec fn view(&self) -> Map<(i16, i16), F> {
        Map::new(
            |k: (i16, i16)| self.faces@.contains_key(face_key(k.0, k.1)),
            |k: (i16, i16)| *self.faces@[face_key(k.0, k.1)],
        )
    }
}

fn key(font_id: i16, size: i16) -> (k: u32)
    ensures
        k == face_key(font_id, size),
{
    ((font_id as i64 + 0x8000) * 0x10000 + (size as i64 + 0x8000)) as u32
}

impl<F: 'static> FaceCache<F> {
    pub fn new() -> (cache: Self)
        ensures
            cache@ == Map::<(i16, i16), F>::empty(),
    {
        let cache = FaceCache { faces: HashMap::new() };
        assert(cache@ =~= Map::<(i16, i16), F>::empty());
        cache
    }

    pub fn get(&self, font_id: i16, size: i16) -> (face: Option<&'static F>)
        ensures
            face is Some <==> self@.contains_key((font_id, size)),
            face matches Some(f) ==> *f == self@[(font_id, size)],
    {
        broadcast use vstd::std_specs::hash::group_hash_axioms;
        match self.faces.get(&key(font_id, size)) {
            Some(face) => Some(*face),
            None => None,
        }
    }

    pub fn insert(&mut self, font_id: i16, size: i16, face: &'static F)
        ensures
            final(self)@ == old(self)@.insert((font_id, size), *face),
    {
        broadcast use vstd::std_specs::hash::group_hash_axioms;
        self.faces.insert(key(font_id, size), face);
        proof {
            assert forall|k: (i16, i16)| k != (font_id, size) implies face_key(k.0, k.1) != face_key(font_id, size) by {
                if face_key(k.0, k.1) == face_key(font_id, size) {
                    lemma_face_key_injective(k, (font_id, size));
                }
            }
            assert(self@ =~= old(self)@.insert((font_id, size), *face));
        }
    }

    /// Tells whether there is no face at all.
    pub fn is_empty(&self) -> (empty: bool)
        ensures
            empty == (self@ == Map::<(i16, i16), F>::empty()),
    {
        broadcast use vstd::std_specs::hash::group_hash_axioms;

        let empty = self.faces.is_empty();
        proof {
            if empty {
                assert(self@ =~= Map::<(i16, i16), F>::empty());
            } else {
                let k = choose|k: u32| self.faces@.contains_key(k);
                assert(self.faces@.contains_key(k)) by {
                    if forall|other: u32| !self.faces@.contains_key(other) {
                        assert(self.faces@ =~= Map::empty());
                    }
                }
                lemma_face_key_onto(k);
                assert(self@.contains_key(filed_under(k)));
            }
        }
        empty
    }

    /// The size that stands in best for `requested` among those of the family's faces.
    pub fn nearest_size(&self, font_id: i16, requested: i16) -> (size: Option<i16>)
        ensures
            size is None <==> forall|s: i16| !self@.contains_key((font_id, s)),
            size matches Some(s) ==> is_nearest(family_sizes(self@, font_id), requested, s),
    {
        broadcast use vstd::std_specs::hash::group_hash_axioms;

        let mut best: Option<i16> = None;
        for filed in it: self.faces.keys()
            invariant
                it.seq().unref().to_set() == self.faces@.dom(),
                best is None ==> forall|i: int|
                    0 <= i < it.index() ==> filed_under(#[trigger] *it.seq()[i]).0 != font_id,
                best matches Some(s) ==> {
                    &&& self@.contains_key((font_id, s))
                    &&& forall|i: int|
                        0 <= i < it.index() && filed_under(#[trigger] *it.seq()[i]).0 == font_id
                            ==> filed_under(*it.seq()[i]).1 == s || nearer(
                            s,
                            filed_under(*it.seq()[i]).1,
                            requested,
                        )
                },
        {
            let (id, size): (i16, i16) = unfile(*filed);
            if id == font_id {
                best = match best {
                    Some(s) => if is_nearer(size, s, requested) {
                        Some(size)
                    } else {
                        Some(s)
                    },
                    None => Some(size),
                };
            }
        }
        best
    }
}

/// The sizes at which the family has a face.
pub open spec fn family_sizes<F>(faces: Map<(i16, i16), F>, font_id: i16) -> Set<i16> {
    Set::new(|size: i16| faces.contains_key((font_id, size)))
}

/// The family and size that a number files.
pub open spec fn filed_under(k: u32) -> (i16, i16) {
    ((k / 0x10000 - 0x8000) as i16, (k % 0x10000 - 0x8000) as i16)
}

/// Every number files a family and a size.
pub proof fn lemma_face_key_onto(k: u32)
    ensures
        face_key(filed_under(k).0, filed_under(k).1) == k,
{
}

/// The family and size that a number files.
fn unfile(k: u32) -> (id_and_size: (i16, i16))
    ensures
        id_and_size == filed_under(k),
{
    ((k as i64 / 0x10000 - 0x8000) as i16, (k as i64 % 0x10000 - 0x8000) as i16)
}

} // verus!
