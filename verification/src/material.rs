//! Materials, and the table that a material library defines.

use vstd::prelude::*;
use crate::numeral::{zero_text, Numeral};
use crate::pool::numeral_views;
use crate::text::bytes_eq;

verus! {

/// What a material is: its name and its properties, numbers as their texts.
#[verifier::ext_equal]
pub struct MaterialView {
    pub name: Seq<u8>,
    pub ambient_percentage: Seq<Seq<u8>>,
    pub diffuse_color: Seq<Seq<u8>>,
    pub specular_color: Seq<Seq<u8>>,
    pub emissive_color: Seq<Seq<u8>>,
    pub shininess: Seq<u8>,
}

/// A material. A vector is empty, and the shininess `0.0`, where the
/// library has no line for it.
pub struct Material {
    pub name: Vec<u8>,
    pub ambient_percentage: Vec<Numeral>,
    pub diffuse_color: Vec<Numeral>,
    pub specular_color: Vec<Numeral>,
    pub emissive_color: Vec<Numeral>,
    pub shininess: Numeral,
}

impl View for Material {
    type V = MaterialView;

    open spec fn view(&self) -> MaterialView {
        MaterialView {
            name: self.name@,
            ambient_percentage: numeral_views(self.ambient_percentage@),
            diffuse_color: numeral_views(self.diffuse_color@),
            specular_color: numeral_views(self.specular_color@),
            emissive_color: numeral_views(self.emissive_color@),
            shininess: self.shininess@,
        }
    }
}

/// The contents of materials, one for one.
pub open spec fn material_views(v: Seq<Material>) -> Seq<MaterialView> {
    Seq::new(v.len(), |i: int| v[i]@)
}

/// The material of the given name of which nothing else is known.
pub open spec fn blank_material(name: Seq<u8>) -> MaterialView {
    MaterialView {
        name,
        ambient_percentage: Seq::empty(),
        diffuse_color: Seq::empty(),
        specular_color: Seq::empty(),
        emissive_color: Seq::empty(),
        shininess: zero_text(),
    }
}

impl Material {
    /// A material of the given name with no property set.
    pub fn blank(name: Vec<u8>) -> (r: Material)
        ensures
            r@ == blank_material(name@),
    {
        let r = Material {
            name,
            ambient_percentage: Vec::new(),
            diffuse_color: Vec::new(),
            specular_color: Vec::new(),
            emissive_color: Vec::new(),
            shininess: Numeral::zero(),
        };
        proof {
            assert(r@.ambient_percentage =~= Seq::empty());
            assert(r@.diffuse_color =~= Seq::empty());
            assert(r@.specular_color =~= Seq::empty());
            assert(r@.emissive_color =~= Seq::empty());
        }
        r
    }
}

/// Whether an entry of the given name is among `entries`.
pub open spec fn has_name(entries: Seq<Material>, name: Seq<u8>) -> bool {
    exists|i: int| 0 <= i < entries.len() && (#[trigger] entries[i]).name@ == name
}

/// The place of an entry of the given name among `entries`.
pub open spec fn place_of(entries: Seq<Material>, name: Seq<u8>) -> int {
    choose|i: int| 0 <= i < entries.len() && (#[trigger] entries[i]).name@ == name
}

/// Whether no two of `entries` have one name.
pub open spec fn names_distinct(entries: Seq<Material>) -> bool {
    forall|i: int, j: int|
        0 <= i < j < entries.len() ==> (#[trigger] entries[i]).name@ != (#[trigger] entries[j]).name@
}

/// The mapping that `entries` stand for.
pub open spec fn table_of(entries: Seq<Material>) -> Map<Seq<u8>, MaterialView> {
    Map::new(
        |name: Seq<u8>| has_name(entries, name),
        |name: Seq<u8>| entries[place_of(entries, name)]@,
    )
}

proof fn lemma_place(entries: Seq<Material>, i: int)
    requires
        names_distinct(entries),
        0 <= i < entries.len(),
    ensures
        has_name(entries, entries[i].name@),
        place_of(entries, entries[i].name@) == i,
        table_of(entries)[entries[i].name@] == entries[i]@,
{
    let name = entries[i].name@;
    let p = place_of(entries, name);
    assert(0 <= p < entries.len() && entries[p].name@ == name);
    if p < i {
        assert(entries[p].name@ != entries[i].name@);
    } else if i < p {
        assert(entries[i].name@ != entries[p].name@);
    }
}

proof fn lemma_table_replace(entries: Seq<Material>, i: int, material: Material)
    requires
        names_distinct(entries),
        0 <= i < entries.len(),
        entries[i].name@ == material.name@,
    ensures
        names_distinct(entries.update(i, material)),
        table_of(entries.update(i, material)) == table_of(entries).insert(
            material.name@,
            material@,
        ),
{
    let after = entries.update(i, material);
    assert forall|a: int, b: int| 0 <= a < b < after.len() implies (#[trigger] after[a]).name@ != (
    #[trigger] after[b]).name@ by {
        assert(after[a].name@ == entries[a].name@);
        assert(after[b].name@ == entries[b].name@);
    }
    let left = table_of(after);
    let right = table_of(entries).insert(material.name@, material@);
    assert forall|name: Seq<u8>| left.dom().contains(name) <==> right.dom().contains(name) by {
        if has_name(after, name) {
            let p = place_of(after, name);
            assert(entries[p].name@ == name);
        }
        if has_name(entries, name) {
            let p = place_of(entries, name);
            assert(after[p].name@ == name);
        }
        if name == material.name@ {
            assert(after[i].name@ == name);
        }
    }
    assert forall|name: Seq<u8>| left.dom().contains(name) implies left[name] == right[name] by {
        let p = place_of(after, name);
        assert(0 <= p < after.len() && after[p].name@ == name);
        lemma_place(after, p);
        if p == i {
        } else {
            assert(entries[p].name@ == name);
            lemma_place(entries, p);
            assert(after[p] == entries[p]);
            assert(entries[p].name@ != entries[i].name@) by {
                if p < i {
                    assert(entries[p].name@ != entries[i].name@);
                } else {
                    assert(entries[i].name@ != entries[p].name@);
                }
            }
        }
    }
    assert(left =~= right);
}

proof fn lemma_table_push(entries: Seq<Material>, material: Material)
    requires
        names_distinct(entries),
        !has_name(entries, material.name@),
    ensures
        names_distinct(entries.push(material)),
        table_of(entries.push(material)) == table_of(entries).insert(material.name@, material@),
{
    let after = entries.push(material);
    let last = entries.len() as int;
    assert forall|a: int, b: int| 0 <= a < b < after.len() implies (#[trigger] after[a]).name@ != (
    #[trigger] after[b]).name@ by {
        assert(after[a] == entries[a]);
        if b < last {
            assert(after[b] == entries[b]);
        } else {
            assert(entries[a].name@ != material.name@);
        }
    }
    let left = table_of(after);
    let right = table_of(entries).insert(material.name@, material@);
    assert forall|name: Seq<u8>| left.dom().contains(name) <==> right.dom().contains(name) by {
        if has_name(after, name) {
            let p = place_of(after, name);
            if p < last {
                assert(entries[p].name@ == name);
            }
        }
        if has_name(entries, name) {
            let p = place_of(entries, name);
            assert(after[p].name@ == name);
        }
        if name == material.name@ {
            assert(after[last].name@ == name);
        }
    }
    assert forall|name: Seq<u8>| left.dom().contains(name) implies left[name] == right[name] by {
        let p = place_of(after, name);
        assert(0 <= p < after.len() && after[p].name@ == name);
        lemma_place(after, p);
        if p == last {
        } else {
            assert(after[p] == entries[p]);
            assert(entries[p].name@ == name);
            lemma_place(entries, p);
        }
    }
    assert(left =~= right);
}

proof fn lemma_table_remove(entries: Seq<Material>, i: int)
    requires
        names_distinct(entries),
        0 <= i < entries.len(),
    ensures
        names_distinct(entries.remove(i)),
        table_of(entries.remove(i)) == table_of(entries).remove(entries[i].name@),
{
    let after = entries.remove(i);
    let gone = entries[i].name@;
    assert forall|a: int, b: int| 0 <= a < b < after.len() implies (#[trigger] after[a]).name@ != (
    #[trigger] after[b]).name@ by {
        let a0 = if a < i {
            a
        } else {
            a + 1
        };
        let b0 = if b < i {
            b
        } else {
            b + 1
        };
        assert(after[a] == entries[a0]);
        assert(after[b] == entries[b0]);
        assert(entries[a0].name@ != entries[b0].name@);
    }
    let left = table_of(after);
    let right = table_of(entries).remove(gone);
    assert forall|name: Seq<u8>| left.dom().contains(name) <==> right.dom().contains(name) by {
        if has_name(after, name) {
            let p = place_of(after, name);
            let earlier = if p < i {
                p
            } else {
                p + 1
            };
            assert(after[p] == entries[earlier]);
            assert(entries[earlier].name@ == name);
            if earlier < i {
                assert(entries[earlier].name@ != entries[i].name@);
            } else {
                assert(entries[i].name@ != entries[earlier].name@);
            }
        }
        if has_name(entries, name) && name != gone {
            let p = place_of(entries, name);
            let q = if p < i {
                p
            } else {
                p - 1
            };
            assert(after[q] == entries[p]);
            assert(after[q].name@ == name);
        }
    }
    assert forall|name: Seq<u8>| left.dom().contains(name) implies left[name] == right[name] by {
        let p = place_of(after, name);
        assert(0 <= p < after.len() && after[p].name@ == name);
        lemma_place(after, p);
        let earlier = if p < i {
            p
        } else {
            p + 1
        };
        assert(after[p] == entries[earlier]);
        lemma_place(entries, earlier);
    }
    assert(left =~= right);
}

/// The materials of a library by name. No two entries have one name.
pub struct MaterialTable {
    entries: Vec<Material>,
}

impl View for MaterialTable {
    type V = Map<Seq<u8>, MaterialView>;

    closed spec fn view(&self) -> Map<Seq<u8>, MaterialView> {
        table_of(self.entries@)
    }
}

impl MaterialTable {
    #[verifier::type_invariant]
    spec fn well_formed(self) -> bool {
        names_distinct(self.entries@)
    }

    /// The table that holds nothing.
    pub fn new() -> (r: MaterialTable)
        ensures
            r@ == Map::<Seq<u8>, MaterialView>::empty(),
    {
        let r = MaterialTable { entries: Vec::new() };
        proof {
            assert(r@ =~= Map::<Seq<u8>, MaterialView>::empty());
        }
        r
    }

    fn find(&self, name: &[u8]) -> (r: Option<usize>)
        ensures
            match r {
                Some(i) => i < self.entries.len() && self.entries@[i as int].name@ == name@,
                None => !has_name(self.entries@, name@),
            },
    {
        let n: usize = self.entries.len();
        let mut i: usize = 0;
        while i < n
            invariant
                i <= n,
                n == self.entries.len(),
                forall|k: int| 0 <= k < i ==> (#[trigger] self.entries@[k]).name@ != name@,
            decreases n - i,
        {
            if bytes_eq(self.entries[i].name.as_slice(), name) {
                return Some(i);
            }
            i += 1;
        }
        None
    }

    /// Whether the table holds a material of this name.
    pub fn contains(&self, name: &[u8]) -> (r: bool)
        ensures
            r == self@.contains_key(name@),
    {
        match self.find(name) {
            Some(i) => {
                assert(has_name(self.entries@, name@));
                true
            },
            None => false,
        }
    }

    /// The material of this name, where the table holds one.
    pub fn get(&self, name: &[u8]) -> (r: Option<&Material>)
        ensures
            match r {
                Some(m) => self@.contains_key(name@) && self@[name@] == m@,
                None => !self@.contains_key(name@),
            },
    {
        proof {
            use_type_invariant(self);
        }
        match self.find(name) {
            Some(i) => {
                proof {
                    lemma_place(self.entries@, i as int);
                }
                Some(&self.entries[i])
            },
            None => None,
        }
    }

    /// Moves the entries out, leaving the table empty.
    fn take_entries(&mut self) -> (r: Vec<Material>)
        ensures
            r@ == old(self).entries@,
            names_distinct(r@),
    {
        proof {
            use_type_invariant(&*self);
        }
        let mut owned = MaterialTable { entries: Vec::new() };
        core::mem::swap(self, &mut owned);
        owned.entries
    }

    /// Puts a material under its name, in place of one that had the name.
    pub fn insert(&mut self, material: Material)
        ensures
            final(self)@ == old(self)@.insert(material.name@, material@),
    {
        let found = self.find(material.name.as_slice());
        let mut entries = self.take_entries();
        match found {
            Some(i) => {
                proof {
                    lemma_table_replace(entries@, i as int, material);
                }
                entries.set(i, material);
            },
            None => {
                proof {
                    lemma_table_push(entries@, material);
                }
                entries.push(material);
            },
        }
        *self = MaterialTable { entries };
    }

    /// Takes the material of this name out of the table, where it holds
    /// one.
    pub fn remove(&mut self, name: &[u8]) -> (r: Option<Material>)
        ensures
            match r {
                Some(m) => {
                    &&& old(self)@.contains_key(name@)
                    &&& old(self)@[name@] == m@
                    &&& final(self)@ == old(self)@.remove(name@)
                },
                None => !old(self)@.contains_key(name@) && final(self)@ == old(self)@,
            },
    {
        match self.find(name) {
            Some(i) => {
                let mut entries = self.take_entries();
                proof {
                    lemma_place(entries@, i as int);
                    lemma_table_remove(entries@, i as int);
                }
                let material = entries.remove(i);
                *self = MaterialTable { entries };
                Some(material)
            },
            None => None,
        }
    }
}

} // verus!
