//! Shared properties: aliasable property cells.
//!
//! A shared property is a property whose storage is owned by one widget and
//! read or written by several others. The cells live in a
//! [`PropertyArena`]; a [`SharedProperty`] handle names one cell by index,
//! and every clone of a handle names the same cell, so a write through any
//! handle is immediately visible through all of them.

use vstd::prelude::*;

use crate::property::PropVal;
use crate::property::PropertyValue;

verus! {

/// Handle to one cell of the arena. Copying the handle aliases the cell; it
/// never copies the value.
#[derive(Clone, Copy, PartialEq, Eq, Structural, Debug)]
pub struct SharedProperty {
    pub index: usize,
}

impl SharedProperty {
    /// The handle names a cell of an arena with `n` cells.
    pub open spec fn in_arena(&self, n: nat) -> bool {
        self.index < n
    }
}

/// The storage behind all shared properties of one widget tree.
#[derive(Debug, PartialEq)]
pub struct PropertyArena {
    pub cells: Vec<PropertyValue>,
}

impl View for PropertyArena {
    type V = Seq<PropVal>;

    open spec fn view(&self) -> Seq<PropVal> {
        self.cells@.map_values(|p: PropertyValue| p@)
    }
}

impl PropertyArena {
    /// An arena with no cells.
    pub fn new() -> (a: PropertyArena)
        ensures
            a@ == Seq::<PropVal>::empty(),
    {
        let a = PropertyArena { cells: Vec::new() };
        proof {
            assert(a@ =~= Seq::<PropVal>::empty());
        }
        a
    }

    /// Allocate a fresh cell holding `value` and hand out its first handle.
    /// Cells already allocated keep their contents, so handles held
    /// elsewhere stay valid.
    pub fn create_shared(&mut self, value: PropertyValue) -> (h: SharedProperty)
        ensures
            final(self)@ == old(self)@.push(value@),
            h.index == old(self)@.len(),
            h.in_arena(final(self)@.len() as nat),
    {
        let h = SharedProperty { index: self.cells.len() };
        self.cells.push(value);
        proof {
            assert(self@ =~= old(self)@.push(value@));
        }
        h
    }

    /// Read the cell behind `h`. The result reflects the latest write
    /// through any handle to that cell.
    pub fn read(&self, h: SharedProperty) -> (r: PropertyValue)
        requires
            h.in_arena(self@.len() as nat),
        ensures
            r@ == self@[h.index as int],
    {
        self.cells[h.index].duplicate()
    }

    /// Write the cell behind `h`. Every other cell keeps its value.
    pub fn write(&mut self, h: SharedProperty, value: PropertyValue)
        requires
            h.in_arena(old(self)@.len() as nat),
        ensures
            final(self)@ == old(self)@.update(h.index as int, value@),
    {
        self.cells[h.index] = value;
        proof {
            assert(self@ =~= old(self)@.update(h.index as int, value@));
        }
    }
}

/// A fresh vector holding the same handles; each copy aliases the same
/// cell as the handle it was copied from.
pub fn copy_handles(v: &Vec<SharedProperty>) -> (r: Vec<SharedProperty>)
    ensures
        r@ == v@,
{
    let mut r: Vec<SharedProperty> = Vec::new();
    let mut i: usize = 0;
    while i < v.len()
        invariant
            i <= v@.len(),
            r@ == v@.subrange(0, i as int),
        decreases v@.len() - i,
    {
        r.push(v[i]);
        proof {
            assert(v@.subrange(0, i as int).push(v@[i as int]) =~= v@.subrange(0, i + 1 as int));
        }
        i = i + 1;
    }
    proof {
        assert(v@.subrange(0, v@.len() as int) =~= v@);
    }
    r
}

/// Arena `a2` has the same cells as `a1`, kind for kind: no cell was
/// added, dropped, or rededicated to another property kind.
pub open spec fn same_kinds(a1: Seq<PropVal>, a2: Seq<PropVal>) -> bool {
    a2.len() == a1.len() && forall|i: int|
        0 <= i < a1.len() ==> crate::property::kind_of(#[trigger] a2[i])
            == crate::property::kind_of(a1[i])
}

/// Aliasing law: after a write through handle `w`, a read through any
/// handle `r` of the same cell sees the written value, however many
/// handles exist; a handle to any other cell sees that cell unchanged.
pub proof fn lemma_shared_write_visible(
    before: Seq<PropVal>,
    after: Seq<PropVal>,
    w: SharedProperty,
    r: SharedProperty,
    value: PropVal,
)
    requires
        w.in_arena(before.len() as nat),
        r.in_arena(before.len() as nat),
        after == before.update(w.index as int, value),
    ensures
        r.index == w.index ==> after[r.index as int] == value,
        r.index != w.index ==> after[r.index as int] == before[r.index as int],
{
}

} // verus!
