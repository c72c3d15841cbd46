//! The bitmaps that bound the movement of objects, one for each class of
//! matter, and the bodies that were made from them.
use vstd::prelude::*;
use crate::simulation::ca_react::{ratio_ok, MatterClass};
use crate::simulation::simulation_utils::{canvas_size_ok, lemma_canvas_cells};

verus! {

/// For each class of matter: the bitmap of the blocks that hold it, whether
/// the bitmap changed since bodies were last made from it, and the
/// identities of those bodies.
pub struct PhysicsBoundaries {
    pub solids_changed: bool,
    pub powders_changed: bool,
    pub liquids_changed: bool,
    pub solid_bitmap: Vec<bool>,
    pub powder_bitmap: Vec<bool>,
    pub liquid_bitmap: Vec<bool>,
    pub solid_objects: Vec<u64>,
    pub powder_objects: Vec<u64>,
    pub liquid_objects: Vec<u64>,
}

/// The bodies of one class that are to be made anew: the class, its bitmap,
/// and whether its bodies are sensors, which they are for every class but the
/// solid one.
pub struct BoundaryRebuild {
    pub class: MatterClass,
    pub bitmap: Vec<bool>,
    pub sensor: bool,
}

/// What is to be done about the boundaries after a tick: the bodies to
/// remove, and the classes whose bodies are to be made anew.
pub struct BoundaryPlan {
    pub remove_objects: Vec<u64>,
    pub rebuilds: Vec<BoundaryRebuild>,
}

impl PhysicsBoundaries {
    /// Whether the bitmaps have `blocks` blocks each.
    pub open spec fn wf(&self, blocks: int) -> bool {
        &&& self.solid_bitmap.len() == blocks
        &&& self.powder_bitmap.len() == blocks
        &&& self.liquid_bitmap.len() == blocks
    }

    /// The boundaries of a canvas of `size` by `size` cells with blocks of
    /// `ratio` by `ratio` cells: no block holds anything, and there are no
    /// bodies.
    pub fn new(size: u32, ratio: u32) -> (boundaries: PhysicsBoundaries)
        requires
            canvas_size_ok(size),
            ratio_ok(size, ratio),
        ensures
            boundaries.wf((size / ratio) * (size / ratio)),
            !boundaries.solids_changed && !boundaries.powders_changed
                && !boundaries.liquids_changed,
            boundaries.solid_objects.len() == 0 && boundaries.powder_objects.len() == 0
                && boundaries.liquid_objects.len() == 0,
            forall|i: int|
                0 <= i < (size / ratio) * (size / ratio) ==> !boundaries.solid_bitmap[i]
                    && !boundaries.powder_bitmap[i] && !boundaries.liquid_bitmap[i],
    {
        let bitmap_size = (size / ratio) as usize;
        proof {
            lemma_canvas_cells(size);
            assert(bitmap_size * bitmap_size <= size * size) by (nonlinear_arith)
                requires
                    bitmap_size <= size,
            ;
        }
        PhysicsBoundaries {
            solids_changed: false,
            powders_changed: false,
            liquids_changed: false,
            solid_bitmap: vec![false; bitmap_size * bitmap_size],
            powder_bitmap: vec![false; bitmap_size * bitmap_size],
            liquid_bitmap: vec![false; bitmap_size * bitmap_size],
            solid_objects: Vec::new(),
            powder_objects: Vec::new(),
            liquid_objects: Vec::new(),
        }
    }

    /// Whether the bitmap of `class` changed.
    pub open spec fn changed(&self, class: MatterClass) -> bool {
        match class {
            MatterClass::Solid => self.solids_changed,
            MatterClass::Powder => self.powders_changed,
            MatterClass::Liquid => self.liquids_changed,
        }
    }

    /// The bitmap of `class`.
    pub open spec fn bitmap_of(&self, class: MatterClass) -> Seq<bool> {
        match class {
            MatterClass::Solid => self.solid_bitmap@,
            MatterClass::Powder => self.powder_bitmap@,
            MatterClass::Liquid => self.liquid_bitmap@,
        }
    }

    /// The bodies of `class`.
    pub open spec fn objects_of(&self, class: MatterClass) -> Seq<u64> {
        match class {
            MatterClass::Solid => self.solid_objects@,
            MatterClass::Powder => self.powder_objects@,
            MatterClass::Liquid => self.liquid_objects@,
        }
    }

    /// The bodies of `class` that go when its bitmap changed.
    pub open spec fn removed_of(&self, class: MatterClass) -> Seq<u64> {
        if self.changed(class) {
            self.objects_of(class)
        } else {
            Seq::empty()
        }
    }

    /// The classes whose bitmap changed: the solid one first, then powder,
    /// then liquid.
    pub open spec fn changed_classes(&self) -> Seq<MatterClass> {
        classes_changed(self.solids_changed, self.powders_changed, self.liquids_changed)
    }

    /// Takes note of what changed: for every class whose bitmap changed, its
    /// bodies are to be removed, all of them, and made anew from the bitmap;
    /// the class is then no longer noted as changed and has no bodies, until
    /// the new ones are added. A class whose bitmap did not change is left
    /// alone.
    pub fn take_changes(&mut self) -> (plan: BoundaryPlan)
        ensures
            plan.remove_objects@ == old(self).removed_of(MatterClass::Solid)
                + old(self).removed_of(MatterClass::Powder)
                + old(self).removed_of(MatterClass::Liquid),
            plan.rebuilds.len() == old(self).changed_classes().len(),
            forall|i: int|
                0 <= i < plan.rebuilds.len() ==>
                    (#[trigger] plan.rebuilds[i]).class == old(self).changed_classes()[i]
                    && plan.rebuilds[i].bitmap@ == old(self).bitmap_of(
                    plan.rebuilds[i].class,
                ) && plan.rebuilds[i].sensor == (plan.rebuilds[i].class != MatterClass::Solid),
            !final(self).solids_changed && !final(self).powders_changed
                && !final(self).liquids_changed,
            final(self).solid_bitmap == old(self).solid_bitmap,
            final(self).powder_bitmap == old(self).powder_bitmap,
            final(self).liquid_bitmap == old(self).liquid_bitmap,
            forall|class: MatterClass|
                #[trigger] final(self).objects_of(class) == if old(self).changed(class) {
                    Seq::empty()
                } else {
                    old(self).objects_of(class)
                },
    {
        let mut remove_objects: Vec<u64> = Vec::new();
        let mut rebuilds: Vec<BoundaryRebuild> = Vec::new();
        if self.solids_changed {
            // Remove old objects
            remove_objects.append(&mut self.solid_objects);
            // Set creation to occur
            rebuilds.push(
                BoundaryRebuild {
                    class: MatterClass::Solid,
                    bitmap: copy_bitmap(&self.solid_bitmap),
                    sensor: false,
                },
            );
            self.solids_changed = false;
        }
        if self.powders_changed {
            remove_objects.append(&mut self.powder_objects);
            rebuilds.push(
                BoundaryRebuild {
                    class: MatterClass::Powder,
                    bitmap: copy_bitmap(&self.powder_bitmap),
                    sensor: true,
                },
            );
            self.powders_changed = false;
        }
        if self.liquids_changed {
            remove_objects.append(&mut self.liquid_objects);
            rebuilds.push(
                BoundaryRebuild {
                    class: MatterClass::Liquid,
                    bitmap: copy_bitmap(&self.liquid_bitmap),
                    sensor: true,
                },
            );
            self.liquids_changed = false;
        }
        proof {
            assert(remove_objects@ =~= old(self).removed_of(MatterClass::Solid)
                + old(self).removed_of(MatterClass::Powder)
                + old(self).removed_of(MatterClass::Liquid));
            assert forall|class: MatterClass|
                #[trigger] self.objects_of(class) == if old(self).changed(class) {
                    Seq::empty()
                } else {
                    old(self).objects_of(class)
                } by {
                if old(self).changed(class) {
                    assert(self.objects_of(class) =~= Seq::<u64>::empty());
                }
            }
        }
        BoundaryPlan { remove_objects, rebuilds }
    }

    /// Notes a body that was made for `class`.
    pub fn add_object(&mut self, class: MatterClass, entity: u64)
        ensures
            final(self).objects_of(class) == old(self).objects_of(class).push(entity),
            forall|other: MatterClass|
                other != class ==> #[trigger] final(self).objects_of(other)
                    == old(self).objects_of(other),
            final(self).solids_changed == old(self).solids_changed,
            final(self).powders_changed == old(self).powders_changed,
            final(self).liquids_changed == old(self).liquids_changed,
            final(self).solid_bitmap == old(self).solid_bitmap,
            final(self).powder_bitmap == old(self).powder_bitmap,
            final(self).liquid_bitmap == old(self).liquid_bitmap,
    {
        match class {
            MatterClass::Liquid => self.liquid_objects.push(entity),
            MatterClass::Solid => self.solid_objects.push(entity),
            MatterClass::Powder => self.powder_objects.push(entity),
        }
    }
}

/// The classes that changed, of the three: the solid one first, then
/// powder, then liquid.
pub open spec fn classes_changed(solids: bool, powders: bool, liquids: bool) -> Seq<MatterClass> {
    let solid = if solids {
        seq![MatterClass::Solid]
    } else {
        Seq::empty()
    };
    let powder = if powders {
        seq![MatterClass::Powder]
    } else {
        Seq::empty()
    };
    let liquid = if liquids {
        seq![MatterClass::Liquid]
    } else {
        Seq::empty()
    };
    solid + powder + liquid
}

/// A copy of a bitmap.
pub fn copy_bitmap(bitmap: &Vec<bool>) -> (copy: Vec<bool>)
    ensures
        copy@ == bitmap@,
{
    let mut copy: Vec<bool> = Vec::new();
    let mut i: usize = 0;
    while i < bitmap.len()
        invariant
            i <= bitmap.len(),
            copy.len() == i,
            forall|k: int| 0 <= k < i ==> copy[k] == bitmap[k],
        decreases bitmap.len() - i,
    {
        copy.push(bitmap[i]);
        i += 1;
    }
    assert(copy@ =~= bitmap@);
    copy
}

} // verus!
