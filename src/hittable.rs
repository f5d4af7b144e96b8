use vstd::prelude::*;

verus! {

/// The primitives of a scene, in the order they were added. Nearest-hit queries scan
/// them all, in this order.
pub struct HittableArray<H> {
    imp: Vec<H>,
}

impl<H> View for HittableArray<H> {
    type V = Seq<H>;

    closed spec fn view(&self) -> Seq<H> {
        self.imp@
    }
}

impl<H> HittableArray<H> {
    /// An empty scene.
    pub fn new() -> (r: HittableArray<H>)
        ensures
            r@ == Seq::<H>::empty(),
    {
        HittableArray { imp: Vec::new() }
    }

    /// Number of primitives.
    pub fn len(&self) -> (r: usize)
        ensures
            r == self@.len(),
    {
        self.imp.len()
    }

    /// Whether the scene holds no primitive.
    pub fn empty(&self) -> (r: bool)
        ensures
            r == (self@.len() == 0),
    {
        self.imp.is_empty()
    }

    /// Removes every primitive.
    pub fn clear(&mut self)
        ensures
            final(self)@ == Seq::<H>::empty(),
    {
        self.imp.clear();
    }

    /// Adds `obj` after the primitives already there.
    pub fn add(&mut self, obj: H)
        ensures
            final(self)@ == old(self)@.push(obj),
    {
        self.imp.push(obj);
    }

    /// The primitives, in the order they were added.
    pub fn objects(&self) -> (r: &Vec<H>)
        ensures
            r@ == self@,
    {
        &self.imp
    }
}

} // verus!
