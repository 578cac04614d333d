use vstd::prelude::*;

verus! {

/// The X or Y axes.
#[derive(Debug, Clone, Copy, PartialEq, Eq, Structural, Hash)]
pub enum Axis {
    X,
    Y,
}

impl Axis {
    /// The axis that is not `self`.
    pub fn other(&self) -> (r: Self)
        ensures
            r != *self,
            *self == Axis::X ==> r == Axis::Y,
            *self == Axis::Y ==> r == Axis::X,
    {
        match self {
            Axis::X => Axis::Y,
            Axis::Y => Axis::X,
        }
    }
}

/// Taking the other axis twice gives the axis back.
pub proof fn lemma_other_involutive(a: Axis)
    ensures
        (match a { Axis::X => Axis::Y, Axis::Y => Axis::X }) != a,
        (match (match a { Axis::X => Axis::Y, Axis::Y => Axis::X }) { Axis::X => Axis::Y, Axis::Y => Axis::X }) == a,
{
}

/// A generic container for two-dimensional data.
#[derive(Debug, Default, Clone, Copy, PartialEq, Eq, Hash)]
pub struct Xy<T> {
    pub x: T,
    pub y: T,
}

impl<T> Xy<T> {
    /// The component along `axis`.
    pub open spec fn at(self, axis: Axis) -> T {
        match axis {
            Axis::X => self.x,
            Axis::Y => self.y,
        }
    }
}

impl<T: Copy> Xy<T> {
    pub fn new(x: T, y: T) -> (r: Self)
        ensures
            r.x == x,
            r.y == y,
    {
        Self { x, y }
    }

    pub fn new_symm(v: T) -> (r: Self)
        ensures
            r.x == v,
            r.y == v,
    {
        Self { x: v, y: v }
    }

    /// The component along `axis` (the `Index<Axis>` operation).
    pub fn get(&self, axis: Axis) -> (r: T)
        ensures
            r == self.at(axis),
    {
        match axis {
            Axis::X => self.x,
            Axis::Y => self.y,
        }
    }

    /// Writes the component along `axis` (the `IndexMut<Axis>` operation).
    pub fn set(&mut self, axis: Axis, v: T)
        ensures
            final(self).at(axis) == v,
            final(self).at(match axis { Axis::X => Axis::Y, Axis::Y => Axis::X }) == old(self).at(match axis { Axis::X => Axis::Y, Axis::Y => Axis::X }),
    {
        match axis {
            Axis::X => self.x = v,
            Axis::Y => self.y = v,
        }
    }
}

} // verus!
