//! Instruction packing for the bytecode tape that ships a CSG tree to an
//! external interpreter: each instruction is four 32-bit words, with the
//! output register in the top two bits of the first word and the operation
//! code below them.

use vstd::prelude::*;

verus! {

/// An output register of the two-register evaluation machine.
#[derive(Clone, Copy, PartialEq, Eq, Structural, Debug)]
pub enum Reg {
    A,
    B,
}

impl Reg {
    /// The register's encoding.
    pub open spec fn code_s(self) -> u32 {
        match self {
            Reg::A => 0,
            Reg::B => 1,
        }
    }

    pub fn code(self) -> (r: u32)
        ensures
            r == self.code_s(),
    {
        match self {
            Reg::A => 0,
            Reg::B => 1,
        }
    }
}

/// A combinator consuming the distances in registers A and B.
#[derive(Clone, Copy, PartialEq, Eq, Structural, Debug)]
pub enum Combination {
    Union,
    Intersection,
    Subtraction,
    SmoothUnion,
    SmoothIntersection,
    SmoothSubtraction,
}

impl Combination {
    /// The combinator's operation code.
    pub open spec fn code_s(self) -> u32 {
        match self {
            Combination::Union => 1,
            Combination::Intersection => 2,
            Combination::Subtraction => 3,
            Combination::SmoothUnion => 4,
            Combination::SmoothIntersection => 5,
            Combination::SmoothSubtraction => 6,
        }
    }

    pub fn code(self) -> (r: u32)
        ensures
            r == self.code_s(),
    {
        match self {
            Combination::Union => 1,
            Combination::Intersection => 2,
            Combination::Subtraction => 3,
            Combination::SmoothUnion => 4,
            Combination::SmoothIntersection => 5,
            Combination::SmoothSubtraction => 6,
        }
    }
}

/// A shape leaf; its instruction also carries the index of an inverse
/// placement transform and the shape's parameters.
#[derive(Clone, Copy, PartialEq, Eq, Structural, Debug)]
pub enum Shape {
    Sphere,
    RectangularPrism,
}

impl Shape {
    /// The shape's operation code.
    pub open spec fn code_s(self) -> u32 {
        match self {
            Shape::Sphere => 7,
            Shape::RectangularPrism => 8,
        }
    }

    pub fn code(self) -> (r: u32)
        ensures
            r == self.code_s(),
    {
        match self {
            Shape::Sphere => 7,
            Shape::RectangularPrism => 8,
        }
    }
}

/// Pack a shape instruction with one argument word.
pub fn shape_unary(shape: Shape, out: Reg, transform_idx: u32, arg0: u32) -> (r: [u32; 4])
    ensures
        r@.len() == 4,
        r@[0] == (out.code_s() << 30u32) | shape.code_s(),
        r@[1] == transform_idx,
        r@[2] == arg0,
        r@[3] == 0,
{
    [(out.code() << 30u32) | shape.code(), transform_idx, arg0, 0]
}

/// Pack a shape instruction with two argument words.
pub fn shape_binary(shape: Shape, out: Reg, transform_idx: u32, arg0: u32, arg1: u32) -> (r:
    [u32; 4])
    ensures
        r@.len() == 4,
        r@[0] == (out.code_s() << 30u32) | shape.code_s(),
        r@[1] == transform_idx,
        r@[2] == arg0,
        r@[3] == arg1,
{
    [(out.code() << 30u32) | shape.code(), transform_idx, arg0, arg1]
}

/// Pack a combinator instruction with no arguments.
pub fn combination_nullary(comb: Combination, out: Reg) -> (r: [u32; 4])
    ensures
        r@.len() == 4,
        r@[0] == (out.code_s() << 30u32) | comb.code_s(),
        r@[1] == 0,
        r@[2] == 0,
        r@[3] == 0,
{
    [(out.code() << 30u32) | comb.code(), 0, 0, 0]
}

/// Pack a combinator instruction with one argument word.
pub fn combination_unary(comb: Combination, out: Reg, arg0: u32) -> (r: [u32; 4])
    ensures
        r@.len() == 4,
        r@[0] == (out.code_s() << 30u32) | comb.code_s(),
        r@[1] == arg0,
        r@[2] == 0,
        r@[3] == 0,
{
    [(out.code() << 30u32) | comb.code(), arg0, 0, 0]
}

} // verus!
