//! The constructive solid geometry tree: shape leaves with optional fill
//! patterns, boolean and smooth-blend combinators, and translations,
//! evaluated recursively in any of the numeric domains.
//!
//! One spec-level semantics, [`eval_node_s`], defines the tree's value at
//! a plain point. The plain evaluator returns it exactly; the dual
//! evaluator's value component agrees with it at every point of every
//! well-formed tree; and the affine evaluator encloses it over a whole
//! region, which is the guarantee spatial pruning relies on.

use vstd::prelude::*;
use crate::fixed::{Fixed, add_s, wf_raw};
use crate::vector::Vector3;
use crate::deriv::{Deriv, Deriv3, DualS, Dual3S, dadd, dconst};
use crate::affine::{Affine, Affine3, AffS, encl, eps_ok, aconst, aadd, amin, amax, alower, ahigher};
use crate::sdf::affine::{
    sphere_a, prism_a, gyroid_a, schwarz_p_a, smooth_union_a, smooth_intersection_a,
    smooth_subtraction_a,
};
use crate::interval::Interval;
use crate::sdf::{
    union_s, intersection_s, subtraction_s, smooth_union_s, smooth_intersection_s,
    smooth_subtraction_s, sphere_s, prism_s, gyroid_s, schwarz_p_s,
};
use crate::sdf::regular;
use crate::sdf::deriv::{
    self as sdf_deriv, sphere_d, prism_d, gyroid_d, schwarz_p_d, smooth_union_d,
    smooth_intersection_d, smooth_subtraction_d,
};
use crate::sdf::affine as sdf_affine;
use crate::deriv::{dmin, dmax, dneg};

verus! {

/// A shape or operator parameter: a constant today; an expression slot is
/// reserved but not implemented, and rejected by well-formedness.
#[derive(Clone, Copy, PartialEq, Eq, Structural, Debug)]
pub enum ConstantOrExpr {
    Constant(Fixed),
    Expr,
}

impl ConstantOrExpr {
    /// A usable parameter: a constant within the scalar range.
    pub open spec fn wf(self) -> bool {
        match self {
            ConstantOrExpr::Constant(v) => wf_raw(v@),
            ConstantOrExpr::Expr => false,
        }
    }

    /// The constant's raw value.
    pub open spec fn val(self) -> int {
        match self {
            ConstantOrExpr::Constant(v) => v@,
            ConstantOrExpr::Expr => 0,
        }
    }

    /// Read the constant. Expression parameters are unimplemented and are
    /// ruled out before evaluation, so this never runs on one.
    pub fn get(&self) -> (r: Fixed)
        requires
            self.wf(),
        ensures
            r@ == self.val(),
    {
        match self {
            ConstantOrExpr::Constant(v) => *v,
            ConstantOrExpr::Expr => Fixed::zero(),
        }
    }
}

/// A shape primitive leaf.
#[derive(Clone, Copy, PartialEq, Eq, Structural, Debug)]
pub enum Shape {
    Sphere { radius: ConstantOrExpr },
    Box { side_x: ConstantOrExpr, side_y: ConstantOrExpr, side_z: ConstantOrExpr },
}

/// A fill pattern carving a periodic lattice out of a shape's interior.
#[derive(Clone, Copy, PartialEq, Eq, Structural, Debug)]
pub enum Fill {
    Gyroid { scale: ConstantOrExpr, thickness: ConstantOrExpr },
    SchwarzP { scale: ConstantOrExpr, thickness: ConstantOrExpr },
}

impl Shape {
    pub open spec fn wf(self) -> bool {
        match self {
            Shape::Sphere { radius } => radius.wf(),
            Shape::Box { side_x, side_y, side_z } => side_x.wf() && side_y.wf() && side_z.wf(),
        }
    }

    /// The shape's distance at a plain point.
    pub open spec fn sdf_s(self, px: int, py: int, pz: int) -> int {
        match self {
            Shape::Sphere { radius } => sphere_s(px, py, pz, radius.val()),
            Shape::Box { side_x, side_y, side_z } => prism_s(
                px,
                py,
                pz,
                side_x.val(),
                side_y.val(),
                side_z.val(),
            ),
        }
    }

    /// The shape's distance at a dual point.
    pub open spec fn sdf_d(self, p: Dual3S) -> DualS {
        match self {
            Shape::Sphere { radius } => sphere_d(p, radius.val()),
            Shape::Box { side_x, side_y, side_z } => prism_d(
                p,
                side_x.val(),
                side_y.val(),
                side_z.val(),
            ),
        }
    }

    /// The shape's distance over affine point components.
    pub open spec fn sdf_a(self, px: AffS, py: AffS, pz: AffS) -> AffS {
        match self {
            Shape::Sphere { radius } => sphere_a(px, py, pz, radius.val()),
            Shape::Box { side_x, side_y, side_z } => prism_a(
                px,
                py,
                pz,
                side_x.val(),
                side_y.val(),
                side_z.val(),
            ),
        }
    }

    /// Evaluate at a plain point.
    pub fn eval(&self, p: Vector3) -> (r: Fixed)
        requires
            self.wf(),
        ensures
            r@ == self.sdf_s(p.x@, p.y@, p.z@),
    {
        match self {
            Shape::Sphere { radius } => regular::sphere(p, radius.get()),
            Shape::Box { side_x, side_y, side_z } => regular::rectangular_prism(
                p,
                Vector3::new(side_x.get(), side_y.get(), side_z.get()),
            ),
        }
    }

    /// Evaluate at a dual point, carrying the gradient.
    pub fn eval_deriv(&self, p: Deriv3) -> (r: Deriv)
        requires
            self.wf(),
        ensures
            r@ == self.sdf_d(p@),
            r.v@ == self.sdf_s(p.x.v@, p.y.v@, p.z.v@),
    {
        match self {
            Shape::Sphere { radius } => sdf_deriv::sphere(p, radius.get()),
            Shape::Box { side_x, side_y, side_z } => sdf_deriv::rectangular_prism(
                p,
                Vector3::new(side_x.get(), side_y.get(), side_z.get()),
            ),
        }
    }

    /// Evaluate over an affine region, enclosing every plain value.
    pub fn eval_affine(&self, p: Affine3) -> (r: Affine)
        requires
            self.wf(),
            p.wf(),
        ensures
            r.wf(),
            r@ == self.sdf_a(p.x@, p.y@, p.z@),
            forall|en: int, ed: int, px: int, py: int, pz: int|
                eps_ok(en, ed) && #[trigger] p.encl3(en, ed, px, py, pz) ==> encl(
                    r@,
                    en,
                    ed,
                    self.sdf_s(px, py, pz),
                ),
    {
        match self {
            Shape::Sphere { radius } => sdf_affine::sphere(p, radius.get()),
            Shape::Box { side_x, side_y, side_z } => sdf_affine::rectangular_prism(
                p,
                Vector3::new(side_x.get(), side_y.get(), side_z.get()),
            ),
        }
    }
}

impl Fill {
    /// A usable fill: constant parameters, with a nonzero scale so the
    /// pattern's rescaling divisions are defined (a negative scale simply
    /// mirrors the pattern).
    pub open spec fn wf(self) -> bool {
        match self {
            Fill::Gyroid { scale, thickness } => scale.wf() && thickness.wf() && scale.val()
                != 0,
            Fill::SchwarzP { scale, thickness } => scale.wf() && thickness.wf() && scale.val()
                != 0,
        }
    }

    /// The fill's distance at a plain point.
    pub open spec fn sdf_s(self, px: int, py: int, pz: int) -> int {
        match self {
            Fill::Gyroid { scale, thickness } => gyroid_s(
                px,
                py,
                pz,
                scale.val(),
                thickness.val(),
            ),
            Fill::SchwarzP { scale, thickness } => schwarz_p_s(
                px,
                py,
                pz,
                scale.val(),
                thickness.val(),
            ),
        }
    }

    /// The fill's distance at a dual point.
    pub open spec fn sdf_d(self, p: Dual3S) -> DualS {
        match self {
            Fill::Gyroid { scale, thickness } => gyroid_d(p, scale.val(), thickness.val()),
            Fill::SchwarzP { scale, thickness } => schwarz_p_d(p, scale.val(), thickness.val()),
        }
    }

    /// The fill's distance over affine point components.
    pub open spec fn sdf_a(self, px: AffS, py: AffS, pz: AffS) -> AffS {
        match self {
            Fill::Gyroid { scale, thickness } => gyroid_a(
                px,
                py,
                pz,
                scale.val(),
                thickness.val(),
            ),
            Fill::SchwarzP { scale, thickness } => schwarz_p_a(
                px,
                py,
                pz,
                scale.val(),
                thickness.val(),
            ),
        }
    }

    /// Evaluate at a plain point.
    pub fn eval(&self, p: Vector3) -> (r: Fixed)
        requires
            self.wf(),
        ensures
            r@ == self.sdf_s(p.x@, p.y@, p.z@),
    {
        match self {
            Fill::Gyroid { scale, thickness } => regular::gyroid(p, scale.get(), thickness.get()),
            Fill::SchwarzP { scale, thickness } => regular::schwarz_p(
                p,
                scale.get(),
                thickness.get(),
            ),
        }
    }

    /// Evaluate at a dual point, carrying the gradient.
    pub fn eval_deriv(&self, p: Deriv3) -> (r: Deriv)
        requires
            self.wf(),
        ensures
            r@ == self.sdf_d(p@),
            r.v@ == self.sdf_s(p.x.v@, p.y.v@, p.z.v@),
    {
        match self {
            Fill::Gyroid { scale, thickness } => sdf_deriv::gyroid(
                p,
                scale.get(),
                thickness.get(),
            ),
            Fill::SchwarzP { scale, thickness } => sdf_deriv::schwarz_p(
                p,
                scale.get(),
                thickness.get(),
            ),
        }
    }

    /// Evaluate over an affine region, enclosing every plain value.
    pub fn eval_affine(&self, p: Affine3) -> (r: Affine)
        requires
            self.wf(),
            p.wf(),
        ensures
            r.wf(),
            r@ == self.sdf_a(p.x@, p.y@, p.z@),
            forall|en: int, ed: int, px: int, py: int, pz: int|
                eps_ok(en, ed) && #[trigger] p.encl3(en, ed, px, py, pz) ==> encl(
                    r@,
                    en,
                    ed,
                    self.sdf_s(px, py, pz),
                ),
    {
        match self {
            Fill::Gyroid { scale, thickness } => sdf_affine::gyroid(
                p,
                scale.get(),
                thickness.get(),
            ),
            Fill::SchwarzP { scale, thickness } => sdf_affine::schwarz_p(
                p,
                scale.get(),
                thickness.get(),
            ),
        }
    }
}

/// A node of the CSG tree: a shape leaf with an optional fill, a boolean
/// or smooth-blend combinator, or a transform of a subtree.
#[derive(Debug)]
pub enum CsgNode {
    Shape(Shape, Option<Fill>),
    Union { lhs: Box<CsgNode>, rhs: Box<CsgNode> },
    SmoothUnion { lhs: Box<CsgNode>, rhs: Box<CsgNode>, k: ConstantOrExpr },
    Intersection { lhs: Box<CsgNode>, rhs: Box<CsgNode> },
    SmoothIntersection { lhs: Box<CsgNode>, rhs: Box<CsgNode>, k: ConstantOrExpr },
    Subtraction { lhs: Box<CsgNode>, rhs: Box<CsgNode> },
    SmoothSubtraction { lhs: Box<CsgNode>, rhs: Box<CsgNode>, k: ConstantOrExpr },
    Translate { x: ConstantOrExpr, y: ConstantOrExpr, z: ConstantOrExpr, node: Box<CsgNode> },
    Rotate {
        roll: ConstantOrExpr,
        pitch: ConstantOrExpr,
        yaw: ConstantOrExpr,
        node: Box<CsgNode>,
    },
}

/// A tree the evaluators accept: every parameter is a constant in range,
/// every blend radius is positive, and no node is an unimplemented
/// rotation.
pub open spec fn node_wf(n: CsgNode) -> bool
    decreases n,
{
    match n {
        CsgNode::Shape(s, of) => s.wf() && match of {
            Option::Some(f) => f.wf(),
            Option::None => true,
        },
        CsgNode::Union { lhs, rhs } => node_wf(*lhs) && node_wf(*rhs),
        CsgNode::SmoothUnion { lhs, rhs, k } => node_wf(*lhs) && node_wf(*rhs) && k.wf()
            && k.val() > 0,
        CsgNode::Intersection { lhs, rhs } => node_wf(*lhs) && node_wf(*rhs),
        CsgNode::SmoothIntersection { lhs, rhs, k } => node_wf(*lhs) && node_wf(*rhs) && k.wf()
            && k.val() > 0,
        CsgNode::Subtraction { lhs, rhs } => node_wf(*lhs) && node_wf(*rhs),
        CsgNode::SmoothSubtraction { lhs, rhs, k } => node_wf(*lhs) && node_wf(*rhs) && k.wf()
            && k.val() > 0,
        CsgNode::Translate { x, y, z, node } => x.wf() && y.wf() && z.wf() && node_wf(*node),
        CsgNode::Rotate { .. } => false,
    }
}

/// The plain semantics of a tree at a point: the one meaning every
/// evaluation domain is held to.
pub open spec fn eval_node_s(n: CsgNode, px: int, py: int, pz: int) -> int
    decreases n,
{
    match n {
        CsgNode::Shape(s, of) => match of {
            Option::Some(f) => intersection_s(s.sdf_s(px, py, pz), f.sdf_s(px, py, pz)),
            Option::None => s.sdf_s(px, py, pz),
        },
        CsgNode::Union { lhs, rhs } => union_s(
            eval_node_s(*lhs, px, py, pz),
            eval_node_s(*rhs, px, py, pz),
        ),
        CsgNode::SmoothUnion { lhs, rhs, k } => smooth_union_s(
            eval_node_s(*lhs, px, py, pz),
            eval_node_s(*rhs, px, py, pz),
            k.val(),
        ),
        CsgNode::Intersection { lhs, rhs } => intersection_s(
            eval_node_s(*lhs, px, py, pz),
            eval_node_s(*rhs, px, py, pz),
        ),
        CsgNode::SmoothIntersection { lhs, rhs, k } => smooth_intersection_s(
            eval_node_s(*lhs, px, py, pz),
            eval_node_s(*rhs, px, py, pz),
            k.val(),
        ),
        CsgNode::Subtraction { lhs, rhs } => subtraction_s(
            eval_node_s(*lhs, px, py, pz),
            eval_node_s(*rhs, px, py, pz),
        ),
        CsgNode::SmoothSubtraction { lhs, rhs, k } => smooth_subtraction_s(
            eval_node_s(*lhs, px, py, pz),
            eval_node_s(*rhs, px, py, pz),
            k.val(),
        ),
        CsgNode::Translate { x, y, z, node } => eval_node_s(
            *node,
            add_s(px, x.val()),
            add_s(py, y.val()),
            add_s(pz, z.val()),
        ),
        CsgNode::Rotate { .. } => 0,
    }
}

/// The dual semantics of a tree at a dual point.
pub open spec fn eval_node_d(n: CsgNode, p: Dual3S) -> DualS
    decreases n,
{
    match n {
        CsgNode::Shape(s, of) => match of {
            Option::Some(f) => dmax(s.sdf_d(p), f.sdf_d(p)),
            Option::None => s.sdf_d(p),
        },
        CsgNode::Union { lhs, rhs } => dmin(eval_node_d(*lhs, p), eval_node_d(*rhs, p)),
        CsgNode::SmoothUnion { lhs, rhs, k } => smooth_union_d(
            eval_node_d(*lhs, p),
            eval_node_d(*rhs, p),
            k.val(),
        ),
        CsgNode::Intersection { lhs, rhs } => dmax(eval_node_d(*lhs, p), eval_node_d(*rhs, p)),
        CsgNode::SmoothIntersection { lhs, rhs, k } => smooth_intersection_d(
            eval_node_d(*lhs, p),
            eval_node_d(*rhs, p),
            k.val(),
        ),
        CsgNode::Subtraction { lhs, rhs } => dmax(
            dneg(eval_node_d(*lhs, p)),
            eval_node_d(*rhs, p),
        ),
        CsgNode::SmoothSubtraction { lhs, rhs, k } => smooth_subtraction_d(
            eval_node_d(*lhs, p),
            eval_node_d(*rhs, p),
            k.val(),
        ),
        CsgNode::Translate { x, y, z, node } => eval_node_d(
            *node,
            Dual3S {
                x: dadd(p.x, dconst(x.val())),
                y: dadd(p.y, dconst(y.val())),
                z: dadd(p.z, dconst(z.val())),
            },
        ),
        CsgNode::Rotate { .. } => dconst(0),
    }
}

/// The affine semantics of a tree over affine point components: the form
/// each affine evaluation returns.
pub open spec fn eval_node_a(n: CsgNode, px: AffS, py: AffS, pz: AffS) -> AffS
    decreases n,
{
    match n {
        CsgNode::Shape(s, of) => match of {
            Option::Some(f) => amax(s.sdf_a(px, py, pz), f.sdf_a(px, py, pz)),
            Option::None => s.sdf_a(px, py, pz),
        },
        CsgNode::Union { lhs, rhs } => amin(
            eval_node_a(*lhs, px, py, pz),
            eval_node_a(*rhs, px, py, pz),
        ),
        CsgNode::SmoothUnion { lhs, rhs, k } => smooth_union_a(
            eval_node_a(*lhs, px, py, pz),
            eval_node_a(*rhs, px, py, pz),
            k.val(),
        ),
        CsgNode::Intersection { lhs, rhs } => amax(
            eval_node_a(*lhs, px, py, pz),
            eval_node_a(*rhs, px, py, pz),
        ),
        CsgNode::SmoothIntersection { lhs, rhs, k } => smooth_intersection_a(
            eval_node_a(*lhs, px, py, pz),
            eval_node_a(*rhs, px, py, pz),
            k.val(),
        ),
        CsgNode::Subtraction { lhs, rhs } => amax(
            crate::affine::aneg(eval_node_a(*lhs, px, py, pz)),
            eval_node_a(*rhs, px, py, pz),
        ),
        CsgNode::SmoothSubtraction { lhs, rhs, k } => smooth_subtraction_a(
            eval_node_a(*lhs, px, py, pz),
            eval_node_a(*rhs, px, py, pz),
            k.val(),
        ),
        CsgNode::Translate { x, y, z, node } => eval_node_a(
            *node,
            aadd(px, aconst(x.val())),
            aadd(py, aconst(y.val())),
            aadd(pz, aconst(z.val())),
        ),
        CsgNode::Rotate { .. } => aconst(0),
    }
}

impl CsgNode {
    /// Check whether this tree can be evaluated: all parameters constant
    /// and in range, blend radii positive, and no rotations.
    pub fn is_well_formed(&self) -> (r: bool)
        ensures
            r == node_wf(*self),
        decreases *self,
    {
        match self {
            CsgNode::Shape(s, of) => {
                let sw = match s {
                    Shape::Sphere { radius } => radius.is_usable(),
                    Shape::Box { side_x, side_y, side_z } => side_x.is_usable()
                        && side_y.is_usable() && side_z.is_usable(),
                };
                let fw = match of {
                    Option::Some(f) => match f {
                        Fill::Gyroid { scale, thickness } => scale.is_usable()
                            && thickness.is_usable() && scale.get_or_zero() != 0,
                        Fill::SchwarzP { scale, thickness } => scale.is_usable()
                            && thickness.is_usable() && scale.get_or_zero() != 0,
                    },
                    Option::None => true,
                };
                sw && fw
            },
            CsgNode::Union { lhs, rhs } => lhs.is_well_formed() && rhs.is_well_formed(),
            CsgNode::SmoothUnion { lhs, rhs, k } => lhs.is_well_formed() && rhs.is_well_formed()
                && k.is_usable() && k.get_or_zero() > 0,
            CsgNode::Intersection { lhs, rhs } => lhs.is_well_formed() && rhs.is_well_formed(),
            CsgNode::SmoothIntersection { lhs, rhs, k } => lhs.is_well_formed()
                && rhs.is_well_formed() && k.is_usable() && k.get_or_zero() > 0,
            CsgNode::Subtraction { lhs, rhs } => lhs.is_well_formed() && rhs.is_well_formed(),
            CsgNode::SmoothSubtraction { lhs, rhs, k } => lhs.is_well_formed()
                && rhs.is_well_formed() && k.is_usable() && k.get_or_zero() > 0,
            CsgNode::Translate { x, y, z, node } => x.is_usable() && y.is_usable()
                && z.is_usable() && node.is_well_formed(),
            CsgNode::Rotate { .. } => false,
        }
    }

    /// Evaluate at a plain point: exactly the tree's spec-level meaning.
    pub fn eval(&self, p: Vector3) -> (r: Fixed)
        requires
            node_wf(*self),
        ensures
            r@ == eval_node_s(*self, p.x@, p.y@, p.z@),
        decreases *self,
    {
        match self {
            CsgNode::Shape(s, of) => {
                let sv = s.eval(p);
                match of {
                    Option::Some(f) => regular::intersection(sv, f.eval(p)),
                    Option::None => sv,
                }
            },
            CsgNode::Union { lhs, rhs } => regular::union(lhs.eval(p), rhs.eval(p)),
            CsgNode::SmoothUnion { lhs, rhs, k } => regular::smooth_union(
                lhs.eval(p),
                rhs.eval(p),
                k.get(),
            ),
            CsgNode::Intersection { lhs, rhs } => regular::intersection(
                lhs.eval(p),
                rhs.eval(p),
            ),
            CsgNode::SmoothIntersection { lhs, rhs, k } => regular::smooth_intersection(
                lhs.eval(p),
                rhs.eval(p),
                k.get(),
            ),
            CsgNode::Subtraction { lhs, rhs } => regular::subtraction(lhs.eval(p), rhs.eval(p)),
            CsgNode::SmoothSubtraction { lhs, rhs, k } => regular::smooth_subtraction(
                lhs.eval(p),
                rhs.eval(p),
                k.get(),
            ),
            CsgNode::Translate { x, y, z, node } => node.eval(
                p.add(Vector3::new(x.get(), y.get(), z.get())),
            ),
            CsgNode::Rotate { .. } => Fixed::zero(),
        }
    }

    /// Evaluate at a dual point, carrying the gradient for surface
    /// normals; the value component agrees with the plain evaluation.
    pub fn eval_deriv(&self, p: Deriv3) -> (r: Deriv)
        requires
            node_wf(*self),
        ensures
            r@ == eval_node_d(*self, p@),
        decreases *self,
    {
        match self {
            CsgNode::Shape(s, of) => {
                let sv = s.eval_deriv(p);
                match of {
                    Option::Some(f) => sdf_deriv::intersection(sv, f.eval_deriv(p)),
                    Option::None => sv,
                }
            },
            CsgNode::Union { lhs, rhs } => sdf_deriv::union(lhs.eval_deriv(p), rhs.eval_deriv(p)),
            CsgNode::SmoothUnion { lhs, rhs, k } => sdf_deriv::smooth_union(
                lhs.eval_deriv(p),
                rhs.eval_deriv(p),
                k.get(),
            ),
            CsgNode::Intersection { lhs, rhs } => sdf_deriv::intersection(
                lhs.eval_deriv(p),
                rhs.eval_deriv(p),
            ),
            CsgNode::SmoothIntersection { lhs, rhs, k } => sdf_deriv::smooth_intersection(
                lhs.eval_deriv(p),
                rhs.eval_deriv(p),
                k.get(),
            ),
            CsgNode::Subtraction { lhs, rhs } => sdf_deriv::subtraction(
                lhs.eval_deriv(p),
                rhs.eval_deriv(p),
            ),
            CsgNode::SmoothSubtraction { lhs, rhs, k } => sdf_deriv::smooth_subtraction(
                lhs.eval_deriv(p),
                rhs.eval_deriv(p),
                k.get(),
            ),
            CsgNode::Translate { x, y, z, node } => node.eval_deriv(
                p.add_vector(Vector3::new(x.get(), y.get(), z.get())),
            ),
            CsgNode::Rotate { .. } => Deriv::zero(),
        }
    }

    /// Evaluate over an affine region: the result encloses the plain
    /// evaluation at every point the region encloses, at every shared
    /// noise value. This is the contract spatial pruning relies on.
    pub fn eval_affine(&self, p: Affine3) -> (r: Affine)
        requires
            node_wf(*self),
            p.wf(),
        ensures
            r.wf(),
            r@ == eval_node_a(*self, p.x@, p.y@, p.z@),
            forall|en: int, ed: int, px: int, py: int, pz: int|
                eps_ok(en, ed) && #[trigger] p.encl3(en, ed, px, py, pz) ==> encl(
                    r@,
                    en,
                    ed,
                    eval_node_s(*self, px, py, pz),
                ),
        decreases *self,
    {
        match self {
            CsgNode::Shape(s, of) => {
                let sv = s.eval_affine(p);
                match of {
                    Option::Some(f) => {
                        let fv = f.eval_affine(p);
                        let res = sdf_affine::intersection(sv, fv);
                        res.0
                    },
                    Option::None => sv,
                }
            },
            CsgNode::Union { lhs, rhs } => {
                let a = lhs.eval_affine(p);
                let b = rhs.eval_affine(p);
                let res = sdf_affine::union(a, b);
                res.0
            },
            CsgNode::SmoothUnion { lhs, rhs, k } => {
                let a = lhs.eval_affine(p);
                let b = rhs.eval_affine(p);
                sdf_affine::smooth_union(a, b, k.get())
            },
            CsgNode::Intersection { lhs, rhs } => {
                let a = lhs.eval_affine(p);
                let b = rhs.eval_affine(p);
                let res = sdf_affine::intersection(a, b);
                res.0
            },
            CsgNode::SmoothIntersection { lhs, rhs, k } => {
                let a = lhs.eval_affine(p);
                let b = rhs.eval_affine(p);
                sdf_affine::smooth_intersection(a, b, k.get())
            },
            CsgNode::Subtraction { lhs, rhs } => {
                let a = lhs.eval_affine(p);
                let b = rhs.eval_affine(p);
                let res = sdf_affine::subtraction(a, b);
                res.0
            },
            CsgNode::SmoothSubtraction { lhs, rhs, k } => {
                let a = lhs.eval_affine(p);
                let b = rhs.eval_affine(p);
                sdf_affine::smooth_subtraction(a, b, k.get())
            },
            CsgNode::Translate { x, y, z, node } => node.eval_affine(
                p.add_vector(Vector3::new(x.get(), y.get(), z.get())),
            ),
            CsgNode::Rotate { .. } => Affine::new(Fixed::zero()),
        }
    }
}

impl ConstantOrExpr {
    /// Whether this parameter is a usable constant.
    pub fn is_usable(&self) -> (r: bool)
        ensures
            r == self.wf(),
    {
        match self {
            ConstantOrExpr::Constant(v) => {
                let raw: i64 = v.raw();
                -crate::fixed::MAX_RAW <= raw && raw <= crate::fixed::MAX_RAW
            },
            ConstantOrExpr::Expr => false,
        }
    }

    /// The constant's raw value, or zero for an expression slot.
    pub fn get_or_zero(&self) -> (r: i64)
        ensures
            r as int == self.val(),
    {
        match self {
            ConstantOrExpr::Constant(v) => v.raw(),
            ConstantOrExpr::Expr => 0,
        }
    }
}

/// A constructive solid geometry tree.
#[derive(Debug)]
pub struct CsgTree {
    pub root: Option<CsgNode>,
}

impl CsgTree {
    /// The tree is evaluable: it has a root and the root is well formed.
    pub open spec fn wf(self) -> bool {
        match self.root {
            Option::Some(n) => node_wf(n),
            Option::None => false,
        }
    }

    /// The tree's plain value at a point.
    pub open spec fn value_at(self, px: int, py: int, pz: int) -> int {
        eval_node_s(self.root->Some_0, px, py, pz)
    }

    /// The example scene: a sphere smoothly joined with a gyroid-filled
    /// box, all united with a plain box.
    pub fn new_example() -> (r: CsgTree)
        ensures
            r.wf(),
            is_example_scene(r),
    {
        let one = ConstantOrExpr::Constant(Fixed::from_int(1));
        let sphere_node = CsgNode::Shape(Shape::Sphere { radius: one }, None);
        let filled_box = CsgNode::Shape(
            Shape::Box { side_x: one, side_y: one, side_z: one },
            Some(
                Fill::Gyroid {
                    scale: ConstantOrExpr::Constant(Fixed::from_int(10)),
                    thickness: ConstantOrExpr::Constant(Fixed::from_raw(1311)),
                },
            ),
        );
        let plain_box = CsgNode::Shape(Shape::Box { side_x: one, side_y: one, side_z: one }, None);
        proof {
            assert(node_wf(sphere_node));
            assert(node_wf(filled_box));
            assert(node_wf(plain_box));
        }
        let blend = CsgNode::SmoothUnion {
            lhs: Box::new(sphere_node),
            rhs: Box::new(filled_box),
            k: ConstantOrExpr::Constant(Fixed::from_raw(26214)),
        };
        proof {
            assert(node_wf(blend));
        }
        CsgTree { root: Some(CsgNode::Union { lhs: Box::new(blend), rhs: Box::new(plain_box) }) }
    }

    /// Check whether this tree can be evaluated.
    pub fn is_well_formed(&self) -> (r: bool)
        ensures
            r == self.wf(),
    {
        match &self.root {
            Option::Some(n) => n.is_well_formed(),
            Option::None => false,
        }
    }

    /// Evaluate at a plain point.
    pub fn eval(&self, p: Vector3) -> (r: Fixed)
        requires
            self.wf(),
        ensures
            r@ == self.value_at(p.x@, p.y@, p.z@),
    {
        match &self.root {
            Option::Some(n) => n.eval(p),
            Option::None => Fixed::zero(),
        }
    }

    /// Evaluate at a dual point, for surface normals.
    pub fn eval_deriv(&self, p: Deriv3) -> (r: Deriv)
        requires
            self.wf(),
        ensures
            r@ == eval_node_d(self.root->Some_0, p@),
    {
        match &self.root {
            Option::Some(n) => n.eval_deriv(p),
            Option::None => Deriv::zero(),
        }
    }

    /// Evaluate over an affine region.
    pub fn eval_affine(&self, p: Affine3) -> (r: Affine)
        requires
            self.wf(),
            p.wf(),
        ensures
            r.wf(),
            r@ == eval_node_a(self.root->Some_0, p.x@, p.y@, p.z@),
            forall|en: int, ed: int, px: int, py: int, pz: int|
                eps_ok(en, ed) && #[trigger] p.encl3(en, ed, px, py, pz) ==> encl(
                    r@,
                    en,
                    ed,
                    self.value_at(px, py, pz),
                ),
    {
        match &self.root {
            Option::Some(n) => n.eval_affine(p),
            Option::None => Affine::new(Fixed::zero()),
        }
    }

    /// Evaluate over a rectangular region: the returned interval contains
    /// the tree's plain value at every point of the box, so a spatial
    /// pruner may discard the box when the interval excludes zero.
    pub fn eval_region(&self, ix: Interval, iy: Interval, iz: Interval) -> (r: Interval)
        requires
            self.wf(),
            ix.wf(),
            iy.wf(),
            iz.wf(),
        ensures
            r.wf(),
            ({
                let e = eval_node_a(
                    self.root->Some_0,
                    crate::affine::afrom_bounds(ix.low@, ix.high@),
                    crate::affine::afrom_bounds(iy.low@, iy.high@),
                    crate::affine::afrom_bounds(iz.low@, iz.high@),
                );
                r.low@ == alower(e) && r.high@ == ahigher(e)
            }),
            forall|px: int, py: int, pz: int|
                ix.contains(px) && iy.contains(py) && iz.contains(pz) ==> r.contains(
                    #[trigger] self.value_at(px, py, pz),
                ),
    {
        let p = Affine3::from_intervals(ix, iy, iz);
        let a = self.eval_affine(p);
        let r = a.into_interval();
        proof {
            assert forall|px: int, py: int, pz: int|
                ix.contains(px) && iy.contains(py) && iz.contains(pz) implies r.contains(
                #[trigger] self.value_at(px, py, pz),
            ) by {
                assert(eps_ok(0, 1));
                assert(p.encl3(0, 1, px, py, pz));
                assert(encl(a@, 0, 1, self.value_at(px, py, pz)));
            }
        }
        r
    }
}

/// The example scene's sphere leaf: radius one.
pub open spec fn example_sphere() -> CsgNode {
    CsgNode::Shape(
        Shape::Sphere { radius: ConstantOrExpr::Constant(Fixed { raw: 65536 }) },
        Option::None,
    )
}

/// The example scene's gyroid-filled unit box: sides one, fill scale ten,
/// fill thickness two hundredths of a unit.
pub open spec fn example_filled_box() -> CsgNode {
    CsgNode::Shape(
        Shape::Box {
            side_x: ConstantOrExpr::Constant(Fixed { raw: 65536 }),
            side_y: ConstantOrExpr::Constant(Fixed { raw: 65536 }),
            side_z: ConstantOrExpr::Constant(Fixed { raw: 65536 }),
        },
        Option::Some(
            Fill::Gyroid {
                scale: ConstantOrExpr::Constant(Fixed { raw: 655360 }),
                thickness: ConstantOrExpr::Constant(Fixed { raw: 1311 }),
            },
        ),
    )
}

/// The example scene's plain unit box leaf.
pub open spec fn example_plain_box() -> CsgNode {
    CsgNode::Shape(
        Shape::Box {
            side_x: ConstantOrExpr::Constant(Fixed { raw: 65536 }),
            side_y: ConstantOrExpr::Constant(Fixed { raw: 65536 }),
            side_z: ConstantOrExpr::Constant(Fixed { raw: 65536 }),
        },
        Option::None,
    )
}

/// The tree is exactly the example scene: the sphere smooth-united
/// (blend radius four tenths) with the gyroid-filled box, united with
/// the plain box.
pub open spec fn is_example_scene(t: CsgTree) -> bool {
    &&& t.root is Some
    &&& t.root->Some_0 matches CsgNode::Union { lhs, rhs }
        && (*lhs matches CsgNode::SmoothUnion { lhs: bl, rhs: br, k }
            && *bl == example_sphere()
            && *br == example_filled_box()
            && k == ConstantOrExpr::Constant(Fixed { raw: 26214 }))
        && *rhs == example_plain_box()
}

/// A shape's dual value component is its plain distance.
pub proof fn lemma_shape_dual_value(s: Shape, p: Dual3S)
    ensures
        s.sdf_d(p).v == s.sdf_s(p.x.v, p.y.v, p.z.v),
{
    match s {
        Shape::Sphere { radius } => {
            sdf_deriv::lemma_sphere_d_value(p, radius.val());
        },
        Shape::Box { side_x, side_y, side_z } => {
            sdf_deriv::lemma_prism_d_value(p, side_x.val(), side_y.val(), side_z.val());
        },
    }
}

/// A fill's dual value component is its plain distance.
pub proof fn lemma_fill_dual_value(f: Fill, p: Dual3S)
    ensures
        f.sdf_d(p).v == f.sdf_s(p.x.v, p.y.v, p.z.v),
{
    match f {
        Fill::Gyroid { scale, thickness } => {
            sdf_deriv::lemma_gyroid_d_value(p, scale.val(), thickness.val());
        },
        Fill::SchwarzP { scale, thickness } => {
            sdf_deriv::lemma_schwarz_p_d_value(p, scale.val(), thickness.val());
        },
    }
}

/// Domain agreement: at every point of every well-formed tree, the dual
/// evaluation's value component is exactly the plain evaluation.
pub proof fn lemma_eval_dual_value(n: CsgNode, p: Dual3S)
    requires
        node_wf(n),
    ensures
        eval_node_d(n, p).v == eval_node_s(n, p.x.v, p.y.v, p.z.v),
    decreases n,
{
    match n {
        CsgNode::Shape(s, of) => {
            lemma_shape_dual_value(s, p);
            match of {
                Option::Some(f) => {
                    lemma_fill_dual_value(f, p);
                },
                Option::None => {},
            }
        },
        CsgNode::Union { lhs, rhs } => {
            lemma_eval_dual_value(*lhs, p);
            lemma_eval_dual_value(*rhs, p);
        },
        CsgNode::SmoothUnion { lhs, rhs, k } => {
            lemma_eval_dual_value(*lhs, p);
            lemma_eval_dual_value(*rhs, p);
            sdf_deriv::lemma_smooth_union_d_value(
                eval_node_d(*lhs, p),
                eval_node_d(*rhs, p),
                k.val(),
            );
        },
        CsgNode::Intersection { lhs, rhs } => {
            lemma_eval_dual_value(*lhs, p);
            lemma_eval_dual_value(*rhs, p);
        },
        CsgNode::SmoothIntersection { lhs, rhs, k } => {
            lemma_eval_dual_value(*lhs, p);
            lemma_eval_dual_value(*rhs, p);
            sdf_deriv::lemma_smooth_intersection_d_value(
                eval_node_d(*lhs, p),
                eval_node_d(*rhs, p),
                k.val(),
            );
        },
        CsgNode::Subtraction { lhs, rhs } => {
            lemma_eval_dual_value(*lhs, p);
            lemma_eval_dual_value(*rhs, p);
        },
        CsgNode::SmoothSubtraction { lhs, rhs, k } => {
            lemma_eval_dual_value(*lhs, p);
            lemma_eval_dual_value(*rhs, p);
            sdf_deriv::lemma_smooth_subtraction_d_value(
                eval_node_d(*lhs, p),
                eval_node_d(*rhs, p),
                k.val(),
            );
        },
        CsgNode::Translate { x, y, z, node } => {
            lemma_eval_dual_value(
                *node,
                Dual3S {
                    x: dadd(p.x, dconst(x.val())),
                    y: dadd(p.y, dconst(y.val())),
                    z: dadd(p.z, dconst(z.val())),
                },
            );
        },
        CsgNode::Rotate { .. } => {},
    }
}

/// Translating by the zero vector is the identity transform.
pub proof fn lemma_translate_zero_identity(n: CsgNode, px: int, py: int, pz: int)
    requires
        node_wf(n),
        wf_raw(px),
        wf_raw(py),
        wf_raw(pz),
    ensures
        (forall|child: Box<CsgNode>|
            #[trigger] eval_node_s(
                CsgNode::Translate {
                    x: ConstantOrExpr::Constant(Fixed { raw: 0 }),
                    y: ConstantOrExpr::Constant(Fixed { raw: 0 }),
                    z: ConstantOrExpr::Constant(Fixed { raw: 0 }),
                    node: child,
                },
                px,
                py,
                pz,
            ) == eval_node_s(*child, px, py, pz)),
{
    assert forall|child: Box<CsgNode>|
        #[trigger] eval_node_s(
            CsgNode::Translate {
                x: ConstantOrExpr::Constant(Fixed { raw: 0 }),
                y: ConstantOrExpr::Constant(Fixed { raw: 0 }),
                z: ConstantOrExpr::Constant(Fixed { raw: 0 }),
                node: child,
            },
            px,
            py,
            pz,
        ) == eval_node_s(*child, px, py, pz) by {
        assert(add_s(px, 0) == px);
        assert(add_s(py, 0) == py);
        assert(add_s(pz, 0) == pz);
    }
}

} // verus!
