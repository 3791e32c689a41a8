use sdf_csg::fixed::{Fixed, FRAC};
use sdf_csg::vector::Vector3;
use sdf_csg::deriv::Deriv3;
use sdf_csg::affine::Affine3;
use sdf_csg::interval::{interval, Interval};
use sdf_csg::sdf::regular;
use sdf_csg::tree::{ConstantOrExpr, CsgNode, CsgTree, Shape};

fn point(x: i64, y: i64, z: i64) -> Vector3 {
    Vector3::new(Fixed::from_raw(x), Fixed::from_raw(y), Fixed::from_raw(z))
}

#[test]
fn dual_sphere_gradient_is_unit_direction() {
    // At p = (3, 4, 0) the sphere's gradient is p / |p| = (0.6, 0.8, 0),
    // computed here to within one raw fixed-point unit.
    let p = Deriv3::new_xyz(point(3 * FRAC, 4 * FRAC, 0));
    let d = sdf_csg::sdf::deriv::sphere(p, Fixed::from_int(1));
    assert_eq!(d.v.raw(), 4 * FRAC);
    let g = d.derivatives();
    assert_eq!(g.x.raw(), 39321); // 0.6 rounded down by one raw unit
    assert_eq!(g.y.raw(), 52428); // 0.8 rounded down by one raw unit
    assert_eq!(g.z.raw(), 0);
}

#[test]
fn end_to_end_example_scene() {
    // The example scene: (sphere smooth-united with a gyroid-filled box),
    // united with a plain box. Inside at the origin, exactly on the outer
    // box's face at (1, 0, 0), and outside at (3, 0, 0).
    let tree = CsgTree::new_example();
    assert!(tree.is_well_formed());

    let at_origin = tree.eval(point(0, 0, 0));
    assert_eq!(at_origin.raw(), -FRAC);

    let on_face = tree.eval(point(FRAC, 0, 0));
    assert_eq!(on_face.raw(), 0);

    let outside = tree.eval(point(3 * FRAC, 0, 0));
    assert!(outside.raw() > 0);
    assert_eq!(outside.raw(), 126358);
}

#[test]
fn domain_agreement_on_example_scene() {
    // The dual evaluation's value component matches the plain evaluation
    // at every probed point, and the affine evaluation of the exact point
    // brackets it.
    let tree = CsgTree::new_example();
    let probes: [(i64, i64, i64); 5] = [
        (0, 0, 0),
        (FRAC, 0, 0),
        (FRAC / 4, -FRAC / 2, 3 * FRAC / 4),
        (3 * FRAC, 0, 0),
        (-FRAC, FRAC, -FRAC / 3),
    ];
    for &(x, y, z) in probes.iter() {
        let plain = tree.eval(point(x, y, z));
        let dual = tree.eval_deriv(Deriv3::new_xyz(point(x, y, z)));
        assert_eq!(dual.v.raw(), plain.raw());

        let enclosure = tree.eval_affine(Affine3::new(point(x, y, z))).into_interval();
        assert!(enclosure.low.raw() <= plain.raw());
        assert!(plain.raw() <= enclosure.high.raw());
    }
}

#[test]
fn sample_point_value() {
    let tree = CsgTree::new_example();
    let v = tree.eval(point(FRAC / 4, -FRAC / 2, 3 * FRAC / 4));
    assert_eq!(v.raw(), -16384);
}

#[test]
fn translate_by_zero_is_identity() {
    let zero = ConstantOrExpr::Constant(Fixed::zero());
    let one = ConstantOrExpr::Constant(Fixed::from_int(1));
    let shifted = CsgTree {
        root: Some(CsgNode::Translate {
            x: zero,
            y: zero,
            z: zero,
            node: Box::new(CsgNode::Shape(Shape::Sphere { radius: one }, None)),
        }),
    };
    let bare = CsgTree {
        root: Some(CsgNode::Shape(Shape::Sphere { radius: one }, None)),
    };
    let probes: [(i64, i64, i64); 3] = [(0, 0, 0), (FRAC, FRAC, -FRAC), (12345, -678, 9000)];
    for &(x, y, z) in probes.iter() {
        assert_eq!(
            shifted.eval(point(x, y, z)).raw(),
            bare.eval(point(x, y, z)).raw()
        );
    }
}

#[test]
fn union_is_idempotent_on_values() {
    let probes: [i64; 4] = [0, FRAC, -3 * FRAC, 7777];
    for &v in probes.iter() {
        let a = Fixed::from_raw(v);
        assert_eq!(regular::union(a, a), a);
    }
}

#[test]
fn smooth_union_dips_between_equal_surfaces() {
    // At a == b the blend weight is one half, and the result dips below
    // the hard union by k * (1/2) * (1/2).
    let k = Fixed::from_raw(26214); // 0.4
    let r = regular::smooth_union(Fixed::zero(), Fixed::zero(), k);
    assert_eq!(r.raw(), -6553);
}

#[test]
fn smooth_operators_mirror_the_union() {
    // The smooth intersection is the sign-mirrored smooth union, and the
    // smooth subtraction is the smooth intersection with the left
    // exterior: checked here on concrete values.
    let k = Fixed::from_raw(26214);
    let probes: [(i64, i64); 4] = [(0, 0), (FRAC, -FRAC), (-12345, 678), (FRAC / 2, FRAC / 3)];
    for &(a, b) in probes.iter() {
        let x = Fixed::from_raw(a);
        let y = Fixed::from_raw(b);
        assert_eq!(
            regular::smooth_intersection(x, y, k),
            regular::smooth_union(x.neg(), y.neg(), k).neg()
        );
        assert_eq!(
            regular::smooth_subtraction(x, y, k),
            regular::smooth_intersection(x.neg(), y, k)
        );
    }
}

#[test]
fn region_evaluation_prunes_far_boxes() {
    // A region well outside the unit sphere gets a strictly positive
    // enclosure, so a pruner may discard it; and the enclosure contains
    // the plain value at points inside the region.
    let sphere = CsgTree {
        root: Some(CsgNode::Shape(
            Shape::Sphere { radius: ConstantOrExpr::Constant(Fixed::from_int(1)) },
            None,
        )),
    };
    let ix = interval(Fixed::from_int(2), Fixed::from_int(3));
    let iy = Interval::exact(Fixed::zero());
    let iz = Interval::exact(Fixed::zero());
    let bound = sphere.eval_region(ix, iy, iz);
    assert!(bound.low.raw() > 0);

    let inside = sphere.eval(point(5 * FRAC / 2, 0, 0));
    assert!(bound.low.raw() <= inside.raw() && inside.raw() <= bound.high.raw());
}

#[test]
fn cylinder_matches_prism_reduction() {
    // On the axis, the cylinder of height h and radius r is r deep at the
    // origin ... the radial term dominates away from it.
    let h = Fixed::from_int(2);
    let r = Fixed::from_int(1);
    let at_origin = regular::cylinder(point(0, 0, 0), h, r);
    assert_eq!(at_origin.raw(), -FRAC);
    let outside = regular::cylinder(point(4 * FRAC, 0, 0), h, r);
    assert_eq!(outside.raw(), 2 * FRAC);
}

#[test]
fn pretty_listing_of_example_scene() {
    let tree = CsgTree::new_example();
    let listing = String::from_utf8(tree.pretty_bytes()).unwrap();
    let expected = "union\n |-smooth union, k = 26214\n |  |-sphere, r = 65536\n |  `-box, sides = <65536, 65536, 65536>, fill = gyroid(s = 655360, t = 1311)\n `-box, sides = <65536, 65536, 65536>\n";
    assert_eq!(listing, expected);

    let empty = CsgTree { root: None };
    assert_eq!(String::from_utf8(empty.pretty_bytes()).unwrap(), "empty CSG tree");
}
