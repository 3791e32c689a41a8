use sdf_csg::arrayvec::ArrayVec;
use sdf_csg::grid::Grid;
use sdf_csg::inst::{combination_nullary, combination_unary, shape_unary, shape_binary, Combination, Reg, Shape};

#[test]
fn arrayvec_pushes_and_pops_in_stack_order() {
    let mut v: ArrayVec<u32, 4> = ArrayVec::new();
    assert_eq!(v.len(), 0);
    assert_eq!(v.capacity(), 4);
    v.push(10);
    v.push(20);
    v.push(30);
    assert_eq!(v.len(), 3);
    assert_eq!(v.pop(), 30);
    assert_eq!(v.pop(), 20);
    assert_eq!(v.len(), 1);
    v.push(40);
    assert_eq!(v.pop(), 40);
    assert_eq!(v.pop(), 10);
    assert_eq!(v.len(), 0);
}

#[test]
fn grid_indexes_row_major() {
    let data: Vec<u32> = vec![0, 1, 2, 3, 4, 5];
    let mut g = Grid::new(3, data);
    assert_eq!(*g.at(0, 0), 0);
    assert_eq!(*g.at(2, 0), 2);
    assert_eq!(*g.at(0, 1), 3);
    assert_eq!(*g.at(2, 1), 5);
    g.set(1, 1, 99);
    assert_eq!(*g.at(1, 1), 99);
    assert_eq!(*g.at(1, 0), 1);
}

#[test]
fn instruction_packing_lays_out_registers_and_codes() {
    let nullary = combination_nullary(Combination::Union, Reg::B);
    assert_eq!(nullary, [0x4000_0001, 0, 0, 0]);

    let unary = combination_unary(Combination::SmoothUnion, Reg::A, 0xdead);
    assert_eq!(unary, [4, 0xdead, 0, 0]);

    let sphere = shape_unary(Shape::Sphere, Reg::A, 2, 0x3f80_0000);
    assert_eq!(sphere, [7, 2, 0x3f80_0000, 0]);

    let prism = shape_binary(Shape::RectangularPrism, Reg::B, 5, 11, 22);
    assert_eq!(prism, [0x4000_0008, 5, 11, 22]);

    let codes = [
        (Combination::Union, 1),
        (Combination::Intersection, 2),
        (Combination::Subtraction, 3),
        (Combination::SmoothUnion, 4),
        (Combination::SmoothIntersection, 5),
        (Combination::SmoothSubtraction, 6),
    ];
    for &(c, want) in codes.iter() {
        assert_eq!(combination_nullary(c, Reg::A)[0], want);
    }
}
