//! A human-readable indented listing of a CSG tree, for debugging and
//! inspection: one node per line, children led in by ASCII tree rails.
//! A presentation detail, not a wire format; parameter values are printed
//! as raw fixed-point integers.
//!
//! The listing is produced as UTF-8 bytes whose exact content is pinned by
//! [`pretty_tree_b`]; turning them into text is the caller's one
//! `String::from_utf8` away.

use vstd::prelude::*;
use vstd::string::StringSliceAdditionalSpecFns;
use crate::tree::{ConstantOrExpr, CsgNode, CsgTree, Fill, Shape};

verus! {

/// The UTF-8 bytes of a literal label.
pub open spec fn lbl(s: &str) -> Seq<u8> {
    s.spec_bytes()
}

/// Decimal digits of a nonnegative number, most significant first.
pub open spec fn dec_b(n: int) -> Seq<u8>
    decreases n,
{
    if n < 0 {
        Seq::empty()
    } else if n < 10 {
        seq![(48 + n) as u8]
    } else {
        dec_b(n / 10).push((48 + n % 10) as u8)
    }
}

/// The decimal rendering of a raw value, with a leading minus sign when
/// negative.
pub open spec fn int_b(x: int) -> Seq<u8> {
    if x < 0 {
        seq![45u8] + dec_b(-x)
    } else {
        dec_b(x)
    }
}

/// How a parameter prints: its raw value, or a placeholder for the
/// unimplemented expression slot.
pub open spec fn coe_b(c: ConstantOrExpr) -> Seq<u8> {
    match c {
        ConstantOrExpr::Constant(v) => int_b(v@),
        ConstantOrExpr::Expr => lbl("no expr specified"),
    }
}

/// How a shape leaf prints.
pub open spec fn shape_b(s: Shape) -> Seq<u8> {
    match s {
        Shape::Sphere { radius } => lbl("sphere, r = ") + coe_b(radius),
        Shape::Box { side_x, side_y, side_z } => lbl("box, sides = <") + coe_b(side_x) + lbl(
            ", ",
        ) + coe_b(side_y) + lbl(", ") + coe_b(side_z) + lbl(">"),
    }
}

/// How a fill pattern prints.
pub open spec fn fill_b(f: Fill) -> Seq<u8> {
    match f {
        Fill::Gyroid { scale, thickness } => lbl("gyroid(s = ") + coe_b(scale) + lbl(", t = ")
            + coe_b(thickness) + lbl(")"),
        Fill::SchwarzP { scale, thickness } => lbl("schwarz primitive(s = ") + coe_b(scale)
            + lbl(", t = ") + coe_b(thickness) + lbl(")"),
    }
}

/// How one node's own line prints, rails excluded.
pub open spec fn node_line_b(n: CsgNode) -> Seq<u8> {
    match n {
        CsgNode::Shape(s, of) => match of {
            Option::Some(f) => shape_b(s) + lbl(", fill = ") + fill_b(f) + lbl("\n"),
            Option::None => shape_b(s) + lbl("\n"),
        },
        CsgNode::Union { .. } => lbl("union\n"),
        CsgNode::SmoothUnion { lhs, rhs, k } => lbl("smooth union, k = ") + coe_b(k) + lbl(
            "\n",
        ),
        CsgNode::Intersection { .. } => lbl("intersection\n"),
        CsgNode::SmoothIntersection { lhs, rhs, k } => lbl("smooth intersection, k = ") + coe_b(
            k,
        ) + lbl("\n"),
        CsgNode::Subtraction { .. } => lbl("subtraction\n"),
        CsgNode::SmoothSubtraction { lhs, rhs, k } => lbl("smooth subtraction, k = ") + coe_b(
            k,
        ) + lbl("\n"),
        CsgNode::Translate { x, y, z, node } => lbl("translate by <") + coe_b(x) + lbl(", ")
            + coe_b(y) + lbl(", ") + coe_b(z) + lbl(">\n"),
        CsgNode::Rotate { roll, pitch, yaw, node } => lbl("rotate by <") + coe_b(roll) + lbl(
            ", ",
        ) + coe_b(pitch) + lbl(", ") + coe_b(yaw) + lbl(">\n"),
    }
}

/// The full listing of a subtree: the node's own line behind its rails,
/// then its children, the last one marked with a corner.
pub open spec fn pretty_node_b(n: CsgNode, indent: Seq<u8>, last: bool, top: bool) -> Seq<u8>
    decreases n,
{
    let head = if top {
        Seq::<u8>::empty()
    } else if last {
        indent + lbl(" `-")
    } else {
        indent + lbl(" |-")
    };
    let ni = if top {
        indent
    } else if last {
        indent + lbl("   ")
    } else {
        indent + lbl(" | ")
    };
    match n {
        CsgNode::Shape(s, of) => head + node_line_b(n),
        CsgNode::Union { lhs, rhs } => head + node_line_b(n) + pretty_node_b(*lhs, ni, false, false)
            + pretty_node_b(*rhs, ni, true, false),
        CsgNode::SmoothUnion { lhs, rhs, k } => head + node_line_b(n) + pretty_node_b(
            *lhs,
            ni,
            false,
            false,
        ) + pretty_node_b(*rhs, ni, true, false),
        CsgNode::Intersection { lhs, rhs } => head + node_line_b(n) + pretty_node_b(
            *lhs,
            ni,
            false,
            false,
        ) + pretty_node_b(*rhs, ni, true, false),
        CsgNode::SmoothIntersection { lhs, rhs, k } => head + node_line_b(n) + pretty_node_b(
            *lhs,
            ni,
            false,
            false,
        ) + pretty_node_b(*rhs, ni, true, false),
        CsgNode::Subtraction { lhs, rhs } => head + node_line_b(n) + pretty_node_b(
            *lhs,
            ni,
            false,
            false,
        ) + pretty_node_b(*rhs, ni, true, false),
        CsgNode::SmoothSubtraction { lhs, rhs, k } => head + node_line_b(n) + pretty_node_b(
            *lhs,
            ni,
            false,
            false,
        ) + pretty_node_b(*rhs, ni, true, false),
        CsgNode::Translate { x, y, z, node } => head + node_line_b(n) + pretty_node_b(
            *node,
            ni,
            true,
            false,
        ),
        CsgNode::Rotate { roll, pitch, yaw, node } => head + node_line_b(n) + pretty_node_b(
            *node,
            ni,
            true,
            false,
        ),
    }
}

/// The whole tree's listing, or a placeholder for an empty tree.
pub open spec fn pretty_tree_b(t: CsgTree) -> Seq<u8> {
    match t.root {
        Option::Some(n) => pretty_node_b(n, Seq::empty(), true, true),
        Option::None => lbl("empty CSG tree"),
    }
}

/// Append a literal label's bytes.
fn push_str_bytes(out: &mut Vec<u8>, s: &str)
    ensures
        final(out)@ == old(out)@ + s.spec_bytes(),
{
    let bytes: &[u8] = s.as_bytes();
    let n: usize = bytes.len();
    let mut i: usize = 0;
    while i < n
        invariant
            i <= n,
            n == bytes@.len(),
            bytes@ == s.spec_bytes(),
            out@ == old(out)@ + bytes@.take(i as int),
        decreases n - i,
    {
        out.push(bytes[i]);
        i += 1;
        proof {
            assert(old(out)@ + bytes@.take(i - 1) + seq![bytes@[i - 1]] =~= old(out)@
                + bytes@.take(i as int));
        }
    }
    proof {
        assert(bytes@.take(n as int) =~= bytes@);
    }
}

/// Append a copy of already-built bytes.
fn push_bytes(out: &mut Vec<u8>, src: &Vec<u8>)
    ensures
        final(out)@ == old(out)@ + src@,
{
    let n: usize = src.len();
    let mut i: usize = 0;
    while i < n
        invariant
            i <= n,
            n == src@.len(),
            out@ == old(out)@ + src@.take(i as int),
        decreases n - i,
    {
        out.push(src[i]);
        i += 1;
        proof {
            assert(old(out)@ + src@.take(i - 1) + seq![src@[i - 1]] =~= old(out)@ + src@.take(
                i as int,
            ));
        }
    }
    proof {
        assert(src@.take(n as int) =~= src@);
    }
}

/// Append the decimal digits of a nonnegative number.
fn push_dec(out: &mut Vec<u8>, n: u64)
    ensures
        final(out)@ == old(out)@ + dec_b(n as int),
    decreases n,
{
    if n < 10 {
        out.push(48 + n as u8);
        proof {
            assert(old(out)@.push((48 + n as int) as u8) =~= old(out)@ + dec_b(n as int));
        }
    } else {
        push_dec(out, n / 10);
        out.push(48 + (n % 10) as u8);
        proof {
            assert(old(out)@ + dec_b(n as int / 10) + seq![(48 + n as int % 10) as u8]
                =~= old(out)@ + dec_b(n as int));
        }
    }
}

/// Append a raw value, signed.
fn push_int(out: &mut Vec<u8>, x: i64)
    ensures
        final(out)@ == old(out)@ + int_b(x as int),
{
    if x < 0 {
        out.push(45);
        let m: u64 = (-(x as i128)) as u64;
        push_dec(out, m);
        proof {
            assert(old(out)@ + seq![45u8] + dec_b(m as int) =~= old(out)@ + int_b(x as int));
        }
    } else {
        push_dec(out, x as u64);
    }
}

/// Append a parameter's rendering.
fn push_coe(out: &mut Vec<u8>, c: &ConstantOrExpr)
    ensures
        final(out)@ == old(out)@ + coe_b(*c),
{
    match c {
        ConstantOrExpr::Constant(v) => {
            let raw: i64 = v.raw();
            push_int(out, raw);
        },
        ConstantOrExpr::Expr => {
            push_str_bytes(out, "no expr specified");
        },
    }
}

/// Append a shape's rendering.
fn push_shape(out: &mut Vec<u8>, s: &Shape)
    ensures
        final(out)@ == old(out)@ + shape_b(*s),
{
    match s {
        Shape::Sphere { radius } => {
            push_str_bytes(out, "sphere, r = ");
            push_coe(out, radius);
            proof {
                lemma_add_assoc(old(out)@, lbl("sphere, r = "), coe_b(*radius));
            }
        },
        Shape::Box { side_x, side_y, side_z } => {
            push_str_bytes(out, "box, sides = <");
            push_coe(out, side_x);
            proof {
                lemma_add_assoc(old(out)@, lbl("box, sides = <"), coe_b(*side_x));
            }
            push_str_bytes(out, ", ");
            proof {
                lemma_add_assoc(old(out)@, lbl("box, sides = <") + coe_b(*side_x), lbl(", "));
            }
            push_coe(out, side_y);
            proof {
                lemma_add_assoc(old(out)@, lbl("box, sides = <") + coe_b(*side_x) + lbl(", "), coe_b(*side_y));
            }
            push_str_bytes(out, ", ");
            proof {
                lemma_add_assoc(old(out)@, lbl("box, sides = <") + coe_b(*side_x) + lbl(", ") + coe_b(*side_y), lbl(", "));
            }
            push_coe(out, side_z);
            proof {
                lemma_add_assoc(old(out)@, lbl("box, sides = <") + coe_b(*side_x) + lbl(", ") + coe_b(*side_y) + lbl(", "), coe_b(*side_z));
            }
            push_str_bytes(out, ">");
            proof {
                lemma_add_assoc(old(out)@, lbl("box, sides = <") + coe_b(*side_x) + lbl(", ") + coe_b(*side_y) + lbl(", ") + coe_b(*side_z), lbl(">"));
            }
        },
    }
}

/// Append a fill's rendering.
fn push_fill(out: &mut Vec<u8>, f: &Fill)
    ensures
        final(out)@ == old(out)@ + fill_b(*f),
{
    match f {
        Fill::Gyroid { scale, thickness } => {
            push_str_bytes(out, "gyroid(s = ");
            push_coe(out, scale);
            proof {
                lemma_add_assoc(old(out)@, lbl("gyroid(s = "), coe_b(*scale));
            }
            push_str_bytes(out, ", t = ");
            proof {
                lemma_add_assoc(old(out)@, lbl("gyroid(s = ") + coe_b(*scale), lbl(", t = "));
            }
            push_coe(out, thickness);
            proof {
                lemma_add_assoc(old(out)@, lbl("gyroid(s = ") + coe_b(*scale) + lbl(", t = "), coe_b(*thickness));
            }
            push_str_bytes(out, ")");
            proof {
                lemma_add_assoc(old(out)@, lbl("gyroid(s = ") + coe_b(*scale) + lbl(", t = ") + coe_b(*thickness), lbl(")"));
            }
        },
        Fill::SchwarzP { scale, thickness } => {
            push_str_bytes(out, "schwarz primitive(s = ");
            push_coe(out, scale);
            proof {
                lemma_add_assoc(old(out)@, lbl("schwarz primitive(s = "), coe_b(*scale));
            }
            push_str_bytes(out, ", t = ");
            proof {
                lemma_add_assoc(old(out)@, lbl("schwarz primitive(s = ") + coe_b(*scale), lbl(", t = "));
            }
            push_coe(out, thickness);
            proof {
                lemma_add_assoc(old(out)@, lbl("schwarz primitive(s = ") + coe_b(*scale) + lbl(", t = "), coe_b(*thickness));
            }
            push_str_bytes(out, ")");
            proof {
                lemma_add_assoc(old(out)@, lbl("schwarz primitive(s = ") + coe_b(*scale) + lbl(", t = ") + coe_b(*thickness), lbl(")"));
            }
        },
    }
}

/// Append one node's own line, rails excluded.
fn push_node_line(out: &mut Vec<u8>, n: &CsgNode)
    ensures
        final(out)@ == old(out)@ + node_line_b(*n),
{
    match n {
        CsgNode::Shape(s, of) => {
            match of {
                Option::Some(f) => {
            push_shape(out, s);
            push_str_bytes(out, ", fill = ");
            proof {
                lemma_add_assoc(old(out)@, shape_b(*s), lbl(", fill = "));
            }
            push_fill(out, f);
            proof {
                lemma_add_assoc(old(out)@, shape_b(*s) + lbl(", fill = "), fill_b(*f));
            }
            push_str_bytes(out, "\n");
            proof {
                lemma_add_assoc(old(out)@, shape_b(*s) + lbl(", fill = ") + fill_b(*f), lbl("\n"));
            }
                },
                Option::None => {
                    push_shape(out, s);
                    push_str_bytes(out, "\n");
                    proof {
                        lemma_add_assoc(old(out)@, shape_b(*s), lbl("\n"));
                    }
                },
            }
        },
        CsgNode::Union { .. } => {
            push_str_bytes(out, "union\n");
        },
        CsgNode::SmoothUnion { lhs, rhs, k } => {
            push_str_bytes(out, "smooth union, k = ");
            push_coe(out, k);
            proof {
                lemma_add_assoc(old(out)@, lbl("smooth union, k = "), coe_b(*k));
            }
            push_str_bytes(out, "\n");
            proof {
                lemma_add_assoc(old(out)@, lbl("smooth union, k = ") + coe_b(*k), lbl("\n"));
            }
        },
        CsgNode::Intersection { .. } => {
            push_str_bytes(out, "intersection\n");
        },
        CsgNode::SmoothIntersection { lhs, rhs, k } => {
            push_str_bytes(out, "smooth intersection, k = ");
            push_coe(out, k);
            proof {
                lemma_add_assoc(old(out)@, lbl("smooth intersection, k = "), coe_b(*k));
            }
            push_str_bytes(out, "\n");
            proof {
                lemma_add_assoc(old(out)@, lbl("smooth intersection, k = ") + coe_b(*k), lbl("\n"));
            }
        },
        CsgNode::Subtraction { .. } => {
            push_str_bytes(out, "subtraction\n");
        },
        CsgNode::SmoothSubtraction { lhs, rhs, k } => {
            push_str_bytes(out, "smooth subtraction, k = ");
            push_coe(out, k);
            proof {
                lemma_add_assoc(old(out)@, lbl("smooth subtraction, k = "), coe_b(*k));
            }
            push_str_bytes(out, "\n");
            proof {
                lemma_add_assoc(old(out)@, lbl("smooth subtraction, k = ") + coe_b(*k), lbl("\n"));
            }
        },
        CsgNode::Translate { x, y, z, node } => {
            push_str_bytes(out, "translate by <");
            push_coe(out, x);
            proof {
                lemma_add_assoc(old(out)@, lbl("translate by <"), coe_b(*x));
            }
            push_str_bytes(out, ", ");
            proof {
                lemma_add_assoc(old(out)@, lbl("translate by <") + coe_b(*x), lbl(", "));
            }
            push_coe(out, y);
            proof {
                lemma_add_assoc(old(out)@, lbl("translate by <") + coe_b(*x) + lbl(", "), coe_b(*y));
            }
            push_str_bytes(out, ", ");
            proof {
                lemma_add_assoc(old(out)@, lbl("translate by <") + coe_b(*x) + lbl(", ") + coe_b(*y), lbl(", "));
            }
            push_coe(out, z);
            proof {
                lemma_add_assoc(old(out)@, lbl("translate by <") + coe_b(*x) + lbl(", ") + coe_b(*y) + lbl(", "), coe_b(*z));
            }
            push_str_bytes(out, ">\n");
            proof {
                lemma_add_assoc(old(out)@, lbl("translate by <") + coe_b(*x) + lbl(", ") + coe_b(*y) + lbl(", ") + coe_b(*z), lbl(">\n"));
            }
        },
        CsgNode::Rotate { roll, pitch, yaw, node } => {
            push_str_bytes(out, "rotate by <");
            push_coe(out, roll);
            proof {
                lemma_add_assoc(old(out)@, lbl("rotate by <"), coe_b(*roll));
            }
            push_str_bytes(out, ", ");
            proof {
                lemma_add_assoc(old(out)@, lbl("rotate by <") + coe_b(*roll), lbl(", "));
            }
            push_coe(out, pitch);
            proof {
                lemma_add_assoc(old(out)@, lbl("rotate by <") + coe_b(*roll) + lbl(", "), coe_b(*pitch));
            }
            push_str_bytes(out, ", ");
            proof {
                lemma_add_assoc(old(out)@, lbl("rotate by <") + coe_b(*roll) + lbl(", ") + coe_b(*pitch), lbl(", "));
            }
            push_coe(out, yaw);
            proof {
                lemma_add_assoc(old(out)@, lbl("rotate by <") + coe_b(*roll) + lbl(", ") + coe_b(*pitch) + lbl(", "), coe_b(*yaw));
            }
            push_str_bytes(out, ">\n");
            proof {
                lemma_add_assoc(old(out)@, lbl("rotate by <") + coe_b(*roll) + lbl(", ") + coe_b(*pitch) + lbl(", ") + coe_b(*yaw), lbl(">\n"));
            }
        },
    }
}

/// Sequence concatenation reassociates.
proof fn lemma_add_assoc(a: Seq<u8>, b: Seq<u8>, c: Seq<u8>)
    ensures
        a + b + c == a + (b + c),
{
    assert(a + b + c =~= a + (b + c));
}

/// Append a subtree's listing behind the given rails.
fn pretty_into(n: &CsgNode, out: &mut Vec<u8>, indent: &Vec<u8>, last: bool, top: bool)
    ensures
        final(out)@ == old(out)@ + pretty_node_b(*n, indent@, last, top),
    decreases *n,
{
    let ghost head: Seq<u8> = if top {
        Seq::<u8>::empty()
    } else if last {
        indent@ + lbl(" `-")
    } else {
        indent@ + lbl(" |-")
    };
    if !top {
        push_bytes(out, indent);
        if last {
            push_str_bytes(out, " `-");
        } else {
            push_str_bytes(out, " |-");
        }
        proof {
            if last {
                lemma_add_assoc(old(out)@, indent@, lbl(" `-"));
            } else {
                lemma_add_assoc(old(out)@, indent@, lbl(" |-"));
            }
        }
    } else {
        proof {
            assert(out@ =~= old(out)@ + head);
        }
    }
    let mut ni: Vec<u8> = Vec::new();
    push_bytes(&mut ni, indent);
    if !top {
        if last {
            push_str_bytes(&mut ni, "   ");
        } else {
            push_str_bytes(&mut ni, " | ");
        }
    }
    proof {
        assert(ni@ =~= (if top {
            indent@
        } else if last {
            indent@ + lbl("   ")
        } else {
            indent@ + lbl(" | ")
        }));
        assert(out@ == old(out)@ + head);
    }
    push_node_line(out, n);
    let ghost line: Seq<u8> = node_line_b(*n);
    proof {
        lemma_add_assoc(old(out)@, head, line);
        assert(out@ == old(out)@ + (head + line));
    }
    match n {
        CsgNode::Shape(s, of) => {},
        CsgNode::Union { lhs, rhs } => {
            pretty_into(lhs, out, &ni, false, false);
            proof {
                lemma_add_assoc(old(out)@, head + line, pretty_node_b(**lhs, ni@, false, false));
            }
            pretty_into(rhs, out, &ni, true, false);
            proof {
                lemma_add_assoc(
                    old(out)@,
                    head + line + pretty_node_b(**lhs, ni@, false, false),
                    pretty_node_b(**rhs, ni@, true, false),
                );
            }
        },
        CsgNode::SmoothUnion { lhs, rhs, k } => {
            pretty_into(lhs, out, &ni, false, false);
            proof {
                lemma_add_assoc(old(out)@, head + line, pretty_node_b(**lhs, ni@, false, false));
            }
            pretty_into(rhs, out, &ni, true, false);
            proof {
                lemma_add_assoc(
                    old(out)@,
                    head + line + pretty_node_b(**lhs, ni@, false, false),
                    pretty_node_b(**rhs, ni@, true, false),
                );
            }
        },
        CsgNode::Intersection { lhs, rhs } => {
            pretty_into(lhs, out, &ni, false, false);
            proof {
                lemma_add_assoc(old(out)@, head + line, pretty_node_b(**lhs, ni@, false, false));
            }
            pretty_into(rhs, out, &ni, true, false);
            proof {
                lemma_add_assoc(
                    old(out)@,
                    head + line + pretty_node_b(**lhs, ni@, false, false),
                    pretty_node_b(**rhs, ni@, true, false),
                );
            }
        },
        CsgNode::SmoothIntersection { lhs, rhs, k } => {
            pretty_into(lhs, out, &ni, false, false);
            proof {
                lemma_add_assoc(old(out)@, head + line, pretty_node_b(**lhs, ni@, false, false));
            }
            pretty_into(rhs, out, &ni, true, false);
            proof {
                lemma_add_assoc(
                    old(out)@,
                    head + line + pretty_node_b(**lhs, ni@, false, false),
                    pretty_node_b(**rhs, ni@, true, false),
                );
            }
        },
        CsgNode::Subtraction { lhs, rhs } => {
            pretty_into(lhs, out, &ni, false, false);
            proof {
                lemma_add_assoc(old(out)@, head + line, pretty_node_b(**lhs, ni@, false, false));
            }
            pretty_into(rhs, out, &ni, true, false);
            proof {
                lemma_add_assoc(
                    old(out)@,
                    head + line + pretty_node_b(**lhs, ni@, false, false),
                    pretty_node_b(**rhs, ni@, true, false),
                );
            }
        },
        CsgNode::SmoothSubtraction { lhs, rhs, k } => {
            pretty_into(lhs, out, &ni, false, false);
            proof {
                lemma_add_assoc(old(out)@, head + line, pretty_node_b(**lhs, ni@, false, false));
            }
            pretty_into(rhs, out, &ni, true, false);
            proof {
                lemma_add_assoc(
                    old(out)@,
                    head + line + pretty_node_b(**lhs, ni@, false, false),
                    pretty_node_b(**rhs, ni@, true, false),
                );
            }
        },
        CsgNode::Translate { x, y, z, node } => {
            pretty_into(node, out, &ni, true, false);
            proof {
                lemma_add_assoc(old(out)@, head + line, pretty_node_b(**node, ni@, true, false));
            }
        },
        CsgNode::Rotate { roll, pitch, yaw, node } => {
            pretty_into(node, out, &ni, true, false);
            proof {
                lemma_add_assoc(old(out)@, head + line, pretty_node_b(**node, ni@, true, false));
            }
        },
    }
}

impl CsgTree {
    /// The tree's indented listing, as UTF-8 bytes; every byte is pinned
    /// by the listing's spec.
    pub fn pretty_bytes(&self) -> (r: Vec<u8>)
        ensures
            r@ == pretty_tree_b(*self),
    {
        let mut out: Vec<u8> = Vec::new();
        match &self.root {
            Option::Some(n) => {
                let indent: Vec<u8> = Vec::new();
                pretty_into(n, &mut out, &indent, true, true);
            },
            Option::None => {
                push_str_bytes(&mut out, "empty CSG tree");
            },
        }
        proof {
            assert(out@ =~= pretty_tree_b(*self));
        }
        out
    }
}

} // verus!
