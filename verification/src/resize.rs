//! From a resize directive and the size that an image has to the size it is to get.
//!
//! Sizes are scaled in single precision and the fraction of the result is cut off.
//! A side of 0 in the target is left for the encoder to choose.

use vstd::prelude::*;
use vstd::arithmetic::div_mod::{lemma_fundamental_div_mod, lemma_mod_bound};
use vstd::arithmetic::power2::{lemma2_to64, lemma_pow2_adds, lemma_pow2_pos, pow2};
use crate::options::ResizeRule;
use crate::single::{
    doubled, from_nat, lemma_doubled_is_exact, lemma_from_nat_exact, lemma_halve, lemma_parts_of,
    lemma_product_exact, lemma_quotient_exact, lemma_same_fraction, magnitude, product, quotient,
    steps, truncated, Single,
};

verus! {

/// A resize directive: the rule and the numbers that rules read.
/// A rule reads only its own numbers; the others are left at zero.
#[derive(Copy, Clone, Debug)]
pub struct ResizeArgs {
    pub rule: ResizeRule,
    /// The length in pixels that `ShortEdge` and `LongEdge` give to one side.
    pub edge_size: u32,
    /// Pixels for `Size` and `Width`, a factor for `Scale`.
    pub width: Single,
    /// Pixels for `Size` and `Height`, a factor for `Scale`.
    pub height: Single,
    /// The factor that `Scale` applies to both sides, unless it is zero.
    pub ratio: Single,
    /// A hint for the encoder; the target size does not depend on it.
    pub donot_enlarge: bool,
    pub keep_aspect_ratio: bool,
}

/// The size of an image as its data states it.
#[derive(Copy, Clone, Debug, PartialEq, Eq, Structural)]
pub struct NaturalSize {
    pub width: usize,
    pub height: usize,
}

/// The size that is asked of the encoder. A side of 0 is left to it.
#[derive(Copy, Clone, Debug, PartialEq, Eq, Structural)]
pub struct TargetSize {
    pub width: u32,
    pub height: u32,
}

/// `n` pixels times `factor`, without the fraction.
pub open spec fn scaled(n: nat, factor: u32) -> u32 {
    truncated(product(from_nat(n), factor))
}

/// `n` pixels times `edge / side`, without the fraction.
pub open spec fn scaled_to_edge(n: nat, edge: u32, side: nat) -> u32 {
    scaled(n, quotient(from_nat(edge as nat), from_nat(side)))
}

/// A number of pixels that is cut down to 32 bits.
pub open spec fn low_bits(n: usize) -> u32 {
    (n as nat % 0x1_0000_0000) as u32
}

/// Whether `ShortEdge` or `LongEdge` gives the edge size to the width. Of two
/// equal sides neither is the shorter or the longer one: the height gets it.
pub open spec fn edge_is_width(rule: ResizeRule, natural: NaturalSize) -> bool {
    if rule == ResizeRule::ShortEdge {
        natural.width < natural.height
    } else {
        natural.width > natural.height
    }
}

/// The target size that `args` ask for an image of size `natural`.
pub open spec fn target_of(args: ResizeArgs, natural: NaturalSize) -> TargetSize {
    let w = natural.width as nat;
    let h = natural.height as nat;
    match args.rule {
        ResizeRule::NoResize => TargetSize { width: 0, height: 0 },
        ResizeRule::Size => TargetSize {
            width: truncated(args.width.bits),
            height: truncated(args.height.bits),
        },
        ResizeRule::Scale => if magnitude(args.ratio.bits) != 0 {
            TargetSize { width: scaled(w, args.ratio.bits), height: scaled(h, args.ratio.bits) }
        } else {
            TargetSize { width: scaled(w, args.width.bits), height: scaled(h, args.height.bits) }
        },
        ResizeRule::ShortEdge | ResizeRule::LongEdge => if edge_is_width(args.rule, natural) {
            TargetSize {
                width: args.edge_size,
                height: if args.keep_aspect_ratio {
                    scaled_to_edge(h, args.edge_size, w)
                } else {
                    0
                },
            }
        } else {
            TargetSize {
                width: if args.keep_aspect_ratio {
                    scaled_to_edge(w, args.edge_size, h)
                } else {
                    0
                },
                height: args.edge_size,
            }
        },
        ResizeRule::Width => TargetSize {
            width: truncated(args.width.bits),
            height: if args.keep_aspect_ratio {
                0
            } else {
                low_bits(natural.height)
            },
        },
        ResizeRule::Height => TargetSize {
            width: if args.keep_aspect_ratio {
                0
            } else {
                low_bits(natural.width)
            },
            height: truncated(args.height.bits),
        },
    }
}

impl ResizeArgs {
    /// The directive that leaves an image as it is.
    pub fn new() -> (r: Self)
        ensures
            r.rule == ResizeRule::NoResize,
            r.edge_size == 0,
            r.width.bits == 0,
            r.height.bits == 0,
            r.ratio.bits == 0,
            !r.donot_enlarge,
            r.keep_aspect_ratio,
    {
        Self {
            rule: ResizeRule::NoResize,
            edge_size: 0,
            width: Single { bits: 0 },
            height: Single { bits: 0 },
            ratio: Single { bits: 0 },
            donot_enlarge: false,
            keep_aspect_ratio: true,
        }
    }
}

fn scale(n: usize, factor: Single) -> (r: u32)
    ensures
        r == scaled(n as nat, factor.bits),
{
    Single::from_u64(n as u64).times(factor).to_u32()
}

fn scale_to_edge(n: usize, edge: u32, side: usize) -> (r: u32)
    ensures
        r == scaled_to_edge(n as nat, edge, side as nat),
{
    let ratio = Single::from_u64(edge as u64).over(Single::from_u64(side as u64));
    scale(n, ratio)
}

fn cut(n: usize) -> (r: u32)
    ensures
        r == low_bits(n),
{
    ((n as u64) % 0x1_0000_0000) as u32
}

/// The target size that `args` ask for an image of size `natural`.
pub fn resolve(args: &ResizeArgs, natural: NaturalSize) -> (target: TargetSize)
    ensures
        target == target_of(*args, natural),
{
    let w = natural.width;
    let h = natural.height;
    match args.rule {
        ResizeRule::NoResize => TargetSize { width: 0, height: 0 },
        ResizeRule::Size => TargetSize {
            width: args.width.to_u32(),
            height: args.height.to_u32(),
        },
        ResizeRule::Scale => {
            if !args.ratio.is_zero() {
                TargetSize { width: scale(w, args.ratio), height: scale(h, args.ratio) }
            } else {
                TargetSize { width: scale(w, args.width), height: scale(h, args.height) }
            }
        },
        ResizeRule::ShortEdge | ResizeRule::LongEdge => {
            let set_width_to_edge_size = if args.rule == ResizeRule::ShortEdge {
                w < h
            } else {
                w > h
            };
            if set_width_to_edge_size {
                let height = if args.keep_aspect_ratio {
                    scale_to_edge(h, args.edge_size, w)
                } else {
                    0
                };
                TargetSize { width: args.edge_size, height }
            } else {
                let width = if args.keep_aspect_ratio {
                    scale_to_edge(w, args.edge_size, h)
                } else {
                    0
                };
                TargetSize { width, height: args.edge_size }
            }
        },
        ResizeRule::Width => {
            let height = if args.keep_aspect_ratio {
                0
            } else {
                cut(h)
            };
            TargetSize { width: args.width.to_u32(), height }
        },
        ResizeRule::Height => {
            let width = if args.keep_aspect_ratio {
                0
            } else {
                cut(w)
            };
            TargetSize { width, height: args.height.to_u32() }
        },
    }
}

/// With `ShortEdge` and the aspect ratio kept, the side that is shorter in the
/// image gets the edge size, and the other side is scaled by the edge size over
/// the shorter side.
pub proof fn short_edge_fixes_shorter_side(args: ResizeArgs, natural: NaturalSize)
    requires
        args.rule == ResizeRule::ShortEdge,
        args.keep_aspect_ratio,
    ensures
        natural.width < natural.height ==> target_of(args, natural) == (TargetSize {
            width: args.edge_size,
            height: scaled_to_edge(
                natural.height as nat,
                args.edge_size,
                natural.width as nat,
            ),
        }),
        natural.width >= natural.height ==> target_of(args, natural) == (TargetSize {
            width: scaled_to_edge(natural.width as nat, args.edge_size, natural.height as nat),
            height: args.edge_size,
        }),
{
}

/// Where the edge size over the side is `c / 2^j` within 24 bits, their quotient
/// in single precision is that fraction.
pub proof fn lemma_exact_ratio(edge: nat, side: nat, c: nat, j: nat)
    requires
        side > 0,
        edge * pow2(j) == c * side,
        j <= 149,
        edge < 0x100_0000,
        side < 0x100_0000,
        c < 0x100_0000,
    ensures
        doubled(c, (149 - j) as nat) < 0x7f80_0000,
        quotient(from_nat(edge), from_nat(side)) == doubled(c, (149 - j) as nat),
{
    let unit = pow2(149);
    let t = (149 - j) as nat;
    lemma_pow2_pos(149);
    lemma_pow2_adds(j, t);
    lemma_from_nat_exact(edge);
    lemma_from_nat_exact(side);
    let me = from_nat(edge);
    let ms = from_nat(side);
    let sm = steps(ms as nat);
    let se = steps(me as nat);
    assert(sm > 0) by (nonlinear_arith)
        requires
            sm == side * unit,
            side > 0,
            unit > 0,
    ;
    assert(ms != 0) by {
        lemma_parts_of(0, 0);
    }
    let r = doubled(c, t);
    lemma_doubled_is_exact(c, t);
    let sr = steps(r);
    assert(sr * sm == se * unit) by (nonlinear_arith)
        requires
            sr == c * pow2(t),
            sm == side * unit,
            se == edge * unit,
            edge * pow2(j) == c * side,
            unit == pow2(j) * pow2(t),
    ;
    lemma_quotient_exact(me, ms, r);
}

/// Where `n` times `c` is within 24 bits, `n` times the fraction `c / 2^j` in
/// single precision, with its fraction cut off, is the whole part of it.
pub proof fn lemma_exact_scaling(n: nat, c: nat, j: nat)
    requires
        j <= 149,
        n < 0x100_0000,
        c < 0x100_0000,
        n * c < 0x100_0000,
    ensures
        doubled(c, (149 - j) as nat) < 0x7f80_0000,
        scaled(n, doubled(c, (149 - j) as nat) as u32) == (n * c) / pow2(j),
{
    let unit = pow2(149);
    let t = (149 - j) as nat;
    lemma2_to64();
    lemma_pow2_pos(149);
    lemma_pow2_pos(j);
    lemma_from_nat_exact(n);
    let mn = from_nat(n);
    let r = doubled(c, t);
    lemma_doubled_is_exact(c, t);
    let p = doubled(n * c, t);
    lemma_doubled_is_exact(n * c, t);
    let sp = steps(p);
    let sn = steps(mn as nat);
    let sr = steps(r);
    assert(sp * unit == sn * sr) by (nonlinear_arith)
        requires
            sp == (n * c) * pow2(t),
            sn == n * unit,
            sr == c * pow2(t),
    ;
    lemma_product_exact(mn, r as u32, p);
    lemma_halve(n * c, t, j);
    assert(t + j == 149);
    lemma_fundamental_div_mod((n * c) as int, pow2(j) as int);
    lemma_mod_bound((n * c) as int, pow2(j) as int);
    let q = (n * c) / pow2(j);
    assert(q <= n * c) by (nonlinear_arith)
        requires
            n * c == pow2(j) * q + (n * c) % pow2(j),
            0 <= (n * c) % pow2(j),
            pow2(j) >= 1,
            q >= 0,
    ;
}

/// Scaling to an edge is exact where single precision holds every value on the
/// way: where the edge size over the side is `c / 2^j`, and the edge size, the
/// side, and `n` times `c` are within 24 bits, `n` scaled is the whole part of
/// `edge * n / side`.
pub proof fn lemma_scaled_to_edge_exact(n: nat, edge: u32, side: nat, c: nat, j: nat)
    requires
        side > 0,
        edge as nat * pow2(j) == c * side,
        j <= 149,
        edge < 0x100_0000,
        side < 0x100_0000,
        n < 0x100_0000,
        c < 0x100_0000,
        n * c < 0x100_0000,
    ensures
        scaled_to_edge(n, edge, side) == (edge as nat * n) / side,
{
    lemma_exact_ratio(edge as nat, side, c, j);
    lemma_exact_scaling(n, c, j);
    lemma_pow2_pos(j);
    assert((n * c) * side == (edge as nat * n) * pow2(j)) by (nonlinear_arith)
        requires
            edge * pow2(j) == c * side,
    ;
    lemma_same_fraction(n * c, pow2(j), edge as nat * n, side);
}

/// With `ShortEdge` and the aspect ratio kept, the other side is the whole part
/// of the edge size times that side over the shorter side wherever the scaling
/// is exact in single precision: where the edge size over the shorter side is
/// `c / 2^j`, and the sides and what is scaled are within 24 bits.
pub proof fn short_edge_keeps_aspect_ratio(args: ResizeArgs, natural: NaturalSize, c: nat, j: nat)
    requires
        args.rule == ResizeRule::ShortEdge,
        args.keep_aspect_ratio,
        j <= 149,
        c < 0x100_0000,
        args.edge_size < 0x100_0000,
        0 < natural.width < 0x100_0000,
        0 < natural.height < 0x100_0000,
        natural.width < natural.height ==> args.edge_size as nat * pow2(j) == c * natural.width
            && natural.height * c < 0x100_0000,
        natural.width >= natural.height ==> args.edge_size as nat * pow2(j) == c * natural.height
            && natural.width * c < 0x100_0000,
    ensures
        natural.width < natural.height ==> target_of(args, natural) == (TargetSize {
            width: args.edge_size,
            height: ((args.edge_size as nat * natural.height as nat) / (
            natural.width as nat)) as u32,
        }),
        natural.width >= natural.height ==> target_of(args, natural) == (TargetSize {
            width: ((args.edge_size as nat * natural.width as nat) / (
            natural.height as nat)) as u32,
            height: args.edge_size,
        }),
{
    if natural.width < natural.height {
        lemma_scaled_to_edge_exact(
            natural.height as nat,
            args.edge_size,
            natural.width as nat,
            c,
            j,
        );
    } else {
        lemma_scaled_to_edge_exact(
            natural.width as nat,
            args.edge_size,
            natural.height as nat,
            c,
            j,
        );
    }
}

/// With `Scale` and a ratio that is not zero, both sides are scaled by the
/// ratio, whatever the directive holds as width and height.
pub proof fn scale_ratio_comes_first(args: ResizeArgs, other: ResizeArgs, natural: NaturalSize)
    requires
        args.rule == ResizeRule::Scale,
        other.rule == ResizeRule::Scale,
        magnitude(args.ratio.bits) != 0,
        other.ratio == args.ratio,
    ensures
        target_of(args, natural) == (TargetSize {
            width: scaled(natural.width as nat, args.ratio.bits),
            height: scaled(natural.height as nat, args.ratio.bits),
        }),
        target_of(other, natural) == target_of(args, natural),
{
}

/// With `Size` the target is the width and the height of the directive, whatever
/// the size of the image.
pub proof fn size_ignores_natural(args: ResizeArgs, natural: NaturalSize, other: NaturalSize)
    requires
        args.rule == ResizeRule::Size,
    ensures
        target_of(args, natural) == (TargetSize {
            width: truncated(args.width.bits),
            height: truncated(args.height.bits),
        }),
        target_of(args, other) == target_of(args, natural),
{
}

/// For a square image `ShortEdge` and `LongEdge` both give the edge size to the
/// height.
pub proof fn square_fixes_height(args: ResizeArgs, natural: NaturalSize)
    requires
        args.rule == ResizeRule::ShortEdge || args.rule == ResizeRule::LongEdge,
        natural.width == natural.height,
    ensures
        target_of(args, natural).height == args.edge_size,
        target_of(args, natural).width == (if args.keep_aspect_ratio {
            scaled_to_edge(natural.width as nat, args.edge_size, natural.height as nat)
        } else {
            0
        }),
{
}

/// The target size does not depend on `donot_enlarge`.
pub proof fn donot_enlarge_is_a_hint(args: ResizeArgs, natural: NaturalSize)
    ensures
        target_of(ResizeArgs { donot_enlarge: !args.donot_enlarge, ..args }, natural) == target_of(
            args,
            natural,
        ),
{
}

} // verus!
