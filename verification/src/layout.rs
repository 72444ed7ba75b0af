//! Placement resolver: converts a symbolic anchor/offset placement on one
//! axis into a concrete pixel offset, given the extent being placed and the
//! extent it is placed inside.

use vstd::prelude::*;

verus! {

/// How to anchor a 1-D extent inside another. `Auto` defers to a
/// caller-supplied default and never reaches the final resolution.
#[derive(Clone, Copy, Debug, PartialEq, Eq, Structural)]
pub enum AxisAnchor {
    Auto,
    Center,
    /// Leave `offset` pixels of gap at the left/top edge.
    Start,
    /// Leave `offset` pixels of gap at the right/bottom edge.
    End,
}

/// An anchor with its offset in pixels (used by `Start` and `End`).
#[derive(Clone, Copy, Debug, PartialEq, Eq, Structural)]
pub struct AxisPlacement {
    pub offset: isize,
    pub anchor: AxisAnchor,
}

/// A 2-D placement: one axis placement for each of the two axes.
#[derive(Clone, Copy, Debug, PartialEq, Eq, Structural)]
pub struct Placement {
    pub horz: AxisPlacement,
    pub vert: AxisPlacement,
}

/// The placement that an `Auto` placement defers to.
pub open spec fn resolved_spec(p: AxisPlacement, auto_v: AxisPlacement) -> AxisPlacement {
    if p.anchor is Auto {
        auto_v
    } else {
        p
    }
}

/// Division by 2 truncating toward zero, as the centering rule calls for.
pub open spec fn half_toward_zero(v: int) -> int {
    if v >= 0 {
        v / 2
    } else {
        -((-v) / 2)
    }
}

/// The concrete pixel offset of a resolved placement: `Center` puts the
/// inner extent in the middle of the outer one (truncating toward zero),
/// `Start` leaves its offset at the near edge, `End` leaves its offset at
/// the far edge.
pub open spec fn resolve_axis_spec(
    p: AxisPlacement,
    auto_v: AxisPlacement,
    inner_sz: int,
    outer_sz: int,
) -> int {
    let val = resolved_spec(p, auto_v);
    match val.anchor {
        AxisAnchor::Auto => 0,
        AxisAnchor::Center => half_toward_zero(outer_sz - inner_sz),
        AxisAnchor::Start => val.offset as int,
        AxisAnchor::End => outer_sz - inner_sz - val.offset,
    }
}

/// When a placement can be resolved without arithmetic overflow: the
/// fallback actually resolves the `Auto` case, and the offset arithmetic
/// of the selected anchor stays within the machine range.
pub open spec fn resolve_axis_ok(
    p: AxisPlacement,
    auto_v: AxisPlacement,
    inner_sz: int,
    outer_sz: int,
) -> bool {
    let val = resolved_spec(p, auto_v);
    &&& !(val.anchor is Auto)
    &&& (val.anchor is Center ==> isize::MIN < outer_sz - inner_sz <= isize::MAX)
    &&& (val.anchor is End ==> isize::MIN <= outer_sz - inner_sz <= isize::MAX
        && isize::MIN <= outer_sz - inner_sz - val.offset <= isize::MAX)
}

impl AxisPlacement {
    /// Resolve this placement against a fallback for `Auto`, an inner
    /// extent (the thing being placed) and an outer extent (the space it
    /// is placed in).
    pub fn to_offset(self, auto_v: AxisPlacement, inner_sz: isize, outer_sz: isize) -> (r: isize)
        requires
            resolve_axis_ok(self, auto_v, inner_sz as int, outer_sz as int),
        ensures
            r as int == resolve_axis_spec(self, auto_v, inner_sz as int, outer_sz as int),
    {
        let val = if let AxisAnchor::Auto = self.anchor {
            auto_v
        } else {
            self
        };
        match val.anchor {
            AxisAnchor::Auto => {
                proof {
                    assert(false);
                }
                0
            },
            AxisAnchor::Center => {
                if outer_sz >= inner_sz {
                    (((outer_sz - inner_sz) as usize) / 2) as isize
                } else {
                    -((((inner_sz - outer_sz) as usize) / 2) as isize)
                }
            },
            AxisAnchor::Start => val.offset,
            AxisAnchor::End => outer_sz - inner_sz - val.offset,
        }
    }
}

pub fn make_placement(
    horz_anchor: AxisAnchor,
    horz_off: isize,
    vert_anchor: AxisAnchor,
    vert_off: isize,
) -> (p: Placement)
    ensures
        p.horz == (AxisPlacement { offset: horz_off, anchor: horz_anchor }),
        p.vert == (AxisPlacement { offset: vert_off, anchor: vert_anchor }),
{
    Placement {
        horz: AxisPlacement { offset: horz_off, anchor: horz_anchor },
        vert: AxisPlacement { offset: vert_off, anchor: vert_anchor },
    }
}

} // verus!
