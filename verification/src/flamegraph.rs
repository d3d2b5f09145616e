//! The flame-graph layout.
//!
//! A pure function from a trace index snapshot to drawing primitives.
//! Horizontal extents are in nanoseconds; vertical extents in points.
//! The shell maps nanoseconds to screen points with the view transform
//! of this module and draws the primitives.

use vstd::prelude::*;

use crate::data::SpanId;
use crate::fmt::spec_span_description;
use crate::span_tree::{SpanTree, SpanTreeV, TimeInterval, all_times, direct_children};
use vstd::string::StrSliceExecFns;

verus! {

broadcast use vstd::std_specs::hash::group_hash_axioms;

// ---------------------------------------------------------------------------
// Saturating signed addition, used where a degenerate trace could push
// coordinates past the integer range.

pub open spec fn spec_sat_add(a: int, b: int) -> int {
    if a + b > i64::MAX {
        i64::MAX as int
    } else if a + b < i64::MIN {
        i64::MIN as int
    } else {
        a + b
    }
}

/// Saturating addition as a 64-bit value.
pub open spec fn sat_add_i64(a: i64, b: i64) -> i64 {
    spec_sat_add(a as int, b as int) as i64
}

pub fn sat_add(a: i64, b: i64) -> (r: i64)
    ensures
        r as int == spec_sat_add(a as int, b as int),
        r == sat_add_i64(a, b),
{
    match a.checked_add(b) {
        Some(x) => x,
        None => if b > 0 {
            i64::MAX
        } else {
            i64::MIN
        },
    }
}

// ---------------------------------------------------------------------------
// The skyline placer: packs the bounding boxes of root blocks top-down
// without overlap.

/// An axis-aligned box; `x` in nanoseconds, `y` in points.
#[derive(Clone, Copy, Debug, PartialEq, Eq, Structural)]
pub struct PlacedBox {
    pub min_x: i64,
    pub min_y: i64,
    pub max_x: i64,
    pub max_y: i64,
}

/// True when the interiors of `a` and `b` do not intersect.
pub open spec fn boxes_disjoint(a: PlacedBox, b: PlacedBox) -> bool {
    ||| a.max_x <= b.min_x
    ||| b.max_x <= a.min_x
    ||| a.max_y <= b.min_y
    ||| b.max_y <= a.min_y
}

/// The top edge for a block spanning `min_x..`, over the first `k`
/// placed boxes: the bottom of every block whose right edge lies to
/// the right of `min_x`, plus the spacing; at least the base line.
pub open spec fn skyline_top(
    boxes: Seq<PlacedBox>,
    base_y: i64,
    spacing: i64,
    min_x: i64,
    k: int,
) -> i64
    decreases k,
{
    if k <= 0 {
        base_y
    } else {
        let prev = skyline_top(boxes, base_y, spacing, min_x, k - 1);
        let b = boxes[k - 1];
        let cand = sat_add_i64(b.max_y, spacing);
        if b.max_x > min_x && cand > prev {
            cand
        } else {
            prev
        }
    }
}

/// Packs each new root block under every already-placed block that its
/// horizontal extent could touch.
pub struct RootPlacer {
    pub boxes: Vec<PlacedBox>,
    /// Where the first block goes.
    pub base_y: i64,
    /// Vertical gap kept between stacked blocks.
    pub spacing: i64,
}

impl RootPlacer {
    /// Placement non-overlap: the boxes placed so far are pairwise
    /// non-intersecting.
    pub open spec fn wf(self) -> bool {
        &&& self.spacing >= 0
        &&& self.base_y >= 0
        &&& forall|i: int, j: int|
            0 <= i < j < self.boxes@.len() ==> boxes_disjoint(
                #[trigger] self.boxes@[i],
                #[trigger] self.boxes@[j],
            )
        &&& forall|i: int|
            0 <= i < self.boxes@.len() ==> (#[trigger] self.boxes@[i]).min_y
                <= self.boxes@[i].max_y
    }

    /// The top edge the placer gives a block spanning `min_x..`.
    pub open spec fn spec_top(self, min_x: i64) -> i64 {
        skyline_top(self.boxes@, self.base_y, self.spacing, min_x, self.boxes@.len() as int)
    }

    pub fn new(base_y: i64, spacing: i64) -> (r: RootPlacer)
        requires
            base_y >= 0,
            spacing >= 0,
        ensures
            r.wf(),
            r.boxes@.len() == 0,
            r.base_y == base_y,
            r.spacing == spacing,
    {
        RootPlacer { boxes: Vec::new(), base_y, spacing }
    }

    /// Places a block spanning `min_x..max_x` with the given height:
    /// its top edge is the maximum bottom edge of every placed block
    /// whose right edge lies right of `min_x`, plus the spacing. The
    /// placed boxes stay pairwise non-intersecting.
    pub fn place(&mut self, min_x: i64, max_x: i64, height: i64) -> (top_y: i64)
        requires
            old(self).wf(),
            min_x <= max_x,
            height >= 0,
        ensures
            final(self).wf(),
            top_y == old(self).spec_top(min_x),
            final(self).base_y == old(self).base_y,
            final(self).spacing == old(self).spacing,
            final(self).boxes@ == old(self).boxes@.push(
                PlacedBox { min_x, min_y: top_y, max_x, max_y: sat_add_i64(top_y, height) },
            ),
    {
        let mut top: i64 = self.base_y;
        let mut k: usize = 0;
        while k < self.boxes.len()
            invariant
                k <= self.boxes@.len(),
                top == skyline_top(self.boxes@, self.base_y, self.spacing, min_x, k as int),
                top >= self.base_y,
                forall|i: int|
                    0 <= i < k && (#[trigger] self.boxes@[i]).max_x > min_x ==> spec_sat_add(
                        self.boxes@[i].max_y as int,
                        self.spacing as int,
                    ) <= top as int,
            decreases self.boxes@.len() - k,
        {
            let b = self.boxes[k];
            if b.max_x > min_x {
                let cand = sat_add(b.max_y, self.spacing);
                if cand > top {
                    top = cand;
                }
            }
            k = k + 1;
        }
        let bottom = sat_add(top, height);
        let newbox = PlacedBox { min_x, min_y: top, max_x, max_y: bottom };
        proof {
            assert forall|i: int|
                0 <= i < self.boxes@.len() implies boxes_disjoint(
                #[trigger] self.boxes@[i],
                newbox,
            ) by {
                let b = self.boxes@[i];
                if b.max_x > min_x {
                    assert(spec_sat_add(b.max_y as int, self.spacing as int) <= top as int);
                    assert(b.max_y <= top);
                }
            }
        }
        self.boxes.push(newbox);
        top
    }
}

/// Placement non-overlap: any two boxes a well-formed placer has placed
/// are non-intersecting, even enlarged by zero.
pub proof fn lemma_placement_non_overlap(p: RootPlacer, i: int, j: int)
    requires
        p.wf(),
        0 <= i < p.boxes@.len(),
        0 <= j < p.boxes@.len(),
        i != j,
    ensures
        boxes_disjoint(p.boxes@[i], p.boxes@[j]),
{
    if i < j {
    } else {
        assert(boxes_disjoint(p.boxes@[j], p.boxes@[i]));
    }
}

// ---------------------------------------------------------------------------
// The view transform: where a nanosecond lands on the canvas.
//
// The x position of `ns` is the exact rational
//
//   canvas_min_x + (canvas_width * (ns - min_ns) + pan) / width_ns
//
// with `pan` a pan offset in nanosecond-point units, so a zoom can
// keep its pivot without rounding.

pub struct ZoomView {
    /// Left edge of the canvas, in points.
    pub canvas_min_x: i64,
    /// Width of the canvas, in points.
    pub canvas_width: i64,
    /// The earliest observed nanosecond.
    pub min_ns: i64,
    /// How many nanoseconds the canvas spans.
    pub width_ns: i64,
    /// Sideways pan, in point-nanoseconds.
    pub pan: i128,
}

impl ZoomView {
    pub open spec fn wf(self) -> bool {
        &&& self.canvas_width > 0
        &&& self.width_ns > 0
    }

    /// The numerator of the exact x position of `ns`, over the
    /// denominator `width_ns`.
    pub open spec fn pos_num(self, ns: int) -> int {
        self.canvas_min_x * self.width_ns + self.canvas_width * (ns - self.min_ns) + self.pan
    }

    /// The zoomed view: the time span becomes `new_width_ns`, pivoting
    /// on the pointer at `dx` points right of the canvas edge.
    pub open spec fn spec_zoom(self, new_width_ns: i64, dx: int) -> ZoomView {
        ZoomView {
            width_ns: new_width_ns,
            pan: (self.pan + dx * (new_width_ns - self.width_ns)) as i128,
            ..self
        }
    }

    /// Applies a zoom. The pointer sits `dx` points right of the canvas
    /// edge; the new time span is `new_width_ns`. The zoom succeeds
    /// whenever the new pan fits the integer range, and otherwise
    /// declines and changes nothing.
    pub fn zoom(&mut self, new_width_ns: i64, dx: i64) -> (r: bool)
        requires
            old(self).wf(),
            new_width_ns > 0,
        ensures
            i128::MIN <= old(self).pan + dx * (new_width_ns - old(self).width_ns) <= i128::MAX
                ==> r,
            r ==> *final(self) == old(self).spec_zoom(new_width_ns, dx as int),
            r ==> final(self).pan == old(self).pan + dx * (new_width_ns - old(self).width_ns),
            !r ==> *final(self) == *old(self),
            final(self).wf(),
    {
        let diff = (new_width_ns as i128) - (self.width_ns as i128);
        proof {
            // The product of a point offset and a width difference
            // always fits: both factors are 64-bit values.
            assert(diff == new_width_ns - old(self).width_ns);
            assert((dx as int) * (diff as int) <= i128::MAX && i128::MIN <= (dx as int) * (
            diff as int)) by (nonlinear_arith)
                requires
                    -0x8000_0000_0000_0000 <= dx as int <= 0x7fff_ffff_ffff_ffff,
                    -0x8000_0000_0000_0000 <= diff as int <= 0xffff_ffff_ffff_ffff,
            ;
        }
        let delta = match (dx as i128).checked_mul(diff) {
            Some(d) => d,
            None => {
                return false;
            },
        };
        match self.pan.checked_add(delta) {
            Some(pan2) => {
                self.pan = pan2;
                self.width_ns = new_width_ns;
                true
            },
            None => false,
        }
    }
}

/// Zoom pivot: the nanosecond under the pointer before a zoom is still
/// under the pointer after it. `ns_p` sits at pixel `canvas_min_x + dx`
/// exactly when its position numerator is that pixel times the
/// denominator; the law says this is preserved with the new
/// denominator.
pub proof fn lemma_zoom_pivot(v: ZoomView, new_width_ns: i64, dx: int, ns_p: int)
    requires
        v.wf(),
        new_width_ns > 0,
        i128::MIN <= v.pan + dx * (new_width_ns - v.width_ns) <= i128::MAX,
        v.pos_num(ns_p) == (v.canvas_min_x + dx) * v.width_ns,
    ensures
        v.spec_zoom(new_width_ns, dx).pos_num(ns_p) == (v.canvas_min_x + dx)
            * v.spec_zoom(new_width_ns, dx).width_ns,
{
    let v2 = v.spec_zoom(new_width_ns, dx);
    assert(v2.pan == v.pan + dx * (new_width_ns - v.width_ns));
    assert(v2.pos_num(ns_p) == v.canvas_min_x * new_width_ns + v.canvas_width * (ns_p - v.min_ns)
        + v.pan + dx * (new_width_ns - v.width_ns));
    assert(v.canvas_width * (ns_p - v.min_ns) + v.pan == v.canvas_min_x * v.width_ns + dx
        * v.width_ns - v.canvas_min_x * v.width_ns + dx * (new_width_ns - v.width_ns) - dx * (
    new_width_ns - v.width_ns)) by {
        assert((v.canvas_min_x + dx) * v.width_ns == v.canvas_min_x * v.width_ns + dx * v.width_ns)
            by (nonlinear_arith);
    }
    assert(v2.pos_num(ns_p) == v.canvas_min_x * new_width_ns + dx * v.width_ns + dx * (
    new_width_ns - v.width_ns));
    assert(dx * v.width_ns + dx * (new_width_ns - v.width_ns) == dx * new_width_ns)
        by (nonlinear_arith);
    assert((v.canvas_min_x + dx) * new_width_ns == v.canvas_min_x * new_width_ns + dx
        * new_width_ns) by (nonlinear_arith);
}

// ---------------------------------------------------------------------------
// The timeline ruler's numeric rules.

/// The grid spacing reached from `s`: multiplied by ten until at most
/// `max_lines` grid lines fit in the window, capped where a further
/// step would leave the nanosecond range.
pub open spec fn spec_grid_spacing(width_ns: int, max_lines: int, s: int) -> int
    decreases 1_000_000_000_000_000_000 - s,
    when 0 < s <= 1_000_000_000_000_000_000
{
    if width_ns <= max_lines * s || s > 100_000_000_000_000_000 {
        s
    } else {
        spec_grid_spacing(width_ns, max_lines, s * 10)
    }
}

/// The grid spacing in nanoseconds: the smallest power of ten times a
/// thousand such that at most `max_lines` lines fit in the window.
pub fn grid_spacing_ns(width_ns: i64, max_lines: i64) -> (r: i64)
    requires
        width_ns >= 0,
        max_lines >= 1,
    ensures
        r as int == spec_grid_spacing(width_ns as int, max_lines as int, 1000),
{
    let mut s: i64 = 1000;
    loop
        invariant
            1000 <= s <= 1_000_000_000_000_000_000,
            width_ns >= 0,
            max_lines >= 1,
            spec_grid_spacing(width_ns as int, max_lines as int, 1000) == spec_grid_spacing(
                width_ns as int,
                max_lines as int,
                s as int,
            ),
        decreases 1_000_000_000_000_000_000 - s,
    {
        proof {
            vstd::arithmetic::mul::lemma_mul_upper_bound(
                max_lines as int,
                i64::MAX as int,
                s as int,
                1_000_000_000_000_000_000,
            );
        }
        let fits = (width_ns as i128) <= (max_lines as i128) * (s as i128);
        if fits || s > 100_000_000_000_000_000 {
            return s;
        }
        s = s * 10;
    }
}

/// How prominent the grid line at `grid_ns` is: 2 on multiples of a
/// hundred spacings, 1 on multiples of ten spacings, else 0. Labels
/// appear only on the two upper tiers.
pub fn grid_line_tier(grid_ns: i64, spacing: i64) -> (r: u8)
    requires
        grid_ns >= 0,
        spacing >= 1,
    ensures
        r == 2 <==> grid_ns as int % (spacing as int * 100) == 0,
        r == 1 <==> (grid_ns as int % (spacing as int * 10) == 0 && grid_ns as int % (
        spacing as int * 100) != 0),
        r == 0 || r == 1 || r == 2,
{
    let big = (grid_ns as i128) % ((spacing as i128) * 100) == 0;
    let medium = (grid_ns as i128) % ((spacing as i128) * 10) == 0;
    if big {
        2
    } else if medium {
        1
    } else {
        0
    }
}

/// How many decimals the millisecond label of the line at `grid_ns`
/// carries: whole milliseconds get none, and each finer power of ten
/// one more.
pub fn grid_text_decimals(grid_ns: i64) -> (r: u8)
    requires
        grid_ns >= 0,
    ensures
        r == 0 <==> grid_ns as int % 1_000_000 == 0,
        r == 1 <==> grid_ns as int % 100_000 == 0 && grid_ns as int % 1_000_000 != 0,
        r == 2 <==> grid_ns as int % 10_000 == 0 && grid_ns as int % 100_000 != 0,
        r == 3 <==> grid_ns as int % 10_000 != 0,
{
    if grid_ns % 1_000_000 == 0 {
        0
    } else if grid_ns % 100_000 == 0 {
        1
    } else if grid_ns % 10_000 == 0 {
        2
    } else {
        3
    }
}

/// How a block of the given width in points is drawn: dropped below the
/// cull width, as a thin vertical line below the minimum width, else as
/// a full rectangle.
pub enum BlockVisibility {
    Culled,
    ThinLine,
    Full,
}

pub fn block_visibility(width: i64, cull_width: i64, min_width: i64) -> (r: BlockVisibility)
    ensures
        r is Culled <==> width < cull_width,
        r is ThinLine <==> cull_width <= width && width <= min_width,
        r is Full <==> width > min_width && width >= cull_width,
{
    if width < cull_width {
        BlockVisibility::Culled
    } else if width <= min_width {
        BlockVisibility::ThinLine
    } else {
        BlockVisibility::Full
    }
}

// ---------------------------------------------------------------------------
// Case-insensitive filtering.

/// What `str::to_lowercase` returns; it depends on the characters
/// alone.
pub uninterp spec fn lower_of(s: Seq<char>) -> Seq<char>;

/// Relies on `str::to_lowercase`: the lowercase form of the string, a
/// pure function of its characters; an empty string stays empty.
#[verifier::external_body]
fn to_lowercase(s: &str) -> (r: String)
    ensures
        r@ == lower_of(s@),
        s@.len() == 0 ==> r@.len() == 0,
{
    s.to_lowercase()
}

/// True when `h` holds `n` as a contiguous run starting at `i`.
pub open spec fn is_substring_at(n: Seq<char>, h: Seq<char>, i: int) -> bool {
    0 <= i && i + n.len() <= h.len() && h.subrange(i, i + n.len()) == n
}

/// True when `h` holds `n` as a contiguous run.
pub open spec fn is_substring(n: Seq<char>, h: Seq<char>) -> bool {
    exists|i: int| is_substring_at(n, h, i)
}

/// Substring search over characters.
pub fn contains_sub(needle: &str, hay: &str) -> (r: bool)
    ensures
        r == is_substring(needle@, hay@),
{
    let n = needle.unicode_len();
    let h = hay.unicode_len();
    if n == 0 {
        proof {
            assert(hay@.subrange(0, 0) =~= needle@);
            assert(is_substring_at(needle@, hay@, 0));
        }
        return true;
    }
    if n > h {
        return false;
    }
    let mut i: usize = 0;
    while i <= h - n
        invariant
            n == needle@.len(),
            h == hay@.len(),
            0 < n <= h,
            i <= h - n + 1,
            forall|w: int| 0 <= w < i ==> !is_substring_at(needle@, hay@, w),
        decreases h - n + 1 - i,
    {
        let mut j: usize = 0;
        let mut matched = true;
        while matched && j < n
            invariant
                n == needle@.len(),
                h == hay@.len(),
                0 < n <= h,
                i + n <= h,
                j <= n,
                matched ==> forall|w: int| 0 <= w < j ==> hay@[i + w] == needle@[w],
                !matched ==> j < n && hay@[i + j] != needle@[j as int],
            decreases n - j, (if matched { 1int } else { 0int }),
        {
            if hay.get_char(i + j) != needle.get_char(j) {
                matched = false;
            } else {
                j = j + 1;
            }
        }
        if matched {
            proof {
                assert(hay@.subrange(i as int, i + n) =~= needle@);
                assert(is_substring_at(needle@, hay@, i as int));
            }
            return true;
        }
        proof {
            assert(!is_substring_at(needle@, hay@, i as int)) by {
                if is_substring_at(needle@, hay@, i as int) {
                    assert(hay@.subrange(i as int, i + n)[j as int] == hay@[i + j]);
                }
            }
        }
        i = i + 1;
    }
    proof {
        assert forall|w: int| is_substring_at(needle@, hay@, w) implies false by {
            assert(0 <= w < i || w + n > h);
        }
    }
    false
}

// ---------------------------------------------------------------------------
// Lifetime estimation: the horizontal extent a span is drawn with.

pub open spec fn int_min(a: i64, b: i64) -> i64 {
    if a < b {
        a
    } else {
        b
    }
}

pub open spec fn int_max(a: i64, b: i64) -> i64 {
    if a < b {
        b
    } else {
        a
    }
}

/// The estimated extent of the span `id`: its lifetime where known,
/// else its first and last interval endpoints and events, else the
/// extent of its children, to a recursion depth of `fuel`. An unknown
/// bound stays at its extreme sentinel.
pub open spec fn spec_estimate(v: SpanTreeV, id: u64, fuel: nat) -> (i64, i64)
    decreases fuel, 0int, 0int,
{
    if !v.nodes.dom().contains(id) {
        (i64::MAX, i64::MIN)
    } else {
        let b = old_mn_mx(v, id);
        if (b.0 == i64::MAX || b.1 == i64::MIN) && fuel > 0 {
            spec_estimate_kids(
                v,
                v.nodes[id].children,
                v.nodes[id].children.len() as int,
                (fuel - 1) as nat,
                b.0,
                b.1,
            )
        } else {
            b
        }
    }
}

/// Folds the estimates of the first `k` children into `(mn, mx)`.
pub open spec fn spec_estimate_kids(
    v: SpanTreeV,
    kids: Seq<SpanId>,
    k: int,
    fuel: nat,
    mn: i64,
    mx: i64,
) -> (i64, i64)
    decreases fuel, k, 1int,
{
    if k <= 0 {
        (mn, mx)
    } else {
        let prev = spec_estimate_kids(v, kids, k - 1, fuel, mn, mx);
        let c = spec_estimate(v, kids[k - 1].0, fuel);
        (int_min(prev.0, c.0), int_max(prev.1, c.1))
    }
}

impl SpanTree {
    /// The extent the span is drawn with: the lifetime where known,
    /// else interval and event endpoints, else the extent of the
    /// children. The sentinels `i64::MAX` and `i64::MIN` mark bounds
    /// that nothing determined.
    pub fn estimate_lifetime(&self, id: SpanId) -> (r: (i64, i64))
        ensures
            r == spec_estimate(self@, id.0, self.ids@.len() as nat),
    {
        self.estimate_fuel(id, self.ids.len())
    }

    fn estimate_fuel(&self, id: SpanId, fuel: usize) -> (r: (i64, i64))
        ensures
            r == spec_estimate(self@, id.0, fuel as nat),
        decreases fuel, 0int, 0int,
    {
        let node = match self.nodes.get(&id.0) {
            None => {
                return (i64::MAX, i64::MIN);
            },
            Some(node) => node,
        };
        let mut mn: i64 = match node.lifetime.min {
            Some(t) => t.0,
            None => i64::MAX,
        };
        let mut mx: i64 = match node.lifetime.max {
            Some(t) => t.0,
            None => i64::MIN,
        };
        if mn == i64::MAX {
            if node.intervals.len() > 0 {
                if let Some(t) = node.intervals[0].min {
                    if t.0 < mn {
                        mn = t.0;
                    }
                }
            }
            if node.events.len() > 0 {
                let t = node.events[0].0;
                if t.0 < mn {
                    mn = t.0;
                }
            }
        }
        if mx == i64::MIN {
            if node.intervals.len() > 0 {
                if let Some(t) = node.intervals[node.intervals.len() - 1].max {
                    if t.0 > mx {
                        mx = t.0;
                    }
                }
            }
            if node.events.len() > 0 {
                let t = node.events[node.events.len() - 1].0;
                if t.0 > mx {
                    mx = t.0;
                }
            }
        }
        let ghost base = (mn, mx);
        proof {
            assert(base == old_mn_mx(self@, id.0));
        }
        if (mn == i64::MAX || mx == i64::MIN) && fuel > 0 {
            let mut k: usize = 0;
            while k < node.children.len()
                invariant
                    k <= node.children@.len(),
                    fuel >= 1,
                    node@ == self@.nodes[id.0],
                    (mn, mx) == spec_estimate_kids(
                        self@,
                        node@.children,
                        k as int,
                        (fuel - 1) as nat,
                        base.0,
                        base.1,
                    ),
                decreases node.children@.len() - k,
            {
                let c = self.estimate_fuel(node.children[k], fuel - 1);
                if c.0 < mn {
                    mn = c.0;
                }
                if c.1 > mx {
                    mx = c.1;
                }
                k = k + 1;
            }
            (mn, mx)
        } else {
            (mn, mx)
        }
    }
}

/// The bounds `estimate_fuel` has before it consults the children.
pub open spec fn old_mn_mx(v: SpanTreeV, id: u64) -> (i64, i64) {
    let n = v.nodes[id];
    let mn0 = match n.lifetime.min {
        Some(t) => t.0,
        None => i64::MAX,
    };
    let mx0 = match n.lifetime.max {
        Some(t) => t.0,
        None => i64::MIN,
    };
    let mn1 = if mn0 == i64::MAX {
        let a = if n.intervals.len() > 0 && n.intervals[0].min is Some {
            int_min(mn0, n.intervals[0].min.unwrap().0)
        } else {
            mn0
        };
        if n.events.len() > 0 {
            int_min(a, n.events[0].0.0)
        } else {
            a
        }
    } else {
        mn0
    };
    let mx1 = if mx0 == i64::MIN {
        let a = if n.intervals.len() > 0 && n.intervals[n.intervals.len() - 1].max is Some {
            int_max(mx0, n.intervals[n.intervals.len() - 1].max.unwrap().0)
        } else {
            mx0
        };
        if n.events.len() > 0 {
            int_max(a, n.events[n.events.len() - 1].0.0)
        } else {
            a
        }
    } else {
        mx0
    };
    (mn1, mx1)
}

/// The case-insensitive span filter.
pub struct Filter {
    /// The needle, already lowercased.
    pub filter: String,
}

impl Filter {
    /// An empty filter shows everything.
    pub fn new() -> (r: Filter)
        ensures
            r.filter@ == Seq::<char>::empty(),
    {
        Filter { filter: String::new() }
    }

    /// Stores the lowercase form of the entered text.
    pub fn set(&mut self, text: &str)
        ensures
            final(self).filter@ == lower_of(text@),
    {
        self.filter = to_lowercase(text);
    }

    /// Clears the filter, showing everything again.
    pub fn clear(&mut self)
        ensures
            final(self).filter@ == Seq::<char>::empty(),
    {
        self.filter = String::new();
    }

    pub fn is_empty(&self) -> (r: bool)
        ensures
            r == (self.filter@.len() == 0),
    {
        self.filter.as_str().unicode_len() == 0
    }

    /// True when everything is shown or the text contains the needle,
    /// case-insensitively.
    pub fn admits(&self, text: &str) -> (r: bool)
        ensures
            r == (self.filter@.len() == 0 || is_substring(self.filter@, lower_of(text@))),
    {
        if self.is_empty() {
            return true;
        }
        let lowered = to_lowercase(text);
        contains_sub(self.filter.as_str(), lowered.as_str())
    }
}

// ---------------------------------------------------------------------------
// The frame walk: from an index snapshot to drawing primitives.

/// Sizes of the drawn blocks, in points.
pub struct FlameConfig {
    /// Height of one span's rectangle.
    pub rect_height: i64,
    /// Vertical gap between a span and its direct child.
    pub gap: i64,
    /// Vertical gap the placer keeps between root blocks.
    pub root_spacing: i64,
}

impl FlameConfig {
    pub open spec fn wf(self) -> bool {
        &&& 1 <= self.rect_height
        &&& 0 <= self.gap
        &&& 0 <= self.root_spacing
    }
}

/// One drawing primitive. Horizontal extents are nanoseconds; the
/// shell maps them to screen points with the view transform.
#[derive(Debug, PartialEq)]
pub enum Primitive {
    /// The block of one span: its estimated extent. `matched` carries
    /// the filter verdict on the span's description.
    Block { span: SpanId, min_ns: i64, max_ns: i64, top_y: i64, bottom_y: i64, matched: bool },
    /// One fully observed activation interval inside a block.
    Bar { span: SpanId, min_ns: i64, max_ns: i64, top_y: i64, bottom_y: i64 },
    /// A dashed connector from a parent's bottom edge down to the top
    /// of a spawned child's block.
    Connector { x_ns: i64, top_y: i64, bottom_y: i64 },
}

/// A root block waiting to be placed: a root span, or a spawned child
/// deferred during the paint of its parent.
#[derive(Clone, Copy, Debug, PartialEq, Eq, Structural)]
pub struct PendingRoot {
    pub start_ns: i64,
    pub id: SpanId,
    /// The bottom edge of the parent's block, for the connector.
    pub parent_bottom: Option<i64>,
}

/// The position of the first entry with the least start time among the
/// first `k` entries.
pub open spec fn min_start_index(q: Seq<PendingRoot>, k: int) -> int
    decreases k,
{
    if k <= 1 {
        0
    } else {
        let p = min_start_index(q, k - 1);
        if q[k - 1].start_ns < q[p].start_ns {
            k - 1
        } else {
            p
        }
    }
}

proof fn lemma_min_start_index_bounds(q: Seq<PendingRoot>, k: int)
    requires
        k >= 1,
    ensures
        0 <= min_start_index(q, k) < k,
    decreases k,
{
    if k > 1 {
        lemma_min_start_index_bounds(q, k - 1);
    }
}

/// Removes and returns the first entry with the least start time,
/// moving the last entry into its place.
fn pop_min(queue: &mut Vec<PendingRoot>) -> (r: Option<PendingRoot>)
    ensures
        old(queue)@.len() == 0 ==> r is None && final(queue)@ == old(queue)@,
        old(queue)@.len() > 0 ==> ({
            let i = min_start_index(old(queue)@, old(queue)@.len() as int);
            &&& r == Some(old(queue)@[i])
            &&& final(queue)@ == old(queue)@.update(i, old(queue)@.last()).drop_last()
        }),
{
    if queue.len() == 0 {
        return None;
    }
    let ghost q0 = queue@;
    let mut best: usize = 0;
    let mut k: usize = 1;
    while k < queue.len()
        invariant
            queue@ == q0,
            queue@.len() > 0,
            best < k <= queue@.len(),
            best as int == min_start_index(queue@, k as int),
        decreases queue@.len() - k,
    {
        if queue[k].start_ns < queue[best].start_ns {
            best = k;
        }
        k = k + 1;
    }
    let entry = queue[best];
    let last = match queue.pop() {
        Some(x) => x,
        None => {
            return None;
        },
    };
    if best < queue.len() {
        queue[best] = last;
    }
    proof {
        assert(queue@ =~= q0.update(best as int, q0.last()).drop_last());
    }
    Some(entry)
}

/// The lone direct child of `n` in the index, if it has exactly one.
pub open spec fn direct_pick(v: SpanTreeV, n: crate::span_tree::SpanNodeV) -> Option<SpanId> {
    let d = direct_children(v, n);
    if d.len() == 1 {
        Some(d[0])
    } else {
        None
    }
}

/// The height of the block of `id`: its own rectangle plus the chain
/// of direct children drawn inside it, to a depth of `fuel`.
pub open spec fn spec_chain_height(v: SpanTreeV, cfg: FlameConfig, id: SpanId, fuel: nat) -> i64
    decreases fuel,
{
    if fuel == 0 || !v.nodes.dom().contains(id.0) {
        cfg.rect_height
    } else {
        match direct_pick(v, v.nodes[id.0]) {
            None => cfg.rect_height,
            Some(d) => sat_add_i64(
                cfg.rect_height,
                sat_add_i64(cfg.gap, spec_chain_height(v, cfg, d, (fuel - 1) as nat)),
            ),
        }
    }
}

fn chain_height(tree: &SpanTree, cfg: &FlameConfig, id: SpanId, fuel: usize) -> (r: i64)
    requires
        cfg.wf(),
    ensures
        r == spec_chain_height(tree@, *cfg, id, fuel as nat),
        r >= cfg.rect_height,
    decreases fuel,
{
    let own = cfg.rect_height;
    if fuel == 0 {
        return own;
    }
    match tree.nodes.get(&id.0) {
        None => own,
        Some(node) => match tree.direct_child_of(node) {
            None => own,
            Some(child) => {
                let below = chain_height(tree, cfg, child, fuel - 1);
                sat_add(own, sat_add(cfg.gap, below))
            },
        },
    }
}

/// Whether `child` is the chosen direct child.
pub open spec fn is_direct_choice(direct: Option<SpanId>, child: SpanId) -> bool {
    match direct {
        Some(d) => d.0 == child.0,
        None => false,
    }
}

/// The interval bars of the first `k` intervals: one bar per fully
/// observed interval, inset one point vertically.
pub open spec fn bars_upto(
    ivs: Seq<TimeInterval>,
    span: SpanId,
    y: i64,
    bottom: i64,
    k: int,
) -> Seq<Primitive>
    decreases k,
{
    if k <= 0 {
        Seq::empty()
    } else {
        bars_upto(ivs, span, y, bottom, k - 1) + (match (ivs[k - 1].min, ivs[k - 1].max) {
            (Some(lo), Some(hi)) => seq![
                Primitive::Bar {
                    span,
                    min_ns: lo.0,
                    max_ns: hi.0,
                    top_y: sat_add_i64(y, 1),
                    bottom_y: sat_add_i64(bottom, -1i64),
                },
            ],
            _ => Seq::empty(),
        })
    }
}

/// The deferred-root entries for the spawned children among the first
/// `k` children: every child but the chosen direct one, keyed by its
/// own estimated start, remembering the parent's bottom edge.
pub open spec fn spawns_upto(
    v: SpanTreeV,
    kids: Seq<SpanId>,
    direct: Option<SpanId>,
    bottom: i64,
    k: int,
) -> Seq<PendingRoot>
    decreases k,
{
    if k <= 0 {
        Seq::empty()
    } else {
        spawns_upto(v, kids, direct, bottom, k - 1) + (if is_direct_choice(direct, kids[k - 1]) {
            Seq::empty()
        } else {
            seq![
                PendingRoot {
                    start_ns: spec_estimate(v, kids[k - 1].0, v.ids.len() as nat).0,
                    id: kids[k - 1],
                    parent_bottom: Some(bottom),
                },
            ]
        })
    }
}

/// What painting the chain starting at `cur` from top edge `y` emits,
/// and which spawned children it defers: the span's block with the
/// filter verdict on its description, a bar per fully observed
/// interval, then the lone direct child directly below, down to a
/// depth of `fuel`.
pub open spec fn spec_chain(
    v: SpanTreeV,
    cfg: FlameConfig,
    filt: Seq<char>,
    cur: SpanId,
    y: i64,
    fuel: nat,
) -> (Seq<Primitive>, Seq<PendingRoot>)
    decreases fuel,
{
    if !v.nodes.dom().contains(cur.0) {
        (Seq::empty(), Seq::empty())
    } else {
        let node = v.nodes[cur.0];
        let est = spec_estimate(v, cur.0, v.ids.len() as nat);
        let bottom = sat_add_i64(y, cfg.rect_height);
        let matched = filt.len() == 0 || is_substring(filt, lower_of(spec_span_description(v, cur)));
        let own = seq![
            Primitive::Block {
                span: cur,
                min_ns: est.0,
                max_ns: est.1,
                top_y: y,
                bottom_y: bottom,
                matched,
            },
        ] + bars_upto(node.intervals, cur, y, bottom, node.intervals.len() as int);
        let direct = direct_pick(v, node);
        let spawns = spawns_upto(v, node.children, direct, bottom, node.children.len() as int);
        match direct {
            Some(d) => if fuel > 0 {
                let rest = spec_chain(v, cfg, filt, d, sat_add_i64(bottom, cfg.gap), (fuel - 1) as nat);
                (own + rest.0, spawns + rest.1)
            } else {
                (own, spawns)
            },
            None => (own, spawns),
        }
    }
}

/// Paints the chain starting at `cur`, appending its primitives to
/// `out` and its deferred spawned children to `queue`.
fn paint_chain(
    tree: &SpanTree,
    cfg: &FlameConfig,
    filter: &Filter,
    cur: SpanId,
    y: i64,
    fuel: usize,
    out: &mut Vec<Primitive>,
    queue: &mut Vec<PendingRoot>,
)
    requires
        cfg.wf(),
    ensures
        ({
            let ch = spec_chain(tree@, *cfg, filter.filter@, cur, y, fuel as nat);
            &&& final(out)@ == old(out)@ + ch.0
            &&& final(queue)@ == old(queue)@ + ch.1
        }),
    decreases fuel,
{
    let ghost v = tree@;
    let node = match tree.nodes.get(&cur.0) {
        None => {
            proof {
                assert(out@ =~= old(out)@ + Seq::<Primitive>::empty());
                assert(queue@ =~= old(queue)@ + Seq::<PendingRoot>::empty());
            }
            return ;
        },
        Some(n) => n,
    };
    proof {
        assert(v.nodes[cur.0] == node@);
    }
    let cest = tree.estimate_lifetime(cur);
    let bottom = sat_add(y, cfg.rect_height);
    let description = tree.span_description(&cur);
    let matched = filter.admits(description.as_str());
    out.push(
        Primitive::Block {
            span: cur,
            min_ns: cest.0,
            max_ns: cest.1,
            top_y: y,
            bottom_y: bottom,
            matched,
        },
    );
    let ghost out1 = out@;
    let mut j: usize = 0;
    while j < node.intervals.len()
        invariant
            j <= node.intervals@.len(),
            out@ == out1 + bars_upto(node@.intervals, cur, y, bottom, j as int),
        decreases node.intervals@.len() - j,
    {
        let iv = &node.intervals[j];
        if let (Some(lo_t), Some(hi_t)) = (iv.min, iv.max) {
            out.push(
                Primitive::Bar {
                    span: cur,
                    min_ns: lo_t.0,
                    max_ns: hi_t.0,
                    top_y: sat_add(y, 1),
                    bottom_y: sat_add(bottom, -1),
                },
            );
        }
        proof {
            assert(out@ =~= out1 + bars_upto(node@.intervals, cur, y, bottom, j + 1));
        }
        j = j + 1;
    }
    let direct = tree.direct_child_of(node);
    proof {
        assert(direct == direct_pick(v, node@));
    }
    let ghost q0 = queue@;
    let mut c: usize = 0;
    while c < node.children.len()
        invariant
            c <= node.children@.len(),
            v == tree@,
            queue@ == q0 + spawns_upto(v, node@.children, direct, bottom, c as int),
        decreases node.children@.len() - c,
    {
        let child = node.children[c];
        let is_direct = match direct {
            Some(d) => d.0 == child.0,
            None => false,
        };
        if !is_direct {
            let child_est = tree.estimate_lifetime(child);
            queue.push(
                PendingRoot { start_ns: child_est.0, id: child, parent_bottom: Some(bottom) },
            );
        }
        proof {
            assert(queue@ =~= q0 + spawns_upto(v, node@.children, direct, bottom, c + 1));
        }
        c = c + 1;
    }
    match direct {
        None => {
            proof {
                let ch = spec_chain(v, *cfg, filter.filter@, cur, y, fuel as nat);
                assert(out@ =~= old(out)@ + ch.0);
                assert(queue@ =~= old(queue)@ + ch.1);
            }
        },
        Some(d) => {
            if fuel > 0 {
                paint_chain(tree, cfg, filter, d, sat_add(bottom, cfg.gap), fuel - 1, out, queue);
                proof {
                    let ch = spec_chain(v, *cfg, filter.filter@, cur, y, fuel as nat);
                    assert(out@ =~= old(out)@ + ch.0);
                    assert(queue@ =~= old(queue)@ + ch.1);
                }
            } else {
                proof {
                    let ch = spec_chain(v, *cfg, filter.filter@, cur, y, fuel as nat);
                    assert(out@ =~= old(out)@ + ch.0);
                    assert(queue@ =~= old(queue)@ + ch.1);
                }
            }
        },
    }
}

/// The frame that remains to be laid out, given the pending root
/// blocks, the boxes placed so far, and what was already emitted:
/// while fuel and pending roots remain, the entry with the least start
/// time is taken, its block is packed under every placed block its
/// extent could touch, a connector is drawn when it was deferred from
/// a parent, and its chain is painted, deferring its spawned children.
pub open spec fn spec_drive(
    v: SpanTreeV,
    cfg: FlameConfig,
    filt: Seq<char>,
    queue: Seq<PendingRoot>,
    boxes: Seq<PlacedBox>,
    out: Seq<Primitive>,
    base_y: i64,
    fuel: nat,
) -> Seq<Primitive>
    decreases fuel,
{
    if fuel == 0 || queue.len() == 0 {
        out
    } else {
        let i = min_start_index(queue, queue.len() as int);
        let e = queue[i];
        let q1 = queue.update(i, queue.last()).drop_last();
        let est = spec_estimate(v, e.id.0, v.ids.len() as nat);
        let ext = if est.0 <= est.1 {
            (est.0, est.1)
        } else {
            (est.0, est.0)
        };
        let h = spec_chain_height(v, cfg, e.id, v.ids.len() as nat);
        let top = skyline_top(boxes, base_y, cfg.root_spacing, ext.0, boxes.len() as int);
        let boxes1 = boxes.push(
            PlacedBox { min_x: ext.0, min_y: top, max_x: ext.1, max_y: sat_add_i64(top, h) },
        );
        let out1 = out + (match e.parent_bottom {
            Some(pb) => seq![Primitive::Connector { x_ns: ext.0, top_y: pb, bottom_y: top }],
            None => Seq::empty(),
        });
        let ch = spec_chain(v, cfg, filt, e.id, top, v.ids.len() as nat);
        spec_drive(v, cfg, filt, q1 + ch.1, boxes1, out1 + ch.0, base_y, (fuel - 1) as nat)
    }
}

/// The pending-root entries for the first `k` root spans, in root
/// order, each keyed by its estimated start.
pub open spec fn seeds_upto(v: SpanTreeV, k: int) -> Seq<PendingRoot>
    decreases k,
{
    if k <= 0 {
        Seq::empty()
    } else {
        seeds_upto(v, k - 1).push(
            PendingRoot {
                start_ns: spec_estimate(v, v.roots[k - 1].0, v.ids.len() as nat).0,
                id: v.roots[k - 1],
                parent_bottom: None,
            },
        )
    }
}

/// How many root blocks one frame will place at most: enough for every
/// root and for every spawned child each known span could defer.
pub open spec fn spec_budget(v: SpanTreeV) -> nat {
    let n = v.ids.len();
    let sq: nat = if n * n > usize::MAX {
        usize::MAX as nat
    } else {
        n * n
    };
    let s1: nat = if sq + v.roots.len() > usize::MAX {
        usize::MAX as nat
    } else {
        sq + v.roots.len()
    };
    if s1 + 1 > usize::MAX {
        usize::MAX as nat
    } else {
        s1 + 1
    }
}

/// The whole frame: nothing when no time was ever observed, else the
/// drive over the root spans seeded by ascending start time.
pub open spec fn spec_layout(v: SpanTreeV, cfg: FlameConfig, filt: Seq<char>, base_y: i64) -> Seq<
    Primitive,
> {
    if all_times(v).len() == 0 {
        Seq::empty()
    } else {
        spec_drive(
            v,
            cfg,
            filt,
            seeds_upto(v, v.roots.len() as int),
            Seq::empty(),
            Seq::empty(),
            base_y,
            spec_budget(v),
        )
    }
}

/// Lays one frame out: seeds the placer with every root span by
/// ascending start time, packs each root block under the blocks it
/// could touch, paints each block's chain of direct children directly
/// below it, and defers every spawned child as a new root block with a
/// connector from its parent. An empty index yields nothing.
pub fn layout_frame(tree: &SpanTree, cfg: &FlameConfig, filter: &Filter, base_y: i64) -> (r: Vec<
    Primitive,
>)
    requires
        cfg.wf(),
        base_y >= 0,
    ensures
        r@ == spec_layout(tree@, *cfg, filter.filter@, base_y),
        all_times(tree@).len() == 0 ==> r@.len() == 0,
        tree.roots@.len() == 0 ==> r@.len() == 0,
{
    let ghost v = tree@;
    let ghost filt = filter.filter@;
    let mut out: Vec<Primitive> = Vec::new();
    if tree.ns_range().is_none() {
        proof {
            assert(out@ =~= spec_layout(v, *cfg, filt, base_y));
        }
        return out;
    }
    proof {
        assert(all_times(v).len() > 0);
    }
    let mut queue: Vec<PendingRoot> = Vec::new();
    let mut k: usize = 0;
    while k < tree.roots.len()
        invariant
            k <= tree.roots@.len(),
            v == tree@,
            queue@ == seeds_upto(v, k as int),
        decreases tree.roots@.len() - k,
    {
        let id = tree.roots[k];
        let est = tree.estimate_lifetime(id);
        queue.push(PendingRoot { start_ns: est.0, id, parent_bottom: None });
        proof {
            assert(queue@ =~= seeds_upto(v, k + 1));
        }
        k = k + 1;
    }
    let mut placer = RootPlacer::new(base_y, cfg.root_spacing);
    let n = tree.ids.len();
    let budget = match n.checked_mul(n) {
        Some(sq) => sq,
        None => usize::MAX,
    };
    let mut fuel: usize = budget.saturating_add(tree.roots.len()).saturating_add(1);
    let ghost target = spec_layout(v, *cfg, filt, base_y);
    proof {
        assert(fuel as nat == spec_budget(v));
        assert(placer.boxes@ =~= Seq::<PlacedBox>::empty());
        assert(out@ =~= Seq::<Primitive>::empty());
        assert(target == spec_drive(v, *cfg, filt, queue@, placer.boxes@, out@, base_y, fuel as nat));
    }
    loop
        invariant
            cfg.wf(),
            v == tree@,
            filt == filter.filter@,
            placer.wf(),
            placer.base_y == base_y,
            placer.spacing == cfg.root_spacing,
            target == spec_layout(v, *cfg, filt, base_y),
            target == spec_drive(v, *cfg, filt, queue@, placer.boxes@, out@, base_y, fuel as nat),
            tree.roots@.len() == 0 ==> queue@.len() == 0 && out@.len() == 0,
        decreases fuel,
    {
        if fuel == 0 {
            return out;
        }
        let ghost q0 = queue@;
        let ghost boxes0 = placer.boxes@;
        let ghost out0 = out@;
        let ghost fuel0 = fuel as nat;
        let entry = match pop_min(&mut queue) {
            None => {
                return out;
            },
            Some(e) => e,
        };
        proof {
            lemma_min_start_index_bounds(q0, q0.len() as int);
        }
        fuel = fuel - 1;
        let est = tree.estimate_lifetime(entry.id);
        let (lo, hi) = if est.0 <= est.1 {
            (est.0, est.1)
        } else {
            (est.0, est.0)
        };
        let height = chain_height(tree, cfg, entry.id, tree.ids.len());
        let top = placer.place(lo, hi, height);
        if let Some(parent_bottom) = entry.parent_bottom {
            out.push(Primitive::Connector { x_ns: lo, top_y: parent_bottom, bottom_y: top });
        }
        let ghost out_before_chain = out@;
        let ghost queue_before_chain = queue@;
        paint_chain(tree, cfg, filter, entry.id, top, tree.ids.len(), &mut out, &mut queue);
        proof {
            let i = min_start_index(q0, q0.len() as int);
            let ch = spec_chain(v, *cfg, filt, entry.id, top, v.ids.len() as nat);
            assert(out_before_chain =~= out0 + (match entry.parent_bottom {
                Some(pb) => seq![Primitive::Connector { x_ns: lo, top_y: pb, bottom_y: top }],
                None => Seq::<Primitive>::empty(),
            }));
            assert(out@ =~= (out_before_chain + ch.0));
            assert(queue@ =~= (queue_before_chain + ch.1));
            assert(spec_drive(v, *cfg, filt, q0, boxes0, out0, base_y, fuel0) == spec_drive(
                v,
                *cfg,
                filt,
                queue@,
                placer.boxes@,
                out@,
                base_y,
                fuel as nat,
            ));
        }
    }
}

} // verus!
