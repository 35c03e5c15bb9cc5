//! Placement walker: assigning every measured item of the current page a
//! scaled screen coordinate.
//!
//! The walk folds a cursor left-to-right across the measured items, wrapping
//! to a new row when an item's width would push past the bounding-box width,
//! and centres each row horizontally inside the viewport.  Coordinates are
//! exact fractions: every slot's `x` and `y` share the denominator
//! `2 * scale_den`, so the renderer performs a single division per axis.

use vstd::prelude::*;
use vstd::math::max;

use crate::layout::{
    eligible_page, lemma_measured_of_props, max_h, measured_idx, measured_of, measured_split,
    sum_w, MAX_BOX,
};
use crate::picture::Picture;
use crate::{EngineError, MAX_DIM, MAX_PAGE};

verus! {

/// An exact non-negative fraction `num / den`.
#[derive(Clone, Copy, Debug, PartialEq, Eq, Structural)]
pub struct Frac {
    pub num: u64,
    pub den: u64,
}

/// One placed picture: the index of the item within the page it came from,
/// and its scaled screen origin.
#[derive(Clone, Copy, Debug, PartialEq, Eq, Structural)]
pub struct Slot {
    pub item: usize,
    pub x: Frac,
    pub y: Frac,
}

/// The uniform fit scale, as the exact ratio `(num, den)` of
/// `min(vw / bw, vh / bh)`: the larger scale on either axis alone would
/// push the box past the viewport on the other.
pub open spec fn spec_scale(vw: int, vh: int, bw: int, bh: int) -> (int, int) {
    if vw * bh <= vh * bw {
        (vw, bw)
    } else {
        (vh, bh)
    }
}

/// Computes the uniform fit scale.  For a non-degenerate viewport and a
/// real box the scale is strictly positive: both parts are at least one.
pub fn fit_scale(vw: u32, vh: u32, bw: u64, bh: u64) -> (sc: Frac)
    requires
        1 <= vw <= MAX_DIM,
        1 <= vh <= MAX_DIM,
        1 <= bw <= MAX_BOX,
        1 <= bh <= MAX_BOX,
    ensures
        sc.num as int == spec_scale(vw as int, vh as int, bw as int, bh as int).0,
        sc.den as int == spec_scale(vw as int, vh as int, bw as int, bh as int).1,
        1 <= sc.num <= MAX_DIM,
        1 <= sc.den <= MAX_BOX,
        // the scaled box never overhangs the viewport horizontally
        bw * sc.num <= vw * sc.den,
{
    proof {
        assert(vw * bh <= MAX_DIM * MAX_BOX && vh * bw <= MAX_DIM * MAX_BOX) by (nonlinear_arith)
            requires
                0 <= vw <= MAX_DIM,
                0 <= vh <= MAX_DIM,
                0 <= bw <= MAX_BOX,
                0 <= bh <= MAX_BOX,
        ;
    }
    let xa = (vw as u128) * (bh as u128);
    let xb = (vh as u128) * (bw as u128);
    if xa <= xb {
        Frac { num: vw as u64, den: bw }
    } else {
        proof {
            assert(vw * bh > vh * bw ==> bw * vh <= vw * bh) by (nonlinear_arith);
        }
        Frac { num: vh as u64, den: bh }
    }
}

/// End of the row that begins at item `s`: the scan continues from `i` with
/// accumulated row width `x` until an item would push past `bw`.
pub open spec fn scan_end(items: Seq<Picture>, bw: int, i: int, x: int) -> int
    decreases items.len() - i,
        when 0 <= i
{
    if i >= items.len() {
        items.len() as int
    } else if x > 0 && x + items[i].w > bw {
        i
    } else {
        scan_end(items, bw, i + 1, x + items[i].w)
    }
}

/// First index after the row that begins at `s`.  The item at `s` always
/// belongs to its row, so the end is at least `s + 1`.
pub open spec fn row_end(items: Seq<Picture>, bw: int, s: int) -> int
    recommends
        0 <= s < items.len(),
{
    max(s + 1, scan_end(items, bw, s + 1, items[s].w as int))
}

/// The row containing item `k`, walking row by row from the row start `s`.
pub open spec fn row_span(items: Seq<Picture>, bw: int, s: int, k: int) -> (int, int)
    recommends
        0 <= s <= k < items.len(),
    decreases items.len() - s,
        when 0 <= s <= k < items.len()
{
    let e = row_end(items, bw, s);
    if k < e {
        (s, e)
    } else {
        row_span(items, bw, e, k)
    }
}

/// Unscaled position of item `k` in the walk that restarts at row start
/// `s`: `x` is the sum of the widths before `k` in its row (or, flowing
/// right-to-left, after it), `y` the heights of the full rows above it.
pub open spec fn pos_from(items: Seq<Picture>, bw: int, dir: bool, s: int, k: int) -> (int, int)
    recommends
        0 <= s <= k < items.len(),
    decreases items.len() - s,
        when 0 <= s <= k < items.len()
{
    let e = row_end(items, bw, s);
    if k < e {
        if dir {
            (sum_w(items, s, k), 0)
        } else {
            (sum_w(items, k + 1, e), 0)
        }
    } else {
        let p = pos_from(items, bw, dir, e, k);
        (p.0, max_h(items, s, e) + p.1)
    }
}

/// Unscaled position of item `k` in the whole walk.
pub open spec fn spec_pos(items: Seq<Picture>, bw: int, dir: bool, k: int) -> (int, int) {
    pos_from(items, bw, dir, 0, k)
}

/// What a completed placement guarantees: one slot per measured item of the
/// page, in page order and carrying the item's original index; every slot's
/// coordinates are the walk's position for that item, scaled by the exact
/// fit scale, with the row-centring gap added to `x`; all fractions share
/// the denominator `2 * scale_den`.
pub open spec fn placement_good(
    slots: Seq<Slot>,
    page: Seq<Picture>,
    bw: int,
    bh: int,
    vw: int,
    vh: int,
    dir: bool,
) -> bool {
    let m = measured_of(page);
    let sc = spec_scale(vw, vh, bw, bh);
    let gap = vw * sc.1 - bw * sc.0;
    &&& slots.len() == m.len()
    &&& forall|j: int|
        0 <= j < slots.len() ==> (#[trigger] slots[j]).item == measured_idx(page)[j]
    &&& forall|j: int|
        0 <= j < slots.len() ==> (#[trigger] slots[j]).x.num == 2 * spec_pos(m, bw, dir, j).0
            * sc.0 + gap && slots[j].x.den == 2 * sc.1
    &&& forall|j: int|
        0 <= j < slots.len() ==> (#[trigger] slots[j]).y.num == 2 * spec_pos(m, bw, dir, j).1
            * sc.0 && slots[j].y.den == 2 * sc.1
}

/// Walks the page's measured items and assigns each a scaled screen
/// origin.  Items flow left-to-right, wrapping when the bounding-box width
/// is exhausted; with `direction` false each row's items are placed in
/// reverse horizontal order, rows unchanged.  Fails only on a degenerate
/// viewport.
pub fn place(
    page: &Vec<Picture>,
    box_w: u64,
    box_h: u64,
    vw: u32,
    vh: u32,
    direction: bool,
) -> (r: Result<Vec<Slot>, EngineError>)
    requires
        page@.len() <= MAX_PAGE,
        forall|k: int| 0 <= k < page@.len() ==> (#[trigger] page@[k]).valid(),
        1 <= box_w <= MAX_BOX,
        1 <= box_h <= MAX_BOX,
        vw <= MAX_DIM,
        vh <= MAX_DIM,
    ensures
        r is Ok <==> (vw >= 1 && vh >= 1),
        (vw == 0 || vh == 0) ==> r == Err::<Vec<Slot>, EngineError>(
            EngineError::DegenerateViewport,
        ),
        r matches Ok(v) ==> placement_good(
            v@,
            page@,
            box_w as int,
            box_h as int,
            vw as int,
            vh as int,
            direction,
        ),
{
    if vw == 0 || vh == 0 {
        return Err(EngineError::DegenerateViewport);
    }
    let (m, idx) = measured_split(page);
    let sc = fit_scale(vw, vh, box_w, box_h);
    let sn = sc.num;
    let sd = sc.den;
    proof {
        lemma_measured_of_props(page@);
        assert(idx@.len() == measured_idx(page@).len());
        assert((vw as int) * (sd as int) <= MAX_DIM * MAX_BOX && (box_w as int) * (sn as int)
            <= MAX_BOX * MAX_DIM) by (nonlinear_arith)
            requires
                0 <= vw <= MAX_DIM,
                0 <= sd <= MAX_BOX,
                0 <= box_w <= MAX_BOX,
                0 <= sn <= MAX_DIM,
        ;
    }
    let gap = (vw as u64) * sd - box_w * sn;
    let den2 = 2 * sd;
    let len = m.len();
    let mut out: Vec<Slot> = Vec::new();
    let mut s: usize = 0;
    let mut y: u64 = 0;
    while s < len
        invariant
            len == m@.len() && len == idx@.len(),
            eligible_page(m@),
            idx@.map_values(|u: usize| u as int) == measured_idx(page@),
            m@ == measured_of(page@),
            0 <= s <= len,
            1 <= sn <= MAX_DIM,
            1 <= sd <= MAX_BOX,
            1 <= box_w <= MAX_BOX,
            gap == (vw as u64) * sd - box_w * sn,
            gap <= MAX_DIM * MAX_BOX,
            den2 == 2 * sd,
            y as int <= s * MAX_DIM,
            out@.len() == s,
            forall|j: int|
                0 <= j < s ==> (#[trigger] out@[j]).item as int == measured_idx(page@)[j],
            forall|j: int|
                0 <= j < s ==> (#[trigger] out@[j]).x.num == 2 * spec_pos(
                    m@,
                    box_w as int,
                    direction,
                    j,
                ).0 * sn + gap && out@[j].x.den == den2,
            forall|j: int|
                0 <= j < s ==> (#[trigger] out@[j]).y.num == 2 * spec_pos(
                    m@,
                    box_w as int,
                    direction,
                    j,
                ).1 * sn && out@[j].y.den == den2,
            forall|k: int|
                s <= k < len ==> #[trigger] spec_pos(m@, box_w as int, direction, k) == (
                pos_from(m@, box_w as int, direction, s as int, k).0,
                y + pos_from(m@, box_w as int, direction, s as int, k).1,
                ),
        decreases len - s,
    {
        // scan this row: find its end, width and height
        proof {
            crate::layout::lemma_sum_prefix_step(m@, s as int, s as int);
            crate::layout::lemma_max_prefix_step(m@, s as int, s as int);
            assert(sum_w(m@, s as int, s as int) == 0);
            assert(max_h(m@, s as int, s as int) == 0);
        }
        let mut e = s + 1;
        let mut rw: u64 = m[s].w as u64;
        let mut rh: u64 = m[s].h as u64;
        while e < len && rw + (m[e].w as u64) <= box_w
            invariant
                eligible_page(m@),
                len == m@.len(),
                0 <= s < e <= len,
                box_w <= MAX_BOX,
                rw as int == sum_w(m@, s as int, e as int),
                rh as int == max_h(m@, s as int, e as int),
                1 <= rw,
                rw <= MAX_BOX + MAX_DIM,
                e > s + 1 ==> rw <= box_w,
                rh <= MAX_DIM,
                scan_end(m@, box_w as int, e as int, rw as int) == scan_end(
                    m@,
                    box_w as int,
                    s + 1 as int,
                    m@[s as int].w as int,
                ),
            decreases len - e,
        {
            proof {
                crate::layout::lemma_sum_prefix_step(m@, s as int, e as int);
                crate::layout::lemma_max_prefix_step(m@, s as int, e as int);
            }
            rw = rw + m[e].w as u64;
            let hh = m[e].h as u64;
            if hh > rh {
                rh = hh;
            }
            e = e + 1;
        }
        let ghost re = row_end(m@, box_w as int, s as int);
        proof {
            assert(scan_end(m@, box_w as int, e as int, rw as int) == e as int);
            assert(re == e as int);
        }
        // emit the row's slots
        let mut k = s;
        let mut pref: u64 = 0;
        while k < e
            invariant
                eligible_page(m@),
                len == m@.len() && len == idx@.len(),
                idx@.map_values(|u: usize| u as int) == measured_idx(page@),
                m@ == measured_of(page@),
                0 <= s <= k <= e <= len,
                re == e as int,
                re == row_end(m@, box_w as int, s as int),
                rw as int == sum_w(m@, s as int, e as int),
                rw <= MAX_BOX + MAX_DIM,
                pref as int == sum_w(m@, s as int, k as int),
                pref <= rw,
                1 <= sn <= MAX_DIM,
                1 <= sd <= MAX_BOX,
                gap <= MAX_DIM * MAX_BOX,
                den2 == 2 * sd,
                y as int <= s * MAX_DIM,
                out@.len() == k,
                forall|j: int|
                    0 <= j < k ==> (#[trigger] out@[j]).item as int == measured_idx(page@)[j],
                forall|j: int|
                    0 <= j < k ==> (#[trigger] out@[j]).x.num == 2 * spec_pos(
                        m@,
                        box_w as int,
                        direction,
                        j,
                    ).0 * sn + gap && out@[j].x.den == den2,
                forall|j: int|
                    0 <= j < k ==> (#[trigger] out@[j]).y.num == 2 * spec_pos(
                        m@,
                        box_w as int,
                        direction,
                        j,
                    ).1 * sn && out@[j].y.den == den2,
                forall|q: int|
                    s <= q < len ==> #[trigger] spec_pos(m@, box_w as int, direction, q) == (
                    pos_from(m@, box_w as int, direction, s as int, q).0,
                    y + pos_from(m@, box_w as int, direction, s as int, q).1,
                    ),
            decreases e - k,
        {
            let ghost pk = spec_pos(m@, box_w as int, direction, k as int);
            proof {
                lemma_sum_split(m@, s as int, k as int, e as int);
                crate::layout::lemma_sum_prefix_step(m@, s as int, k as int);
                lemma_sum_nonneg(m@, k + 1 as int, e as int);
                assert(pos_from(m@, box_w as int, direction, s as int, k as int) == (
                    if direction {
                        sum_w(m@, s as int, k as int)
                    } else {
                        sum_w(m@, k + 1 as int, e as int)
                    },
                    0int,
                ));
            }
            let ux: u64 = if direction {
                pref
            } else {
                rw - pref - m[k].w as u64
            };
            proof {
                assert(ux as int == pk.0);
                assert(pk.1 == y as int);
                assert(2 * (ux as int) * (sn as int) <= 2 * (MAX_BOX + MAX_DIM) * MAX_DIM)
                    by (nonlinear_arith)
                    requires
                        0 <= ux <= MAX_BOX + MAX_DIM,
                        1 <= sn <= MAX_DIM,
                ;
                assert(2 * (y as int) * (sn as int) <= 2 * (MAX_PAGE * MAX_DIM) * MAX_DIM)
                    by (nonlinear_arith)
                    requires
                        0 <= y as int <= MAX_PAGE * MAX_DIM,
                        1 <= sn <= MAX_DIM,
                ;
                assert(y as int <= MAX_PAGE * MAX_DIM) by (nonlinear_arith)
                    requires
                        y as int <= s * MAX_DIM,
                        0 <= s <= MAX_PAGE,
                ;
            }
            let x_num = 2 * ux * sn + gap;
            let y_num = 2 * y * sn;
            out.push(
                Slot {
                    item: idx[k],
                    x: Frac { num: x_num, den: den2 },
                    y: Frac { num: y_num, den: den2 },
                },
            );
            pref = pref + m[k].w as u64;
            k = k + 1;
        }
        // move the cursor below this row
        proof {
            assert((s + 1) * MAX_DIM <= e as int * MAX_DIM && s * MAX_DIM + MAX_DIM == (s + 1)
                * MAX_DIM && e as int * MAX_DIM <= MAX_PAGE * MAX_DIM) by (nonlinear_arith)
                requires
                    s + 1 <= e as int <= MAX_PAGE,
            ;
            assert forall|q: int| e <= q < len implies #[trigger] spec_pos(
                m@,
                box_w as int,
                direction,
                q,
            ) == (
                pos_from(m@, box_w as int, direction, e as int, q).0,
                y + rh + pos_from(m@, box_w as int, direction, e as int, q).1,
            ) by {
                assert(pos_from(m@, box_w as int, direction, s as int, q) == (
                    pos_from(m@, box_w as int, direction, e as int, q).0,
                    max_h(m@, s as int, e as int) + pos_from(m@, box_w as int, direction, e as int, q).1,
                ));
            }
        }
        y = y + rh;
        s = e;
    }
    Ok(out)
}

/// A row scan never runs past the end of the page.
proof fn lemma_scan_end_bounds(items: Seq<Picture>, bw: int, i: int, x: int)
    requires
        0 <= i <= items.len(),
    ensures
        i <= scan_end(items, bw, i, x) <= items.len(),
    decreases items.len() - i,
{
    if i < items.len() && !(x > 0 && x + items[i].w > bw) {
        lemma_scan_end_bounds(items, bw, i + 1, x + items[i].w);
    }
}

/// A row spans at least its first item and stays within the page.
proof fn lemma_row_end_bounds(items: Seq<Picture>, bw: int, s: int)
    requires
        0 <= s < items.len(),
    ensures
        s + 1 <= row_end(items, bw, s) <= items.len(),
{
    lemma_scan_end_bounds(items, bw, s + 1, items[s].w as int);
}

/// The vertical part of a walk position never goes above the walk's start.
proof fn lemma_pos_y_nonneg(items: Seq<Picture>, bw: int, dir: bool, s: int, k: int)
    requires
        eligible_page(items),
        0 <= s <= k < items.len(),
    ensures
        pos_from(items, bw, dir, s, k).1 >= 0,
    decreases items.len() - s,
{
    let e = row_end(items, bw, s);
    lemma_row_end_bounds(items, bw, s);
    if k >= e {
        lemma_pos_y_nonneg(items, bw, dir, e, k);
        crate::layout::lemma_max_h_bounds(items, s, e);
    }
}

/// Two distinct items of a walk never share an origin: within a row the
/// horizontal positions strictly increase (or strictly decrease, flowing
/// right-to-left), and from one row to the next the vertical position
/// strictly grows by the finished row's height.
proof fn lemma_walk_distinct(items: Seq<Picture>, bw: int, dir: bool, s: int, i: int, j: int)
    requires
        eligible_page(items),
        0 <= s <= i < j < items.len(),
    ensures
        pos_from(items, bw, dir, s, i) != pos_from(items, bw, dir, s, j),
    decreases items.len() - s,
{
    let e = row_end(items, bw, s);
    lemma_row_end_bounds(items, bw, s);
    if j < e {
        // same row: the horizontal positions differ
        if dir {
            lemma_sum_split(items, s, i, j);
            crate::layout::lemma_sum_w_bounds(items, i, j);
        } else {
            lemma_sum_split(items, i + 1, j + 1, e);
            crate::layout::lemma_sum_w_bounds(items, i + 1, j + 1);
        }
    } else if i < e {
        // different rows: item `j` sits strictly below
        crate::layout::lemma_max_h_bounds(items, s, e);
        lemma_pos_y_nonneg(items, bw, dir, e, j);
    } else {
        lemma_walk_distinct(items, bw, dir, e, i, j);
    }
}

/// Placement coverage: the walk gives any two measured items distinct
/// origins.  Together with the placement contract — one slot per measured
/// item, in order — every measured item is visited exactly once and lands
/// on its own spot.
pub proof fn lemma_placement_distinct(items: Seq<Picture>, bw: int, dir: bool, i: int, j: int)
    requires
        eligible_page(items),
        0 <= i < j < items.len(),
    ensures
        spec_pos(items, bw, dir, i) != spec_pos(items, bw, dir, j),
{
    lemma_walk_distinct(items, bw, dir, 0, i, j);
}

/// Placement coverage, on the emitted slots: no two slots of one placement
/// share a screen origin.  The shared denominators make the comparison one
/// of numerators alone.
pub proof fn lemma_slots_distinct(
    slots: Seq<Slot>,
    page: Seq<Picture>,
    bw: int,
    bh: int,
    vw: int,
    vh: int,
    dir: bool,
)
    requires
        placement_good(slots, page, bw, bh, vw, vh, dir),
        page.len() <= MAX_PAGE,
        forall|k: int| 0 <= k < page.len() ==> (#[trigger] page[k]).valid(),
        1 <= vw,
        1 <= vh,
    ensures
        forall|i: int, j: int|
            0 <= i < j < slots.len() ==> ((#[trigger] slots[i]).x.num != (
            #[trigger] slots[j]).x.num || slots[i].y.num != slots[j].y.num),
{
    let m = measured_of(page);
    let sc = spec_scale(vw, vh, bw, bh);
    lemma_measured_of_props(page);
    assert(eligible_page(m));
    assert forall|i: int, j: int| 0 <= i < j < slots.len() implies ((#[trigger] slots[i]).x.num
        != (#[trigger] slots[j]).x.num || slots[i].y.num != slots[j].y.num) by {
        lemma_placement_distinct(m, bw, dir, i, j);
        let pi = spec_pos(m, bw, dir, i);
        let pj = spec_pos(m, bw, dir, j);
        if pi.0 != pj.0 {
            assert(2 * pi.0 * sc.0 != 2 * pj.0 * sc.0) by (nonlinear_arith)
                requires
                    pi.0 != pj.0,
                    sc.0 >= 1,
            ;
        } else {
            assert(2 * pi.1 * sc.0 != 2 * pj.1 * sc.0) by (nonlinear_arith)
                requires
                    pi.1 != pj.1,
                    sc.0 >= 1,
            ;
        }
    }
}

/// Direction symmetry, walked from row start `s`: the vertical position is
/// direction-independent, and the two horizontal positions mirror each
/// other about the item's row.
proof fn lemma_dir_sym_from(items: Seq<Picture>, bw: int, s: int, k: int)
    requires
        eligible_page(items),
        0 <= s <= k < items.len(),
    ensures
        pos_from(items, bw, true, s, k).1 == pos_from(items, bw, false, s, k).1,
        pos_from(items, bw, true, s, k).0 + items[k].w + pos_from(items, bw, false, s, k).0
            == sum_w(items, row_span(items, bw, s, k).0, row_span(items, bw, s, k).1),
    decreases items.len() - s,
{
    let e = row_end(items, bw, s);
    lemma_row_end_bounds(items, bw, s);
    if k < e {
        lemma_sum_split(items, s, k + 1, e);
        crate::layout::lemma_sum_prefix_step(items, s, k);
    } else {
        lemma_dir_sym_from(items, bw, e, k);
    }
}

/// Direction symmetry: toggling the flow direction keeps every item in the
/// same row at the same height — row membership is direction-independent,
/// `row_span` never reads the flag — and mirrors its horizontal position
/// within the row: the left-to-right and right-to-left offsets of an item
/// add up to its row's width minus the item's own.
pub proof fn lemma_direction_symmetry(items: Seq<Picture>, bw: int, k: int)
    requires
        eligible_page(items),
        0 <= k < items.len(),
    ensures
        spec_pos(items, bw, true, k).1 == spec_pos(items, bw, false, k).1,
        spec_pos(items, bw, true, k).0 + items[k].w + spec_pos(items, bw, false, k).0 == sum_w(
            items,
            row_span(items, bw, 0, k).0,
            row_span(items, bw, 0, k).1,
        ),
{
    lemma_dir_sym_from(items, bw, 0, k);
}

/// A width sum over a range splits at any interior point.
proof fn lemma_sum_split(items: Seq<Picture>, a: int, b: int, c: int)
    requires
        0 <= a <= b <= c <= items.len(),
    ensures
        sum_w(items, a, c) == sum_w(items, a, b) + sum_w(items, b, c),
    decreases b - a,
{
    if a < b {
        lemma_sum_split(items, a + 1, b, c);
    }
}

/// Width sums are non-negative, and positive over a non-empty range of
/// measured items.
proof fn lemma_sum_nonneg(items: Seq<Picture>, a: int, b: int)
    ensures
        sum_w(items, a, b) >= 0,
    decreases b - a,
{
    if a < b && 0 <= a && b <= items.len() {
        lemma_sum_nonneg(items, a + 1, b);
    }
}

} // verus!
