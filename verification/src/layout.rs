//! Layout search: evaluating candidate column counts for the current page
//! and choosing the one whose bounding box best matches the viewport.
//!
//! All proportions are exact: a candidate's fit error `|vw/bw - vh/bh|` is
//! kept as the integer pair `(|vw*bh - vh*bw|, bw*bh)` and candidates are
//! compared by cross-multiplication, so the selection is deterministic and
//! identical under any evaluation order.

use vstd::prelude::*;
use vstd::math::max;

use rayon::iter::{IndexedParallelIterator, IntoParallelIterator, ParallelIterator};

use crate::picture::Picture;
use crate::{EngineError, MAX_DIM, MAX_PAGE};

verus! {

/// Upper bound on a bounding-box edge: a page of at most [`MAX_PAGE`] items,
/// each at most [`MAX_DIM`] pixels wide or tall.
pub const MAX_BOX: u64 = 4294967296;

/// One evaluated column arrangement: the column count and the bounding box
/// the page's measured items form under it.
#[derive(Clone, Copy, Debug, PartialEq, Eq, Structural)]
pub struct Candidate {
    pub cols: usize,
    pub box_w: u64,
    pub box_h: u64,
}

/// The cached result of a layout search: the chosen column count, the
/// bounding box it yields, and the exact fit error as a fraction
/// `err_num / err_den`.
#[derive(Clone, Copy, Debug, PartialEq, Eq, Structural)]
pub struct Stats {
    pub cols: usize,
    pub box_w: u64,
    pub box_h: u64,
    pub err_num: u128,
    pub err_den: u128,
}

/// Sum of the widths of `items[a..b]`.
pub open spec fn sum_w(items: Seq<Picture>, a: int, b: int) -> int
    decreases b - a,
{
    if a >= b || a < 0 || b > items.len() {
        0
    } else {
        items[a].w + sum_w(items, a + 1, b)
    }
}

/// Largest height among `items[a..b]`.
pub open spec fn max_h(items: Seq<Picture>, a: int, b: int) -> int
    decreases b - a,
{
    if a >= b || a < 0 || b > items.len() {
        0
    } else {
        max(items[a].h as int, max_h(items, a + 1, b))
    }
}

/// Bounding box of `items[s..]` arranged into rows of `n` items: each row is
/// as wide as its members together and as tall as its tallest member; the
/// box is as wide as the widest row and as tall as all rows stacked.
pub open spec fn spec_box_from(items: Seq<Picture>, n: int, s: int) -> (int, int)
    recommends
        n >= 1,
        0 <= s,
    decreases items.len() - s,
        when n >= 1 && 0 <= s
{
    if s >= items.len() {
        (0, 0)
    } else {
        let e = if s + n > items.len() {
            items.len() as int
        } else {
            s + n
        };
        let rest = spec_box_from(items, n, e);
        (max(sum_w(items, s, e), rest.0), max_h(items, s, e) + rest.1)
    }
}

/// Bounding box of a whole page at column count `n`.
pub open spec fn spec_box(items: Seq<Picture>, n: int) -> (int, int) {
    spec_box_from(items, n, 0)
}

/// Every item of a page handed to the box math is measured and within the
/// engine's dimension bound.
pub open spec fn eligible_page(items: Seq<Picture>) -> bool {
    &&& items.len() <= MAX_PAGE
    &&& forall|k: int| 0 <= k < items.len() ==> (#[trigger] items[k]).valid()
    &&& forall|k: int| 0 <= k < items.len() ==> (#[trigger] items[k]).spec_measured()
}

pub proof fn lemma_sum_w_bounds(items: Seq<Picture>, a: int, b: int)
    requires
        forall|k: int| 0 <= k < items.len() ==> (#[trigger] items[k]).valid(),
        forall|k: int| 0 <= k < items.len() ==> (#[trigger] items[k]).spec_measured(),
        0 <= a,
        b <= items.len(),
    ensures
        a < b ==> b - a <= sum_w(items, a, b) <= (b - a) * MAX_DIM,
        a >= b ==> sum_w(items, a, b) == 0,
    decreases b - a,
{
    if a < b {
        lemma_sum_w_bounds(items, a + 1, b);
        assert((b - a - 1) * MAX_DIM + MAX_DIM == (b - a) * MAX_DIM) by (nonlinear_arith);
    }
}

pub proof fn lemma_max_h_bounds(items: Seq<Picture>, a: int, b: int)
    requires
        forall|k: int| 0 <= k < items.len() ==> (#[trigger] items[k]).valid(),
        forall|k: int| 0 <= k < items.len() ==> (#[trigger] items[k]).spec_measured(),
        0 <= a,
        b <= items.len(),
    ensures
        a < b ==> 1 <= max_h(items, a, b) <= MAX_DIM,
        a >= b ==> max_h(items, a, b) == 0,
    decreases b - a,
{
    if a < b {
        lemma_max_h_bounds(items, a + 1, b);
    }
}

/// The box of a non-empty eligible page suffix has positive edges, bounded
/// by the page's worth of maximal dimensions.
proof fn lemma_box_from_bounds(items: Seq<Picture>, n: int, s: int)
    requires
        eligible_page(items),
        n >= 1,
        0 <= s <= items.len(),
    ensures
        s < items.len() ==> {
            let b = spec_box_from(items, n, s);
            1 <= b.0 <= MAX_BOX && 1 <= b.1 <= (items.len() - s) * MAX_DIM
        },
        s >= items.len() ==> spec_box_from(items, n, s) == (0int, 0int),
    decreases items.len() - s,
{
    if s < items.len() {
        let e = if s + n > items.len() {
            items.len() as int
        } else {
            s + n
        };
        lemma_box_from_bounds(items, n, e);
        lemma_sum_w_bounds(items, s, e);
        lemma_max_h_bounds(items, s, e);
        assert((e - s) * MAX_DIM <= MAX_PAGE * MAX_DIM) by (nonlinear_arith)
            requires
                0 < e - s <= MAX_PAGE,
        ;
        assert((items.len() - e) * MAX_DIM + MAX_DIM <= (items.len() - s) * MAX_DIM)
            by (nonlinear_arith)
            requires
                e - s >= 1,
        ;
    }
}

/// The box of a whole eligible page: positive edges, each at most
/// [`MAX_BOX`].
pub proof fn lemma_box_bounds(items: Seq<Picture>, n: int)
    requires
        eligible_page(items),
        n >= 1,
        items.len() > 0,
    ensures
        1 <= spec_box(items, n).0 <= MAX_BOX,
        1 <= spec_box(items, n).1 <= MAX_BOX,
{
    lemma_box_from_bounds(items, n, 0);
    assert(items.len() * MAX_DIM <= MAX_PAGE * MAX_DIM) by (nonlinear_arith)
        requires
            items.len() <= MAX_PAGE,
    ;
}

/// Bounding box of the page's measured items at column count `n`, computed
/// by one pass over the items, closing a row after every `n` of them.
pub fn candidate_box(page: &Vec<Picture>, n: usize) -> (c: Candidate)
    requires
        n >= 1,
        eligible_page(page@),
    ensures
        c.cols == n,
        c.box_w as int == spec_box(page@, n as int).0,
        c.box_h as int == spec_box(page@, n as int).1,
{
    let len = page.len();
    let mut s: usize = 0;
    let mut bw: u64 = 0;
    let mut bh: u64 = 0;
    proof {
        lemma_box_from_bounds(page@, n as int, 0);
    }
    while s < len
        invariant
            n >= 1,
            len == page@.len(),
            eligible_page(page@),
            0 <= s <= len,
            spec_box(page@, n as int).0 == max(bw as int, spec_box_from(
                page@,
                n as int,
                s as int,
            ).0),
            spec_box(page@, n as int).1 == bh + spec_box_from(page@, n as int, s as int).1,
            bw <= MAX_BOX,
            bh as int <= s * MAX_DIM,
        decreases len - s,
    {
        let e = if len - s > n {
            s + n
        } else {
            len
        };
        let ghost rest = spec_box_from(page@, n as int, s as int);
        let ghost rest_e = spec_box_from(page@, n as int, e as int);
        proof {
            lemma_sum_w_bounds(page@, s as int, e as int);
            lemma_max_h_bounds(page@, s as int, e as int);
            lemma_box_from_bounds(page@, n as int, e as int);
            assert((e - s) * MAX_DIM <= MAX_PAGE * MAX_DIM) by (nonlinear_arith)
                requires
                    0 < e - s <= MAX_PAGE,
            ;
            assert(s * MAX_DIM + MAX_DIM <= MAX_PAGE * MAX_DIM) by (nonlinear_arith)
                requires
                    s + 1 <= MAX_PAGE,
            ;
        }
        let mut rw: u64 = 0;
        let mut rh: u64 = 0;
        let mut k = s;
        while k < e
            invariant
                eligible_page(page@),
                s <= k <= e <= page@.len(),
                e - s <= MAX_PAGE,
                rw as int == sum_w(page@, s as int, k as int),
                rh as int == max_h(page@, s as int, k as int),
                rw as int <= (k - s) * MAX_DIM,
                rh <= MAX_DIM,
            decreases e - k,
        {
            proof {
                lemma_sum_prefix_step(page@, s as int, k as int);
                lemma_max_prefix_step(page@, s as int, k as int);
                assert((k - s) * MAX_DIM + MAX_DIM == (k + 1 - s) * MAX_DIM) by (nonlinear_arith);
                assert((k + 1 - s) * MAX_DIM <= MAX_PAGE * MAX_DIM) by (nonlinear_arith)
                    requires
                        k + 1 - s <= MAX_PAGE,
                ;
            }
            rw = rw + page[k].w as u64;
            let hh = page[k].h as u64;
            if hh > rh {
                rh = hh;
            }
            k = k + 1;
        }
        if rw > bw {
            bw = rw;
        }
        bh = bh + rh;
        s = e;
    }
    Candidate { cols: n, box_w: bw, box_h: bh }
}

/// The measured items of a page, in their original order: the items that
/// take part in layout math.  Unmeasured items are retained by the folder
/// but skipped here.
pub open spec fn measured_of(items: Seq<Picture>) -> Seq<Picture>
    decreases items.len(),
{
    if items.len() == 0 {
        Seq::empty()
    } else {
        let rest = measured_of(items.drop_last());
        if items.last().spec_measured() {
            rest.push(items.last())
        } else {
            rest
        }
    }
}

/// The original position, within the full page, of each measured item:
/// `measured_of(items)[j]` is `items[measured_idx(items)[j]]`.
pub open spec fn measured_idx(items: Seq<Picture>) -> Seq<int>
    decreases items.len(),
{
    if items.len() == 0 {
        Seq::empty()
    } else {
        let rest = measured_idx(items.drop_last());
        if items.last().spec_measured() {
            rest.push(items.len() - 1)
        } else {
            rest
        }
    }
}

/// The measured items of a valid page form an eligible page: no longer than
/// the original, all measured, all within bounds; and `measured_idx` names
/// their original positions, in strictly increasing order.
pub proof fn lemma_measured_of_props(items: Seq<Picture>)
    requires
        forall|k: int| 0 <= k < items.len() ==> (#[trigger] items[k]).valid(),
    ensures
        measured_of(items).len() <= items.len(),
        measured_idx(items).len() == measured_of(items).len(),
        forall|k: int|
            0 <= k < measured_of(items).len() ==> (#[trigger] measured_of(items)[k]).valid()
                && measured_of(items)[k].spec_measured(),
        forall|k: int|
            0 <= k < measured_idx(items).len() ==> 0 <= #[trigger] measured_idx(items)[k]
                < items.len() && items[measured_idx(items)[k]] == measured_of(items)[k],
        forall|i: int, j: int|
            0 <= i < j < measured_idx(items).len() ==> #[trigger] measured_idx(items)[i]
                < #[trigger] measured_idx(items)[j],
    decreases items.len(),
{
    if items.len() > 0 {
        assert(forall|k: int|
            0 <= k < items.drop_last().len() ==> (#[trigger] items.drop_last()[k]).valid());
        lemma_measured_of_props(items.drop_last());
    }
}

/// Collects the measured items of a page together with their original
/// positions.
pub(crate) fn measured_split(page: &Vec<Picture>) -> (r: (Vec<Picture>, Vec<usize>))
    requires
        page@.len() <= MAX_PAGE,
        forall|k: int| 0 <= k < page@.len() ==> (#[trigger] page@[k]).valid(),
    ensures
        r.0@ == measured_of(page@),
        r.1@.map_values(|u: usize| u as int) == measured_idx(page@),
        eligible_page(r.0@),
{
    let len = page.len();
    let mut out: Vec<Picture> = Vec::new();
    let mut idx: Vec<usize> = Vec::new();
    let mut i: usize = 0;
    while i < len
        invariant
            len == page@.len(),
            0 <= i <= len,
            forall|k: int| 0 <= k < page@.len() ==> (#[trigger] page@[k]).valid(),
            out@ == measured_of(page@.take(i as int)),
            idx@.map_values(|u: usize| u as int) == measured_idx(page@.take(i as int)),
        decreases len - i,
    {
        proof {
            assert(page@.take(i + 1 as int).drop_last() =~= page@.take(i as int));
            assert(page@.take(i + 1 as int).last() == page@[i as int]);
        }
        if page[i].measured() {
            out.push(page[i].clone());
            idx.push(i);
            proof {
                assert(idx@.map_values(|u: usize| u as int) =~= measured_idx(
                    page@.take(i + 1 as int),
                ));
            }
        }
        i = i + 1;
    }
    proof {
        assert(page@.take(len as int) =~= page@);
        lemma_measured_of_props(page@);
    }
    (out, idx)
}

/// Numerator of the exact fit error of a `bw` by `bh` box in a `vw` by `vh`
/// viewport: `|vw/bw - vh/bh|` brought over the denominator `bw * bh`.
pub open spec fn fit_err_num(vw: int, vh: int, bw: int, bh: int) -> int {
    if vw * bh >= vh * bw {
        vw * bh - vh * bw
    } else {
        vh * bw - vw * bh
    }
}

/// Denominator of the exact fit error.
pub open spec fn fit_err_den(bw: int, bh: int) -> int {
    bw * bh
}

/// The fit error of box `a` is strictly smaller than that of box `b`,
/// compared exactly by cross-multiplication.
pub open spec fn err_lt(vw: int, vh: int, a: (int, int), b: (int, int)) -> bool {
    fit_err_num(vw, vh, a.0, a.1) * fit_err_den(b.0, b.1) < fit_err_num(vw, vh, b.0, b.1)
        * fit_err_den(a.0, a.1)
}

/// The fit error of box `a` is at most that of box `b`.
pub open spec fn err_le(vw: int, vh: int, a: (int, int), b: (int, int)) -> bool {
    fit_err_num(vw, vh, a.0, a.1) * fit_err_den(b.0, b.1) <= fit_err_num(vw, vh, b.0, b.1)
        * fit_err_den(a.0, a.1)
}

/// Computes the exact fit error of one box.
fn fit_err(vw: u32, vh: u32, bw: u64, bh: u64) -> (r: (u128, u128))
    requires
        vw <= MAX_DIM,
        vh <= MAX_DIM,
        1 <= bw <= MAX_BOX,
        1 <= bh <= MAX_BOX,
    ensures
        r.0 as int == fit_err_num(vw as int, vh as int, bw as int, bh as int),
        r.1 as int == fit_err_den(bw as int, bh as int),
        r.0 <= 72057594037927936,
        1 <= r.1 <= 18446744073709551616,
{
    proof {
        assert(vw * bh <= MAX_DIM * MAX_BOX && vh * bw <= MAX_DIM * MAX_BOX && 1 <= bw * bh
            <= MAX_BOX * MAX_BOX) by (nonlinear_arith)
            requires
                0 <= vw <= MAX_DIM,
                0 <= vh <= MAX_DIM,
                1 <= bw <= MAX_BOX,
                1 <= bh <= MAX_BOX,
        ;
    }
    let x = (vw as u128) * (bh as u128);
    let y = (vh as u128) * (bw as u128);
    let num = if x >= y {
        x - y
    } else {
        y - x
    };
    let den = (bw as u128) * (bh as u128);
    (num, den)
}

/// Whether candidate `a` fits the viewport strictly better than `b`.
fn err_less(vw: u32, vh: u32, a: &Candidate, b: &Candidate) -> (r: bool)
    requires
        vw <= MAX_DIM,
        vh <= MAX_DIM,
        1 <= a.box_w <= MAX_BOX,
        1 <= a.box_h <= MAX_BOX,
        1 <= b.box_w <= MAX_BOX,
        1 <= b.box_h <= MAX_BOX,
    ensures
        r == err_lt(
            vw as int,
            vh as int,
            (a.box_w as int, a.box_h as int),
            (b.box_w as int, b.box_h as int),
        ),
{
    let (na, da) = fit_err(vw, vh, a.box_w, a.box_h);
    let (nb, db) = fit_err(vw, vh, b.box_w, b.box_h);
    proof {
        assert(na * db <= 72057594037927936 * 18446744073709551616 && nb * da
            <= 72057594037927936 * 18446744073709551616) by (nonlinear_arith)
            requires
                0 <= na <= 72057594037927936,
                0 <= nb <= 72057594037927936,
                1 <= da <= 18446744073709551616,
                1 <= db <= 18446744073709551616,
        ;
    }
    na * db < nb * da
}

/// Transitivity of the exact fraction order: with positive denominators,
/// `n1/d1 <= n2/d2` and `n2/d2 <= n3/d3` give `n1/d1 <= n3/d3`, strictly
/// whenever either hypothesis is strict.
proof fn lemma_frac_trans(n1: int, d1: int, n2: int, d2: int, n3: int, d3: int)
    requires
        d1 >= 1,
        d2 >= 1,
        d3 >= 1,
        n1 * d2 <= n2 * d1,
        n2 * d3 <= n3 * d2,
    ensures
        n1 * d3 <= n3 * d1,
        n1 * d2 < n2 * d1 ==> n1 * d3 < n3 * d1,
        n2 * d3 < n3 * d2 ==> n1 * d3 < n3 * d1,
{
    assert((n1 * d3 <= n3 * d1) && (n1 * d2 < n2 * d1 ==> n1 * d3 < n3 * d1) && (n2 * d3 < n3 * d2
        ==> n1 * d3 < n3 * d1)) by (nonlinear_arith)
        requires
            d1 >= 1,
            d2 >= 1,
            d3 >= 1,
            n1 * d2 <= n2 * d1,
            n2 * d3 <= n3 * d2,
    ;
}

/// Candidate range evaluated for a page size: column counts from `1` to
/// `ceil(batch / 2) + 1`.
pub open spec fn cand_cap(batch: int) -> int {
    (batch + 1) / 2 + 1
}

/// What a completed layout search guarantees about its cached result for a
/// page of eligible (measured) items: the box really is the arrangement of
/// the items into `cols` columns, the stored error is that box's exact fit
/// error, no candidate in range fits strictly better, and every smaller
/// column count fits strictly worse — the earliest best candidate wins.
pub open spec fn stats_good(s: Stats, eligible: Seq<Picture>, batch: int, vw: int, vh: int) -> bool {
    let bx = (s.box_w as int, s.box_h as int);
    &&& 1 <= s.cols <= cand_cap(batch)
    &&& s.box_w as int == spec_box(eligible, s.cols as int).0
    &&& s.box_h as int == spec_box(eligible, s.cols as int).1
    &&& s.err_num as int == fit_err_num(vw, vh, bx.0, bx.1)
    &&& s.err_den as int == fit_err_den(bx.0, bx.1)
    &&& forall|n: int| 1 <= n <= cand_cap(batch) ==> err_le(vw, vh, bx, #[trigger] spec_box(eligible, n))
    &&& forall|n: int| 1 <= n < s.cols ==> err_lt(vw, vh, bx, #[trigger] spec_box(eligible, n))
}

/// Relies on rayon's indexed parallel iterators: `into_par_iter` over the
/// range of column counts, `map` with the verified [`candidate_box`], and
/// `collect_into_vec`, which stores each closure result at its index, so
/// slot `i` holds the box for `i + 1` columns exactly as a sequential map
/// would.  The closure is a pure function of its argument, so the parallel
/// schedule cannot change any element.
#[verifier::external_body]
fn par_candidates(page: &Vec<Picture>, cap: usize) -> (r: Vec<Candidate>)
    requires
        cap >= 1,
        eligible_page(page@),
    ensures
        r@.len() == cap,
        forall|i: int|
            0 <= i < cap ==> (#[trigger] r@[i]).cols == i + 1 && r@[i].box_w as int == spec_box(
                page@,
                i + 1,
            ).0 && r@[i].box_h as int == spec_box(page@, i + 1).1,
{
    let mut out: Vec<Candidate> = Vec::new();
    (1..cap + 1).into_par_iter().map(|n| candidate_box(page, n)).collect_into_vec(&mut out);
    out
}

/// Layout search: evaluates every column count in the candidate range for
/// the page's measured items — in parallel, the reduction being a
/// deterministic minimum — and returns the arrangement whose bounding box
/// proportion is exactly closest to the viewport's, earliest candidate
/// first on ties.  Fails with `DegenerateViewport` on a zero-sized viewport
/// and with `EmptyPage` when the page holds no measured item.
pub fn search(page: &Vec<Picture>, batch: u8, vw: u32, vh: u32) -> (r: Result<Stats, EngineError>)
    requires
        batch >= 1,
        page@.len() <= batch as int,
        vw <= MAX_DIM,
        vh <= MAX_DIM,
        forall|k: int| 0 <= k < page@.len() ==> (#[trigger] page@[k]).valid(),
    ensures
        r is Ok <==> (vw >= 1 && vh >= 1 && measured_of(page@).len() > 0),
        (vw == 0 || vh == 0) ==> r == Err::<Stats, EngineError>(EngineError::DegenerateViewport),
        (vw >= 1 && vh >= 1 && measured_of(page@).len() == 0) ==> r == Err::<Stats, EngineError>(
            EngineError::EmptyPage,
        ),
        r matches Ok(s) ==> stats_good(s, measured_of(page@), batch as int, vw as int, vh as int),
{
    if vw == 0 || vh == 0 {
        return Err(EngineError::DegenerateViewport);
    }
    let (m, _idx) = measured_split(page);
    if m.len() == 0 {
        return Err(EngineError::EmptyPage);
    }
    let cap = (batch as usize + 1) / 2 + 1;
    let cands = par_candidates(&m, cap);
    proof {
        lemma_box_bounds(m@, 1);
    }
    let mut best: Candidate = cands[0];
    let mut i: usize = 1;
    while i < cap
        invariant
            1 <= i <= cap,
            cap == cand_cap(batch as int),
            vw >= 1,
            vh >= 1,
            vw <= MAX_DIM,
            vh <= MAX_DIM,
            eligible_page(m@),
            m@.len() >= 1,
            cands@.len() == cap,
            forall|j: int|
                0 <= j < cap ==> {
                    let c = #[trigger] cands@[j];
                    c.cols == j + 1 && c.box_w as int == spec_box(m@, j + 1).0 && c.box_h as int
                        == spec_box(m@, j + 1).1
                },
            1 <= best.cols <= i,
            best.box_w as int == spec_box(m@, best.cols as int).0,
            best.box_h as int == spec_box(m@, best.cols as int).1,
            forall|n: int|
                1 <= n <= i ==> err_le(
                    vw as int,
                    vh as int,
                    (best.box_w as int, best.box_h as int),
                    #[trigger] spec_box(m@, n),
                ),
            forall|n: int|
                1 <= n < best.cols ==> err_lt(
                    vw as int,
                    vh as int,
                    (best.box_w as int, best.box_h as int),
                    #[trigger] spec_box(m@, n),
                ),
        decreases cap - i,
    {
        let c = cands[i];
        proof {
            lemma_box_bounds(m@, i + 1 as int);
            lemma_box_bounds(m@, best.cols as int);
        }
        if err_less(vw, vh, &c, &best) {
            proof {
                lemma_best_update(m@, vw as int, vh as int, best, c, i as int);
            }
            best = c;
        } else {
            proof {
                assert(err_le(
                    vw as int,
                    vh as int,
                    (best.box_w as int, best.box_h as int),
                    spec_box(m@, i + 1 as int),
                ));
            }
        }
        i = i + 1;
    }
    proof {
        lemma_box_bounds(m@, best.cols as int);
    }
    let (en, ed) = fit_err(vw, vh, best.box_w, best.box_h);
    Ok(Stats { cols: best.cols, box_w: best.box_w, box_h: best.box_h, err_num: en, err_den: ed })
}

/// Layout determinism: the guarantees of a completed search pin its result
/// down completely, so two searches over the same page, page size and
/// viewport — sequential or parallel, repeated in any order — return the
/// identical column count, bounding box and fit error.
pub proof fn lemma_layout_deterministic(
    eligible: Seq<Picture>,
    batch: int,
    vw: int,
    vh: int,
    s1: Stats,
    s2: Stats,
)
    requires
        stats_good(s1, eligible, batch, vw, vh),
        stats_good(s2, eligible, batch, vw, vh),
    ensures
        s1 == s2,
{
    let b1 = (s1.box_w as int, s1.box_h as int);
    let b2 = (s2.box_w as int, s2.box_h as int);
    if s1.cols < s2.cols {
        assert(err_lt(vw, vh, b2, spec_box(eligible, s1.cols as int)));
        assert(err_le(vw, vh, b1, spec_box(eligible, s2.cols as int)));
        assert(false);
    }
    if s2.cols < s1.cols {
        assert(err_lt(vw, vh, b1, spec_box(eligible, s2.cols as int)));
        assert(err_le(vw, vh, b2, spec_box(eligible, s1.cols as int)));
        assert(false);
    }
}

/// When a later candidate fits strictly better than the best so far, it
/// also fits at least as well as every candidate the fold has passed, and
/// strictly better than every earlier one.
proof fn lemma_best_update(m: Seq<Picture>, vw: int, vh: int, best: Candidate, c: Candidate, i: int)
    requires
        eligible_page(m),
        m.len() >= 1,
        1 <= best.cols <= i,
        c.cols == i + 1,
        best.box_w as int == spec_box(m, best.cols as int).0,
        best.box_h as int == spec_box(m, best.cols as int).1,
        c.box_w as int == spec_box(m, i + 1).0,
        c.box_h as int == spec_box(m, i + 1).1,
        err_lt(
            vw,
            vh,
            (c.box_w as int, c.box_h as int),
            (best.box_w as int, best.box_h as int),
        ),
        forall|n: int|
            1 <= n <= i ==> err_le(
                vw,
                vh,
                (best.box_w as int, best.box_h as int),
                #[trigger] spec_box(m, n),
            ),
    ensures
        forall|n: int|
            1 <= n <= i + 1 ==> err_le(
                vw,
                vh,
                (c.box_w as int, c.box_h as int),
                #[trigger] spec_box(m, n),
            ),
        forall|n: int|
            1 <= n < i + 1 ==> err_lt(
                vw,
                vh,
                (c.box_w as int, c.box_h as int),
                #[trigger] spec_box(m, n),
            ),
{
    let cb = (c.box_w as int, c.box_h as int);
    let bb = (best.box_w as int, best.box_h as int);
    assert forall|n: int| 1 <= n <= i implies err_lt(vw, vh, cb, #[trigger] spec_box(m, n)) by {
        let nb = spec_box(m, n);
        lemma_box_bounds(m, n);
        lemma_box_bounds(m, best.cols as int);
        lemma_box_bounds(m, i + 1);
        lemma_den_pos(cb.0, cb.1);
        lemma_den_pos(bb.0, bb.1);
        lemma_den_pos(nb.0, nb.1);
        lemma_frac_trans(
            fit_err_num(vw, vh, cb.0, cb.1),
            fit_err_den(cb.0, cb.1),
            fit_err_num(vw, vh, bb.0, bb.1),
            fit_err_den(bb.0, bb.1),
            fit_err_num(vw, vh, nb.0, nb.1),
            fit_err_den(nb.0, nb.1),
        );
    }
    assert(err_le(vw, vh, cb, spec_box(m, i + 1)));
}

/// A box with positive edges has a positive fit-error denominator.
proof fn lemma_den_pos(bw: int, bh: int)
    requires
        bw >= 1,
        bh >= 1,
    ensures
        fit_err_den(bw, bh) >= 1,
{
    assert(bw * bh >= 1) by (nonlinear_arith)
        requires
            bw >= 1,
            bh >= 1,
    ;
}

/// Extending a width sum by one item appends that item's width.
pub proof fn lemma_sum_prefix_step(items: Seq<Picture>, s: int, k: int)
    requires
        0 <= s <= k < items.len(),
    ensures
        sum_w(items, s, k + 1) == sum_w(items, s, k) + items[k].w,
    decreases k - s,
{
    if s < k {
        lemma_sum_prefix_step(items, s + 1, k);
    } else {
        assert(sum_w(items, k + 1, k + 1) == 0);
    }
}

/// Extending a height maximum by one item folds that item's height in.
pub proof fn lemma_max_prefix_step(items: Seq<Picture>, s: int, k: int)
    requires
        0 <= s <= k < items.len(),
    ensures
        max_h(items, s, k + 1) == max(max_h(items, s, k), items[k].h as int),
    decreases k - s,
{
    if s < k {
        lemma_max_prefix_step(items, s + 1, k);
    } else {
        assert(max_h(items, k + 1, k + 1) == 0);
    }
}

} // verus!
