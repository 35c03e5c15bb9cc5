//! The folder: the ordered picture collection, its pagination cursor, dirty
//! tracking, aggregate statistics, and the cached layout of the current
//! page.

use vstd::prelude::*;

use crate::layout::{measured_of, search, stats_good, Stats};
use crate::location::{parse_location, url_ok, url_path, url_scheme, Location};
use crate::pages::{page, page_count, spec_page};
use crate::picture::Picture;
use crate::{EngineError, MAX_DIM};

verus! {

/// A folder of pictures: the collection is an insertion-ordered map from a
/// picture's path to the picture — inserting a known path updates in place —
/// and the folder owns the page cursor, page size, flow direction, dirty
/// flag, aggregate statistics, and the last layout-search result.
pub struct Folder {
    /// Where the collection comes from: the parsed location's scheme and
    /// path.
    pub location: Location,
    /// The pictures, in insertion order; paths are unique.
    pub items: Vec<Picture>,
    /// Whether the item set must be re-scanned and aggregates recomputed.
    pub changed: bool,
    /// Flow direction: `true` places items start-to-end within a row.
    pub direction: bool,
    /// Total byte size of all items, saturating.
    pub size: u64,
    /// Summed width and height over all items, saturating.
    pub maxdim: (u64, u64),
    /// Page size: how many items one page holds.
    pub batch: u8,
    /// Zero-based current page number.
    pub index: usize,
    /// Cached result of the last layout search over the current page.
    pub stats: Stats,
}

/// Whether some item already carries this path.
pub open spec fn has_key(items: Seq<Picture>, path: Seq<char>) -> bool {
    exists|i: int| 0 <= i < items.len() && (#[trigger] items[i]).path@ == path
}

/// Total byte size of the items.
pub open spec fn sum_sizes(items: Seq<Picture>) -> int
    decreases items.len(),
{
    if items.len() == 0 {
        0
    } else {
        sum_sizes(items.drop_last()) + items.last().size
    }
}

/// Total width of the items.
pub open spec fn sum_widths(items: Seq<Picture>) -> int
    decreases items.len(),
{
    if items.len() == 0 {
        0
    } else {
        sum_widths(items.drop_last()) + items.last().w
    }
}

/// Total height of the items.
pub open spec fn sum_heights(items: Seq<Picture>) -> int
    decreases items.len(),
{
    if items.len() == 0 {
        0
    } else {
        sum_heights(items.drop_last()) + items.last().h
    }
}

/// Saturation at the largest 64-bit value, the way the aggregate counters
/// accumulate.
pub open spec fn sat64(x: int) -> int {
    if x > u64::MAX {
        u64::MAX as int
    } else {
        x
    }
}

impl Folder {
    /// Well-formedness: a positive page size, every item valid, and no two
    /// items sharing a path.
    pub open spec fn wf(self) -> bool {
        &&& self.batch >= 1
        &&& forall|i: int| 0 <= i < self.items@.len() ==> (#[trigger] self.items@[i]).valid()
        &&& forall|i: int, j: int|
            0 <= i < j < self.items@.len() ==> self.items@[i].path@ != self.items@[j].path@
    }

    /// Creates a folder at the given location, or nothing when the location
    /// does not parse as a URL.  A fresh folder starts dirty on its first
    /// page with two items per page, flowing start-to-end.
    pub fn new(location: &str) -> (r: Option<Folder>)
        ensures
            r is Some <==> url_ok(location@),
            r matches Some(f) ==> {
                &&& f.wf()
                &&& f.location.scheme@ == url_scheme(location@)
                &&& f.location.path@ == url_path(location@)
                &&& f.items@.len() == 0
                &&& f.changed
                &&& f.direction
                &&& f.size == 0
                &&& f.maxdim == (0u64, 0u64)
                &&& f.batch == 2
                &&& f.index == 0
                &&& f.stats == (Stats { cols: 1, box_w: 1, box_h: 1, err_num: 0, err_den: 1 })
            },
    {
        match parse_location(location) {
            Some(loc) => Some(
                Folder {
                    location: loc,
                    items: Vec::new(),
                    changed: true,
                    direction: true,
                    size: 0,
                    maxdim: (0, 0),
                    batch: 2,
                    index: 0,
                    stats: Stats { cols: 1, box_w: 1, box_h: 1, err_num: 0, err_den: 1 },
                },
            ),
            None => None,
        }
    }

    /// The percent-encoded path of the folder's location.
    pub fn path(&self) -> (r: &str)
        ensures
            r@ == self.location.path@,
    {
        self.location.path.as_str()
    }

    /// The scheme of the folder's location.
    pub fn scheme(&self) -> (r: &str)
        ensures
            r@ == self.location.scheme@,
    {
        self.location.scheme.as_str()
    }

    /// Inserts a picture under its path: a new path appends, a known path
    /// updates that item in place.  Either way the folder becomes dirty and
    /// nothing else moves.
    pub fn add_pic(&mut self, pic: Picture)
        requires
            old(self).wf(),
            pic.valid(),
        ensures
            final(self).wf(),
            *final(self) == (Folder {
                items: final(self).items,
                changed: true,
                ..*old(self)
            }),
            has_key(old(self).items@, pic.path@) ==> {
                &&& final(self).items@.len() == old(self).items@.len()
                &&& forall|i: int|
                    0 <= i < old(self).items@.len() && (#[trigger] old(self).items@[i]).path@
                        != pic.path@ ==> final(self).items@[i] == old(self).items@[i]
                &&& forall|i: int|
                    0 <= i < old(self).items@.len() && (#[trigger] old(self).items@[i]).path@
                        == pic.path@ ==> final(self).items@[i] == pic
            },
            !has_key(old(self).items@, pic.path@) ==> final(self).items@ == old(
                self,
            ).items@.push(pic),
    {
        let len = self.items.len();
        let mut i: usize = 0;
        while i < len
            invariant
                len == self.items@.len(),
                0 <= i <= len,
                self == old(self),
                self.wf(),
                pic.valid(),
                forall|j: int| 0 <= j < i ==> (#[trigger] self.items@[j]).path@ != pic.path@,
            decreases len - i,
        {
            if self.items[i].path == pic.path {
                proof {
                    let items0 = self.items@;
                    let ii = i as int;
                    assert(items0[ii].path@ == pic.path@);
                    assert forall|a: int, b: int|
                        0 <= a < b < items0.len() implies items0.update(ii, pic)[a].path@
                        != items0.update(ii, pic)[b].path@ by {
                        assert(items0[a].path@ != items0[b].path@);
                        if a == ii {
                            assert(items0.update(ii, pic)[a] == pic);
                            assert(items0.update(ii, pic)[b] == items0[b]);
                            assert(pic.path@ == items0[ii].path@);
                        } else if b == ii {
                            assert(items0.update(ii, pic)[b] == pic);
                            assert(items0.update(ii, pic)[a] == items0[a]);
                        }
                    }
                    assert forall|j: int|
                        0 <= j < items0.len() && (#[trigger] items0[j]).path@ == pic.path@ implies j
                        == ii by {
                        if j != ii {
                            if j < ii {
                                assert(items0[j].path@ != items0[ii].path@);
                            } else {
                                assert(items0[ii].path@ != items0[j].path@);
                            }
                        }
                    }
                }
                self.items[i] = pic;
                self.changed = true;
                return ;
            }
            i = i + 1;
        }
        assert(!has_key(self.items@, pic.path@));
        self.items.push(pic);
        self.changed = true;
    }

    /// Recomputes the aggregate statistics: total byte size and summed
    /// dimensions over all items, each saturating at the counter's limit.
    fn recount(&mut self)
        ensures
            *final(self) == (Folder {
                size: sat64(sum_sizes(old(self).items@)) as u64,
                maxdim: (
                    sat64(sum_widths(old(self).items@)) as u64,
                    sat64(sum_heights(old(self).items@)) as u64,
                ),
                ..*old(self)
            }),
    {
        let len = self.items.len();
        let mut size: u64 = 0;
        let mut w: u64 = 0;
        let mut h: u64 = 0;
        let mut i: usize = 0;
        while i < len
            invariant
                len == self.items@.len(),
                0 <= i <= len,
                self == old(self),
                0 <= sum_sizes(self.items@.take(i as int)),
                0 <= sum_widths(self.items@.take(i as int)),
                0 <= sum_heights(self.items@.take(i as int)),
                size as int == sat64(sum_sizes(self.items@.take(i as int))),
                w as int == sat64(sum_widths(self.items@.take(i as int))),
                h as int == sat64(sum_heights(self.items@.take(i as int))),
            decreases len - i,
        {
            proof {
                assert(self.items@.take(i + 1 as int).drop_last() =~= self.items@.take(i as int));
                assert(self.items@.take(i + 1 as int).last() == self.items@[i as int]);
            }
            size = size.saturating_add(self.items[i].size);
            w = w.saturating_add(self.items[i].w as u64);
            h = h.saturating_add(self.items[i].h as u64);
            i = i + 1;
        }
        proof {
            assert(self.items@.take(len as int) =~= self.items@);
        }
        self.size = size;
        self.maxdim = (w, h);
    }

    /// Advances to the next page when one exists; at the last page the
    /// cursor stays put.
    pub fn next_page(&mut self)
        requires
            old(self).wf(),
        ensures
            final(self).wf(),
            *final(self) == spec_next_page(*old(self)),
    {
        let len = self.items.len();
        let b = self.batch as usize;
        proof {
            if len >= 1 {
                lemma_next_page_cond(self.index as int, b as int, len as int);
            }
        }
        if len >= 1 && self.index < (len - 1) / b {
            self.index = self.index + 1;
        }
    }

    /// Steps back one page; at the first page the cursor stays at zero —
    /// no underflow.
    pub fn prev_page(&mut self)
        requires
            old(self).wf(),
        ensures
            final(self).wf(),
            *final(self) == spec_prev_page(*old(self)),
    {
        if self.index >= 1 {
            self.index = self.index - 1;
        }
    }

    /// Grows the page size by one, bounded by the collection size over the
    /// current page number, never below one nor past the counter's range.
    /// Marks the folder dirty.
    pub fn more(&mut self)
        requires
            old(self).wf(),
        ensures
            final(self).wf(),
            *final(self) == spec_more(*old(self)),
    {
        let idx = if self.index >= 1 {
            self.index
        } else {
            1
        };
        let cap = self.items.len() / idx;
        let inc = self.batch as usize + 1;
        let m = if inc <= cap {
            inc
        } else {
            cap
        };
        let nb: u8 = if m < 1 {
            1
        } else if m > 255 {
            255
        } else {
            m as u8
        };
        self.batch = nb;
        self.changed = true;
    }

    /// Shrinks the page size by two, to one at the least.  Marks the folder
    /// dirty.
    pub fn less(&mut self)
        requires
            old(self).wf(),
        ensures
            final(self).wf(),
            *final(self) == spec_less(*old(self)),
    {
        self.batch = if self.batch >= 3 {
            self.batch - 2
        } else {
            1
        };
        self.changed = true;
    }

    /// Flips the flow direction.  The box dimensions do not depend on the
    /// direction, so the item set stays clean.
    pub fn toggle_direction(&mut self)
        requires
            old(self).wf(),
        ensures
            final(self).wf(),
            *final(self) == spec_toggle_direction(*old(self)),
    {
        self.direction = !self.direction;
    }

    /// Runs the layout search for the current page against the given
    /// viewport and caches the result.  Fails with `OutOfRange` when the
    /// cursor points past the available pages (or the folder is empty),
    /// with `DegenerateViewport` on a zero-sized viewport, and with
    /// `EmptyPage` when the page holds no measured picture; on failure the
    /// folder is untouched and the page is simply not drawn this frame.
    pub fn folder_stats(&mut self, vw: u32, vh: u32) -> (r: Result<(), EngineError>)
        requires
            old(self).wf(),
            vw <= MAX_DIM,
            vh <= MAX_DIM,
        ensures
            final(self).wf(),
            r is Err ==> *final(self) == *old(self),
            r is Ok <==> old(self).can_lay_out(vw as int, vh as int),
            !(old(self).items@.len() > 0 && old(self).index < page_count(
                old(self).items@.len() as int,
                old(self).batch as int,
            )) ==> r == Err::<(), EngineError>(EngineError::OutOfRange),
            (old(self).items@.len() > 0 && old(self).index < page_count(
                old(self).items@.len() as int,
                old(self).batch as int,
            ) && (vw == 0 || vh == 0)) ==> r == Err::<(), EngineError>(
                EngineError::DegenerateViewport,
            ),
            ({
                let pg = spec_page(old(self).items@, old(self).batch as int, old(self).index as int);
                &&& (old(self).items@.len() > 0 && old(self).index < page_count(
                    old(self).items@.len() as int,
                    old(self).batch as int,
                ) && vw >= 1 && vh >= 1 && measured_of(pg).len() == 0) ==> r == Err::<
                    (),
                    EngineError,
                >(EngineError::EmptyPage)
                &&& r is Ok ==> {
                    &&& *final(self) == (Folder { stats: final(self).stats, ..*old(self) })
                    &&& stats_good(
                        final(self).stats,
                        measured_of(pg),
                        old(self).batch as int,
                        vw as int,
                        vh as int,
                    )
                }
            }),
    {
        let pg = match page(&self.items, self.batch, self.index) {
            Ok(pg) => pg,
            Err(e) => {
                return Err(e);
            },
        };
        proof {
            let start = self.index as int * self.batch as int;
            vstd::arithmetic::mul::lemma_mul_nonnegative(self.index as int, self.batch as int);
            crate::pages::lemma_page_start_in_bounds(
                self.items@.len() as int,
                self.batch as int,
                self.index as int,
            );
            assert forall|k: int| 0 <= k < pg@.len() implies (#[trigger] pg@[k]).valid() by {
                assert(pg@[k] == self.items@[start + k]);
            }
        }
        let st = match search(&pg, self.batch, vw, vh) {
            Ok(st) => st,
            Err(e) => {
                return Err(e);
            },
        };
        self.stats = st;
        Ok(())
    }

    /// When a prepare cycle succeeds: the cursor points at a real page, the
    /// viewport has area, and the page holds at least one measured picture.
    pub open spec fn can_lay_out(self, vw: int, vh: int) -> bool {
        &&& self.items@.len() > 0
        &&& self.index < page_count(self.items@.len() as int, self.batch as int)
        &&& vw >= 1
        &&& vh >= 1
        &&& measured_of(
            spec_page(self.items@, self.batch as int, self.index as int),
        ).len() > 0
    }

    /// How one prepare cycle carries a folder from `f0` to `f1`: a dirty
    /// folder gets its aggregates recomputed either way; on a cycle that
    /// can lay out, the current page's layout is cached and the folder
    /// comes out clean, otherwise nothing else moves.
    pub open spec fn refresh_rel(f0: Folder, f1: Folder, vw: int, vh: int) -> bool {
        let counted = if f0.changed {
            Folder {
                size: sat64(sum_sizes(f0.items@)) as u64,
                maxdim: (
                    sat64(sum_widths(f0.items@)) as u64,
                    sat64(sum_heights(f0.items@)) as u64,
                ),
                ..f0
            }
        } else {
            f0
        };
        &&& !f0.can_lay_out(vw, vh) ==> f1 == counted
        &&& f0.can_lay_out(vw, vh) ==> {
            &&& f1 == (Folder { changed: false, stats: f1.stats, ..counted })
            &&& stats_good(
                f1.stats,
                measured_of(spec_page(f0.items@, f0.batch as int, f0.index as int)),
                f0.batch as int,
                vw,
                vh,
            )
        }
    }

    /// One prepare cycle: when the folder is dirty its aggregates are
    /// recomputed, then the current page is laid out against the viewport;
    /// only a completed cycle clears the dirty flag.
    pub fn refresh(&mut self, vw: u32, vh: u32) -> (r: Result<(), EngineError>)
        requires
            old(self).wf(),
            vw <= MAX_DIM,
            vh <= MAX_DIM,
        ensures
            final(self).wf(),
            r is Ok <==> old(self).can_lay_out(vw as int, vh as int),
            Folder::refresh_rel(*old(self), *final(self), vw as int, vh as int),
    {
        if self.changed {
            self.recount();
        }
        match self.folder_stats(vw, vh) {
            Ok(()) => {
                self.changed = false;
                Ok(())
            },
            Err(e) => Err(e),
        }
    }
}

impl Default for Folder {
    /// An empty folder at an unnamed location, dirty, flowing start-to-end,
    /// two items per page.
    fn default() -> (f: Self)
        ensures
            f.wf(),
            f.location.scheme@ =~= Seq::<char>::empty(),
            f.location.path@ =~= Seq::<char>::empty(),
            f.items@.len() == 0,
            f.changed,
            f.direction,
            f.size == 0,
            f.maxdim == (0u64, 0u64),
            f.batch == 2,
            f.index == 0,
            f.stats == (Stats { cols: 1, box_w: 1, box_h: 1, err_num: 0, err_den: 1 }),
    {
        Folder {
            location: Location { scheme: String::new(), path: String::new() },
            items: Vec::new(),
            changed: true,
            direction: true,
            size: 0,
            maxdim: (0, 0),
            batch: 2,
            index: 0,
            stats: Stats { cols: 1, box_w: 1, box_h: 1, err_num: 0, err_den: 1 },
        }
    }
}

/// The pagination transition of `next_page`: the cursor advances only while
/// a full step of `batch` items still lies before the end.
pub open spec fn spec_next_page(f: Folder) -> Folder {
    if (f.index + 1) * f.batch < f.items@.len() {
        Folder { index: (f.index + 1) as usize, ..f }
    } else {
        f
    }
}

/// The pagination transition of `prev_page`: one step back, stopping at
/// zero.
pub open spec fn spec_prev_page(f: Folder) -> Folder {
    Folder {
        index: if f.index >= 1 {
            (f.index - 1) as usize
        } else {
            0
        },
        ..f
    }
}

/// The new page size after `more`: one more than before, bounded by the
/// collection size over the current page number, clamped to the counter's
/// range and kept positive.
pub open spec fn spec_more_batch(batch: int, len: int, index: int) -> int {
    let idx = if index >= 1 {
        index
    } else {
        1
    };
    let cap = len / idx;
    let m = if batch + 1 <= cap {
        batch + 1
    } else {
        cap
    };
    if m < 1 {
        1
    } else if m > 255 {
        255
    } else {
        m
    }
}

/// The transition of `more`: a bigger page, and the folder is dirty.
pub open spec fn spec_more(f: Folder) -> Folder {
    Folder {
        batch: spec_more_batch(f.batch as int, f.items@.len() as int, f.index as int) as u8,
        changed: true,
        ..f
    }
}

/// The transition of `less`: the page shrinks by two, to one at the least,
/// and the folder is dirty.
pub open spec fn spec_less(f: Folder) -> Folder {
    Folder {
        batch: if f.batch >= 3 {
            (f.batch - 2) as u8
        } else {
            1u8
        },
        changed: true,
        ..f
    }
}

/// The transition of `toggle_direction`: only the flow direction flips.
pub open spec fn spec_toggle_direction(f: Folder) -> Folder {
    Folder { direction: !f.direction, ..f }
}

/// The executable page-advance test `index < (len - 1) / batch` is exactly
/// the specified `(index + 1) * batch < len`, with no overflow.
proof fn lemma_next_page_cond(index: int, batch: int, len: int)
    requires
        index >= 0,
        batch >= 1,
        len >= 1,
    ensures
        (index < (len - 1) / batch) <==> ((index + 1) * batch < len),
{
    let q = (len - 1) / batch;
    vstd::arithmetic::div_mod::lemma_fundamental_div_mod(len - 1, batch);
    assert((index < q) <==> ((index + 1) * batch < len)) by (nonlinear_arith)
        requires
            index >= 0,
            batch >= 1,
            len >= 1,
            q == (len - 1) / batch,
            len - 1 == batch * q + (len - 1) % batch,
            0 <= (len - 1) % batch < batch,
    ;
}

} // verus!
