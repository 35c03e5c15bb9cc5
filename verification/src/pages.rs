//! Page selection: partitioning the ordered item collection into
//! consecutive groups of `batch` items and addressing one group.

use vstd::prelude::*;
use vstd::arithmetic::div_mod::{
    lemma_div_is_ordered, lemma_div_pos_is_pos, lemma_fundamental_div_mod,
};

use crate::picture::Picture;
use crate::EngineError;

verus! {

/// Number of pages a collection of `len` items yields at page size `batch`:
/// `len / batch` rounded up, and zero for an empty collection.
pub open spec fn page_count(len: int, batch: int) -> int
    recommends
        batch >= 1,
{
    if len == 0 {
        0
    } else {
        (len - 1) / batch + 1
    }
}

/// The consecutive group of items forming page `index`: all items from
/// `index * batch` up to the next page boundary or the end, whichever comes
/// first.
pub open spec fn spec_page(items: Seq<Picture>, batch: int, index: int) -> Seq<Picture>
    recommends
        batch >= 1,
        0 <= index < page_count(items.len() as int, batch),
{
    let start = index * batch;
    let end = if items.len() < start + batch {
        items.len() as int
    } else {
        start + batch
    };
    items.subrange(start, end)
}

/// Returns the items of page `index`, or `OutOfRange` when the collection is
/// empty or `index` lies beyond the last page.  Deterministic: the result is
/// exactly the sub-sequence `spec_page` describes.
pub fn page(items: &Vec<Picture>, batch: u8, index: usize) -> (r: Result<
    Vec<Picture>,
    EngineError,
>)
    requires
        batch >= 1,
    ensures
        r is Ok <==> (items@.len() > 0 && index < page_count(
            items@.len() as int,
            batch as int,
        )),
        r is Err ==> r == Err::<Vec<Picture>, EngineError>(EngineError::OutOfRange),
        r matches Ok(p) ==> {
            &&& p@ == spec_page(items@, batch as int, index as int)
            &&& 1 <= p@.len() <= batch
        },
{
    let len = items.len();
    if len == 0 {
        return Err(EngineError::OutOfRange);
    }
    let b = batch as usize;
    let pages = (len - 1) / b + 1;
    if index >= pages {
        return Err(EngineError::OutOfRange);
    }
    proof {
        lemma_page_start_in_bounds(len as int, b as int, index as int);
    }
    let start = index * b;
    let end = if len - start > b {
        start + b
    } else {
        len
    };
    let mut out: Vec<Picture> = Vec::new();
    let mut k = start;
    while k < end
        invariant
            start <= k <= end <= items@.len(),
            out@ == items@.subrange(start as int, k as int),
        decreases end - k,
    {
        out.push(items[k].clone());
        proof {
            assert(out@ =~= items@.subrange(start as int, k + 1 as int));
        }
        k = k + 1;
    }
    assert(out@ == spec_page(items@, batch as int, index as int));
    Ok(out)
}

/// For a valid page index the page's first item lies inside the collection:
/// `index * batch <= len - 1`.
pub proof fn lemma_page_start_in_bounds(len: int, batch: int, index: int)
    requires
        batch >= 1,
        len >= 1,
        0 <= index < page_count(len, batch),
    ensures
        index * batch <= len - 1,
        index * batch < len,
{
    let q = (len - 1) / batch;
    lemma_fundamental_div_mod(len - 1, batch);
    assert(index <= q);
    assert(index * batch <= q * batch) by (nonlinear_arith)
        requires
            index <= q,
            batch >= 1,
    ;
    assert(q * batch <= len - 1) by (nonlinear_arith)
        requires
            len - 1 == batch * q + (len - 1) % batch,
            (len - 1) % batch >= 0,
    ;
}

/// Page partition completeness: every item of the collection appears in
/// exactly one page slot, in the original order.  Item `k` is the
/// `k % batch`-th entry of page `k / batch`, and conversely the `j`-th entry
/// of page `i` is item `i * batch + j`; the two index maps are mutually
/// inverse, so the pages, concatenated in order, are the collection itself.
pub proof fn lemma_page_partition(items: Seq<Picture>, batch: int)
    requires
        batch >= 1,
    ensures
        forall|k: int|
            0 <= k < items.len() ==> {
                let i = #[trigger] (k / batch);
                let j = k % batch;
                &&& 0 <= i < page_count(items.len() as int, batch)
                &&& 0 <= j < spec_page(items, batch, i).len()
                &&& i * batch + j == k
                &&& spec_page(items, batch, i)[j] == items[k]
            },
        forall|i: int, j: int|
            0 <= i < page_count(items.len() as int, batch) && 0 <= j < spec_page(
                items,
                batch,
                i,
            ).len() ==> (#[trigger] spec_page(items, batch, i)[j]) == items[i * batch + j] && 0 <= i
                * batch + j < items.len(),
{
    let len = items.len() as int;
    assert forall|k: int| 0 <= k < len implies {
        let i = #[trigger] (k / batch);
        let j = k % batch;
        &&& 0 <= i < page_count(len, batch)
        &&& 0 <= j < spec_page(items, batch, i).len()
        &&& i * batch + j == k
        &&& spec_page(items, batch, i)[j] == items[k]
    } by {
        let i = k / batch;
        let j = k % batch;
        lemma_fundamental_div_mod(k, batch);
        assert(j < batch && j >= 0) by (nonlinear_arith)
            requires
                batch >= 1,
                j == k % batch,
        ;
        assert(i * batch + j == k) by (nonlinear_arith)
            requires
                k == batch * i + j,
        ;
        lemma_div_pos_is_pos(k, batch);
        lemma_div_is_ordered(k, len - 1, batch);
        lemma_fundamental_div_mod(len - 1, batch);
        assert(i < page_count(len, batch));
        lemma_page_start_in_bounds(len, batch, i);
        assert(i * batch <= k < i * batch + batch);
        assert(spec_page(items, batch, i)[j] == items[k]);
    }
    assert forall|i: int, j: int|
        0 <= i < page_count(len, batch) && 0 <= j < spec_page(items, batch, i).len() implies (
    #[trigger] spec_page(items, batch, i)[j]) == items[i * batch + j] && 0 <= i * batch + j
        < items.len() by {
        lemma_page_start_in_bounds(len, batch, i);
        let start = i * batch;
        assert(start >= 0) by (nonlinear_arith)
            requires
                start == i * batch,
                i >= 0,
                batch >= 1,
        ;
        let end = if len < start + batch {
            len
        } else {
            start + batch
        };
        assert(spec_page(items, batch, i) == items.subrange(start, end));
        assert(0 <= start + j < len);
        assert(spec_page(items, batch, i)[j] == items[start + j]);
        assert(0 <= i * batch + j < items.len());
        assert(spec_page(items, batch, i)[j] == items[i * batch + j]);
    }
}

} // verus!
