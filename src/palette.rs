//! Reordering a palette from dark to bright, so that the indices themselves
//! read as a rough grayscale image.
use crate::transmit::PaletteColor;
use rayon::iter::{IntoParallelRefIterator, ParallelIterator};
use vstd::prelude::*;

verus! {

/// Brightness of a colour: the sum of its red, green and blue parts.
pub open spec fn brightness(c: PaletteColor) -> int {
    c.r + c.g + c.b
}

/// Whether palette entry `i` comes before entry `j`: it is darker, or as
/// bright and earlier.
pub open spec fn comes_before(pal: Seq<PaletteColor>, i: int, j: int) -> bool {
    brightness(pal[i]) < brightness(pal[j]) || (brightness(pal[i]) == brightness(pal[j]) && i < j)
}

/// `order` lists the entries of `pal` from dark to bright, equally bright
/// ones in their old order; this holds of exactly one sequence.
pub open spec fn is_brightness_order(pal: Seq<PaletteColor>, order: Seq<usize>) -> bool {
    &&& order.len() == pal.len()
    &&& forall|k: int| 0 <= k < order.len() ==> #[trigger] order[k] < pal.len()
    &&& forall|a: int, b: int|
        0 <= a < b < order.len() ==> comes_before(pal, #[trigger] order[a] as int, #[trigger] order[b] as int)
}

/// The first place at or after `i` where `order` holds `v`.
pub open spec fn find_from(order: Seq<usize>, v: nat, i: nat) -> Option<nat>
    decreases order.len() - i,
{
    if i >= order.len() {
        None
    } else if order[i as int] == v {
        Some(i)
    } else {
        find_from(order, v, i + 1)
    }
}

/// The new index of old palette entry `v`; 0 for a value that names no entry.
pub open spec fn new_index(order: Seq<usize>, v: u8) -> u8 {
    match find_from(order, v as nat, 0) {
        Some(i) => i as u8,
        None => 0,
    }
}

/// Relies on rayon: `par_iter().map(f).collect()` into a `Vec` keeps the
/// order of the input, so element `i` is `f` of input element `i`.
#[verifier::external_body]
fn parallel_new_indices(indexes: &[u8], order: &[usize]) -> (r: Vec<u8>)
    requires
        order@.len() <= 256,
    ensures
        r@.len() == indexes@.len(),
        forall|i: int| 0 <= i < indexes@.len() ==> #[trigger] r@[i] == new_index(order@, indexes@[i]),
{
    indexes.par_iter().map(|ic| new_index_of(order, *ic)).collect()
}

/// The new index of old palette entry `v` under `order`.
pub fn new_index_of(order: &[usize], v: u8) -> (r: u8)
    requires
        order@.len() <= 256,
    ensures
        r == new_index(order@, v),
{
    let mut i: usize = 0;
    while i < order.len()
        invariant
            order@.len() <= 256,
            i <= order@.len(),
            find_from(order@, v as nat, 0) == find_from(order@, v as nat, i as nat),
        decreases order@.len() - i,
    {
        if order[i] == v as usize {
            return i as u8;
        }
        i = i + 1;
    }
    0
}

fn brightness_of(c: PaletteColor) -> (r: u32)
    ensures
        r == brightness(c),
{
    c.r as u32 + c.g as u32 + c.b as u32
}

/// The entries of `palette` from dark to bright; equally bright entries keep
/// their order.
pub fn brightness_order(palette: &[PaletteColor]) -> (r: Vec<usize>)
    ensures
        is_brightness_order(palette@, r@),
{
    let ghost pal = palette@;
    let mut order: Vec<usize> = Vec::new();
    let mut k: usize = 0;
    while k < palette.len()
        invariant
            pal == palette@,
            k <= pal.len(),
            order@.len() == k,
            forall|m: int| 0 <= m < order@.len() ==> #[trigger] order@[m] < k,
            forall|a: int, b: int|
                0 <= a < b < order@.len() ==> comes_before(pal, #[trigger] order@[a] as int, #[trigger] order@[b] as int),
        decreases pal.len() - k,
    {
        let bk = brightness_of(palette[k]);
        let mut p: usize = 0;
        while p < order.len() && brightness_of(palette[order[p]]) <= bk
            invariant
                pal == palette@,
                k < pal.len(),
                order@.len() == k,
                forall|m: int| 0 <= m < order@.len() ==> #[trigger] order@[m] < k,
                bk == brightness(pal[k as int]),
                p <= order@.len(),
                forall|m: int| 0 <= m < p ==> brightness(pal[#[trigger] order@[m] as int]) <= bk,
            decreases order@.len() - p,
        {
            p = p + 1;
        }
        let ghost old_order = order@;
        proof {
            if p < old_order.len() {
                assert(brightness(pal[old_order[p as int] as int]) > bk);
                assert forall|m: int| p <= m < old_order.len() implies brightness(pal[#[trigger] old_order[m] as int]) > bk by {
                    if m > p {
                        assert(comes_before(pal, old_order[p as int] as int, old_order[m] as int));
                    }
                }
            }
        }
        order.insert(p, k);
        proof {
            assert forall|a: int, b: int|
                0 <= a < b < order@.len() implies comes_before(pal, #[trigger] order@[a] as int, #[trigger] order@[b] as int) by {
                if b < p {
                    assert(order@[a] == old_order[a] && order@[b] == old_order[b]);
                } else if b == p {
                    assert(order@[a] == old_order[a]);
                } else if a < p {
                    assert(order@[a] == old_order[a] && order@[b] == old_order[b - 1]);
                } else if a == p {
                    assert(order@[b] == old_order[b - 1]);
                } else {
                    assert(order@[a] == old_order[a - 1] && order@[b] == old_order[b - 1]);
                    assert(comes_before(pal, old_order[a - 1] as int, old_order[b - 1] as int));
                }
            }
            assert forall|m: int| 0 <= m < order@.len() implies #[trigger] order@[m] < k + 1 by {
                if m < p {
                    assert(order@[m] == old_order[m]);
                } else if m > p {
                    assert(order@[m] == old_order[m - 1]);
                }
            }
        }
        k = k + 1;
    }
    order
}

/// The palette `pal` rearranged in the order `order`.
pub open spec fn reordered(pal: Seq<PaletteColor>, order: Seq<usize>) -> Seq<PaletteColor> {
    Seq::new(order.len(), |i: int| pal[order[i] as int])
}

/// The indices `idx` renumbered for the palette rearranged by `order`.
pub open spec fn renumbered(idx: Seq<u8>, order: Seq<usize>) -> Seq<u8> {
    Seq::new(idx.len(), |i: int| new_index(order, idx[i]))
}

/// Sorts the palette from dark to bright (equally bright colours keep their
/// order) and renumbers the indices to match, so the picture stays the same.
/// An index that names no colour becomes 0.
pub fn reorder_palette_by_brightness(indexes: &[u8], palette: &[PaletteColor]) -> (r: (Vec<u8>, Vec<PaletteColor>))
    requires
        palette@.len() <= 256,
    ensures
        exists|order: Seq<usize>|
            is_brightness_order(palette@, order) && r.1@ == reordered(palette@, order) && r.0@ == renumbered(
                indexes@,
                order,
            ),
{
    let order = brightness_order(palette);
    let mut new_palette: Vec<PaletteColor> = Vec::new();
    let mut i: usize = 0;
    while i < order.len()
        invariant
            is_brightness_order(palette@, order@),
            i <= order@.len(),
            new_palette@ == reordered(palette@, order@).take(i as int),
        decreases order@.len() - i,
    {
        new_palette.push(palette[order[i]]);
        proof {
            assert(new_palette@ =~= reordered(palette@, order@).take(i + 1));
        }
        i = i + 1;
    }
    let new_indexes = parallel_new_indices(indexes, order.as_slice());
    proof {
        assert(new_palette@ =~= reordered(palette@, order@));
        assert(new_indexes@ =~= renumbered(indexes@, order@));
    }
    (new_indexes, new_palette)
}

} // verus!
