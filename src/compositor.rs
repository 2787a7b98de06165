//! Compositing: the tiles of each position joined into a strip, and the
//! three strips laid over the background.
use vstd::prelude::*;
use crate::bitmap::{
    all_wf, blended_pixel, combine_images, max_height, overlay, pixel_at, strip_rows, total_width,
    Bitmap,
};
use crate::registry::{ModuleData, Position};
use crate::text::push_all;

verus! {

/// Two bitmaps with the same size and bytes.
pub open spec fn same(a: Bitmap, b: Bitmap) -> bool {
    a.width == b.width && a.height == b.height && a.pixels@ == b.pixels@
}

/// `a` and `b` hold bitmaps with the same sizes and bytes, pairwise.
pub open spec fn all_same(a: Seq<Bitmap>, b: Seq<Bitmap>) -> bool {
    a.len() == b.len() && forall|i: int| 0 <= i < a.len() ==> same(#[trigger] a[i], b[i])
}

/// The tiles of the modules at `pos`, in configuration order.
pub open spec fn tiles_in(mods: Seq<ModuleData>, pos: Position) -> Seq<Bitmap>
    decreases mods.len(),
{
    if mods.len() == 0 {
        Seq::empty()
    } else if mods.last().position == pos {
        tiles_in(mods.drop_last(), pos).push(mods.last().cache)
    } else {
        tiles_in(mods.drop_last(), pos)
    }
}

/// The tiles of the modules at `pos` in the order they are laid out: the
/// right slot is filled from the bar's right edge, so its order is reversed.
pub open spec fn tiles_at(mods: Seq<ModuleData>, pos: Position) -> Seq<Bitmap> {
    if pos == Position::Right {
        tiles_in(mods, pos).reverse()
    } else {
        tiles_in(mods, pos)
    }
}

/// `b` is the strip made of `tiles`.
pub open spec fn is_strip(b: Bitmap, tiles: Seq<Bitmap>) -> bool {
    &&& b.wf()
    &&& b.width == total_width(tiles)
    &&& b.height == max_height(tiles)
    &&& b.pixels@ == strip_rows(tiles, max_height(tiles))
}

/// A strip of `tiles` can be held: its width fits in `u32` and its bytes in memory.
pub open spec fn strip_fits(tiles: Seq<Bitmap>) -> bool {
    total_width(tiles) <= u32::MAX && total_width(tiles) * max_height(tiles) * 4 <= usize::MAX
}

/// Pairwise equal bitmaps make the same strip.
pub proof fn lemma_same_strip(a: Seq<Bitmap>, b: Seq<Bitmap>, n: nat)
    requires
        all_same(a, b),
    ensures
        total_width(a) == total_width(b),
        max_height(a) == max_height(b),
        strip_rows(a, n) == strip_rows(b, n),
        all_wf(a) <==> all_wf(b),
    decreases a.len(),
{
    if a.len() > 0 {
        let (a0, b0) = (a.drop_last(), b.drop_last());
        assert(all_same(a0, b0)) by {
            assert forall|i: int| 0 <= i < a0.len() implies same(#[trigger] a0[i], b0[i]) by {
                assert(same(a[i], b[i]));
            }
        }
        lemma_same_strip(a0, b0, n);
        assert(same(a[a.len() - 1], b[b.len() - 1]));
        assert forall|y: nat| #[trigger] crate::bitmap::strip_row(a, y) == crate::bitmap::strip_row(b, y) by {
            lemma_same_rows(a, b, y);
        }
        lemma_same_rows_all(a, b, n);
        if all_wf(a) {
            assert forall|i: int| 0 <= i < b.len() implies (#[trigger] b[i]).wf() by {
                assert(a[i].wf());
            }
        }
        if all_wf(b) {
            assert forall|i: int| 0 <= i < a.len() implies (#[trigger] a[i]).wf() by {
                assert(b[i].wf());
            }
        }
    } else {
        lemma_same_rows_all(a, b, n);
    }
}

proof fn lemma_same_rows(a: Seq<Bitmap>, b: Seq<Bitmap>, y: nat)
    requires
        all_same(a, b),
    ensures
        crate::bitmap::strip_row(a, y) == crate::bitmap::strip_row(b, y),
    decreases a.len(),
{
    if a.len() > 0 {
        let (a0, b0) = (a.drop_last(), b.drop_last());
        assert(all_same(a0, b0)) by {
            assert forall|i: int| 0 <= i < a0.len() implies same(#[trigger] a0[i], b0[i]) by {
                assert(same(a[i], b[i]));
            }
        }
        lemma_same_rows(a0, b0, y);
        assert(same(a[a.len() - 1], b[b.len() - 1]));
    }
}

proof fn lemma_same_rows_all(a: Seq<Bitmap>, b: Seq<Bitmap>, n: nat)
    requires
        all_same(a, b),
    ensures
        strip_rows(a, n) == strip_rows(b, n),
    decreases n,
{
    if n > 0 {
        lemma_same_rows_all(a, b, (n - 1) as nat);
        lemma_same_rows(a, b, (n - 1) as nat);
    }
}

/// A bitmap with the size and bytes of `b`.
pub fn copy_bitmap(b: &Bitmap) -> (r: Bitmap)
    ensures
        same(r, *b),
{
    let mut pixels: Vec<u8> = Vec::new();
    push_all(&mut pixels, &b.pixels);
    assert(pixels@ =~= b.pixels@);
    Bitmap { width: b.width, height: b.height, pixels }
}

/// Tiles of modules whose caches are well formed are well formed.
pub open spec fn caches_wf(mods: Seq<ModuleData>) -> bool {
    forall|i: int| 0 <= i < mods.len() ==> (#[trigger] mods[i]).cache.wf()
}

proof fn lemma_tiles_in_wf(mods: Seq<ModuleData>, pos: Position)
    requires
        caches_wf(mods),
    ensures
        all_wf(tiles_in(mods, pos)),
    decreases mods.len(),
{
    if mods.len() > 0 {
        let m0 = mods.drop_last();
        assert(caches_wf(m0)) by {
            assert forall|i: int| 0 <= i < m0.len() implies (#[trigger] m0[i]).cache.wf() by {
                assert(mods[i].cache.wf());
            }
        }
        lemma_tiles_in_wf(m0, pos);
        assert(mods[mods.len() - 1].cache.wf());
        let t = tiles_in(mods, pos);
        let t0 = tiles_in(m0, pos);
        assert forall|i: int| 0 <= i < t.len() implies (#[trigger] t[i]).wf() by {
            if i < t0.len() {
                assert(t[i] == t0[i]);
            }
        }
    }
}

/// The tiles at a position are well formed when every cached tile is.
pub proof fn lemma_tiles_at_wf(mods: Seq<ModuleData>, pos: Position)
    requires
        caches_wf(mods),
    ensures
        all_wf(tiles_at(mods, pos)),
{
    lemma_tiles_in_wf(mods, pos);
    let t = tiles_in(mods, pos);
    if pos == Position::Right {
        assert forall|i: int| 0 <= i < t.reverse().len() implies (#[trigger] t.reverse()[i]).wf() by {
            assert(t.reverse()[i] == t[t.len() - 1 - i]);
        }
    }
}

/// If two module lists agree on every position and on the tile of every
/// module at `pos`, they give `pos` the same tiles.
pub proof fn lemma_tiles_agree(m1: Seq<ModuleData>, m2: Seq<ModuleData>, pos: Position)
    requires
        m1.len() == m2.len(),
        forall|i: int| 0 <= i < m1.len() ==> #[trigger] m1[i].position == m2[i].position,
        forall|i: int| 0 <= i < m1.len() && #[trigger] m1[i].position == pos ==> m1[i].cache == m2[i].cache,
    ensures
        tiles_in(m1, pos) == tiles_in(m2, pos),
        tiles_at(m1, pos) == tiles_at(m2, pos),
    decreases m1.len(),
{
    if m1.len() > 0 {
        let (a, b) = (m1.drop_last(), m2.drop_last());
        assert forall|i: int| 0 <= i < a.len() implies #[trigger] a[i].position == b[i].position by {
            assert(m1[i].position == m2[i].position);
        }
        assert forall|i: int| 0 <= i < a.len() && #[trigger] a[i].position == pos implies a[i].cache
            == b[i].cache by {
            assert(m1[i].position == m2[i].position);
        }
        lemma_tiles_agree(a, b, pos);
        assert(m1[m1.len() - 1].position == m2[m2.len() - 1].position);
    }
}

/// Copies of the tiles at `pos`, in layout order.
pub fn tiles_for(mods: &Vec<ModuleData>, pos: Position) -> (r: Vec<Bitmap>)
    ensures
        all_same(r@, tiles_at(mods@, pos)),
{
    let mut r: Vec<Bitmap> = Vec::new();
    let mut i: usize = 0;
    assert(mods@.subrange(0, 0) =~= Seq::<ModuleData>::empty());
    while i < mods.len()
        invariant
            i <= mods@.len(),
            all_same(r@, tiles_in(mods@.subrange(0, i as int), pos)),
        decreases mods@.len() - i,
    {
        assert(mods@.subrange(0, i + 1).drop_last() =~= mods@.subrange(0, i as int));
        if mods[i].position == pos {
            let c = copy_bitmap(&mods[i].cache);
            r.push(c);
        }
        i += 1;
        assert(all_same(r@, tiles_in(mods@.subrange(0, i as int), pos))) by {
            let t = tiles_in(mods@.subrange(0, i as int), pos);
            assert forall|j: int| 0 <= j < r@.len() implies same(#[trigger] r@[j], t[j]) by {
                let t0 = tiles_in(mods@.subrange(0, i - 1), pos);
                if j < t0.len() {
                    assert(t[j] == t0[j]);
                }
            }
        }
    }
    assert(mods@.subrange(0, i as int) =~= mods@);
    if pos == Position::Right {
        let ghost before = r@;
        let mut rev: Vec<Bitmap> = Vec::new();
        while r.len() > 0
            invariant
                before.len() == r@.len() + rev@.len(),
                r@ == before.subrange(0, r@.len() as int),
                forall|j: int| 0 <= j < rev@.len() ==> #[trigger] rev@[j] == before[before.len() - 1 - j],
            decreases r@.len(),
        {
            let b = r.pop().unwrap();
            rev.push(b);
        }
        r = rev;
        assert(all_same(r@, tiles_at(mods@, pos))) by {
            let t = tiles_in(mods@, pos);
            assert forall|j: int| 0 <= j < r@.len() implies same(#[trigger] r@[j], t.reverse()[j]) by {
                assert(r@[j] == before[before.len() - 1 - j]);
                assert(same(before[before.len() - 1 - j], t[t.len() - 1 - j]));
            }
        }
    }
    r
}

/// Whether a strip of `tiles` can be held.
pub fn fits(tiles: &Vec<Bitmap>) -> (r: bool)
    ensures
        r == strip_fits(tiles@),
{
    let mut tw: u64 = 0;
    let mut mh: u32 = 0;
    let mut i: usize = 0;
    while i < tiles.len()
        invariant
            i <= tiles@.len(),
            tw == total_width(tiles@.subrange(0, i as int)),
            tw <= u32::MAX,
            mh == max_height(tiles@.subrange(0, i as int)),
        decreases tiles@.len() - i,
    {
        assert(tiles@.subrange(0, i + 1).drop_last() =~= tiles@.subrange(0, i as int));
        tw = tw + tiles[i].width as u64;
        if tw > u32::MAX as u64 {
            proof {
                lemma_total_width_grows(tiles@, (i + 1) as nat);
            }
            return false;
        }
        if mh < tiles[i].height {
            mh = tiles[i].height;
        }
        i += 1;
    }
    assert(tiles@.subrange(0, i as int) =~= tiles@);
    assert(tw as nat * mh as nat <= 0xffff_ffff_ffff_ffff) by (nonlinear_arith)
        requires
            tw <= 0xffff_ffff,
            mh <= 0xffff_ffff,
    ;
    let bytes: u128 = tw as u128 * mh as u128 * 4;
    bytes <= usize::MAX as u128
}

proof fn lemma_total_width_grows(imgs: Seq<Bitmap>, k: nat)
    requires
        k <= imgs.len(),
    ensures
        total_width(imgs.subrange(0, k as int)) <= total_width(imgs),
    decreases imgs.len() - k,
{
    if k < imgs.len() {
        lemma_total_width_grows(imgs, k + 1);
        assert(imgs.subrange(0, k + 1int).drop_last() =~= imgs.subrange(0, k as int));
    } else {
        assert(imgs.subrange(0, k as int) =~= imgs);
    }
}

/// Joins the tiles at `pos` into their strip; `None` when it cannot be held.
pub fn strip_for(mods: &Vec<ModuleData>, pos: Position) -> (r: Option<Bitmap>)
    requires
        caches_wf(mods@),
    ensures
        r is Some <==> strip_fits(tiles_at(mods@, pos)),
        r matches Some(b) ==> is_strip(b, tiles_at(mods@, pos)),
{
    let tiles = tiles_for(mods, pos);
    proof {
        lemma_tiles_at_wf(mods@, pos);
        lemma_same_strip(tiles@, tiles_at(mods@, pos), max_height(tiles@));
    }
    if !fits(&tiles) {
        return None;
    }
    let b = combine_images(&tiles);
    Some(b)
}

/// Where the centre strip starts: halfway between the bar's width and its
/// own, rounded toward zero.
pub open spec fn center_x(bar: nat, strip: nat) -> int {
    if strip <= bar {
        ((bar - strip) / 2) as int
    } else {
        -(((strip - bar) / 2) as int)
    }
}

/// A pixel under `top` placed at (`x`, 0), or the pixel below it.
pub open spec fn layer(below: Seq<u8>, top: Bitmap, x: int, px: int, py: int) -> Seq<u8> {
    if x <= px < x + top.width && 0 <= py < top.height {
        blended_pixel(below, pixel_at(top.pixels@, top.width as nat, px - x, py))
    } else {
        below
    }
}

/// A pixel of the frame: the background, then the left strip at the left
/// edge, the centre strip centred, the right strip against the right edge.
pub open spec fn frame_pixel(bg: Bitmap, l: Bitmap, c: Bitmap, r: Bitmap, px: int, py: int) -> Seq<u8> {
    let w = bg.width as nat;
    layer(
        layer(layer(pixel_at(bg.pixels@, w, px, py), l, 0, px, py), c, center_x(w, c.width as nat), px, py),
        r,
        w - r.width,
        px,
        py,
    )
}

/// Lays the three strips over a copy of the background.
pub fn compose(background: &Bitmap, left: &Bitmap, center: &Bitmap, right: &Bitmap) -> (r: Bitmap)
    requires
        background.wf(),
        left.wf(),
        center.wf(),
        right.wf(),
    ensures
        r.wf(),
        r.width == background.width,
        r.height == background.height,
        forall|px: int, py: int|
            0 <= px < r.width && 0 <= py < r.height ==> #[trigger] pixel_at(r.pixels@, r.width as nat, px, py)
                == frame_pixel(*background, *left, *center, *right, px, py),
{
    let mut frame = copy_bitmap(background);
    let w = background.width;
    overlay(&mut frame, left, 0, 0);
    let cx: i64 = if center.width <= w {
        ((w - center.width) / 2) as i64
    } else {
        -(((center.width - w) / 2) as i64)
    };
    let ghost f1 = frame;
    overlay(&mut frame, center, cx, 0);
    let ghost f2 = frame;
    let rx: i64 = w as i64 - right.width as i64;
    overlay(&mut frame, right, rx, 0);
    assert forall|px: int, py: int|
        0 <= px < frame.width && 0 <= py < frame.height implies #[trigger] pixel_at(
        frame.pixels@,
        frame.width as nat,
        px,
        py,
    ) == frame_pixel(*background, *left, *center, *right, px, py) by {
        assert(pixel_at(f1.pixels@, w as nat, px, py) == layer(pixel_at(background.pixels@, w as nat, px, py), *left, 0, px, py));
        assert(pixel_at(f2.pixels@, w as nat, px, py) == layer(pixel_at(f1.pixels@, w as nat, px, py), *center, cx as int, px, py));
    }
    frame
}

} // verus!
