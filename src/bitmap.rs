//! RGBA bitmaps, the horizontal strip a row of tiles makes, and placing one
//! bitmap over another.
use vstd::prelude::*;
use crate::text::push_all;

verus! {

/// A rectangle of RGBA pixels, four bytes each, stored row by row.
#[derive(Clone, Debug)]
pub struct Bitmap {
    pub width: u32,
    pub height: u32,
    pub pixels: Vec<u8>,
}

impl Bitmap {
    /// The pixel buffer holds exactly `width * height` pixels.
    pub open spec fn wf(&self) -> bool {
        self.pixels@.len() == self.width as nat * self.height as nat * 4
    }

    /// A `width` by `height` bitmap with every byte zero (transparent black).
    pub fn new(width: u32, height: u32) -> (r: Bitmap)
        requires
            width as nat * height as nat * 4 <= usize::MAX,
        ensures
            r.wf(),
            r.width == width,
            r.height == height,
            r.pixels@ == Seq::new(width as nat * height as nat * 4, |i: int| 0u8),
    {
        let n: usize = width as usize * height as usize * 4;
        let pixels = zeros(n);
        Bitmap { width, height, pixels }
    }

    /// The bitmap with no pixels.
    pub fn empty() -> (r: Bitmap)
        ensures
            r.wf(),
            r.width == 0,
            r.height == 0,
    {
        Bitmap { width: 0, height: 0, pixels: Vec::new() }
    }
}

/// `n` zero bytes.
pub fn zeros(n: usize) -> (r: Vec<u8>)
    ensures
        r@ == Seq::new(n as nat, |i: int| 0u8),
{
    let mut r: Vec<u8> = Vec::new();
    let mut i: usize = 0;
    while i < n
        invariant
            i <= n,
            r@ == Seq::new(i as nat, |j: int| 0u8),
        decreases n - i,
    {
        r.push(0u8);
        i += 1;
        assert(r@ =~= Seq::new(i as nat, |j: int| 0u8));
    }
    r
}

/// The bytes of row `y` of `b`; below its last row, transparent bytes as wide as `b`.
pub open spec fn row_of(b: Bitmap, y: nat) -> Seq<u8> {
    let w = b.width as nat * 4;
    if y < b.height {
        b.pixels@.subrange((y * w) as int, ((y + 1) * w) as int)
    } else {
        Seq::new(w, |i: int| 0u8)
    }
}

/// Sum of the widths of `imgs`.
pub open spec fn total_width(imgs: Seq<Bitmap>) -> nat
    decreases imgs.len(),
{
    if imgs.len() == 0 {
        0
    } else {
        total_width(imgs.drop_last()) + imgs.last().width as nat
    }
}

/// Largest height of `imgs` (0 for none).
pub open spec fn max_height(imgs: Seq<Bitmap>) -> nat
    decreases imgs.len(),
{
    if imgs.len() == 0 {
        0
    } else {
        let h = max_height(imgs.drop_last());
        if h < imgs.last().height {
            imgs.last().height as nat
        } else {
            h
        }
    }
}

/// Row `y` of the strip: row `y` of each image, left to right.
pub open spec fn strip_row(imgs: Seq<Bitmap>, y: nat) -> Seq<u8>
    decreases imgs.len(),
{
    if imgs.len() == 0 {
        Seq::empty()
    } else {
        strip_row(imgs.drop_last(), y) + row_of(imgs.last(), y)
    }
}

/// The first `n` rows of the strip.
pub open spec fn strip_rows(imgs: Seq<Bitmap>, n: nat) -> Seq<u8>
    decreases n,
{
    if n == 0 {
        Seq::empty()
    } else {
        strip_rows(imgs, (n - 1) as nat) + strip_row(imgs, (n - 1) as nat)
    }
}

/// Every bitmap of `imgs` is well formed.
pub open spec fn all_wf(imgs: Seq<Bitmap>) -> bool {
    forall|i: int| 0 <= i < imgs.len() ==> (#[trigger] imgs[i]).wf()
}

proof fn lemma_strip_row_len(imgs: Seq<Bitmap>, y: nat)
    requires
        all_wf(imgs),
    ensures
        strip_row(imgs, y).len() == total_width(imgs) * 4,
    decreases imgs.len(),
{
    if imgs.len() > 0 {
        let l = imgs.drop_last();
        assert(all_wf(l)) by {
            assert forall|i: int| 0 <= i < l.len() implies (#[trigger] l[i]).wf() by {
                assert(l[i] == imgs[i]);
            }
        }
        lemma_strip_row_len(l, y);
        let b = imgs.last();
        assert(imgs[imgs.len() - 1].wf());
        let w = b.width as nat * 4;
        if y < b.height {
            assert((y + 1) * w <= b.height as nat * w) by (nonlinear_arith)
                requires
                    y < b.height,
            ;
            assert(b.height as nat * w == b.pixels@.len()) by (nonlinear_arith)
                requires
                    b.pixels@.len() == b.width as nat * b.height as nat * 4,
                    w == b.width as nat * 4,
            ;
            assert((y + 1) * w - y * w == w) by (nonlinear_arith);
            assert(y * w <= (y + 1) * w) by (nonlinear_arith);
        }
    }
}

proof fn lemma_strip_rows_len(imgs: Seq<Bitmap>, n: nat)
    requires
        all_wf(imgs),
    ensures
        strip_rows(imgs, n).len() == n * (total_width(imgs) * 4),
    decreases n,
{
    if n > 0 {
        let m = (n - 1) as nat;
        let t = total_width(imgs) * 4;
        lemma_strip_rows_len(imgs, m);
        lemma_strip_row_len(imgs, m);
        assert(m * t + t == (m + 1) * t) by (nonlinear_arith);
        assert(n == m + 1);
        assert(strip_rows(imgs, n) == strip_rows(imgs, m) + strip_row(imgs, m));
    } else {
        assert(strip_rows(imgs, n).len() == 0);
        assert(n * (total_width(imgs) * 4) == 0);
    }
}

/// Appends row `y` of `b` to `out`.
fn append_row(out: &mut Vec<u8>, b: &Bitmap, y: u32)
    requires
        b.wf(),
        b.width as nat * 4 <= usize::MAX,
    ensures
        final(out)@ == old(out)@ + row_of(*b, y as nat),
{
    let w: usize = b.width as usize * 4;
    if y < b.height {
        let plen = b.pixels.len();
        let ghost len = b.pixels@.len();
        assert((y as nat + 1) * (w as nat) <= len) by (nonlinear_arith)
            requires
                y < b.height,
                len == b.width as nat * b.height as nat * 4,
                w == b.width as nat * 4,
        ;
        assert(y as nat * w as nat <= (y as nat + 1) * (w as nat)) by (nonlinear_arith);
        assert((y as nat + 1) * (w as nat) == y as nat * w as nat + w) by (nonlinear_arith);
        assert(plen == len);
        let start: usize = y as usize * w;
        let end: usize = start + w;
        assert(end == (y as nat + 1) * (w as nat)) by (nonlinear_arith)
            requires
                start == y as nat * w as nat,
                end == start + w,
        ;
        let mut k: usize = start;
        let ghost o = out@;
        while k < end
            invariant
                start <= k <= end,
                end <= b.pixels@.len(),
                out@ == o + b.pixels@.subrange(start as int, k as int),
            decreases end - k,
        {
            out.push(b.pixels[k]);
            k += 1;
            assert(out@ =~= o + b.pixels@.subrange(start as int, k as int));
        }
    } else {
        let z = zeros(w);
        push_all(out, &z);
    }
}

/// Places `imgs` side by side, left to right, into one strip as wide as all
/// of them together and as high as the highest; below a shorter image the
/// strip is transparent.
pub fn combine_images(images: &Vec<Bitmap>) -> (r: Bitmap)
    requires
        all_wf(images@),
        total_width(images@) <= u32::MAX,
        total_width(images@) * max_height(images@) * 4 <= usize::MAX,
    ensures
        r.wf(),
        r.width == total_width(images@),
        r.height == max_height(images@),
        r.pixels@ == strip_rows(images@, max_height(images@)),
{
    let n = images.len();
    let mut tw: u32 = 0;
    let mut mh: u32 = 0;
    let mut i: usize = 0;
    while i < n
        invariant
            i <= n,
            n == images@.len(),
            total_width(images@) <= u32::MAX,
            tw == total_width(images@.subrange(0, i as int)),
            mh == max_height(images@.subrange(0, i as int)),
        decreases n - i,
    {
        proof {
            lemma_total_width_prefix(images@, (i + 1) as nat);
        }
        assert(images@.subrange(0, i + 1).drop_last() =~= images@.subrange(0, i as int));
        tw = tw + images[i].width;
        if mh < images[i].height {
            mh = images[i].height;
        }
        i += 1;
    }
    assert(images@.subrange(0, n as int) =~= images@);
    let mut out: Vec<u8> = Vec::new();
    let mut y: u32 = 0;
    while y < mh
        invariant
            y <= mh,
            n == images@.len(),
            mh == max_height(images@),
            total_width(images@) * max_height(images@) * 4 <= usize::MAX,
            all_wf(images@),
            out@ == strip_rows(images@, y as nat),
        decreases mh - y,
    {
        let ghost before = out@;
        assert(total_width(images@) * 4 <= usize::MAX) by (nonlinear_arith)
            requires
                total_width(images@) * max_height(images@) * 4 <= usize::MAX,
                max_height(images@) >= 1,
        ;
        let mut j: usize = 0;
        assert(strip_row(images@.subrange(0, 0), y as nat) =~= Seq::<u8>::empty());
        assert(before =~= before + strip_row(images@.subrange(0, 0), y as nat));
        while j < n
            invariant
                j <= n,
                n == images@.len(),
                all_wf(images@),
                total_width(images@) * 4 <= usize::MAX,
                out@ == before + strip_row(images@.subrange(0, j as int), y as nat),
            decreases n - j,
        {
            proof {
                lemma_width_within_total(images@, j as int);
            }
            append_row(&mut out, &images[j], y);
            assert(images@.subrange(0, j + 1).drop_last() =~= images@.subrange(0, j as int));
            j += 1;
            assert(out@ =~= before + strip_row(images@.subrange(0, j as int), y as nat));
        }
        assert(images@.subrange(0, n as int) =~= images@);
        y += 1;
    }
    proof {
        lemma_strip_rows_len(images@, mh as nat);
        assert(mh as nat * (tw as nat * 4) == tw as nat * mh as nat * 4) by (nonlinear_arith);
    }
    Bitmap { width: tw, height: mh, pixels: out }
}

proof fn lemma_width_within_total(imgs: Seq<Bitmap>, j: int)
    requires
        0 <= j < imgs.len(),
    ensures
        imgs[j].width <= total_width(imgs),
    decreases imgs.len(),
{
    if j < imgs.len() - 1 {
        lemma_width_within_total(imgs.drop_last(), j);
    }
}

proof fn lemma_total_width_prefix(imgs: Seq<Bitmap>, k: nat)
    requires
        k <= imgs.len(),
    ensures
        total_width(imgs.subrange(0, k as int)) <= total_width(imgs),
    decreases imgs.len() - k,
{
    if k < imgs.len() {
        lemma_total_width_prefix(imgs, k + 1);
        assert(imgs.subrange(0, k + 1int).drop_last() =~= imgs.subrange(0, k as int));
    } else {
        assert(imgs.subrange(0, k as int) =~= imgs);
    }
}

/// The four bytes of pixel (`x`, `y`) of a bitmap `w` pixels wide.
pub open spec fn pixel_at(px: Seq<u8>, w: nat, x: int, y: int) -> Seq<u8> {
    px.subrange((y * w + x) * 4, (y * w + x) * 4 + 4)
}

/// The pixel that `image`'s RGBA blending makes of `top` laid over `bottom`.
pub uninterp spec fn blended_pixel(bottom: Seq<u8>, top: Seq<u8>) -> Seq<u8>;

/// Relies on `image::imageops::overlay` (image 0.24) on RGBA buffers: every
/// pixel of `bottom` under `top` placed at (`x`, `y`) becomes the blend of
/// the two pixels, every other pixel stays; `from_raw` accepts a buffer of
/// exactly `width * height * 4` bytes.
#[verifier::external_body]
pub(crate) fn overlay(bottom: &mut Bitmap, top: &Bitmap, x: i64, y: i64)
    requires
        old(bottom).wf(),
        top.wf(),
    ensures
        final(bottom).wf(),
        final(bottom).width == old(bottom).width,
        final(bottom).height == old(bottom).height,
        forall|px: int, py: int|
            0 <= px < old(bottom).width && 0 <= py < old(bottom).height ==> #[trigger] pixel_at(
                final(bottom).pixels@,
                old(bottom).width as nat,
                px,
                py,
            ) == if x <= px < x + top.width && y <= py < y + top.height {
                blended_pixel(
                    pixel_at(old(bottom).pixels@, old(bottom).width as nat, px, py),
                    pixel_at(top.pixels@, top.width as nat, px - x, py - y),
                )
            } else {
                pixel_at(old(bottom).pixels@, old(bottom).width as nat, px, py)
            },
{
    let data = std::mem::take(&mut bottom.pixels);
    let mut b = image::RgbaImage::from_raw(bottom.width, bottom.height, data).unwrap();
    let t = image::RgbaImage::from_raw(top.width, top.height, top.pixels.clone()).unwrap();
    image::imageops::overlay(&mut b, &t, x, y);
    bottom.pixels = b.into_raw();
}

} // verus!
