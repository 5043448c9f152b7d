use vstd::prelude::*;
use crate::img_cache::CompressionStrategy;

verus! {

/// A compressed BC1 block: two RGB565 endpoints and sixteen 2-bit palette indices.
pub type Bc1Block = [u8; 8];

/// A 4x4 block of RGBA pixels, row by row.
pub type RgbaBlock = [[u8; 4]; 16];

/// The block compression algorithms available.
#[derive(Clone, Copy, Debug, PartialEq, Eq, Structural)]
pub enum CompressionAlgorithm {
    /// Endpoints along the principal axis of the block's colours.
    RangeFit,
}

impl Default for CompressionAlgorithm {
    fn default() -> (r: Self)
        ensures
            r == CompressionAlgorithm::RangeFit,
    {
        CompressionAlgorithm::RangeFit
    }
}

/// An RGB colour packed as 5 bits of red, 6 of green and 5 of blue, red highest.
pub open spec fn rgb565(r: u8, g: u8, b: u8) -> int {
    (r / 8) * 2048 + (g / 4) * 32 + b / 8
}

pub fn rgb_to_rgb565(r: u8, g: u8, b: u8) -> (c: u16)
    ensures
        c == rgb565(r, g, b),
{
    let rr = r as u16;
    let gg = g as u16;
    let bb = b as u16;
    assert(((rr >> 3u16) << 11u16) | ((gg >> 2u16) << 5u16) | (bb >> 3u16)
        == (rr / 8) * 2048 + (gg / 4) * 32 + bb / 8) by (bit_vector)
        requires rr < 256, gg < 256, bb < 256;
    ((rr >> 3) << 11) | ((gg >> 2) << 5) | (bb >> 3)
}

/// The four palette colours of a block with the given endpoints: the endpoints, then
/// either the two thirds-points (four-colour mode, when the first endpoint packs to the
/// larger RGB565 value) or the midpoint and black (three-colour mode).
pub open spec fn palette(lo: (u8, u8, u8), hi: (u8, u8, u8)) -> Seq<(u8, u8, u8)> {
    if rgb565(lo.0, lo.1, lo.2) > rgb565(hi.0, hi.1, hi.2) {
        seq![lo, hi,
            (((2 * lo.0 + hi.0) / 3) as u8, ((2 * lo.1 + hi.1) / 3) as u8, ((2 * lo.2 + hi.2) / 3) as u8),
            (((lo.0 + 2 * hi.0) / 3) as u8, ((lo.1 + 2 * hi.1) / 3) as u8, ((lo.2 + 2 * hi.2) / 3) as u8)]
    } else {
        seq![lo, hi,
            (((lo.0 + hi.0) / 2) as u8, ((lo.1 + hi.1) / 2) as u8, ((lo.2 + hi.2) / 2) as u8),
            (0u8, 0u8, 0u8)]
    }
}

/// Squared Euclidean distance between two colours.
pub open spec fn dist2(a: (u8, u8, u8), b: (u8, u8, u8)) -> int {
    (a.0 - b.0) * (a.0 - b.0) + (a.1 - b.1) * (a.1 - b.1) + (a.2 - b.2) * (a.2 - b.2)
}

/// `k` is the first palette entry of least distance to `c`.
pub open spec fn is_nearest(pal: Seq<(u8, u8, u8)>, c: (u8, u8, u8), k: int) -> bool {
    &&& 0 <= k < pal.len()
    &&& forall|j: int| 0 <= j < k ==> dist2(c, #[trigger] pal[j]) > dist2(c, pal[k])
    &&& forall|j: int| k < j < pal.len() ==> dist2(c, #[trigger] pal[j]) >= dist2(c, pal[k])
}

/// The endpoints are the first two palette entries, so a pixel of the first endpoint's colour
/// gets index 0, and one of the second endpoint's colour index 1 when the endpoints differ.
pub proof fn lemma_endpoints_are_their_own_nearest(lo: (u8, u8, u8), hi: (u8, u8, u8))
    ensures
        palette(lo, hi).len() == 4,
        palette(lo, hi)[0] == lo,
        palette(lo, hi)[1] == hi,
        is_nearest(palette(lo, hi), lo, 0),
        lo != hi ==> is_nearest(palette(lo, hi), hi, 1),
{
    let pal = palette(lo, hi);
    assert forall|j: int| 0 <= j < pal.len() implies #[trigger] dist2(lo, pal[j]) >= 0 && dist2(hi, pal[j]) >= 0 by {
        let a = pal[j];
        assert((lo.0 - a.0) * (lo.0 - a.0) >= 0) by (nonlinear_arith);
        assert((lo.1 - a.1) * (lo.1 - a.1) >= 0) by (nonlinear_arith);
        assert((lo.2 - a.2) * (lo.2 - a.2) >= 0) by (nonlinear_arith);
        assert((hi.0 - a.0) * (hi.0 - a.0) >= 0) by (nonlinear_arith);
        assert((hi.1 - a.1) * (hi.1 - a.1) >= 0) by (nonlinear_arith);
        assert((hi.2 - a.2) * (hi.2 - a.2) >= 0) by (nonlinear_arith);
    }
    if lo != hi {
        let d0 = lo.0 - hi.0;
        let d1 = lo.1 - hi.1;
        let d2 = lo.2 - hi.2;
        assert(d0 != 0 || d1 != 0 || d2 != 0);
        assert(d0 * d0 + d1 * d1 + d2 * d2 > 0) by (nonlinear_arith)
            requires d0 != 0 || d1 != 0 || d2 != 0;
        assert(dist2(hi, pal[0]) == (hi.0 - lo.0) * (hi.0 - lo.0) + (hi.1 - lo.1) * (hi.1 - lo.1)
            + (hi.2 - lo.2) * (hi.2 - lo.2));
        assert((hi.0 - lo.0) * (hi.0 - lo.0) == d0 * d0) by (nonlinear_arith) requires d0 == lo.0 - hi.0;
        assert((hi.1 - lo.1) * (hi.1 - lo.1) == d1 * d1) by (nonlinear_arith) requires d1 == lo.1 - hi.1;
        assert((hi.2 - lo.2) * (hi.2 - lo.2) == d2 * d2) by (nonlinear_arith) requires d2 == lo.2 - hi.2;
    }
}

/// A pixel is opaque when its alpha exceeds 128.
pub open spec fn is_opaque(p: [u8; 4]) -> bool {
    p[3] > 128
}

/// The palette index a pixel gets: 3 for a transparent pixel, the nearest entry otherwise.
pub open spec fn pixel_index_ok(pal: Seq<(u8, u8, u8)>, p: [u8; 4], k: int) -> bool {
    if is_opaque(p) { is_nearest(pal, (p[0], p[1], p[2]), k) } else { k == 3 }
}

fn channel_dist2(a: u8, b: u8) -> (r: u32)
    ensures
        r == (a - b) * (a - b),
        r <= 65025,
{
    let d: i32 = a as i32 - b as i32;
    assert(0 <= d * d <= 65025) by (nonlinear_arith)
        requires -255 <= d <= 255;
    (d * d) as u32
}

fn color_dist2(a: (u8, u8, u8), b: (u8, u8, u8)) -> (r: u32)
    ensures
        r == dist2(a, b),
{
    channel_dist2(a.0, b.0) + channel_dist2(a.1, b.1) + channel_dist2(a.2, b.2)
}

fn make_palette(lo: (u8, u8, u8), hi: (u8, u8, u8)) -> (r: Vec<(u8, u8, u8)>)
    ensures
        r@ == palette(lo, hi),
{
    let color0 = rgb_to_rgb565(lo.0, lo.1, lo.2);
    let color1 = rgb_to_rgb565(hi.0, hi.1, hi.2);
    let mut pal: Vec<(u8, u8, u8)> = Vec::new();
    pal.push(lo);
    pal.push(hi);
    if color0 > color1 {
        pal.push((
            ((2 * (lo.0 as u16) + hi.0 as u16) / 3) as u8,
            ((2 * (lo.1 as u16) + hi.1 as u16) / 3) as u8,
            ((2 * (lo.2 as u16) + hi.2 as u16) / 3) as u8,
        ));
        pal.push((
            ((lo.0 as u16 + 2 * (hi.0 as u16)) / 3) as u8,
            ((lo.1 as u16 + 2 * (hi.1 as u16)) / 3) as u8,
            ((lo.2 as u16 + 2 * (hi.2 as u16)) / 3) as u8,
        ));
    } else {
        pal.push((
            ((lo.0 as u16 + hi.0 as u16) / 2) as u8,
            ((lo.1 as u16 + hi.1 as u16) / 2) as u8,
            ((lo.2 as u16 + hi.2 as u16) / 2) as u8,
        ));
        pal.push((0, 0, 0));
    }
    assert(pal@ =~= palette(lo, hi));
    pal
}

fn nearest_index(pal: &Vec<(u8, u8, u8)>, c: (u8, u8, u8)) -> (k: u32)
    requires
        pal@.len() == 4,
    ensures
        is_nearest(pal@, c, k as int),
{
    let mut best: usize = 0;
    let mut best_distance = color_dist2(c, pal[0]);
    let mut j: usize = 1;
    while j < 4
        invariant
            pal@.len() == 4,
            1 <= j <= 4,
            best < j,
            best_distance == dist2(c, pal@[best as int]),
            forall|i: int| 0 <= i < best ==> dist2(c, #[trigger] pal@[i]) > best_distance,
            forall|i: int| best < i < j ==> dist2(c, #[trigger] pal@[i]) >= best_distance,
        decreases 4 - j,
    {
        let d = color_dist2(c, pal[j]);
        if d < best_distance {
            best_distance = d;
            best = j;
        }
        j += 1;
    }
    best as u32
}

/// The opaque pixels of a sequence, in order.
pub open spec fn opaque_pixels(s: Seq<[u8; 4]>) -> Seq<[u8; 4]> {
    s.filter(|p: [u8; 4]| is_opaque(p))
}

/// The colours of the opaque pixels of a sequence, in order.
pub open spec fn opaque_colors(s: Seq<[u8; 4]>) -> Seq<(u8, u8, u8)> {
    opaque_pixels(s).map_values(|p: [u8; 4]| (p[0], p[1], p[2]))
}

/// The colours of the opaque pixels of a block, in pixel order.
pub fn bc1_opaque_colors(block: &RgbaBlock) -> (r: Vec<(u8, u8, u8)>)
    ensures
        r@ == opaque_colors(block@),
{
    let mut r: Vec<(u8, u8, u8)> = Vec::new();
    let mut i: usize = 0;
    while i < 16
        invariant
            i <= 16,
            block@.len() == 16,
            r@ == opaque_colors(block@.subrange(0, i as int)),
        decreases 16 - i,
    {
        let pixel = block[i];
        if pixel[3] > 128 {
            r.push((pixel[0], pixel[1], pixel[2]));
        }
        i += 1;
        proof {
            reveal(Seq::filter);
            let s = block@.subrange(0, i as int);
            assert(s.drop_last() =~= block@.subrange(0, i as int - 1));
            assert(s.last() == pixel);
            let prev = opaque_pixels(s.drop_last());
            if pixel[3] > 128 {
                assert(opaque_pixels(s) == prev.push(pixel));
                assert(prev.push(pixel).map_values(|p: [u8; 4]| (p[0], p[1], p[2]))
                    =~= prev.map_values(|p: [u8; 4]| (p[0], p[1], p[2])).push((pixel[0], pixel[1], pixel[2])));
            } else {
                assert(opaque_pixels(s) == prev);
            }
            assert(r@ =~= opaque_colors(s));
        }
    }
    assert(block@.subrange(0, 16) =~= block@);
    r
}

/// Encodes a 4x4 block with the given endpoints: bytes 0-1 and 2-3 hold the endpoints in
/// RGB565, little-endian; bytes 4-7 hold a little-endian word whose bits `2i..2i+1` are the
/// palette index of pixel `i`.
pub fn encode_bc1_block(block: &RgbaBlock, lo: (u8, u8, u8), hi: (u8, u8, u8)) -> (r: Bc1Block)
    ensures
        r[0] as int + 256 * r[1] as int == rgb565(lo.0, lo.1, lo.2),
        r[2] as int + 256 * r[3] as int == rgb565(hi.0, hi.1, hi.2),
        forall|i: int| 0 <= i < 16 ==> pixel_index_ok(palette(lo, hi), #[trigger] block@[i],
            bc1_index_field(r, i)),
{
    let color0 = rgb_to_rgb565(lo.0, lo.1, lo.2);
    let color1 = rgb_to_rgb565(hi.0, hi.1, hi.2);
    let pal = make_palette(lo, hi);
    let mut indices: u32 = 0;
    let mut i: u32 = 0;
    assert(forall|k: u32| 0 <= k < 16 ==> #[trigger] ((0u32 >> (2 * k)) & 3u32) == 0) by (bit_vector);
    assert(0u32 < (1u32 << (2 * 0u32))) by (bit_vector);
    while i < 16
        invariant
            i <= 16,
            pal@ == palette(lo, hi),
            block@.len() == 16,
            forall|k: u32| k < i ==> pixel_index_ok(pal@, #[trigger] block@[k as int],
                ((indices >> (2 * k)) & 3u32) as int),
            forall|k: u32| i <= k < 16 ==> #[trigger] ((indices >> (2 * k)) & 3u32) == 0,
            i < 16 ==> indices < (1u32 << (2 * i)),
        decreases 16 - i,
    {
        let pixel = block[i as usize];
        let best_index: u32 = if pixel[3] <= 128 {
            3
        } else {
            nearest_index(&pal, (pixel[0], pixel[1], pixel[2]))
        };
        let old_indices = indices;
        indices = indices | (best_index << (2 * i));
        proof {
            assert(forall|k: u32| k < 16 && k != i ==> #[trigger] ((indices >> (2 * k)) & 3u32)
                == ((old_indices >> (2 * k)) & 3u32)) by (bit_vector)
                requires indices == old_indices | (best_index << (2 * i)), best_index < 4, i < 16;
            assert(((indices >> (2 * i)) & 3u32) == best_index) by (bit_vector)
                requires indices == old_indices | (best_index << (2 * i)), best_index < 4, i < 16,
                    ((old_indices >> (2 * i)) & 3u32) == 0;
            if i + 1 < 16 {
                assert(indices < (1u32 << (2 * (i + 1)))) by (bit_vector)
                    requires indices == old_indices | (best_index << (2 * i)), best_index < 4, i < 15,
                        old_indices < (1u32 << (2 * i));
            }
        }
        i += 1;
    }
    assert((color0 & 0xff) < 256 && (color0 >> 8) < 256 && (color1 & 0xff) < 256 && (color1 >> 8) < 256)
        by (bit_vector);
    assert((indices & 0xff) < 256 && ((indices >> 8) & 0xff) < 256 && ((indices >> 16) & 0xff) < 256
        && (indices >> 24) < 256) by (bit_vector);
    let b0 = (color0 & 0xff) as u8;
    let b1 = (color0 >> 8) as u8;
    let b2 = (color1 & 0xff) as u8;
    let b3 = (color1 >> 8) as u8;
    let b4 = (indices & 0xff) as u8;
    let b5 = ((indices >> 8) & 0xff) as u8;
    let b6 = ((indices >> 16) & 0xff) as u8;
    let b7 = (indices >> 24) as u8;
    proof {
        assert((color0 & 0xff) + 256 * (color0 >> 8) == color0) by (bit_vector);
        assert((color1 & 0xff) + 256 * (color1 >> 8) == color1) by (bit_vector);
        assert((indices & 0xff) + 256 * ((indices >> 8) & 0xff) + 65536 * ((indices >> 16) & 0xff)
            + 16777216 * (indices >> 24) == indices) by (bit_vector);
    }
    let r: [u8; 8] = [b0, b1, b2, b3, b4, b5, b6, b7];
    proof {
        assert forall|k: int| 0 <= k < 16 implies pixel_index_ok(palette(lo, hi), #[trigger] block@[k],
            bc1_index_field(r, k)) by {
            let ku = k as u32;
            assert(pixel_index_ok(pal@, block@[ku as int], ((indices >> (2 * ku)) & 3u32) as int));
            let w = (r[4] as u32) + 256 * (r[5] as u32) + 65536 * (r[6] as u32) + 16777216 * (r[7] as u32);
            assert(w == indices);
            assert((2 * k) as u32 == 2 * ku);
        }
    }
    r
}

/// Compresses a 4x4 block with endpoints chosen among its opaque colours: a block without any
/// opaque pixel gives eight zero bytes; any other block is encoded with the endpoints as
/// [`encode_bc1_block`] states.
pub fn compress_bc1_block_with(block: &RgbaBlock, lo: (u8, u8, u8), hi: (u8, u8, u8)) -> (r: Bc1Block)
    requires
        opaque_colors(block@).len() > 0 ==> opaque_colors(block@).contains(lo) && opaque_colors(block@).contains(hi),
    ensures
        opaque_colors(block@).len() == 0 ==> forall|i: int| 0 <= i < 8 ==> r[i] == 0,
        opaque_colors(block@).len() > 0 ==> {
            &&& r[0] as int + 256 * r[1] as int == rgb565(lo.0, lo.1, lo.2)
            &&& r[2] as int + 256 * r[3] as int == rgb565(hi.0, hi.1, hi.2)
            &&& forall|i: int| 0 <= i < 16 ==> pixel_index_ok(palette(lo, hi), #[trigger] block@[i],
                bc1_index_field(r, i))
        },
{
    let colors = bc1_opaque_colors(block);
    if colors.len() == 0 {
        [0u8; 8]
    } else {
        encode_bc1_block(block, lo, hi)
    }
}

/// The 2-bit palette index of pixel `i` in an encoded block.
pub open spec fn bc1_index_field(r: [u8; 8], i: int) -> int {
    let w = (r[4] as u32) + 256 * (r[5] as u32) + 65536 * (r[6] as u32) + 16777216 * (r[7] as u32);
    ((w as u32 >> (2 * i) as u32) & 3u32) as int
}

/// Whether an image of these dimensions is uploaded BC1-compressed: only under the BC1
/// strategy, and only when both dimensions are multiples of 4.
pub fn should_use_compression(width: u32, height: u32, strategy: CompressionStrategy) -> (r: bool)
    ensures
        r == (strategy == CompressionStrategy::Bc1 && width % 4 == 0 && height % 4 == 0),
{
    match strategy {
        CompressionStrategy::Bc1 => width % 4 == 0 && height % 4 == 0,
        CompressionStrategy::Uncompressed => false,
    }
}

/// The pixel at column `x`, row `y` of an RGBA image, or transparent black outside it.
pub open spec fn image_pixel(image: Seq<u8>, width: int, height: int, x: int, y: int) -> [u8; 4] {
    if x < width && y < height {
        let i = 4 * (y * width + x);
        [image[i], image[i + 1], image[i + 2], image[i + 3]]
    } else {
        [0u8, 0u8, 0u8, 0u8]
    }
}

/// Column of the top-left pixel of block `k` in an image `width` pixels wide.
pub open spec fn block_left(width: int, k: int) -> int {
    (k % ((width + 3) / 4)) * 4
}

/// Row of the top-left pixel of block `k` in an image `width` pixels wide.
pub open spec fn block_top(width: int, k: int) -> int {
    (k / ((width + 3) / 4)) * 4
}

proof fn lemma_block_bounds(width: int, height: int, k: int)
    requires
        width > 0,
        height >= 0,
        0 <= k < ((width + 3) / 4) * ((height + 3) / 4),
    ensures
        0 <= block_left(width, k) <= width - 1,
        0 <= block_top(width, k),
        block_top(width, k) + 3 <= height + 2,
{
    let bx = (width + 3) / 4;
    let by = (height + 3) / 4;
    assert(bx >= 1);
    assert(0 <= k % bx < bx) by (nonlinear_arith)
        requires bx >= 1;
    assert(0 <= k / bx < by) by (nonlinear_arith)
        requires bx >= 1, 0 <= k < bx * by;
    assert((k % bx) * 4 <= width - 1) by (nonlinear_arith)
        requires 0 <= k % bx < bx, bx == (width + 3) / 4, width > 0;
    assert((k / bx) * 4 + 3 <= height + 2) by (nonlinear_arith)
        requires 0 <= k / bx < by, by == (height + 3) / 4, height >= 0;
    assert(0 <= (k / bx) * 4) by (nonlinear_arith)
        requires 0 <= k / bx;
}

/// The 4x4 block number `block_idx` of an RGBA image, blocks counted row by row; pixels
/// past the right or bottom edge are transparent black.
pub fn extract_block(image: &[u8], width: usize, height: usize, block_idx: usize) -> (r: RgbaBlock)
    requires
        width > 0,
        image@.len() >= 4 * width * height,
        block_idx < ((width + 3) / 4) * ((height + 3) / 4),
        4 * (height + 3) * (width + 3) <= usize::MAX,
    ensures
        forall|by: int, bx: int| 0 <= by < 4 && 0 <= bx < 4 ==> #[trigger] r@[by * 4 + bx]
            == image_pixel(image@, width as int, height as int,
                block_left(width as int, block_idx as int) + bx, block_top(width as int, block_idx as int) + by),
{
    proof {
        lemma_block_bounds(width as int, height as int, block_idx as int);
        assert(4 * (height + 3) * (width + 3) == 4 * ((height + 3) * (width + 3))) by (nonlinear_arith);
        assert(width + 3 <= usize::MAX && height + 3 <= usize::MAX) by (nonlinear_arith)
            requires 4 * ((height + 3) * (width + 3)) <= usize::MAX, height >= 0, width >= 0;
        assert(4 * width * height == 4 * (width * height)) by (nonlinear_arith);
    }
    let blocks_x = (width + 3) / 4;
    let block_x = (block_idx % blocks_x) * 4;
    let block_y = (block_idx / blocks_x) * 4;
    let mut pixels: Vec<[u8; 4]> = Vec::new();
    let mut by: usize = 0;
    while by < 4
        invariant
            by <= 4,
            pixels@.len() == 4 * by,
            width > 0,
            image@.len() >= 4 * width * height,
            block_x == block_left(width as int, block_idx as int),
            block_y == block_top(width as int, block_idx as int),
            block_x <= width - 1,
            block_y + 3 <= height + 2,
            width + 3 <= usize::MAX,
            height + 3 <= usize::MAX,
            image@.len() >= 4 * (width * height),
            4 * ((height + 3) * (width + 3)) <= usize::MAX,
            forall|b: int, a: int| 0 <= b < by && 0 <= a < 4 ==> #[trigger] pixels@[b * 4 + a]
                == image_pixel(image@, width as int, height as int, block_x + a, block_y + b),
        decreases 4 - by,
    {
        let mut bx: usize = 0;
        while bx < 4
            invariant
                by < 4,
                bx <= 4,
                pixels@.len() == 4 * by + bx,
                width > 0,
                image@.len() >= 4 * width * height,
                block_x <= width - 1,
                block_y + 3 <= height + 2,
                width + 3 <= usize::MAX,
                height + 3 <= usize::MAX,
                image@.len() >= 4 * (width * height),
                4 * ((height + 3) * (width + 3)) <= usize::MAX,
                forall|b: int, a: int| 0 <= b < by && 0 <= a < 4 ==> #[trigger] pixels@[b * 4 + a]
                    == image_pixel(image@, width as int, height as int, block_x + a, block_y + b),
                forall|a: int| 0 <= a < bx ==> #[trigger] pixels@[by * 4 + a]
                    == image_pixel(image@, width as int, height as int, block_x + a, block_y + by),
            decreases 4 - bx,
        {
            let px = block_x + bx;
            let py = block_y + by;
            proof {
                assert(py * width + px <= (height + 3) * (width + 3)) by (nonlinear_arith)
                    requires py <= height + 2, px <= width + 2, width > 0;
            }
            let idx = 4 * (py * width + px);
            if px < width && py < height {
                proof {
                    assert(py * width + px < width * height) by (nonlinear_arith)
                        requires py < height, px < width;
                }
                let p = [image[idx], image[idx + 1], image[idx + 2], image[idx + 3]];
                pixels.push(p);
            } else {
                pixels.push([0u8, 0u8, 0u8, 0u8]);
            }
            bx += 1;
        }
        by += 1;
    }
    let r: [[u8; 4]; 16] = [
        pixels[0], pixels[1], pixels[2], pixels[3],
        pixels[4], pixels[5], pixels[6], pixels[7],
        pixels[8], pixels[9], pixels[10], pixels[11],
        pixels[12], pixels[13], pixels[14], pixels[15],
    ];
    proof {
        assert forall|b: int, a: int| 0 <= b < 4 && 0 <= a < 4 implies #[trigger] r@[b * 4 + a]
            == image_pixel(image@, width as int, height as int, block_x + a, block_y + b) by {
            assert(r@[b * 4 + a] == pixels@[b * 4 + a]);
        }
    }
    r
}

/// Bytes per row of blocks in a BC1 image `width` pixels wide: 8 bytes per 4-pixel block.
pub fn bc1_row_bytes(width: u32) -> (r: u32)
    requires
        ((width + 3) / 4) * 8 <= u32::MAX,
    ensures
        r == ((width + 3) / 4) * 8,
{
    ((width as u64 + 3) / 4 * 8) as u32
}

/// The compressed blocks laid end to end, and the bytes per row of blocks.
pub fn pack_compressed_image(blocks: &Vec<Bc1Block>, width: u32) -> (r: (Vec<u8>, u32))
    requires
        ((width + 3) / 4) * 8 <= u32::MAX,
        8 * blocks@.len() <= usize::MAX,
    ensures
        r.0@.len() == 8 * blocks@.len(),
        forall|k: int, j: int| 0 <= k < blocks@.len() && 0 <= j < 8 ==> #[trigger] r.0@[8 * k + j] == blocks@[k][j],
        r.1 == ((width + 3) / 4) * 8,
{
    let row_bytes = bc1_row_bytes(width);
    let mut data: Vec<u8> = Vec::new();
    let mut k: usize = 0;
    while k < blocks.len()
        invariant
            k <= blocks@.len(),
            8 * blocks@.len() <= usize::MAX,
            data@.len() == 8 * k,
            forall|a: int, j: int| 0 <= a < k && 0 <= j < 8 ==> #[trigger] data@[8 * a + j] == blocks@[a][j],
        decreases blocks@.len() - k,
    {
        let b = blocks[k];
        let mut j: usize = 0;
        while j < 8
            invariant
                k < blocks@.len(),
                b == blocks@[k as int],
                j <= 8,
                data@.len() == 8 * k + j,
                forall|a: int, i: int| 0 <= a < k && 0 <= i < 8 ==> #[trigger] data@[8 * a + i] == blocks@[a][i],
                forall|i: int| 0 <= i < j ==> #[trigger] data@[8 * k + i] == blocks@[k as int][i],
            decreases 8 - j,
        {
            data.push(b[j]);
            j += 1;
        }
        k += 1;
    }
    (data, row_bytes)
}

/// The number of 4-pixel blocks that cover `n` pixels.
pub open spec fn blocks_for(n: int) -> int {
    (n + 3) / 4
}

/// The BC1 blocks that `texpresso` writes for an RGBA image with its range-fit algorithm,
/// perceptual colour weights and colour weighed by alpha: one 8-byte block per 4x4 tile,
/// tiles row by row, padding pixels masked out.
pub uninterp spec fn spec_texpresso_bc1(rgba: Seq<u8>, width: usize, height: usize) -> Seq<u8>;

/// Calls `texpresso::Format::Bc1.compress` into the given zeroed buffer, whose size is the
/// compressed size of the image; the buffer keeps its size and its content is named by
/// `spec_texpresso_bc1`. The parameters are range fit, perceptual weights and colour
/// weighed by alpha. A width of 0 is refused: texpresso cuts the output into rows of
/// `blocks_wide * 8` bytes, and a row of no bytes panics.
#[verifier::external_body]
fn texpresso_bc1(rgba: &[u8], width: usize, height: usize, output: Vec<u8>) -> (r: Vec<u8>)
    requires
        width >= 1,
        rgba@.len() >= 4 * width * height,
        output@.len() == blocks_for(width as int) * blocks_for(height as int) * 8,
    ensures
        r@ == spec_texpresso_bc1(rgba@, width, height),
        r@.len() == output@.len(),
{
    let mut out = output;
    let params = texpresso::Params {
        algorithm: texpresso::Algorithm::RangeFit,
        weights: texpresso::COLOUR_WEIGHTS_PERCEPTUAL,
        weigh_colour_by_alpha: true,
    };
    texpresso::Format::Bc1.compress(rgba, width, height, params, &mut out);
    out
}

/// Compresses an RGBA image at least one pixel wide to BC1 with `texpresso`, and gives the
/// bytes per row of blocks.
pub fn compress_image_data_texpresso(image_data: &[u8], width: u32, height: u32) -> (r: (Vec<u8>, u32))
    requires
        width >= 1,
        image_data@.len() >= 4 * width * height,
        blocks_for(width as int) * blocks_for(height as int) * 8 <= usize::MAX,
        blocks_for(width as int) * 8 <= u32::MAX,
    ensures
        r.0@ == spec_texpresso_bc1(image_data@, width as usize, height as usize),
        r.0@.len() == blocks_for(width as int) * blocks_for(height as int) * 8,
        r.1 == blocks_for(width as int) * 8,
{
    let blocks_wide: u64 = (width as u64 + 3) / 4;
    let blocks_tall: u64 = (height as u64 + 3) / 4;
    proof {
        assert(blocks_wide * blocks_tall <= 0x4000_0000 * 0x4000_0000) by (nonlinear_arith)
            requires blocks_wide <= 0x4000_0000, blocks_tall <= 0x4000_0000;
    }
    let output_size = (blocks_wide * blocks_tall * 8) as usize;
    let output: Vec<u8> = vec![0u8; output_size];
    let compressed = texpresso_bc1(image_data, width as usize, height as usize, output);
    let bytes_per_row = (blocks_wide * 8) as u32;
    (compressed, bytes_per_row)
}

} // verus!
