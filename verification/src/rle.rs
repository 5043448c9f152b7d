use vstd::prelude::*;
use vstd::arithmetic::div_mod::lemma_fundamental_div_mod_converse;

verus! {

/// A COCO run-length encoded mask: `size` is `[height, width]`, and `counts` are run lengths
/// that alternate between background (first) and foreground, in column-major order.
#[derive(Debug, Clone)]
pub struct CocoRLE {
    pub counts: Vec<u32>,
    pub size: Vec<u32>,
}

/// The runs written out one value per pixel: run `j` repeats the value `j % 2`.
pub open spec fn expand_runs(counts: Seq<u32>) -> Seq<u8>
    decreases counts.len(),
{
    if counts.len() == 0 {
        Seq::empty()
    } else {
        let n = counts.len() - 1;
        expand_runs(counts.drop_last()) + Seq::new(counts.last() as nat, |_i: int| (n % 2) as u8)
    }
}

/// The number of pixels the runs cover together.
pub open spec fn run_total(counts: Seq<u32>) -> int
    decreases counts.len(),
{
    if counts.len() == 0 { 0 } else { run_total(counts.drop_last()) + counts.last() }
}

/// Run `j` covers the pixels from the total of the runs before it up to, not including, the
/// total of the runs up to it; those pixels are background for an even `j` (the first run is
/// background) and foreground for an odd one, and the runs cover exactly their total.
pub proof fn lemma_runs_alternate(counts: Seq<u32>, j: int, p: int)
    requires
        0 <= j < counts.len(),
        run_total(counts.take(j)) <= p < run_total(counts.take(j + 1)),
    ensures
        expand_runs(counts).len() == run_total(counts),
        0 <= p < expand_runs(counts).len(),
        expand_runs(counts)[p] == if j % 2 == 0 { 0u8 } else { 1u8 },
    decreases counts.len(),
{
    lemma_expand_runs_len(counts);
    let n = counts.len() - 1;
    let front = counts.drop_last();
    assert(counts.take(n) =~= front);
    lemma_expand_runs_len(front);
    if j < n {
        assert(front.take(j) =~= counts.take(j));
        assert(front.take(j + 1) =~= counts.take(j + 1));
        lemma_take_total_le(front, j + 1);
        lemma_runs_alternate(front, j, p);
    } else {
        assert(counts.take(j + 1) =~= counts);
    }
}

proof fn lemma_expand_runs_len(counts: Seq<u32>)
    ensures
        expand_runs(counts).len() == run_total(counts),
        run_total(counts) >= 0,
    decreases counts.len(),
{
    if counts.len() > 0 {
        lemma_expand_runs_len(counts.drop_last());
    }
}

proof fn lemma_take_total_le(counts: Seq<u32>, j: int)
    requires
        0 <= j <= counts.len(),
    ensures
        run_total(counts.take(j)) <= run_total(counts),
    decreases counts.len(),
{
    if j < counts.len() {
        assert(counts.drop_last().take(j) =~= counts.take(j));
        lemma_take_total_le(counts.drop_last(), j);
    } else {
        assert(counts.take(j) =~= counts);
    }
}

/// The position, in column-major order, of row-major pixel `i` of a `height` by `width` mask.
pub open spec fn column_major_position(height: int, width: int, i: int) -> int {
    (i % width) * height + i / width
}

/// The value of row-major pixel `i` after decoding: the expanded run value at its
/// column-major position, or background where the runs end early.
pub open spec fn decoded_pixel(counts: Seq<u32>, height: int, width: int, i: int) -> u8 {
    let e = expand_runs(counts);
    let q = column_major_position(height, width, i);
    if q < e.len() { e[q] } else { 0 }
}

proof fn lemma_expand_runs_push(counts: Seq<u32>, j: int)
    requires
        0 <= j < counts.len(),
    ensures
        expand_runs(counts.subrange(0, j + 1)) == expand_runs(counts.subrange(0, j))
            + Seq::new(counts[j] as nat, |_i: int| (j % 2) as u8),
{
    let s = counts.subrange(0, j + 1);
    assert(s.drop_last() =~= counts.subrange(0, j));
    assert(s.last() == counts[j]);
    assert(Seq::new(s.last() as nat, |_i: int| ((s.len() - 1) % 2) as u8)
        =~= Seq::new(counts[j] as nat, |_i: int| (j % 2) as u8));
}

/// Row and column of a row-major index, and its column-major position.
proof fn lemma_cell(height: int, width: int, r: int, c: int)
    requires
        0 <= r < height,
        0 <= c < width,
    ensures
        0 <= r * width + c < height * width,
        (r * width + c) / width == r,
        (r * width + c) % width == c,
        0 <= c * height + r < height * width,
        (c * height + r) / height == c,
        (c * height + r) % height == r,
{
    lemma_fundamental_div_mod_converse(r * width + c, width, r, c);
    lemma_fundamental_div_mod_converse(c * height + r, height, c, r);
    assert(0 <= r * width + c < height * width) by (nonlinear_arith)
        requires 0 <= r < height, 0 <= c < width;
    assert(0 <= c * height + r < height * width) by (nonlinear_arith)
        requires 0 <= r < height, 0 <= c < width;
}

/// Every row-major index of the mask has a row and a column inside the mask.
proof fn lemma_index_cell(height: int, width: int, i: int)
    requires
        0 <= i < height * width,
        width > 0,
    ensures
        0 <= i / width < height,
        0 <= i % width < width,
        i == (i / width) * width + i % width,
{
    assert(i == width * (i / width) + i % width) by (nonlinear_arith)
        requires width > 0;
    assert(0 <= i % width < width) by (nonlinear_arith)
        requires width > 0;
    assert(0 <= i / width) by (nonlinear_arith)
        requires width > 0, i >= 0;
    assert(i / width < height) by (nonlinear_arith)
        requires width > 0, 0 <= i < height * width;
    assert((i / width) * width == width * (i / width)) by (nonlinear_arith);
}

/// Two cells with the same column-major position are the same cell.
proof fn lemma_position_injective(height: int, width: int, i: int, r: int, c: int)
    requires
        0 <= i < height * width,
        width > 0,
        0 <= r < height,
        0 <= c < width,
        column_major_position(height, width, i) == c * height + r,
    ensures
        i == r * width + c,
{
    lemma_index_cell(height, width, i);
    let ri = i / width;
    let ci = i % width;
    lemma_cell(height, width, ri, ci);
    lemma_cell(height, width, r, c);
}

/// Decodes a COCO RLE mask into a row-major byte mask of `height * width` pixels holding
/// 0 for background and 1 for foreground; the runs fill the mask column by column, and
/// pixels past the end of the runs stay 0. A size that is not `[height, width]` gives an
/// empty mask.
pub fn decode_rle(rle: &CocoRLE) -> (mask: Vec<u8>)
    requires
        rle.size@.len() == 2 ==> rle.size@[0] * rle.size@[1] <= usize::MAX,
    ensures
        rle.size@.len() != 2 ==> mask@.len() == 0,
        rle.size@.len() == 2 ==> {
            let h = rle.size@[0] as int;
            let w = rle.size@[1] as int;
            &&& mask@.len() == h * w
            &&& forall|i: int| 0 <= i < h * w ==> #[trigger] mask@[i] == decoded_pixel(rle.counts@, h, w, i)
        },
        rle.size@.len() == 2 ==> forall|r: int, c: int, j: int|
            #![trigger rle.counts@.take(j), mask@[r * rle.size@[1] + c]]
            0 <= r < rle.size@[0] && 0 <= c < rle.size@[1] && 0 <= j < rle.counts@.len()
            && run_total(rle.counts@.take(j)) <= c * rle.size@[0] + r < run_total(rle.counts@.take(j + 1))
            ==> mask@[r * rle.size@[1] + c] == (if j % 2 == 0 { 0u8 } else { 1u8 }),
        rle.size@.len() == 2 ==> forall|r: int, c: int|
            0 <= r < rle.size@[0] && 0 <= c < rle.size@[1] && c * rle.size@[0] + r >= run_total(rle.counts@)
            ==> #[trigger] mask@[r * rle.size@[1] + c] == 0,
{
    if rle.size.len() != 2 {
        return Vec::new();
    }
    let height = rle.size[0] as usize;
    let width = rle.size[1] as usize;
    let total_pixels = height * width;
    let ghost h = height as int;
    let ghost w = width as int;
    let ghost counts = rle.counts@;

    let mut mask: Vec<u8> = Vec::new();
    let mut z: usize = 0;
    while z < total_pixels
        invariant
            z <= total_pixels,
            mask@.len() == z,
            forall|i: int| 0 <= i < z ==> #[trigger] mask@[i] == 0,
        decreases total_pixels - z,
    {
        mask.push(0);
        z += 1;
    }

    proof {
        if total_pixels > 0 {
            assert(h > 0 && w > 0) by (nonlinear_arith)
                requires h * w > 0, h >= 0, w >= 0;
        }
    }
    let mut col: usize = 0;
    let mut row: usize = 0;
    let mut value: u8 = 0;
    let ghost mut pos: int = 0;
    let mut j: usize = 0;
    while j < rle.counts.len()
        invariant
            counts == rle.counts@,
            h == height as int,
            w == width as int,
            total_pixels == h * w,
            0 <= j <= counts.len(),
            mask@.len() == total_pixels,
            value == (j % 2) as u8,
            pos == col * h + row,
            pos <= total_pixels,
            pos <= expand_runs(counts.subrange(0, j as int)).len(),
            pos < total_pixels ==> pos == expand_runs(counts.subrange(0, j as int)).len(),
            pos < total_pixels ==> row < height && col < width,
            h == 0 || w == 0 ==> row == 0 && col == 0,
            forall|i: int| 0 <= i < total_pixels ==> #[trigger] mask@[i] == ({
                let q = column_major_position(h, w, i);
                if q < pos { expand_runs(counts.subrange(0, j as int))[q] } else { 0 }
            }),
        decreases counts.len() - j,
    {
        let count = rle.counts[j] as usize;
        let ghost e = expand_runs(counts.subrange(0, j as int));
        let ghost e2 = expand_runs(counts.subrange(0, j as int + 1));
        proof {
            lemma_expand_runs_push(counts, j as int);
            assert(e2 == e + Seq::new(counts[j as int] as nat, |_i: int| (j % 2) as u8));
        }
        let mut k: usize = 0;
        while k < count
            invariant
                counts == rle.counts@,
                h == height as int,
                w == width as int,
                total_pixels == h * w,
                0 <= j < counts.len(),
                count == counts[j as int],
                e == expand_runs(counts.subrange(0, j as int)),
                e2 == e + Seq::new(counts[j as int] as nat, |_i: int| (j % 2) as u8),
                k <= count,
                mask@.len() == total_pixels,
                value == (j % 2) as u8,
                pos == col * h + row,
                pos <= total_pixels,
                pos <= e.len() + k,
                pos < total_pixels ==> pos == e.len() + k,
                pos < total_pixels ==> row < height && col < width,
                h == 0 || w == 0 ==> row == 0 && col == 0,
                forall|i: int| 0 <= i < total_pixels ==> #[trigger] mask@[i] == ({
                    let q = column_major_position(h, w, i);
                    if q < pos { e2[q] } else { 0 }
                }),
            ensures
                mask@.len() == total_pixels,
                pos == col * h + row,
                pos <= total_pixels,
                pos <= e2.len(),
                pos < total_pixels ==> pos == e2.len(),
                pos < total_pixels ==> row < height && col < width,
                h == 0 || w == 0 ==> row == 0 && col == 0,
                forall|i: int| 0 <= i < total_pixels ==> #[trigger] mask@[i] == ({
                    let q = column_major_position(h, w, i);
                    if q < pos { e2[q] } else { 0 }
                }),
            decreases count - k,
        {
            if col < width && row < height {
                proof {
                    lemma_cell(h, w, row as int, col as int);
                }
                let idx = row + col * height;
                let cell = row * width + col;
                if idx < total_pixels {
                    let ghost before = mask@;
                    mask.set(cell, value);
                    proof {
                        assert forall|i: int| 0 <= i < total_pixels implies #[trigger] mask@[i] == ({
                            let q = column_major_position(h, w, i);
                            if q < pos + 1 { e2[q] } else { 0 }
                        }) by {
                            let q = column_major_position(h, w, i);
                            if i == cell as int {
                                assert(q == col * h + row);
                                assert(e2[q] == (j % 2) as u8);
                            } else {
                                if q == pos {
                                    lemma_position_injective(h, w, i, row as int, col as int);
                                }
                                assert(mask@[i] == before[i]);
                            }
                        }
                    }
                }
                row += 1;
                if row >= height {
                    row = 0;
                    col += 1;
                    proof {
                        assert((col as int) * h == (col as int - 1) * h + h) by (nonlinear_arith);
                    }
                }
                proof {
                    pos = pos + 1;
                    assert(pos == col * h + row);
                    if pos < total_pixels {
                        if row == 0 {
                            assert(h > 0);
                            assert(col < w) by (nonlinear_arith)
                                requires pos == col * h, pos < h * w, h > 0;
                        }
                    }
                }
            } else {
                break;
            }
            k += 1;
        }
        value = 1 - value;
        j += 1;
    }
    proof {
        assert(counts.subrange(0, counts.len() as int) =~= counts);
        assert forall|i: int| 0 <= i < h * w implies #[trigger] mask@[i] == decoded_pixel(counts, h, w, i) by {
            let e = expand_runs(counts);
            let q = column_major_position(h, w, i);
            lemma_index_cell(h, w, i);
            lemma_cell(h, w, i / w, i % w);
            assert(q < h * w);
        }
        lemma_expand_runs_len(counts);
        assert forall|r: int, c: int, j: int|
            #![trigger counts.take(j), mask@[r * w + c]]
            0 <= r < h && 0 <= c < w && 0 <= j < counts.len()
            && run_total(counts.take(j)) <= c * h + r < run_total(counts.take(j + 1))
            implies mask@[r * w + c] == (if j % 2 == 0 { 0u8 } else { 1u8 }) by {
            lemma_cell(h, w, r, c);
            lemma_runs_alternate(counts, j, c * h + r);
            assert(mask@[r * w + c] == decoded_pixel(counts, h, w, r * w + c));
        }
        assert forall|r: int, c: int| 0 <= r < h && 0 <= c < w && c * h + r >= run_total(counts)
            implies #[trigger] mask@[r * w + c] == 0 by {
            lemma_cell(h, w, r, c);
            assert(mask@[r * w + c] == decoded_pixel(counts, h, w, r * w + c));
        }
    }
    mask
}

/// A neighbour cell lies outside a `width` by `height` mask or is background.
pub open spec fn outside_or_background(mask: Seq<u8>, width: int, height: int, x: int, y: int) -> bool {
    x >= width || y >= height || mask[y * width + x] == 0
}

/// `x - 1` with wrap-around below zero, as `usize::wrapping_sub` computes it.
pub open spec fn wrapping_pred(x: usize) -> usize {
    if x == 0 { usize::MAX } else { (x - 1) as usize }
}

fn neighbour_is_edge(mask: &[u8], width: usize, height: usize, nx: usize, ny: usize) -> (r: bool)
    requires
        mask@.len() >= width * height,
    ensures
        r == outside_or_background(mask@, width as int, height as int, nx as int, ny as int),
{
    if nx >= width || ny >= height {
        return true;
    }
    let n = mask.len();
    proof {
        assert(ny * width + nx < width * height) by (nonlinear_arith)
            requires ny < height, nx < width;
    }
    let nidx = ny * width + nx;
    mask[nidx] == 0
}

/// Whether the pixel at (`x`, `y`) has a 4-connected neighbour (left, right, up, down)
/// that lies outside the mask or is background.
pub fn is_boundary_pixel(mask: &[u8], width: usize, height: usize, x: usize, y: usize) -> (r: bool)
    requires
        mask@.len() >= width * height,
        x < usize::MAX,
        y < usize::MAX,
    ensures
        r == (outside_or_background(mask@, width as int, height as int, wrapping_pred(x) as int, y as int)
            || outside_or_background(mask@, width as int, height as int, x + 1, y as int)
            || outside_or_background(mask@, width as int, height as int, x as int, wrapping_pred(y) as int)
            || outside_or_background(mask@, width as int, height as int, x as int, y + 1)),
{
    let left = if x == 0 { usize::MAX } else { x - 1 };
    let up = if y == 0 { usize::MAX } else { y - 1 };
    if neighbour_is_edge(mask, width, height, left, y) {
        return true;
    }
    if neighbour_is_edge(mask, width, height, x + 1, y) {
        return true;
    }
    if neighbour_is_edge(mask, width, height, x, up) {
        return true;
    }
    if neighbour_is_edge(mask, width, height, x, y + 1) {
        return true;
    }
    false
}

} // verus!

verus! {

/// Column step of the eight Moore neighbours, clockwise from north: N, NE, E, SE, S, SW, W, NW.
pub open spec fn moore_dx(d: int) -> int {
    if d == 1 || d == 2 || d == 3 { 1 } else if d == 5 || d == 6 || d == 7 { -1 } else { 0 }
}

/// Row step of the eight Moore neighbours, clockwise from north.
pub open spec fn moore_dy(d: int) -> int {
    if d == 7 || d == 0 || d == 1 { -1 } else if d == 3 || d == 4 || d == 5 { 1 } else { 0 }
}

/// The neighbour of (`x`, `y`) in direction `d` lies inside the mask and is foreground.
pub open spec fn fg_neighbour(mask: Seq<u8>, w: int, h: int, x: int, y: int, d: int) -> bool {
    let nx = x + moore_dx(d);
    let ny = y + moore_dy(d);
    0 <= nx < w && 0 <= ny < h && mask[ny * w + nx] > 0
}

/// The first direction among `dir + i`, `dir + i + 1`, ... `dir + 7` (taken mod 8) that
/// leads to a foreground neighbour.
pub open spec fn next_direction(mask: Seq<u8>, w: int, h: int, x: int, y: int, dir: int, i: int) -> Option<int>
    decreases 8 - i,
{
    if i >= 8 {
        None
    } else if fg_neighbour(mask, w, h, x, y, (dir + i) % 8) {
        Some((dir + i) % 8)
    } else {
        next_direction(mask, w, h, x, y, dir, i + 1)
    }
}

/// The pixel at (`x`, `y`) has a 4-connected neighbour outside the mask or in the background.
pub open spec fn on_boundary(mask: Seq<u8>, w: int, h: int, x: usize, y: usize) -> bool {
    ||| outside_or_background(mask, w, h, wrapping_pred(x) as int, y as int)
    ||| outside_or_background(mask, w, h, x + 1, y as int)
    ||| outside_or_background(mask, w, h, x as int, wrapping_pred(y) as int)
    ||| outside_or_background(mask, w, h, x as int, y + 1)
}

/// A new point bends the contour: it is not on the line through the last two points.
pub open spec fn bends(contour: Seq<(usize, usize)>, x: int, y: int) -> bool {
    contour.len() < 2 || {
        let p0 = contour[contour.len() - 2];
        let p1 = contour[contour.len() - 1];
        (p1.0 - p0.0) * (y - p1.1) - (p1.1 - p0.1) * (x - p1.0) != 0
    }
}

/// The outcome of following a contour from (`x`, `y`), searching clockwise from `dir`, with
/// at most `steps` moves left: the contour (when it has three points or more) and the visited
/// flags. Each move goes to the first foreground neighbour; it ends the contour when it comes
/// back to `start` with more than two points; otherwise a pixel not yet visited, or any pixel
/// while the contour has fewer than three points, is marked visited and added when it bends
/// the contour; the next search starts two directions counter-clockwise of the move.
pub open spec fn trace_from(mask: Seq<u8>, w: int, h: int, start: int, x: int, y: int, dir: int,
    contour: Seq<(usize, usize)>, visited: Seq<bool>, steps: nat) -> (Option<Seq<(usize, usize)>>, Seq<bool>)
    decreases steps,
{
    let end = (if contour.len() >= 3 { Some(contour) } else { None }, visited);
    if steps == 0 {
        end
    } else {
        match next_direction(mask, w, h, x, y, dir, 0) {
            None => end,
            Some(d) => {
                let nx = x + moore_dx(d);
                let ny = y + moore_dy(d);
                let nidx = ny * w + nx;
                if nidx == start && contour.len() > 2 {
                    (Some(contour), visited)
                } else if !visited[nidx] || contour.len() < 3 {
                    let grown = if bends(contour, nx, ny) { contour.push((nx as usize, ny as usize)) } else { contour };
                    trace_from(mask, w, h, start, nx, ny, (d + 6) % 8, grown, visited.update(nidx, true),
                        (steps - 1) as nat)
                } else {
                    trace_from(mask, w, h, start, nx, ny, (d + 6) % 8, contour, visited, (steps - 1) as nat)
                }
            },
        }
    }
}

/// The contour traced from a start pixel and the visited flags afterwards: an inner pixel
/// (no background or outside neighbour) is only marked visited; a boundary pixel starts a
/// contour searched from north, with at most `w * h` moves.
pub open spec fn traced_contour(mask: Seq<u8>, w: int, h: int, sx: usize, sy: usize, visited: Seq<bool>)
    -> (Option<Seq<(usize, usize)>>, Seq<bool>)
{
    let idx = sy * w + sx;
    if !on_boundary(mask, w, h, sx, sy) {
        (None, visited.update(idx, true))
    } else {
        trace_from(mask, w, h, idx, sx as int, sy as int, 0, seq![(sx, sy)], visited.update(idx, true),
            (w * h) as nat)
    }
}

/// A polygon of at least three points, each a pixel of a `w` by `h` mask.
pub open spec fn polygon_in_mask(c: Seq<(usize, usize)>, w: int, h: int) -> bool {
    &&& c.len() >= 3
    &&& forall|k: int| 0 <= k < c.len() ==> (#[trigger] c[k]).0 < w && c[k].1 < h
}

/// Every point of a contour is a foreground pixel of a mask `w` pixels wide.
pub open spec fn on_foreground(c: Seq<(usize, usize)>, mask: Seq<u8>, w: int) -> bool {
    forall|k: int| 0 <= k < c.len() ==> mask[(#[trigger] c[k]).1 * w + c[k].0] > 0
}

/// No pixel of the first `n` of a mask is foreground.
pub open spec fn all_background(mask: Seq<u8>, n: int) -> bool {
    forall|i: int| 0 <= i < n ==> #[trigger] mask[i] == 0
}

/// The points of an optional contour.
pub open spec fn contour_view(c: Option<Vec<(usize, usize)>>) -> Option<Seq<(usize, usize)>> {
    match c {
        Some(v) => Some(v@),
        None => None,
    }
}

/// The in-mask neighbour of (`x`, `y`) in direction `d`, if it lies inside the mask.
fn moore_neighbour(width: usize, height: usize, x: usize, y: usize, d: usize) -> (r: Option<(usize, usize)>)
    requires
        d < 8,
        x < width,
        y < height,
    ensures
        match r {
            Some(p) => {
                &&& p.0 == x + moore_dx(d as int)
                &&& p.1 == y + moore_dy(d as int)
                &&& p.0 < width && p.1 < height
            },
            None => !(0 <= x + moore_dx(d as int) < width && 0 <= y + moore_dy(d as int) < height),
        },
{
    let nx: usize = if d == 1 || d == 2 || d == 3 {
        if x + 1 >= width { return None; }
        x + 1
    } else if d == 5 || d == 6 || d == 7 {
        if x == 0 { return None; }
        x - 1
    } else {
        x
    };
    let ny: usize = if d == 7 || d == 0 || d == 1 {
        if y == 0 { return None; }
        y - 1
    } else if d == 3 || d == 4 || d == 5 {
        if y + 1 >= height { return None; }
        y + 1
    } else {
        y
    };
    Some((nx, ny))
}

/// The first direction, clockwise from `dir`, to a foreground neighbour.
fn find_direction(mask: &[u8], width: usize, height: usize, x: usize, y: usize, dir: usize) -> (r: Option<usize>)
    requires
        mask@.len() >= width * height,
        dir < 8,
        x < width,
        y < height,
    ensures
        match r {
            Some(d) => next_direction(mask@, width as int, height as int, x as int, y as int, dir as int, 0)
                == Some(d as int) && d < 8,
            None => next_direction(mask@, width as int, height as int, x as int, y as int, dir as int, 0) is None,
        },
{
    let len = mask.len();
    let mut i: usize = 0;
    while i < 8
        invariant
            i <= 8,
            len == mask@.len(),
            dir < 8,
            x < width,
            y < height,
            mask@.len() >= width * height,
            next_direction(mask@, width as int, height as int, x as int, y as int, dir as int, 0)
                == next_direction(mask@, width as int, height as int, x as int, y as int, dir as int, i as int),
        decreases 8 - i,
    {
        let d = (dir + i) % 8;
        match moore_neighbour(width, height, x, y, d) {
            Some((nx, ny)) => {
                proof {
                    assert(ny * width + nx < width * height) by (nonlinear_arith)
                        requires ny < height, nx < width;
                    assert(ny * width <= ny * width + nx);
                }
                if mask[ny * width + nx] > 0 {
                    return Some(d);
                }
            },
            None => {},
        }
        i += 1;
    }
    None
}

/// Whether (`x`, `y`) bends the contour; with integer coordinates inside the mask the cross
/// product is exact.
fn should_add_point(contour: &Vec<(usize, usize)>, x: usize, y: usize, width: usize, height: usize) -> (r: bool)
    requires
        width * height <= usize::MAX,
        x < width,
        y < height,
        forall|k: int| 0 <= k < contour@.len() ==> (#[trigger] contour@[k]).0 < width && contour@[k].1 < height,
    ensures
        r == bends(contour@, x as int, y as int),
{
    let n = contour.len();
    if n < 2 {
        return true;
    }
    let p0 = contour[n - 2];
    let p1 = contour[n - 1];
    let dx1 = p1.0 as i128 - p0.0 as i128;
    let dy1 = p1.1 as i128 - p0.1 as i128;
    let dx2 = x as i128 - p1.0 as i128;
    let dy2 = y as i128 - p1.1 as i128;
    proof {
        let w = width as int;
        let h = height as int;
        assert(-0x1_0000_0000_0000_0000 <= dx1 * dy2 <= 0x1_0000_0000_0000_0000) by (nonlinear_arith)
            requires -w < dx1 < w, -h < dy2 < h, w * h <= 0x1_0000_0000_0000_0000;
        assert(-0x1_0000_0000_0000_0000 <= dy1 * dx2 <= 0x1_0000_0000_0000_0000) by (nonlinear_arith)
            requires -w < dx2 < w, -h < dy1 < h, w * h <= 0x1_0000_0000_0000_0000;
    }
    dx1 * dy2 - dy1 * dx2 != 0
}

/// Traces the contour through the boundary pixel at (`start_x`, `start_y`) with Moore
/// neighbourhood tracing, marking the pixels it takes in `visited`, as `traced_contour` states;
/// an inner pixel is only marked visited.
pub fn trace_contour(mask: &[u8], width: usize, height: usize, start_x: usize, start_y: usize,
    visited: &mut Vec<bool>) -> (r: Option<Vec<(usize, usize)>>)
    requires
        mask@.len() >= width * height,
        old(visited)@.len() >= width * height,
        start_x < width,
        start_y < height,
    ensures
        (contour_view(r), final(visited)@) == traced_contour(mask@, width as int, height as int, start_x,
            start_y, old(visited)@),
        final(visited)@.len() == old(visited)@.len(),
        r matches Some(c) ==> polygon_in_mask(c@, width as int, height as int),
        mask@[start_y * width + start_x] > 0 ==> (r matches Some(c) ==> on_foreground(c@, mask@, width as int)),
{
    let len = mask.len();
    let ghost w = width as int;
    let ghost h = height as int;
    proof {
        assert(start_y * w + start_x < w * h) by (nonlinear_arith)
            requires start_y < h, start_x < w;
        assert(start_y * w <= start_y * w + start_x);
    }
    let idx = start_y * width + start_x;
    if !is_boundary_pixel(mask, width, height, start_x, start_y) {
        visited.set(idx, true);
        return None;
    }
    visited.set(idx, true);
    let mut contour: Vec<(usize, usize)> = Vec::new();
    contour.push((start_x, start_y));
    let mut x = start_x;
    let mut y = start_y;
    let mut dir: usize = 0;
    let max_iterations = width * height;
    let mut iterations: usize = 0;
    let ghost goal = traced_contour(mask@, w, h, start_x, start_y, old(visited)@);
    proof {
        assert(contour@ =~= seq![(start_x, start_y)]);
    }
    loop
        invariant_except_break
            trace_from(mask@, w, h, idx as int, x as int, y as int, dir as int, contour@, visited@,
                (max_iterations - iterations) as nat) == goal,
        invariant
            len == mask@.len(),
            mask@.len() >= width * height,
            max_iterations == width * height,
            w == width as int,
            h == height as int,
            goal == traced_contour(mask@, w, h, start_x, start_y, old(visited)@),
            iterations <= max_iterations,
            x < width,
            y < height,
            dir < 8,
            idx == start_y * w + start_x,
            visited@.len() == old(visited)@.len(),
            visited@.len() >= width * height,
            contour@.len() >= 1,
            forall|k: int| 0 <= k < contour@.len() ==> (#[trigger] contour@[k]).0 < width && contour@[k].1 < height,
            contour@[0] == (start_x, start_y),
            forall|k: int| 1 <= k < contour@.len() ==> mask@[(#[trigger] contour@[k]).1 * w + contour@[k].0] > 0,
        ensures
            goal == (if contour@.len() >= 3 { Some(contour@) } else { None::<Seq<(usize, usize)>> }, visited@),
        decreases max_iterations - iterations,
    {
        if iterations >= max_iterations {
            break;
        }
        let ghost steps = (max_iterations - iterations) as nat;
        iterations += 1;
        let d = match find_direction(mask, width, height, x, y, dir) {
            None => {
                proof {
                    assert(trace_from(mask@, w, h, idx as int, x as int, y as int, dir as int, contour@, visited@,
                        steps) == goal);
                    assert(steps > 0);
                }
                break;
            },
            Some(d) => d,
        };
        proof {
            lemma_next_direction_found(mask@, w, h, x as int, y as int, dir as int, 0);
            assert(fg_neighbour(mask@, w, h, x as int, y as int, d as int));
        }
        let (nx, ny) = match moore_neighbour(width, height, x, y, d) {
            Some(p) => p,
            None => {
                proof {
                    assert(false);
                }
                break;
            },
        };
        proof {
            assert(ny * w + nx < w * h) by (nonlinear_arith)
                requires ny < h, nx < w;
            assert(ny * w <= ny * w + nx);
        }
        let nidx = ny * width + nx;
        let ghost (ox, oy, odir) = (x as int, y as int, dir as int);
        x = nx;
        y = ny;
        dir = (d + 6) % 8;
        if nidx == idx && contour.len() > 2 {
            proof {
                assert(trace_from(mask@, w, h, idx as int, ox, oy, odir, contour@, visited@, steps) == goal);
                assert(nx == ox + moore_dx(d as int) && ny == oy + moore_dy(d as int));
                assert(trace_from(mask@, w, h, idx as int, ox, oy, odir, contour@, visited@, steps)
                    == (Some(contour@), visited@));
            }
            return Some(contour);
        }
        if !visited[nidx] || contour.len() < 3 {
            visited.set(nidx, true);
            if should_add_point(&contour, x, y, width, height) {
                contour.push((x, y));
            }
        }
    }
    if contour.len() >= 3 {
        Some(contour)
    } else {
        None
    }
}

proof fn lemma_next_direction_found(mask: Seq<u8>, w: int, h: int, x: int, y: int, dir: int, i: int)
    requires
        0 <= i,
        next_direction(mask, w, h, x, y, dir, i) is Some,
    ensures
        fg_neighbour(mask, w, h, x, y, next_direction(mask, w, h, x, y, dir, i)->0),
        0 <= next_direction(mask, w, h, x, y, dir, i)->0 < 8 || dir < 0,
    decreases 8 - i,
{
    if i < 8 && !fg_neighbour(mask, w, h, x, y, (dir + i) % 8) {
        lemma_next_direction_found(mask, w, h, x, y, dir, i + 1);
    }
}

/// The contours found by scanning the mask row by row from position `p` on: a foreground
/// pixel not yet visited starts a trace, and each contour of three points or more is kept,
/// in the order found.
pub open spec fn contours_from(mask: Seq<u8>, w: int, h: int, p: int, visited: Seq<bool>) -> Seq<Seq<(usize, usize)>>
    decreases w * h - p,
{
    if p < 0 || p >= w * h || w <= 0 {
        Seq::empty()
    } else if mask[p] > 0 && !visited[p] {
        let (c, seen) = traced_contour(mask, w, h, (p % w) as usize, (p / w) as usize, visited);
        let rest = contours_from(mask, w, h, p + 1, seen);
        match c {
            Some(points) => if points.len() >= 3 { seq![points] + rest } else { rest },
            None => rest,
        }
    } else {
        contours_from(mask, w, h, p + 1, visited)
    }
}

/// The contours of a binary mask of `width` by `height` pixels, as `contours_from` finds them
/// from the first pixel with nothing visited; none for an empty mask.
pub open spec fn spec_mask_contours(mask: Seq<u8>, width: int, height: int) -> Seq<Seq<(usize, usize)>> {
    if mask.len() == 0 || width == 0 || height == 0 {
        Seq::empty()
    } else {
        contours_from(mask, width, height, 0, Seq::new(mask.len(), |_i: int| false))
    }
}

/// Finds the contours of the regions of a binary mask, tracing from each foreground pixel
/// not yet visited in row order and keeping the contours of three points or more.
pub fn mask_contours(mask: &[u8], width: usize, height: usize) -> (r: Vec<Vec<(usize, usize)>>)
    requires
        mask@.len() >= width * height,
    ensures
        r@.map_values(|c: Vec<(usize, usize)>| c@) == spec_mask_contours(mask@, width as int, height as int),
        forall|k: int| 0 <= k < r@.len() ==> polygon_in_mask(#[trigger] r@[k]@, width as int, height as int),
        forall|k: int| 0 <= k < r@.len() ==> on_foreground(#[trigger] r@[k]@, mask@, width as int),
        all_background(mask@, width * height) ==> r@.len() == 0,
{
    if mask.len() == 0 || width == 0 || height == 0 {
        let r: Vec<Vec<(usize, usize)>> = Vec::new();
        proof {
            assert(r@.map_values(|c: Vec<(usize, usize)>| c@) =~= Seq::<Seq<(usize, usize)>>::empty());
        }
        return r;
    }
    let ghost w = width as int;
    let ghost h = height as int;
    let len = mask.len();
    let mut visited: Vec<bool> = Vec::new();
    let mut i: usize = 0;
    while i < len
        invariant
            i <= len,
            len == mask@.len(),
            visited@ == Seq::new(i as nat, |_i: int| false),
        decreases len - i,
    {
        visited.push(false);
        i += 1;
        proof {
            assert(visited@ =~= Seq::new(i as nat, |_i: int| false));
        }
    }
    let total = width * height;
    let mut polygons: Vec<Vec<(usize, usize)>> = Vec::new();
    let ghost goal = spec_mask_contours(mask@, w, h);
    let mut p: usize = 0;
    while p < total
        invariant
            w == width as int,
            h == height as int,
            width > 0,
            height > 0,
            len == mask@.len(),
            mask@.len() > 0,
            total == width * height,
            mask@.len() >= width * height,
            visited@.len() == mask@.len(),
            p <= total,
            goal == spec_mask_contours(mask@, w, h),
            polygons@.map_values(|c: Vec<(usize, usize)>| c@) + contours_from(mask@, w, h, p as int, visited@) == goal,
            forall|k: int| 0 <= k < polygons@.len() ==> polygon_in_mask(#[trigger] polygons@[k]@, w, h),
            forall|k: int| 0 <= k < polygons@.len() ==> on_foreground(#[trigger] polygons@[k]@, mask@, w),
            all_background(mask@, w * h) ==> polygons@.len() == 0,
        decreases total - p,
    {
        let x = p % width;
        let y = p / width;
        proof {
            assert(y < height) by (nonlinear_arith)
                requires y == p / width, p < width * height, width > 0;
            assert(y * width + x == p) by (nonlinear_arith)
                requires y == p / width, x == p % width, width > 0;
        }
        let ghost before = polygons@.map_values(|c: Vec<(usize, usize)>| c@);
        let ghost seen = visited@;
        if mask[p] > 0 && !visited[p] {
            proof {
                assert(mask@[p as int] > 0);
            }
            let traced = trace_contour(mask, width, height, x, y, &mut visited);
            match traced {
                Some(contour) => {
                    if contour.len() >= 3 {
                        polygons.push(contour);
                        proof {
                            assert(polygons@.map_values(|c: Vec<(usize, usize)>| c@)
                                =~= before.push(polygons@.last()@));
                            assert(before.push(polygons@.last()@) + contours_from(mask@, w, h, p + 1, visited@)
                                =~= before + (seq![polygons@.last()@] + contours_from(mask@, w, h, p + 1, visited@)));
                        }
                    }
                },
                None => {},
            }
        }
        p += 1;
    }
    polygons
}

} // verus!
