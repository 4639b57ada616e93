//! Conversion of BGRA frames to NV12 and IYUV on the CPU.
//!
//! Both formats start with a luma byte for every pixel, row by row. The colour
//! follows at half the resolution in both directions: in NV12 as one plane of
//! alternating U and V bytes, in IYUV as a plane of U bytes and a plane of V bytes.
use vstd::prelude::*;

verus! {

/// BT.601 luma in limited range, in fixed point.
pub open spec fn luma_of(b: int, g: int, r: int) -> int {
    (r * 306 + g * 601 + b * 117) / 1024 * 219 / 256 + 16
}

/// BT.601 blue difference around 128, in fixed point.
pub open spec fn u_of(b: int, g: int, r: int) -> int {
    (-r * 147 - g * 289 + b * 436) / 1024 + 128
}

/// BT.601 red difference around 128, in fixed point.
pub open spec fn v_of(b: int, g: int, r: int) -> int {
    (r * 615 - g * 515 - b * 100) / 1024 + 128
}

/// The nearest value in the range of a byte.
pub open spec fn clamped(value: int) -> int {
    if value < 0 {
        0
    } else if value > 255 {
        255
    } else {
        value
    }
}

/// Channel `c` (0 is blue, 1 green, 2 red) of pixel number `i`, in row order.
pub open spec fn channel(data: Seq<u8>, i: int, c: int) -> int {
    data[4 * i + c] as int
}

/// The number of the pixel in column `x` of row `y`.
pub open spec fn pixel(width: int, x: int, y: int) -> int {
    y * width + x
}

/// The mean of channel `c` over the four pixels of block (`bx`, `by`), rounded down.
pub open spec fn block_mean_of(data: Seq<u8>, width: int, bx: int, by: int, c: int) -> int {
    (channel(data, pixel(width, 2 * bx, 2 * by), c) + channel(
        data,
        pixel(width, 2 * bx + 1, 2 * by),
        c,
    ) + channel(data, pixel(width, 2 * bx, 2 * by + 1), c) + channel(
        data,
        pixel(width, 2 * bx + 1, 2 * by + 1),
        c,
    )) / 4
}

/// The U value of block (`bx`, `by`), which may exceed the range of a byte.
pub open spec fn block_u(data: Seq<u8>, width: int, bx: int, by: int) -> int {
    u_of(
        block_mean_of(data, width, bx, by, 0),
        block_mean_of(data, width, bx, by, 1),
        block_mean_of(data, width, bx, by, 2),
    )
}

/// The V value of block (`bx`, `by`), which may exceed the range of a byte.
pub open spec fn block_v(data: Seq<u8>, width: int, bx: int, by: int) -> int {
    v_of(
        block_mean_of(data, width, bx, by, 0),
        block_mean_of(data, width, bx, by, 1),
        block_mean_of(data, width, bx, by, 2),
    )
}

/// (`bx`, `by`) is a whole block of two by two pixels. The last column of an odd
/// width and the last row of an odd height belong to none.
pub open spec fn is_block(width: int, height: int, bx: int, by: int) -> bool {
    0 <= bx < width / 2 && 0 <= by < height / 2
}

/// The first `width * height` bytes of `out` are the luma of the frame.
pub open spec fn luma_plane(data: Seq<u8>, width: int, height: int, out: Seq<u8>) -> bool {
    forall|i: int|
        0 <= i < width * height ==> #[trigger] out[i] == luma_of(
            channel(data, i, 0),
            channel(data, i, 1),
            channel(data, i, 2),
        )
}

/// Where NV12 holds the U byte of a block; its V byte is the next one.
pub open spec fn nv12_index(width: int, height: int, bx: int, by: int) -> int {
    width * height + (by * width / 2 + bx) * 2
}

/// NV12 holds the U or V byte of some block at `k`.
pub open spec fn nv12_chroma_at(width: int, height: int, k: int) -> bool {
    exists|bx: int, by: int|
        is_block(width, height, bx, by) && (k == #[trigger] nv12_index(width, height, bx, by) || k
            == nv12_index(width, height, bx, by) + 1)
}

/// `out` is the NV12 form of the frame. Chroma bytes that belong to no whole block
/// are zero.
pub open spec fn is_nv12(data: Seq<u8>, width: int, height: int, out: Seq<u8>) -> bool {
    &&& out.len() == width * height + width * height / 2
    &&& luma_plane(data, width, height, out)
    &&& forall|bx: int, by: int|
        is_block(width, height, bx, by) ==> {
            &&& out[#[trigger] nv12_index(width, height, bx, by)] == clamped(
                block_u(data, width, bx, by),
            )
            &&& out[nv12_index(width, height, bx, by) + 1] == clamped(block_v(data, width, bx, by))
        }
    &&& forall|k: int|
        width * height <= k < out.len() && !nv12_chroma_at(width, height, k) ==> #[trigger] out[k]
            == 0
}

/// Where a plane of one byte per block holds that of block (`bx`, `by`).
pub open spec fn block_index(width: int, bx: int, by: int) -> int {
    by * (width / 2) + bx
}

/// `out` is the IYUV form of the frame. U and V are reduced modulo 256; the bytes of
/// the two planes that belong to no whole block are zero.
pub open spec fn is_iyuv(data: Seq<u8>, width: int, height: int, out: Seq<u8>) -> bool {
    let u_plane = width * height;
    let v_plane = u_plane + width * height / 4;
    let blocks = (width / 2) * (height / 2);
    &&& out.len() == v_plane + width * height / 4
    &&& luma_plane(data, width, height, out)
    &&& forall|bx: int, by: int|
        is_block(width, height, bx, by) ==> {
            &&& out[u_plane + #[trigger] block_index(width, bx, by)] == block_u(data, width, bx, by)
                % 256
            &&& out[v_plane + block_index(width, bx, by)] == block_v(data, width, bx, by) % 256
        }
    &&& forall|k: int| u_plane + blocks <= k < v_plane ==> #[trigger] out[k] == 0
    &&& forall|k: int| v_plane + blocks <= k < out.len() ==> #[trigger] out[k] == 0
}

/// The frame can be read: the size is a 32-bit number and `data` holds every byte of
/// it, but for the last one, which is never read.
pub open spec fn readable_frame(data: Seq<u8>, width: u32, height: u32) -> bool {
    &&& width * height <= u32::MAX
    &&& 4 * (width * height) <= data.len() + 1
}

/// The luma of one pixel.
pub fn luma(b: u8, g: u8, r: u8) -> (y: u8)
    ensures
        y == luma_of(b as int, g as int, r as int),
{
    let weighted: u32 = r as u32 * 306 + g as u32 * 601 + b as u32 * 117;
    let full: u32 = weighted >> 10;
    assert(weighted >> 10 == weighted / 1024) by (bit_vector);
    let scaled: u32 = full * 219;
    assert(scaled >> 8 == scaled / 256) by (bit_vector);
    ((scaled >> 8) + 16) as u8
}

/// The U value of a colour.
pub fn chroma_u(b: u8, g: u8, r: u8) -> (u: i32)
    ensures
        u == u_of(b as int, g as int, r as int),
{
    let weighted: i32 = -(r as i32) * 147 - g as i32 * 289 + b as i32 * 436;
    assert(weighted >> 10 == weighted / 1024) by (bit_vector);
    (weighted >> 10) + 128
}

/// The V value of a colour.
pub fn chroma_v(b: u8, g: u8, r: u8) -> (v: i32)
    ensures
        v == v_of(b as int, g as int, r as int),
{
    let weighted: i32 = r as i32 * 615 - g as i32 * 515 - b as i32 * 100;
    assert(weighted >> 10 == weighted / 1024) by (bit_vector);
    (weighted >> 10) + 128
}

/// A pixel of a whole block is a pixel of the frame.
proof fn lemma_block_pixels(width: int, height: int, bx: int, by: int)
    requires
        is_block(width, height, bx, by),
    ensures
        0 <= 2 * by * width <= (2 * by + 1) * width,
        (2 * by + 1) * width + 2 * bx + 1 < width * height,
        2 * by * width == (2 * by) * width,
{
    assert(0 <= 2 * by * width <= (2 * by + 1) * width && 2 * by * width == (2 * by) * width)
        by (nonlinear_arith)
        requires
            0 <= by,
            0 <= width,
    ;
    assert((2 * by + 2) * width <= width * height) by (nonlinear_arith)
        requires
            2 * by + 2 <= height,
            0 <= width,
    ;
    assert((2 * by + 2) * width == (2 * by + 1) * width + width) by (nonlinear_arith);
}

/// The mean of channel `c` over one block.
fn block_mean(data: &[u8], width: usize, height: usize, bx: usize, by: usize, c: usize) -> (mean: u8)
    requires
        is_block(width as int, height as int, bx as int, by as int),
        4 * (width * height) <= data@.len() + 1,
        c <= 2,
    ensures
        mean == block_mean_of(data@, width as int, bx as int, by as int, c as int),
{
    proof {
        lemma_block_pixels(width as int, height as int, bx as int, by as int);
        assert(data.len() == data@.len());
    }
    let top: usize = (by * 2) * width + bx * 2;
    let bottom: usize = (by * 2 + 1) * width + bx * 2;
    let sum: u32 = data[top * 4 + c] as u32 + data[(top + 1) * 4 + c] as u32 + data[bottom * 4
        + c] as u32 + data[(bottom + 1) * 4 + c] as u32;
    (sum / 4) as u8
}

/// Fills the luma plane.
fn fill_luma(data: &[u8], pixels: usize, out: &mut Vec<u8>)
    requires
        4 * pixels <= data@.len() + 1,
        pixels <= old(out)@.len(),
    ensures
        final(out)@.len() == old(out)@.len(),
        forall|i: int|
            0 <= i < pixels ==> #[trigger] final(out)@[i] == luma_of(
                channel(data@, i, 0),
                channel(data@, i, 1),
                channel(data@, i, 2),
            ),
        forall|i: int| pixels <= i < final(out)@.len() ==> final(out)@[i] == old(out)@[i],
{
    let mut i: usize = 0;
    assert(data.len() == data@.len());
    while i < pixels
        invariant
            i <= pixels,
            4 * pixels <= data@.len() + 1,
            data@.len() <= usize::MAX,
            pixels <= out@.len(),
            out@.len() == old(out)@.len(),
            forall|j: int|
                0 <= j < i ==> #[trigger] out@[j] == luma_of(
                    channel(data@, j, 0),
                    channel(data@, j, 1),
                    channel(data@, j, 2),
                ),
            forall|j: int| pixels <= j < out@.len() ==> out@[j] == old(out)@[j],
        decreases pixels - i,
    {
        out[i] = luma(data[i * 4], data[i * 4 + 1], data[i * 4 + 2]);
        i += 1;
    }
}

/// The chroma bytes of a block lie in the buffer, and before those of later blocks.
proof fn lemma_nv12_index(width: int, height: int, bx: int, by: int)
    requires
        is_block(width, height, bx, by),
    ensures
        width * height <= nv12_index(width, height, bx, by),
        nv12_index(width, height, bx, by) + 1 < width * height + width * height / 2,
        0 <= by * width,
{
    assert(0 <= by * width) by (nonlinear_arith)
        requires
            0 <= by,
            0 <= width,
    ;
    assert((2 * by + 2) * width <= width * height) by (nonlinear_arith)
        requires
            2 * by + 2 <= height,
            0 <= width,
    ;
    assert((2 * by + 2) * width == 2 * (by * width) + 2 * width) by (nonlinear_arith);
}

proof fn lemma_nv12_order(width: int, height: int, bx: int, by: int, cx: int, cy: int)
    requires
        is_block(width, height, bx, by),
        is_block(width, height, cx, cy),
        by < cy || (by == cy && bx < cx),
    ensures
        nv12_index(width, height, bx, by) + 1 < nv12_index(width, height, cx, cy),
{
    if by < cy {
        assert(by * width + width <= cy * width) by (nonlinear_arith)
            requires
                by + 1 <= cy,
                0 <= width,
        ;
    }
}

/// The nearest byte.
fn clamp_to_byte(value: i32) -> (byte: u8)
    ensures
        byte == clamped(value as int),
{
    if value < 0 {
        0
    } else if value > 255 {
        255
    } else {
        value as u8
    }
}

/// Writes the two chroma bytes of one block.
fn put_nv12_block(
    data: &[u8],
    width: usize,
    height: usize,
    bx: usize,
    by: usize,
    out: &mut Vec<u8>,
)
    requires
        is_block(width as int, height as int, bx as int, by as int),
        4 * (width * height) <= data@.len() + 1,
        old(out)@.len() == width * height + width * height / 2,
    ensures
        final(out)@ == old(out)@.update(
            nv12_index(width as int, height as int, bx as int, by as int),
            clamped(block_u(data@, width as int, bx as int, by as int)) as u8,
        ).update(
            nv12_index(width as int, height as int, bx as int, by as int) + 1,
            clamped(block_v(data@, width as int, bx as int, by as int)) as u8,
        ),
{
    let b: u8 = block_mean(data, width, height, bx, by, 0);
    let g: u8 = block_mean(data, width, height, bx, by, 1);
    let r: u8 = block_mean(data, width, height, bx, by, 2);
    let u: u8 = clamp_to_byte(chroma_u(b, g, r));
    let v: u8 = clamp_to_byte(chroma_v(b, g, r));
    proof {
        lemma_nv12_index(width as int, height as int, bx as int, by as int);
        lemma_block_pixels(width as int, height as int, bx as int, by as int);
        assert(out.len() == out@.len());
    }
    let index: usize = width * height + (by * width / 2 + bx) * 2;
    out[index] = u;
    out[index + 1] = v;
}

/// Converts a BGRA frame to NV12.
pub fn bgra_to_nv12(bgra_data: &[u8], width: u32, height: u32) -> (nv12: Vec<u8>)
    requires
        readable_frame(bgra_data@, width, height),
    ensures
        is_nv12(bgra_data@, width as int, height as int, nv12@),
{
    let ghost w: int = width as int;
    let ghost h: int = height as int;
    proof {
        assert(0 <= w * h) by (nonlinear_arith)
            requires
                0 <= w,
                0 <= h,
        ;
    }
    assert(bgra_data.len() == bgra_data@.len());
    let pixels: usize = (width * height) as usize;
    let mut nv12: Vec<u8> = vec![0u8; pixels + pixels / 2];
    fill_luma(bgra_data, pixels, &mut nv12);
    let width: usize = width as usize;
    let height: usize = height as usize;
    let mut by: usize = 0;
    while by < height / 2
        invariant
            w == width,
            h == height,
            by <= h / 2,
            4 * (w * h) <= bgra_data@.len() + 1,
            nv12@.len() == w * h + w * h / 2,
            luma_plane(bgra_data@, w, h, nv12@),
            forall|cx: int, cy: int|
                is_block(w, h, cx, cy) && cy < by ==> {
                    &&& nv12@[#[trigger] nv12_index(w, h, cx, cy)] == clamped(
                        block_u(bgra_data@, w, cx, cy),
                    )
                    &&& nv12@[nv12_index(w, h, cx, cy) + 1] == clamped(
                        block_v(bgra_data@, w, cx, cy),
                    )
                },
            forall|k: int|
                w * h <= k < nv12@.len() && !nv12_chroma_at(w, h, k) ==> #[trigger] nv12@[k] == 0,
        decreases h / 2 - by,
    {
        let mut bx: usize = 0;
        while bx < width / 2
            invariant
                w == width,
                h == height,
                by < h / 2,
                bx <= w / 2,
                4 * (w * h) <= bgra_data@.len() + 1,
                nv12@.len() == w * h + w * h / 2,
                luma_plane(bgra_data@, w, h, nv12@),
                forall|cx: int, cy: int|
                    is_block(w, h, cx, cy) && (cy < by || (cy == by && cx < bx)) ==> {
                        &&& nv12@[#[trigger] nv12_index(w, h, cx, cy)] == clamped(
                            block_u(bgra_data@, w, cx, cy),
                        )
                        &&& nv12@[nv12_index(w, h, cx, cy) + 1] == clamped(
                            block_v(bgra_data@, w, cx, cy),
                        )
                    },
                forall|k: int|
                    w * h <= k < nv12@.len() && !nv12_chroma_at(w, h, k) ==> #[trigger] nv12@[k]
                        == 0,
            decreases w / 2 - bx,
        {
            let ghost before = nv12@;
            let ghost index = nv12_index(w, h, bx as int, by as int);
            put_nv12_block(bgra_data, width, height, bx, by, &mut nv12);
            proof {
                lemma_nv12_index(w, h, bx as int, by as int);
            }
            proof {
                assert forall|cx: int, cy: int|
                    is_block(w, h, cx, cy) && (cy < by || (cy == by && cx < bx + 1)) implies {
                    &&& nv12@[#[trigger] nv12_index(w, h, cx, cy)] == clamped(
                        block_u(bgra_data@, w, cx, cy),
                    )
                    &&& nv12@[nv12_index(w, h, cx, cy) + 1] == clamped(
                        block_v(bgra_data@, w, cx, cy),
                    )
                } by {
                    if cy < by || cx < bx {
                        lemma_nv12_index(w, h, cx, cy);
                        lemma_nv12_order(w, h, cx, cy, bx as int, by as int);
                        assert(nv12@[nv12_index(w, h, cx, cy)] == before[nv12_index(w, h, cx, cy)]);
                    }
                }
                assert(nv12_chroma_at(w, h, index));
                assert(nv12_chroma_at(w, h, index + 1));
            }
            bx += 1;
        }
        by += 1;
    }
    nv12
}

/// A plane of one byte per block holds all blocks, each in its place.
proof fn lemma_block_index(width: int, height: int, bx: int, by: int)
    requires
        is_block(width, height, bx, by),
    ensures
        0 <= by * (width / 2),
        0 <= block_index(width, bx, by) < (width / 2) * (height / 2) <= width * height / 4,
{
    let half = width / 2;
    assert(0 <= by * half) by (nonlinear_arith)
        requires
            0 <= by,
            0 <= half,
    ;
    assert(by * half + half <= half * (height / 2)) by (nonlinear_arith)
        requires
            by + 1 <= height / 2,
            0 <= half,
    ;
    lemma_blocks_fit(width, height);
}

proof fn lemma_blocks_fit(width: int, height: int)
    requires
        0 <= width,
        0 <= height,
    ensures
        0 <= (width / 2) * (height / 2) <= width * height / 4,
{
    let a = width / 2;
    let b = height / 2;
    assert(0 <= a * b && 4 * (a * b) <= width * height) by (nonlinear_arith)
        requires
            0 <= a,
            0 <= b,
            2 * a <= width,
            2 * b <= height,
    ;
}

proof fn lemma_block_order(width: int, height: int, bx: int, by: int, cx: int, cy: int)
    requires
        is_block(width, height, bx, by),
        is_block(width, height, cx, cy),
        by < cy || (by == cy && bx < cx),
    ensures
        block_index(width, bx, by) < block_index(width, cx, cy),
{
    let half = width / 2;
    if by < cy {
        assert(by * half + half <= cy * half) by (nonlinear_arith)
            requires
                by + 1 <= cy,
                0 <= half,
        ;
    }
}

/// The low eight bits.
fn wrap_to_byte(value: i32) -> (byte: u8)
    requires
        -256 <= value < 0x7FFF_FF00,
    ensures
        byte == value % 256,
{
    let shifted: u32 = (value + 256) as u32;
    (shifted % 256) as u8
}

/// Writes the chroma bytes of one block, one in each plane.
fn put_iyuv_block(
    data: &[u8],
    width: usize,
    height: usize,
    bx: usize,
    by: usize,
    out: &mut Vec<u8>,
)
    requires
        is_block(width as int, height as int, bx as int, by as int),
        4 * (width * height) <= data@.len() + 1,
        old(out)@.len() == width * height + width * height / 4 + width * height / 4,
    ensures
        final(out)@ == old(out)@.update(
            width * height + block_index(width as int, bx as int, by as int),
            (block_u(data@, width as int, bx as int, by as int) % 256) as u8,
        ).update(
            width * height + width * height / 4 + block_index(width as int, bx as int, by as int),
            (block_v(data@, width as int, bx as int, by as int) % 256) as u8,
        ),
{
    let b: u8 = block_mean(data, width, height, bx, by, 0);
    let g: u8 = block_mean(data, width, height, bx, by, 1);
    let r: u8 = block_mean(data, width, height, bx, by, 2);
    let u: u8 = wrap_to_byte(chroma_u(b, g, r));
    let v: u8 = wrap_to_byte(chroma_v(b, g, r));
    proof {
        lemma_block_index(width as int, height as int, bx as int, by as int);
        lemma_block_pixels(width as int, height as int, bx as int, by as int);
        assert(out.len() == out@.len());
    }
    let u_plane: usize = width * height;
    let v_plane: usize = u_plane + u_plane / 4;
    let offset: usize = by * (width / 2) + bx;
    out[u_plane + offset] = u;
    out[v_plane + offset] = v;
}

/// Converts a BGRA frame to IYUV.
pub fn bgra_to_iyuv(bgra_data: &[u8], width: u32, height: u32) -> (iyuv: Vec<u8>)
    requires
        readable_frame(bgra_data@, width, height),
    ensures
        is_iyuv(bgra_data@, width as int, height as int, iyuv@),
{
    let ghost w: int = width as int;
    let ghost h: int = height as int;
    let ghost u_plane: int = w * h;
    let ghost v_plane: int = w * h + w * h / 4;
    let ghost blocks: int = (w / 2) * (h / 2);
    proof {
        assert(0 <= w * h) by (nonlinear_arith)
            requires
                0 <= w,
                0 <= h,
        ;
        lemma_blocks_fit(w, h);
    }
    assert(bgra_data.len() == bgra_data@.len());
    let pixels: usize = (width * height) as usize;
    let mut iyuv: Vec<u8> = vec![0u8; pixels + pixels / 4 + pixels / 4];
    fill_luma(bgra_data, pixels, &mut iyuv);
    let width: usize = width as usize;
    let height: usize = height as usize;
    let mut by: usize = 0;
    while by < height / 2
        invariant
            w == width,
            h == height,
            by <= h / 2,
            u_plane == w * h,
            v_plane == w * h + w * h / 4,
            blocks == (w / 2) * (h / 2),
            0 <= blocks <= w * h / 4,
            4 * (w * h) <= bgra_data@.len() + 1,
            iyuv@.len() == v_plane + w * h / 4,
            luma_plane(bgra_data@, w, h, iyuv@),
            forall|cx: int, cy: int|
                is_block(w, h, cx, cy) && cy < by ==> {
                    &&& iyuv@[u_plane + #[trigger] block_index(w, cx, cy)] == block_u(
                        bgra_data@,
                        w,
                        cx,
                        cy,
                    ) % 256
                    &&& iyuv@[v_plane + block_index(w, cx, cy)] == block_v(bgra_data@, w, cx, cy)
                        % 256
                },
            forall|k: int| u_plane + blocks <= k < v_plane ==> #[trigger] iyuv@[k] == 0,
            forall|k: int| v_plane + blocks <= k < iyuv@.len() ==> #[trigger] iyuv@[k] == 0,
        decreases h / 2 - by,
    {
        let mut bx: usize = 0;
        while bx < width / 2
            invariant
                w == width,
                h == height,
                by < h / 2,
                bx <= w / 2,
                u_plane == w * h,
                v_plane == w * h + w * h / 4,
                blocks == (w / 2) * (h / 2),
                0 <= blocks <= w * h / 4,
                4 * (w * h) <= bgra_data@.len() + 1,
                iyuv@.len() == v_plane + w * h / 4,
                luma_plane(bgra_data@, w, h, iyuv@),
                forall|cx: int, cy: int|
                    is_block(w, h, cx, cy) && (cy < by || (cy == by && cx < bx)) ==> {
                        &&& iyuv@[u_plane + #[trigger] block_index(w, cx, cy)] == block_u(
                            bgra_data@,
                            w,
                            cx,
                            cy,
                        ) % 256
                        &&& iyuv@[v_plane + block_index(w, cx, cy)] == block_v(
                            bgra_data@,
                            w,
                            cx,
                            cy,
                        ) % 256
                    },
                forall|k: int| u_plane + blocks <= k < v_plane ==> #[trigger] iyuv@[k] == 0,
                forall|k: int| v_plane + blocks <= k < iyuv@.len() ==> #[trigger] iyuv@[k] == 0,
            decreases w / 2 - bx,
        {
            let ghost before = iyuv@;
            put_iyuv_block(bgra_data, width, height, bx, by, &mut iyuv);
            proof {
                lemma_block_index(w, h, bx as int, by as int);
                assert forall|cx: int, cy: int|
                    is_block(w, h, cx, cy) && (cy < by || (cy == by && cx < bx + 1)) implies {
                    &&& iyuv@[u_plane + #[trigger] block_index(w, cx, cy)] == block_u(
                        bgra_data@,
                        w,
                        cx,
                        cy,
                    ) % 256
                    &&& iyuv@[v_plane + block_index(w, cx, cy)] == block_v(bgra_data@, w, cx, cy)
                        % 256
                } by {
                    lemma_block_index(w, h, cx, cy);
                    if cy < by || cx < bx {
                        lemma_block_order(w, h, cx, cy, bx as int, by as int);
                    }
                }
            }
            bx += 1;
        }
        by += 1;
    }
    iyuv
}

/// Luma stays in the limited range, between 16 and 235, for every colour.
pub proof fn law_luma_is_in_limited_range(b: u8, g: u8, r: u8)
    ensures
        16 <= luma_of(b as int, g as int, r as int) <= 235,
{
}

/// A brighter channel never makes the luma darker.
pub proof fn law_luma_is_monotone(b: int, g: int, r: int, b2: int, g2: int, r2: int)
    requires
        b <= b2,
        g <= g2,
        r <= r2,
    ensures
        luma_of(b, g, r) <= luma_of(b2, g2, r2),
{
    let weighted = r * 306 + g * 601 + b * 117;
    let weighted2 = r2 * 306 + g2 * 601 + b2 * 117;
    vstd::arithmetic::div_mod::lemma_div_is_ordered(weighted, weighted2, 1024);
    vstd::arithmetic::div_mod::lemma_div_is_ordered(
        weighted / 1024 * 219,
        weighted2 / 1024 * 219,
        256,
    );
}

/// U never leaves the range of a byte, whatever the colour. V does, for saturated
/// colours, by no more than 26 on either side.
pub proof fn law_chroma_range(b: u8, g: u8, r: u8)
    ensures
        19 <= u_of(b as int, g as int, r as int) <= 236,
        -26 <= v_of(b as int, g as int, r as int) <= 281,
{
}

/// Every pixel of the frame has the same amount of blue, green and red.
pub open spec fn is_gray(data: Seq<u8>, width: int, height: int) -> bool {
    forall|i: int|
        0 <= i < width * height ==> channel(data, i, 0) == #[trigger] channel(data, i, 1)
            && channel(data, i, 1) == channel(data, i, 2)
}

proof fn lemma_gray_block(data: Seq<u8>, width: int, height: int, bx: int, by: int)
    requires
        is_gray(data, width, height),
        is_block(width, height, bx, by),
    ensures
        block_u(data, width, bx, by) == 128,
        block_v(data, width, bx, by) == 128,
{
    lemma_block_pixels(width, height, bx, by);
    assert(channel(data, pixel(width, 2 * bx, 2 * by), 1) == channel(
        data,
        pixel(width, 2 * bx, 2 * by),
        0,
    ));
    assert(channel(data, pixel(width, 2 * bx + 1, 2 * by), 1) == channel(
        data,
        pixel(width, 2 * bx + 1, 2 * by),
        0,
    ));
    assert(channel(data, pixel(width, 2 * bx, 2 * by + 1), 1) == channel(
        data,
        pixel(width, 2 * bx, 2 * by + 1),
        0,
    ));
    assert(channel(data, pixel(width, 2 * bx + 1, 2 * by + 1), 1) == channel(
        data,
        pixel(width, 2 * bx + 1, 2 * by + 1),
        0,
    ));
}

/// A gray frame has no colour: U and V of every block are 128, in both formats.
pub proof fn law_gray_frames_have_neutral_chroma(
    data: Seq<u8>,
    width: int,
    height: int,
    nv12: Seq<u8>,
    iyuv: Seq<u8>,
    bx: int,
    by: int,
)
    requires
        is_gray(data, width, height),
        is_nv12(data, width, height, nv12),
        is_iyuv(data, width, height, iyuv),
        is_block(width, height, bx, by),
    ensures
        nv12[nv12_index(width, height, bx, by)] == 128,
        nv12[nv12_index(width, height, bx, by) + 1] == 128,
        iyuv[width * height + block_index(width, bx, by)] == 128,
        iyuv[width * height + width * height / 4 + block_index(width, bx, by)] == 128,
{
    lemma_gray_block(data, width, height, bx, by);
}

/// The NV12 form of a frame is unique.
pub proof fn law_nv12_is_unique(
    data: Seq<u8>,
    width: int,
    height: int,
    one: Seq<u8>,
    other: Seq<u8>,
)
    requires
        0 <= width,
        0 <= height,
        is_nv12(data, width, height, one),
        is_nv12(data, width, height, other),
    ensures
        one == other,
{
    assert forall|k: int| 0 <= k < one.len() implies one[k] == other[k] by {
        if k >= width * height && nv12_chroma_at(width, height, k) {
            let (bx, by) = choose|bx: int, by: int|
                is_block(width, height, bx, by) && (k == #[trigger] nv12_index(
                    width,
                    height,
                    bx,
                    by,
                ) || k == nv12_index(width, height, bx, by) + 1);
            assert(is_block(width, height, bx, by));
            if k == nv12_index(width, height, bx, by) {
                assert(one[k] == other[k]);
            } else {
                assert(one[nv12_index(width, height, bx, by) + 1] == other[nv12_index(
                    width,
                    height,
                    bx,
                    by,
                ) + 1]);
            }
        }
    }
    assert(one =~= other);
}

/// The IYUV form of a frame is unique.
pub proof fn law_iyuv_is_unique(
    data: Seq<u8>,
    width: int,
    height: int,
    one: Seq<u8>,
    other: Seq<u8>,
)
    requires
        0 <= width,
        0 <= height,
        is_iyuv(data, width, height, one),
        is_iyuv(data, width, height, other),
    ensures
        one == other,
{
    let u_plane = width * height;
    let v_plane = u_plane + width * height / 4;
    let blocks = (width / 2) * (height / 2);
    lemma_blocks_fit(width, height);
    assert forall|k: int| 0 <= k < one.len() implies one[k] == other[k] by {
        if u_plane <= k < u_plane + blocks {
            lemma_block_of_index(width, height, k - u_plane);
        } else if v_plane <= k < v_plane + blocks {
            lemma_block_of_index(width, height, k - v_plane);
        }
    }
    assert(one =~= other);
}

/// Every place in a plane of one byte per block is that of some block.
proof fn lemma_block_of_index(width: int, height: int, n: int)
    requires
        0 <= width,
        0 <= height,
        0 <= n < (width / 2) * (height / 2),
    ensures
        is_block(width, height, n % (width / 2), n / (width / 2)),
        block_index(width, n % (width / 2), n / (width / 2)) == n,
{
    let half = width / 2;
    let rows = height / 2;
    assert(half > 0) by (nonlinear_arith)
        requires
            0 <= half,
            0 <= rows,
            0 < half * rows,
    ;
    vstd::arithmetic::div_mod::lemma_fundamental_div_mod(n, half);
    assert(half * (n / half) == (n / half) * half) by (nonlinear_arith);
    assert(0 <= n / half < rows) by (nonlinear_arith)
        requires
            half > 0,
            0 <= n < half * rows,
    ;
}

proof fn lemma_block_u_is_a_byte(data: Seq<u8>, width: int, bx: int, by: int)
    ensures
        0 <= block_u(data, width, bx, by) <= 255,
{
    let b = block_mean_of(data, width, bx, by, 0);
    let g = block_mean_of(data, width, bx, by, 1);
    let r = block_mean_of(data, width, bx, by, 2);
    assert(0 <= b <= 255 && 0 <= g <= 255 && 0 <= r <= 255);
    law_chroma_range(b as u8, g as u8, r as u8);
}

/// The luma planes of the two formats are equal.
pub proof fn law_luma_planes_agree(
    data: Seq<u8>,
    width: int,
    height: int,
    nv12: Seq<u8>,
    iyuv: Seq<u8>,
)
    requires
        0 <= width,
        0 <= height,
        is_nv12(data, width, height, nv12),
        is_iyuv(data, width, height, iyuv),
    ensures
        nv12.take(width * height) == iyuv.take(width * height),
{
    lemma_blocks_fit(width, height);
    assert(0 <= width * height) by (nonlinear_arith)
        requires
            0 <= width,
            0 <= height,
    ;
    assert forall|i: int| 0 <= i < width * height implies nv12[i] == iyuv[i] by {}
    assert(nv12.take(width * height) =~= iyuv.take(width * height));
}

/// The two formats agree on the colour of every block: U is the same in both, and so
/// is V where it is in the range of a byte. Elsewhere NV12 holds the nearest byte
/// and IYUV the low eight bits.
pub proof fn law_chroma_agrees(
    data: Seq<u8>,
    width: int,
    height: int,
    nv12: Seq<u8>,
    iyuv: Seq<u8>,
    bx: int,
    by: int,
)
    requires
        is_nv12(data, width, height, nv12),
        is_iyuv(data, width, height, iyuv),
        is_block(width, height, bx, by),
    ensures
        nv12[nv12_index(width, height, bx, by)] == iyuv[width * height + block_index(
            width,
            bx,
            by,
        )],
        0 <= block_v(data, width, bx, by) <= 255 ==> nv12[nv12_index(width, height, bx, by) + 1]
            == iyuv[width * height + width * height / 4 + block_index(width, bx, by)],
{
    lemma_block_u_is_a_byte(data, width, bx, by);
    lemma_agreeing_bytes(block_u(data, width, bx, by));
    lemma_agreeing_bytes(block_v(data, width, bx, by));
}

proof fn lemma_agreeing_bytes(value: int)
    ensures
        0 <= value <= 255 ==> clamped(value) == value % 256,
{
}

/// The alpha of the pixels has no influence on either format.
pub proof fn law_alpha_is_ignored(
    data: Seq<u8>,
    other: Seq<u8>,
    width: int,
    height: int,
    out: Seq<u8>,
)
    requires
        0 <= width,
        0 <= height,
        forall|i: int, c: int|
            0 <= i < width * height && 0 <= c < 3 ==> #[trigger] channel(data, i, c) == channel(
                other,
                i,
                c,
            ),
    ensures
        is_nv12(data, width, height, out) == is_nv12(other, width, height, out),
        is_iyuv(data, width, height, out) == is_iyuv(other, width, height, out),
{
    assert forall|bx: int, by: int| is_block(width, height, bx, by) implies block_u(
        data,
        width,
        bx,
        by,
    ) == block_u(other, width, bx, by) && block_v(data, width, bx, by) == block_v(
        other,
        width,
        bx,
        by,
    ) by {
        lemma_block_pixels(width, height, bx, by);
        assert(forall|c: int|
            0 <= c < 3 ==> #[trigger] block_mean_of(data, width, bx, by, c) == block_mean_of(
                other,
                width,
                bx,
                by,
                c,
            ));
    }
    if luma_plane(data, width, height, out) {
        assert(luma_plane(other, width, height, out));
    }
    if luma_plane(other, width, height, out) {
        assert(luma_plane(data, width, height, out));
    }
    if is_nv12(data, width, height, out) {
        assert(is_nv12(other, width, height, out));
    }
    if is_iyuv(data, width, height, out) {
        assert(is_iyuv(other, width, height, out));
    }
}

/// `y` is the luma of a colour: the weighted sum in full range, brought to the limited range.
pub open spec fn is_luma(y: int, b: int, g: int, r: int) -> bool {
    let full = (306 * r + 601 * g + 117 * b) / 1024;
    256 * (y - 16) <= 219 * full < 256 * (y - 16) + 256
}

/// `u` and `v` are the chroma of a colour, not yet brought into a byte.
pub open spec fn is_chroma(u: int, v: int, b: int, g: int, r: int) -> bool {
    &&& 1024 * (u - 128) <= 436 * b - 289 * g - 147 * r < 1024 * (u - 128) + 1024
    &&& 1024 * (v - 128) <= 615 * r - 515 * g - 100 * b < 1024 * (v - 128) + 1024
}

proof fn lemma_pixel_in_frame(width: int, height: int, x: int, y: int)
    requires
        0 <= x < width,
        0 <= y < height,
    ensures
        0 <= y * width + x < width * height,
{
    assert(0 <= y * width && y * width + width <= width * height) by (nonlinear_arith)
        requires
            0 <= y,
            y + 1 <= height,
            0 <= width,
    ;
}

/// The luma of every pixel, by the bytes of the frame: blue, green and red of pixel (`x`, `y`)
/// stand at `4 * (y * width + x)` and behind it, and its luma at `y * width + x`, in NV12 as
/// in IYUV.
pub proof fn law_luma_by_bytes(
    data: Seq<u8>,
    width: int,
    height: int,
    nv12: Seq<u8>,
    iyuv: Seq<u8>,
    x: int,
    y: int,
)
    requires
        is_nv12(data, width, height, nv12),
        is_iyuv(data, width, height, iyuv),
        0 <= x < width,
        0 <= y < height,
    ensures
        ({
            let i = y * width + x;
            let (b, g, r) = (data[4 * i] as int, data[4 * i + 1] as int, data[4 * i + 2] as int);
            is_luma(nv12[i] as int, b, g, r) && is_luma(iyuv[i] as int, b, g, r)
        }),
        nv12.len() == width * height + width * height / 2,
        iyuv.len() == width * height + width * height / 4 + width * height / 4,
{
    lemma_pixel_in_frame(width, height, x, y);
    let i = y * width + x;
    assert(nv12[i] == luma_of(channel(data, i, 0), channel(data, i, 1), channel(data, i, 2)));
    assert(iyuv[i] == luma_of(channel(data, i, 0), channel(data, i, 1), channel(data, i, 2)));
    lemma_luma_rounds(data[4 * i] as int, data[4 * i + 1] as int, data[4 * i + 2] as int);
}

proof fn lemma_luma_rounds(b: int, g: int, r: int)
    ensures
        is_luma(luma_of(b, g, r), b, g, r),
{
    let full = (r * 306 + g * 601 + b * 117) / 1024;
    assert(full == (306 * r + 601 * g + 117 * b) / 1024);
    let scaled = full * 219;
    assert(256 * (scaled / 256) <= scaled < 256 * (scaled / 256) + 256);
}

proof fn lemma_chroma_rounds(b: int, g: int, r: int)
    ensures
        is_chroma(u_of(b, g, r), v_of(b, g, r), b, g, r),
{
    let u = -r * 147 - g * 289 + b * 436;
    let v = r * 615 - g * 515 - b * 100;
    assert(1024 * (u / 1024) <= u < 1024 * (u / 1024) + 1024);
    assert(1024 * (v / 1024) <= v < 1024 * (v / 1024) + 1024);
}

/// The sum of one channel over the four pixels of block (`bx`, `by`), by the bytes of the
/// frame.
pub open spec fn block_sum(data: Seq<u8>, width: int, bx: int, by: int, c: int) -> int {
    let top = 4 * (2 * by * width + 2 * bx);
    let bottom = 4 * ((2 * by + 1) * width + 2 * bx);
    data[top + c] + data[top + 4 + c] + data[bottom + c] + data[bottom + 4 + c]
}

proof fn lemma_block_sum(data: Seq<u8>, width: int, bx: int, by: int, c: int)
    ensures
        block_mean_of(data, width, bx, by, c) == block_sum(data, width, bx, by, c) / 4,
{
    assert(2 * by * width == (2 * by) * width) by (nonlinear_arith);
}

/// The chroma of every block of two by two pixels, by the bytes of the frame: the means of
/// blue, green and red of the block's own four pixels give U and V, which NV12 holds next to
/// each other, cut off at the ends of a byte, and IYUV in two planes, reduced to a byte.
pub proof fn law_chroma_by_bytes(
    data: Seq<u8>,
    width: int,
    height: int,
    nv12: Seq<u8>,
    iyuv: Seq<u8>,
    bx: int,
    by: int,
)
    requires
        is_nv12(data, width, height, nv12),
        is_iyuv(data, width, height, iyuv),
        0 <= bx,
        2 * bx + 1 < width,
        0 <= by,
        2 * by + 1 < height,
    ensures
        exists|u: int, v: int| #[trigger]
            is_chroma(
                u,
                v,
                block_sum(data, width, bx, by, 0) / 4,
                block_sum(data, width, bx, by, 1) / 4,
                block_sum(data, width, bx, by, 2) / 4,
            ) && {
                let pair = width * height + 2 * (by * width / 2 + bx);
                let single = by * (width / 2) + bx;
                &&& nv12[pair] == (if u < 0 {
                    0
                } else if u > 255 {
                    255
                } else {
                    u
                })
                &&& nv12[pair + 1] == (if v < 0 {
                    0
                } else if v > 255 {
                    255
                } else {
                    v
                })
                &&& iyuv[width * height + single] == u % 256
                &&& iyuv[width * height + width * height / 4 + single] == v % 256
            },
{
    let b = block_sum(data, width, bx, by, 0) / 4;
    let g = block_sum(data, width, bx, by, 1) / 4;
    let r = block_sum(data, width, bx, by, 2) / 4;
    lemma_block_sum(data, width, bx, by, 0);
    lemma_block_sum(data, width, bx, by, 1);
    lemma_block_sum(data, width, bx, by, 2);
    let u = block_u(data, width, bx, by);
    let v = block_v(data, width, bx, by);
    lemma_chroma_rounds(b, g, r);
    assert(is_block(width, height, bx, by));
    assert(is_chroma(u, v, b, g, r));
    let pair = nv12_index(width, height, bx, by);
    let single = block_index(width, bx, by);
    assert(nv12[pair] == clamped(u) && nv12[pair + 1] == clamped(v));
    assert(iyuv[width * height + single] == u % 256);
    assert(iyuv[width * height + width * height / 4 + single] == v % 256);
    assert((by * width / 2 + bx) * 2 == 2 * (by * width / 2 + bx));
}

/// Pixel (`x`, `y`) has the given colour.
pub open spec fn has_colour(
    data: Seq<u8>,
    width: int,
    x: int,
    y: int,
    b: u8,
    g: u8,
    r: u8,
) -> bool {
    let at = 4 * (y * width + x);
    data[at] == b && data[at + 1] == g && data[at + 2] == r
}

/// A block whose four pixels have the same colour has the chroma of that colour, whatever the
/// rest of the frame looks like.
pub proof fn law_block_of_one_colour(
    data: Seq<u8>,
    width: int,
    height: int,
    nv12: Seq<u8>,
    iyuv: Seq<u8>,
    bx: int,
    by: int,
    b: u8,
    g: u8,
    r: u8,
    u: int,
    v: int,
)
    requires
        is_nv12(data, width, height, nv12),
        is_iyuv(data, width, height, iyuv),
        0 <= bx,
        2 * bx + 1 < width,
        0 <= by,
        2 * by + 1 < height,
        has_colour(data, width, 2 * bx, 2 * by, b, g, r),
        has_colour(data, width, 2 * bx + 1, 2 * by, b, g, r),
        has_colour(data, width, 2 * bx, 2 * by + 1, b, g, r),
        has_colour(data, width, 2 * bx + 1, 2 * by + 1, b, g, r),
        is_chroma(u, v, b as int, g as int, r as int),
    ensures
        ({
            let pair = width * height + 2 * (by * width / 2 + bx);
            let single = by * (width / 2) + bx;
            &&& nv12[pair] == (if u < 0 {
                0
            } else if u > 255 {
                255
            } else {
                u
            })
            &&& nv12[pair + 1] == (if v < 0 {
                0
            } else if v > 255 {
                255
            } else {
                v
            })
            &&& iyuv[width * height + single] == u % 256
            &&& iyuv[width * height + width * height / 4 + single] == v % 256
        }),
{
    law_chroma_by_bytes(data, width, height, nv12, iyuv, bx, by);
    assert(2 * by * width == (2 * by) * width) by (nonlinear_arith);
    assert(block_sum(data, width, bx, by, 0) == 4 * b);
    assert(block_sum(data, width, bx, by, 1) == 4 * g);
    assert(block_sum(data, width, bx, by, 2) == 4 * r);
}

/// NV12 has zeros where no whole block belongs: behind the blocks of a row up to where the
/// next row starts, and behind the last row up to the end.
pub proof fn law_nv12_rest_is_zero(
    data: Seq<u8>,
    width: int,
    height: int,
    nv12: Seq<u8>,
    by: int,
    k: int,
)
    requires
        is_nv12(data, width, height, nv12),
        0 <= width,
        0 <= by < height / 2,
        2 * (by * width / 2) + 2 * (width / 2) <= k < width * height / 2,
        by + 1 < height / 2 ==> k < 2 * ((by + 1) * width / 2),
    ensures
        nv12[width * height + k] == 0,
{
    let at = width * height + k;
    assert(0 <= by * width) by (nonlinear_arith)
        requires
            0 <= by,
            0 <= width,
    ;
    if nv12_chroma_at(width, height, at) {
        let (cx, cy) = choose|cx: int, cy: int|
            is_block(width, height, cx, cy) && (at == #[trigger] nv12_index(width, height, cx, cy)
                || at == nv12_index(width, height, cx, cy) + 1);
        if cy <= by {
            assert(cy * width <= by * width) by (nonlinear_arith)
                requires
                    cy <= by,
                    0 <= width,
            ;
        } else {
            assert((by + 1) * width <= cy * width) by (nonlinear_arith)
                requires
                    by + 1 <= cy,
                    0 <= width,
            ;
        }
        assert(false);
    }
}

/// A frame that is too small for a block has no chroma.
pub proof fn law_frames_without_blocks_have_no_chroma(
    data: Seq<u8>,
    width: int,
    height: int,
    nv12: Seq<u8>,
    k: int,
)
    requires
        is_nv12(data, width, height, nv12),
        width < 2 || height < 2,
        0 <= k < width * height / 2,
    ensures
        nv12[width * height + k] == 0,
{
    let at = width * height + k;
    assert(!nv12_chroma_at(width, height, at));
}

/// A frame with four bytes for each pixel can be read, as long as there are less than 2^32
/// pixels.
pub proof fn law_whole_frames_can_be_read(data: Seq<u8>, width: u32, height: u32)
    requires
        data.len() == 4 * (width * height),
        width * height <= 4294967295,
    ensures
        readable_frame(data, width, height),
{
}

/// IYUV has nothing behind the last block of either plane.
pub proof fn law_iyuv_rest_is_zero(
    data: Seq<u8>,
    width: int,
    height: int,
    iyuv: Seq<u8>,
    k: int,
)
    requires
        is_iyuv(data, width, height, iyuv),
        0 <= width,
        0 <= height,
        (width / 2) * (height / 2) <= k < width * height / 4,
    ensures
        iyuv[width * height + k] == 0,
        iyuv[width * height + width * height / 4 + k] == 0,
{
}

/// The luma and the chroma of single colours follow the same formulas as those of frames.
pub proof fn law_colour_formulas(b: u8, g: u8, r: u8)
    ensures
        is_luma(luma_of(b as int, g as int, r as int), b as int, g as int, r as int),
        is_chroma(
            u_of(b as int, g as int, r as int),
            v_of(b as int, g as int, r as int),
            b as int,
            g as int,
            r as int,
        ),
{
    lemma_luma_rounds(b as int, g as int, r as int);
    lemma_chroma_rounds(b as int, g as int, r as int);
}

} // verus!
