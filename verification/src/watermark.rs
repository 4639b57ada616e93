//! The time watermark: a darkened box in the lower left corner of a frame with the
//! time of day in white on it.
//!
//! Frames are BGRA pixels in a mapped texture: the rows stand at a distance, the row
//! pitch, that may exceed the length of a row.
use crate::d3d11;
use vstd::prelude::*;
use vstd::string::StringExecFns;

verus! {

/// The row of byte `k` of a mapped texture.
pub open spec fn row_of(row_pitch: int, k: int) -> int {
    k / row_pitch
}

/// The column of the pixel that byte `k` of a mapped texture belongs to.
pub open spec fn column_of(row_pitch: int, k: int) -> int {
    k % row_pitch / 4
}

/// Which byte of its pixel byte `k` of a mapped texture is; 3 is alpha.
pub open spec fn channel_of(row_pitch: int, k: int) -> int {
    k % row_pitch % 4
}

/// A rectangle, cut off at the edges of the frame.
pub struct Region {
    pub x: int,
    pub y: int,
    pub width: int,
    pub height: int,
    pub frame_width: int,
    pub frame_height: int,
}

impl Region {
    /// The pixel in column `px` of row `py` lies in the rectangle and in the frame.
    pub open spec fn contains(self, px: int, py: int) -> bool {
        &&& self.x <= px < self.x + self.width
        &&& px < self.frame_width
        &&& self.y <= py < self.y + self.height
        &&& py < self.frame_height
    }
}

/// A region of machine numbers.
pub open spec fn region(x: u32, y: u32, w: u32, h: u32, frame_width: u32, frame_height: u32) -> Region {
    Region {
        x: x as int,
        y: y as int,
        width: w as int,
        height: h as int,
        frame_width: frame_width as int,
        frame_height: frame_height as int,
    }
}

/// What is left of a colour value under a black layer of 70 percent.
pub open spec fn darkened(value: u8) -> u8 {
    (value * 77 / 255) as u8
}

/// The frame with the colours of a region darkened; alpha is kept.
pub open spec fn with_background(frame: Seq<u8>, row_pitch: int, area: Region) -> Seq<u8> {
    Seq::new(
        frame.len(),
        |k: int|
            if area.contains(column_of(row_pitch, k), row_of(row_pitch, k)) && channel_of(
                row_pitch,
                k,
            ) < 3 {
                darkened(frame[k])
            } else {
                frame[k]
            },
    )
}

/// Pixel (`col`, `row`) of a bitmap is not black.
pub open spec fn is_lit(bitmap: Seq<u8>, width: int, col: int, row: int) -> bool {
    let at = 4 * (row * width + col);
    bitmap[at] > 0 || bitmap[at + 1] > 0 || bitmap[at + 2] > 0
}

/// The frame with a white pixel for every pixel of the bitmap, laid over the region,
/// that is not black.
pub open spec fn with_text(
    frame: Seq<u8>,
    row_pitch: int,
    area: Region,
    bitmap: Seq<u8>,
) -> Seq<u8> {
    Seq::new(
        frame.len(),
        |k: int|
            if area.contains(column_of(row_pitch, k), row_of(row_pitch, k)) && is_lit(
                bitmap,
                area.width,
                column_of(row_pitch, k) - area.x,
                row_of(row_pitch, k) - area.y,
            ) {
                255u8
            } else {
                frame[k]
            },
    )
}

/// How much of an extent that starts at `start` lies before `limit`.
pub open spec fn visible(start: u32, extent: u32, limit: u32) -> int {
    if start >= limit {
        0
    } else if start + extent <= limit {
        extent as int
    } else {
        limit - start
    }
}

/// The part of a bitmap that is visible at (`x`, `y`) in the frame can be read with
/// 32-bit offsets.
pub open spec fn readable_bitmap(
    len: nat,
    x: u32,
    y: u32,
    width: u32,
    height: u32,
    frame_width: u32,
    frame_height: u32,
) -> bool {
    let columns = visible(x, width, frame_width);
    let rows = visible(y, height, frame_height);
    columns > 0 && rows > 0 ==> {
        &&& 4 * ((rows - 1) * width + columns) <= len
        &&& 4 * ((rows - 1) * width + columns - 1) <= u32::MAX
    }
}

/// How much of an extent that starts at `start` lies before `limit`.
fn clip(start: u32, extent: u32, limit: u32) -> (inside: u32)
    ensures
        inside == visible(start, extent, limit),
{
    if start >= limit {
        0
    } else if extent <= limit - start {
        extent
    } else {
        limit - start
    }
}

/// `k` is byte `c` of pixel (`px`, `py`).
proof fn lemma_pixel_position(row_pitch: int, px: int, py: int, c: int, k: int)
    requires
        0 <= px,
        4 * px + 4 <= row_pitch,
        0 <= py,
        0 <= c < 4,
    ensures
        k == py * row_pitch + 4 * px + c <==> row_of(row_pitch, k) == py && column_of(row_pitch, k)
            == px && channel_of(row_pitch, k) == c,
{
    vstd::arithmetic::div_mod::lemma_fundamental_div_mod(k, row_pitch);
    assert(row_pitch * (k / row_pitch) == (k / row_pitch) * row_pitch) by (nonlinear_arith);
    if k == py * row_pitch + 4 * px + c {
        vstd::arithmetic::div_mod::lemma_fundamental_div_mod_converse(
            k,
            row_pitch,
            py,
            4 * px + c,
        );
    }
}

/// A pixel of the frame lies in the mapped texture.
proof fn lemma_pixel_bounds(len: nat, row_pitch: usize, width: u32, height: u32, px: int, py: int)
    requires
        d3d11::mapped_texture(len, row_pitch, width, height),
        0 <= px < width,
        0 <= py < height,
    ensures
        0 <= py * row_pitch,
        py * row_pitch + 4 * px + 3 < len,
{
    assert(0 <= py * row_pitch <= (height - 1) * row_pitch) by (nonlinear_arith)
        requires
            0 <= py <= height - 1,
            0 <= row_pitch,
    ;
}

proof fn lemma_channel(row_pitch: int, k: int)
    ensures
        0 <= channel_of(row_pitch, k) < 4,
{
}

/// A pixel of the visible part of a bitmap can be read.
proof fn lemma_bitmap_bounds(
    len: nat,
    width: int,
    columns: int,
    rows: int,
    col: int,
    row: int,
)
    requires
        0 <= col < columns <= width,
        0 <= row < rows,
        4 * ((rows - 1) * width + columns) <= len,
        4 * ((rows - 1) * width + columns - 1) <= u32::MAX,
    ensures
        0 <= row * width,
        4 * (row * width + col) + 3 < len,
        4 * (row * width + col) <= u32::MAX,
        row * width * 4 == 4 * (row * width),
{
    assert(0 <= row * width <= (rows - 1) * width) by (nonlinear_arith)
        requires
            0 <= row <= rows - 1,
            0 <= width,
    ;
}

/// The distance of the box from the left and the lower edge of the frame. It is the same
/// for frames of every size.
pub const MARGIN: u32 = 20;

/// A narrower frame gets no watermark.
pub const MIN_WIDTH: u32 = 100;

/// A lower frame gets no watermark.
pub const MIN_HEIGHT: u32 = 30;

/// The width of the frames that the measures below are meant for.
pub const BASE_WIDTH: u32 = 2560;

/// The height of the frames that the measures below are meant for.
pub const BASE_HEIGHT: u32 = 1440;

/// The width of the box.
pub const BASE_BG_WIDTH: u32 = 360;

/// The height of the box.
pub const BASE_BG_HEIGHT: u32 = 80;

/// The height of the font.
pub const BASE_FONT_HEIGHT: u32 = 52;

/// The padding in the box.
pub const BASE_BG_PADDING: u32 = 6;

/// A number of pixels, but not none.
pub open spec fn at_least_one(pixels: u32) -> u32 {
    if pixels == 0 {
        1
    } else {
        pixels
    }
}

fn one_or_more(pixels: u32) -> (result: u32)
    ensures
        result == at_least_one(pixels),
{
    if pixels == 0 {
        1
    } else {
        pixels
    }
}

/// Where the box of the watermark lies in a frame.
#[derive(Clone, Copy, Debug, PartialEq, Eq)]
pub struct Placement {
    pub x: u32,
    pub y: u32,
    pub width: u32,
    pub height: u32,
}

/// Draws the watermark. It holds the measures of the watermark in pixels for the
/// resolution that it was last used with.
#[derive(Clone, Copy, Debug, PartialEq, Eq)]
pub struct WatermarkRenderer {
    pub cached_bg_width: u32,
    pub cached_bg_height: u32,
    pub cached_font_height: i32,
    pub cached_bg_padding: u32,
}

impl WatermarkRenderer {
    /// A frame of the given size is large enough for a watermark, and the box and its
    /// margin fit in it.
    pub open spec fn fits(self, width: u32, height: u32) -> bool {
        &&& MIN_WIDTH <= width && MIN_HEIGHT <= height
        &&& MARGIN + self.cached_bg_width <= width
        &&& MARGIN + self.cached_bg_height <= height
    }

    /// The smallest frame that the box and its margin fit in has a 32-bit size.
    pub open spec fn is_measurable(self) -> bool {
        &&& MARGIN + self.cached_bg_width <= u32::MAX
        &&& MARGIN + self.cached_bg_height <= u32::MAX
    }

    /// The box in a frame: at the margin from the left edge and from the bottom.
    pub open spec fn background(self, width: u32, height: u32) -> Region {
        Region {
            x: MARGIN as int,
            y: height - MARGIN - self.cached_bg_height,
            width: self.cached_bg_width as int,
            height: self.cached_bg_height as int,
            frame_width: width as int,
            frame_height: height as int,
        }
    }

    /// The text in a frame: in the middle of the box.
    pub open spec fn text(self, width: u32, height: u32, dib_width: u32, dib_height: u32) -> Region {
        let area = self.background(width, height);
        Region {
            x: area.x + (area.width - dib_width) / 2,
            y: area.y + (area.height - dib_height) / 2,
            width: dib_width as int,
            height: dib_height as int,
            ..area
        }
    }

    /// The frame with the watermark, or as it was if the watermark does not fit.
    pub open spec fn watermarked(
        self,
        frame: Seq<u8>,
        row_pitch: int,
        width: u32,
        height: u32,
        bitmap: Seq<u8>,
        dib_width: u32,
        dib_height: u32,
    ) -> Seq<u8> {
        if self.fits(width, height) {
            with_text(
                with_background(frame, row_pitch, self.background(width, height)),
                row_pitch,
                self.text(width, height, dib_width, dib_height),
                bitmap,
            )
        } else {
            frame
        }
    }

    /// A renderer that has not been used yet.
    pub fn new() -> (renderer: Self)
        ensures
            renderer == (WatermarkRenderer {
                cached_bg_width: 0,
                cached_bg_height: 0,
                cached_font_height: 0,
                cached_bg_padding: 0,
            }),
    {
        WatermarkRenderer {
            cached_bg_width: 0,
            cached_bg_height: 0,
            cached_font_height: 0,
            cached_bg_padding: 0,
        }
    }

    /// Takes over the measures for another resolution, rounded to pixels. What is drawn
    /// does not vanish: its measures are at least one pixel.
    pub fn update_cache(
        &mut self,
        bg_width: u32,
        bg_height: u32,
        font_height: i32,
        bg_padding: u32,
    )
        ensures
            final(self).cached_bg_width == at_least_one(bg_width),
            final(self).cached_bg_height == at_least_one(bg_height),
            final(self).cached_font_height == font_height,
            final(self).cached_bg_padding == at_least_one(bg_padding),
    {
        self.cached_bg_width = one_or_more(bg_width);
        self.cached_bg_height = one_or_more(bg_height);
        self.cached_font_height = font_height;
        self.cached_bg_padding = one_or_more(bg_padding);
    }

    /// Where the box lies in a frame of the given size; `None` if the frame is too small
    /// for a watermark.
    pub fn placement(&self, width: u32, height: u32) -> (placement: Option<Placement>)
        requires
            self.is_measurable(),
        ensures
            placement is Some <==> self.fits(width, height),
            placement matches Some(place) ==> {
                &&& place.x == 20
                &&& place.y == height - 20 - self.cached_bg_height
                &&& place.width == self.cached_bg_width
                &&& place.height == self.cached_bg_height
            },
            placement matches Some(place) ==> region(
                place.x,
                place.y,
                place.width,
                place.height,
                width,
                height,
            ) == self.background(width, height),
    {
        if width < MIN_WIDTH || height < MIN_HEIGHT {
            return None;
        }
        let min_width: u32 = MARGIN + self.cached_bg_width;
        let min_height: u32 = MARGIN + self.cached_bg_height;
        if width < min_width || height < min_height {
            return None;
        }
        Some(
            Placement {
                x: MARGIN,
                y: height - MARGIN - self.cached_bg_height,
                width: self.cached_bg_width,
                height: self.cached_bg_height,
            },
        )
    }

    /// Draws the watermark with the given bitmap of the time on a frame, and says
    /// whether the frame is large enough for it.
    pub fn render(
        &self,
        buffer: &mut [u8],
        row_pitch: usize,
        width: u32,
        height: u32,
        dib_data: &[u8],
        dib_width: u32,
        dib_height: u32,
    ) -> (drawn: bool)
        requires
            self.is_measurable(),
            self.fits(width, height) ==> {
                &&& d3d11::mapped_texture(old(buffer)@.len(), row_pitch, width, height)
                &&& dib_width <= self.cached_bg_width
                &&& dib_height <= self.cached_bg_height
                &&& dib_width > 0 && dib_height > 0 ==> 4 * (dib_width * dib_height)
                    <= dib_data@.len() && 4 * (dib_width * dib_height - 1) <= u32::MAX
            },
        ensures
            drawn == self.fits(width, height),
            final(buffer)@ == self.watermarked(
                old(buffer)@,
                row_pitch as int,
                width,
                height,
                dib_data@,
                dib_width,
                dib_height,
            ),
    {
        match self.placement(width, height) {
            None => false,
            Some(place) => {
                Self::draw_background(
                    buffer,
                    row_pitch,
                    place.x,
                    place.y,
                    place.width,
                    place.height,
                    width,
                    height,
                );
                let text_x: u32 = place.x + (place.width - dib_width) / 2;
                let text_y: u32 = place.y + (place.height - dib_height) / 2;
                proof {
                    let w = dib_width as int;
                    let h = dib_height as int;
                    assert(w * h == (h - 1) * w + w) by (nonlinear_arith);
                }
                Self::composite_text(
                    buffer,
                    row_pitch,
                    text_x,
                    text_y,
                    dib_data,
                    dib_width,
                    dib_height,
                    width,
                    height,
                );
                true
            },
        }
    }

    /// Darkens a region of the frame, as far as it lies inside.
    pub fn draw_background(
        buffer: &mut [u8],
        row_pitch: usize,
        x: u32,
        y: u32,
        w: u32,
        h: u32,
        frame_width: u32,
        frame_height: u32,
    )
        requires
            d3d11::mapped_texture(old(buffer)@.len(), row_pitch, frame_width, frame_height),
        ensures
            final(buffer)@ == with_background(
                old(buffer)@,
                row_pitch as int,
                region(x, y, w, h, frame_width, frame_height),
            ),
    {
        let ghost before = buffer@;
        let ghost pitch = row_pitch as int;
        let ghost area = region(x, y, w, h, frame_width, frame_height);
        let columns: u32 = clip(x, w, frame_width);
        let rows: u32 = clip(y, h, frame_height);
        assert(buffer.len() == buffer@.len());
        let mut row: u32 = 0;
        while row < rows
            invariant
                row <= rows,
                columns == visible(x, w, frame_width),
                rows == visible(y, h, frame_height),
                pitch == row_pitch,
                area == region(x, y, w, h, frame_width, frame_height),
                before.len() <= usize::MAX,
                buffer@.len() == before.len(),
                d3d11::mapped_texture(before.len(), row_pitch, frame_width, frame_height),
                forall|k: int|
                    0 <= k < before.len() ==> #[trigger] buffer@[k] == (if area.contains(
                        column_of(pitch, k),
                        row_of(pitch, k),
                    ) && channel_of(pitch, k) < 3 && row_of(pitch, k) < y + row {
                        darkened(before[k])
                    } else {
                        before[k]
                    }),
            decreases rows - row,
        {
            let mut col: u32 = 0;
            while col < columns
                invariant
                    row < rows,
                    col <= columns,
                    columns == visible(x, w, frame_width),
                    rows == visible(y, h, frame_height),
                    pitch == row_pitch,
                    area == region(x, y, w, h, frame_width, frame_height),
                    before.len() <= usize::MAX,
                    buffer@.len() == before.len(),
                    d3d11::mapped_texture(before.len(), row_pitch, frame_width, frame_height),
                    forall|k: int|
                        0 <= k < before.len() ==> #[trigger] buffer@[k] == (if area.contains(
                            column_of(pitch, k),
                            row_of(pitch, k),
                        ) && channel_of(pitch, k) < 3 && (row_of(pitch, k) < y + row || (row_of(
                            pitch,
                            k,
                        ) == y + row && column_of(pitch, k) < x + col)) {
                            darkened(before[k])
                        } else {
                            before[k]
                        }),
                decreases columns - col,
            {
                let ghost px: int = x + col;
                let ghost py: int = y + row;
                proof {
                    lemma_pixel_bounds(before.len(), row_pitch, frame_width, frame_height, px, py);
                }
                let at: usize = (y + row) as usize * row_pitch + (x + col) as usize * 4;
                let ghost last = buffer@;
                proof {
                    lemma_pixel_position(pitch, px, py, 0, at as int);
                    lemma_pixel_position(pitch, px, py, 1, at + 1);
                    lemma_pixel_position(pitch, px, py, 2, at + 2);
                }
                let b: u8 = buffer[at];
                let g: u8 = buffer[at + 1];
                let r: u8 = buffer[at + 2];
                buffer[at] = (b as u32 * 77 / 255) as u8;
                buffer[at + 1] = (g as u32 * 77 / 255) as u8;
                buffer[at + 2] = (r as u32 * 77 / 255) as u8;
                proof {
                    assert(last[at as int] == before[at as int]);
                    assert(last[at + 1] == before[at + 1]);
                    assert(last[at + 2] == before[at + 2]);
                    assert forall|k: int| 0 <= k < before.len() implies #[trigger] buffer@[k] == (
                    if area.contains(column_of(pitch, k), row_of(pitch, k)) && channel_of(pitch, k) < 3
                        && (row_of(pitch, k) < y + row || (row_of(pitch, k) == y + row && column_of(
                        pitch,
                        k,
                    ) < x + (col + 1))) {
                        darkened(before[k])
                    } else {
                        before[k]
                    }) by {
                        if k != at && k != at + 1 && k != at + 2 {
                            assert(buffer@[k] == last[k]);
                            lemma_pixel_position(pitch, px, py, 0, k);
                            lemma_pixel_position(pitch, px, py, 1, k);
                            lemma_pixel_position(pitch, px, py, 2, k);
                            lemma_channel(pitch, k);
                        }
                    }
                }
                col += 1;
            }
            proof {
                assert forall|k: int| 0 <= k < before.len() implies #[trigger] buffer@[k] == (
                if area.contains(column_of(pitch, k), row_of(pitch, k)) && channel_of(pitch, k) < 3
                    && row_of(pitch, k) < y + (row + 1) {
                    darkened(before[k])
                } else {
                    before[k]
                }) by {}
            }
            row += 1;
        }
        assert(buffer@ =~= with_background(before, pitch, area));
    }

    /// Lays a bitmap of text over the frame, as far as it lies inside: every pixel of it
    /// that is not black makes the pixel below it white.
    pub fn composite_text(
        buffer: &mut [u8],
        row_pitch: usize,
        dst_x: u32,
        dst_y: u32,
        dib_data: &[u8],
        dib_width: u32,
        dib_height: u32,
        frame_width: u32,
        frame_height: u32,
    )
        requires
            d3d11::mapped_texture(old(buffer)@.len(), row_pitch, frame_width, frame_height),
            readable_bitmap(
                dib_data@.len(),
                dst_x,
                dst_y,
                dib_width,
                dib_height,
                frame_width,
                frame_height,
            ),
        ensures
            final(buffer)@ == with_text(
                old(buffer)@,
                row_pitch as int,
                region(dst_x, dst_y, dib_width, dib_height, frame_width, frame_height),
                dib_data@,
            ),
    {
        let ghost before = buffer@;
        let ghost pitch = row_pitch as int;
        let ghost area = region(dst_x, dst_y, dib_width, dib_height, frame_width, frame_height);
        let columns: u32 = clip(dst_x, dib_width, frame_width);
        let rows: u32 = clip(dst_y, dib_height, frame_height);
        assert(buffer.len() == buffer@.len());
        let mut row: u32 = 0;
        while row < rows
            invariant
                row <= rows,
                columns == visible(dst_x, dib_width, frame_width),
                rows == visible(dst_y, dib_height, frame_height),
                readable_bitmap(
                    dib_data@.len(),
                    dst_x,
                    dst_y,
                    dib_width,
                    dib_height,
                    frame_width,
                    frame_height,
                ),
                pitch == row_pitch,
                area == region(dst_x, dst_y, dib_width, dib_height, frame_width, frame_height),
                before.len() <= usize::MAX,
                buffer@.len() == before.len(),
                d3d11::mapped_texture(before.len(), row_pitch, frame_width, frame_height),
                forall|k: int|
                    0 <= k < before.len() ==> #[trigger] buffer@[k] == (if area.contains(
                        column_of(pitch, k),
                        row_of(pitch, k),
                    ) && is_lit(
                        dib_data@,
                        area.width,
                        column_of(pitch, k) - area.x,
                        row_of(pitch, k) - area.y,
                    ) && row_of(pitch, k) < dst_y + row {
                        255u8
                    } else {
                        before[k]
                    }),
            decreases rows - row,
        {
            let mut col: u32 = 0;
            while col < columns
                invariant
                    row < rows,
                    col <= columns,
                    columns == visible(dst_x, dib_width, frame_width),
                    rows == visible(dst_y, dib_height, frame_height),
                    readable_bitmap(
                        dib_data@.len(),
                        dst_x,
                        dst_y,
                        dib_width,
                        dib_height,
                        frame_width,
                        frame_height,
                    ),
                    pitch == row_pitch,
                    area == region(dst_x, dst_y, dib_width, dib_height, frame_width, frame_height),
                    before.len() <= usize::MAX,
                    buffer@.len() == before.len(),
                    d3d11::mapped_texture(before.len(), row_pitch, frame_width, frame_height),
                    forall|k: int|
                        0 <= k < before.len() ==> #[trigger] buffer@[k] == (if area.contains(
                            column_of(pitch, k),
                            row_of(pitch, k),
                        ) && is_lit(
                            dib_data@,
                            area.width,
                            column_of(pitch, k) - area.x,
                            row_of(pitch, k) - area.y,
                        ) && (row_of(pitch, k) < dst_y + row || (row_of(pitch, k) == dst_y + row
                            && column_of(pitch, k) < dst_x + col)) {
                            255u8
                        } else {
                            before[k]
                        }),
                decreases columns - col,
            {
                let ghost px: int = dst_x + col;
                let ghost py: int = dst_y + row;
                proof {
                    lemma_pixel_bounds(before.len(), row_pitch, frame_width, frame_height, px, py);
                    lemma_bitmap_bounds(
                        dib_data@.len(),
                        dib_width as int,
                        columns as int,
                        rows as int,
                        col as int,
                        row as int,
                    );
                    assert(dib_data.len() == dib_data@.len());
                }
                let src: usize = (row * dib_width * 4 + col * 4) as usize;
                let lit: bool = dib_data[src] > 0 || dib_data[src + 1] > 0 || dib_data[src + 2] > 0;
                assert(lit == is_lit(dib_data@, area.width, px - area.x, py - area.y));
                let ghost last = buffer@;
                if lit {
                    let at: usize = (dst_y + row) as usize * row_pitch + (dst_x + col) as usize * 4;
                    buffer[at] = 255;
                    buffer[at + 1] = 255;
                    buffer[at + 2] = 255;
                    buffer[at + 3] = 255;
                    proof {
                        lemma_pixel_position(pitch, px, py, 0, at as int);
                        lemma_pixel_position(pitch, px, py, 1, at + 1);
                        lemma_pixel_position(pitch, px, py, 2, at + 2);
                        lemma_pixel_position(pitch, px, py, 3, at + 3);
                    }
                }
                proof {
                    assert forall|k: int| 0 <= k < before.len() implies #[trigger] buffer@[k] == (
                    if area.contains(column_of(pitch, k), row_of(pitch, k)) && is_lit(
                        dib_data@,
                        area.width,
                        column_of(pitch, k) - area.x,
                        row_of(pitch, k) - area.y,
                    ) && (row_of(pitch, k) < dst_y + row || (row_of(pitch, k) == dst_y + row
                        && column_of(pitch, k) < dst_x + (col + 1))) {
                        255u8
                    } else {
                        before[k]
                    }) by {
                        lemma_channel(pitch, k);
                        lemma_pixel_position(pitch, px, py, channel_of(pitch, k), k);
                        assert(buffer@[k] == last[k] || buffer@[k] == 255);
                    }
                }
                col += 1;
            }
            proof {
                assert forall|k: int| 0 <= k < before.len() implies #[trigger] buffer@[k] == (
                if area.contains(column_of(pitch, k), row_of(pitch, k)) && is_lit(
                    dib_data@,
                    area.width,
                    column_of(pitch, k) - area.x,
                    row_of(pitch, k) - area.y,
                ) && row_of(pitch, k) < dst_y + (row + 1) {
                    255u8
                } else {
                    before[k]
                }) by {}
            }
            row += 1;
        }
        assert(buffer@ =~= with_text(before, pitch, area, dib_data@));
    }
}

/// The digit `d`.
pub open spec fn digit(d: int) -> char {
    (48 + d) as char
}

/// `n` in decimal digits.
pub open spec fn decimal(n: nat) -> Seq<char>
    decreases n,
{
    if n < 10 {
        seq![digit(n as int)]
    } else {
        decimal(n / 10).push(digit((n % 10) as int))
    }
}

/// `n` in decimal digits, with as many zeros in front as make up `width` digits.
pub open spec fn padded(n: nat, width: nat) -> Seq<char> {
    if width <= decimal(n).len() {
        decimal(n)
    } else {
        Seq::new((width - decimal(n).len()) as nat, |i: int| '0') + decimal(n)
    }
}

/// A time of day as `HH:MM:SS.mmm`.
pub open spec fn time_string(hour: nat, minute: nat, second: nat, milliseconds: nat) -> Seq<char> {
    padded(hour, 2) + seq![':'] + padded(minute, 2) + seq![':'] + padded(second, 2) + seq!['.']
        + padded(milliseconds, 3)
}

/// Appends one digit.
fn append_digit(text: &mut String, d: u16)
    requires
        d < 10,
    ensures
        final(text)@ == old(text)@.push(digit(d as int)),
{
    proof {
        reveal_strlit("0");
        reveal_strlit("1");
        reveal_strlit("2");
        reveal_strlit("3");
        reveal_strlit("4");
        reveal_strlit("5");
        reveal_strlit("6");
        reveal_strlit("7");
        reveal_strlit("8");
        reveal_strlit("9");
    }
    let ghost before = text@;
    let one: &str = match d {
        0 => "0",
        1 => "1",
        2 => "2",
        3 => "3",
        4 => "4",
        5 => "5",
        6 => "6",
        7 => "7",
        8 => "8",
        _ => "9",
    };
    assert(one@ =~= seq![digit(d as int)]);
    text.append(one);
    assert(text@ =~= before.push(digit(d as int)));
}

/// The number of decimal digits.
fn count_digits(n: u16) -> (digits: usize)
    ensures
        digits == decimal(n as nat).len(),
{
    proof {
        reveal_with_fuel(decimal, 5);
    }
    if n < 10 {
        1
    } else if n < 100 {
        2
    } else if n < 1000 {
        3
    } else if n < 10000 {
        4
    } else {
        5
    }
}

/// Appends a number in decimal digits.
fn append_decimal(text: &mut String, n: u16)
    ensures
        final(text)@ == old(text)@ + decimal(n as nat),
    decreases n,
{
    let ghost before = text@;
    if n < 10 {
        append_digit(text, n);
    } else {
        append_decimal(text, n / 10);
        append_digit(text, n % 10);
    }
    assert(text@ =~= before + decimal(n as nat));
}

/// Appends a number with as many zeros in front as make up `width` digits.
fn append_padded(text: &mut String, n: u16, width: usize)
    ensures
        final(text)@ == old(text)@ + padded(n as nat, width as nat),
{
    let ghost before = text@;
    let digits: usize = count_digits(n);
    let mut zeros: usize = 0;
    if digits < width {
        while zeros < width - digits
            invariant
                digits < width,
                zeros <= width - digits,
                text@ == before + Seq::new(zeros as nat, |i: int| '0'),
            decreases width - digits - zeros,
        {
            append_digit(text, 0);
            zeros += 1;
            assert(text@ =~= before + Seq::new(zeros as nat, |i: int| '0'));
        }
    }
    append_decimal(text, n);
    assert(text@ =~= before + padded(n as nat, width as nat));
}

impl WatermarkRenderer {
    /// A time of day as `HH:MM:SS.mmm`.
    pub fn get_time_string(hour: u16, minute: u16, second: u16, milliseconds: u16) -> (text: String)
        ensures
            text@ == time_string(
                hour as nat,
                minute as nat,
                second as nat,
                milliseconds as nat,
            ),
    {
        proof {
            reveal_strlit(":");
            reveal_strlit(".");
        }
        assert(":"@ =~= seq![':']);
        assert("."@ =~= seq!['.']);
        let mut text: String = String::new();
        append_padded(&mut text, hour, 2);
        text.append(":");
        append_padded(&mut text, minute, 2);
        text.append(":");
        append_padded(&mut text, second, 2);
        text.append(".");
        append_padded(&mut text, milliseconds, 3);
        assert(text@ =~= time_string(
            hour as nat,
            minute as nat,
            second as nat,
            milliseconds as nat,
        ));
        text
    }

    /// Where text of the given extent starts in an area, so that it stands in the middle;
    /// text that is too long starts at the edge.
    pub fn text_offset(area: u32, extent: i32) -> (offset: i32)
        requires
            area <= i32::MAX,
            area - extent <= i32::MAX,
        ensures
            offset == (if area > extent {
                (area - extent) / 2
            } else {
                0
            }),
    {
        let space: i64 = area as i64 - extent as i64;
        if space > 0 {
            (space / 2) as i32
        } else {
            0
        }
    }
}

/// A time of day: hours, minutes, seconds and milliseconds in their ranges.
pub open spec fn is_time_of_day(hour: nat, minute: nat, second: nat, milliseconds: nat) -> bool {
    hour < 24 && minute < 60 && second < 60 && milliseconds < 1000
}

proof fn lemma_two_digits(n: nat)
    requires
        n < 100,
    ensures
        padded(n, 2) == seq![digit((n / 10) as int), digit((n % 10) as int)],
{
    reveal_with_fuel(decimal, 3);
    assert(padded(n, 2) =~= seq![digit((n / 10) as int), digit((n % 10) as int)]);
}

proof fn lemma_three_digits(n: nat)
    requires
        n < 1000,
    ensures
        padded(n, 3) == seq![
            digit((n / 100) as int),
            digit((n / 10 % 10) as int),
            digit((n % 10) as int),
        ],
{
    reveal_with_fuel(decimal, 4);
    assert(padded(n, 3) =~= seq![
        digit((n / 100) as int),
        digit((n / 10 % 10) as int),
        digit((n % 10) as int),
    ]);
}

/// Equal digits have the same value.
proof fn lemma_equal_digits(d: int, e: int)
    requires
        0 <= d < 10,
        0 <= e < 10,
        digit(d) == digit(e),
    ensures
        d == e,
{
}

/// A number below 1000 is known by its last three digits.
proof fn lemma_known_by_digits(n: nat, m: nat)
    requires
        n < 1000,
        m < 1000,
        digit((n / 100) as int) == digit((m / 100) as int),
        digit((n / 10 % 10) as int) == digit((m / 10 % 10) as int),
        digit((n % 10) as int) == digit((m % 10) as int),
    ensures
        n == m,
{
    let (a, b, c) = ((n / 100) as int, (n / 10 % 10) as int, (n % 10) as int);
    let (d, e, f) = ((m / 100) as int, (m / 10 % 10) as int, (m % 10) as int);
    assert(n == 100 * a + 10 * b + c && 0 <= a < 10 && 0 <= b < 10 && 0 <= c < 10);
    assert(m == 100 * d + 10 * e + f && 0 <= d < 10 && 0 <= e < 10 && 0 <= f < 10);
    lemma_equal_digits(a, d);
    lemma_equal_digits(b, e);
    lemma_equal_digits(c, f);
}

/// Every time of day is written with two digits each for hours, minutes and seconds
/// and three for the milliseconds.
pub proof fn law_time_format(hour: nat, minute: nat, second: nat, milliseconds: nat)
    requires
        is_time_of_day(hour, minute, second, milliseconds),
    ensures
        time_string(hour, minute, second, milliseconds) == seq![
            digit((hour / 10) as int),
            digit((hour % 10) as int),
            ':',
            digit((minute / 10) as int),
            digit((minute % 10) as int),
            ':',
            digit((second / 10) as int),
            digit((second % 10) as int),
            '.',
            digit((milliseconds / 100) as int),
            digit((milliseconds / 10 % 10) as int),
            digit((milliseconds % 10) as int),
        ],
{
    lemma_two_digits(hour);
    lemma_two_digits(minute);
    lemma_two_digits(second);
    lemma_three_digits(milliseconds);
    assert(time_string(hour, minute, second, milliseconds) =~= seq![
        digit((hour / 10) as int),
        digit((hour % 10) as int),
        ':',
        digit((minute / 10) as int),
        digit((minute % 10) as int),
        ':',
        digit((second / 10) as int),
        digit((second % 10) as int),
        '.',
        digit((milliseconds / 100) as int),
        digit((milliseconds / 10 % 10) as int),
        digit((milliseconds % 10) as int),
    ]);
}

/// Two times of day that are written alike are the same.
pub proof fn law_time_can_be_told_from_its_text(
    hour: nat,
    minute: nat,
    second: nat,
    milliseconds: nat,
    hour2: nat,
    minute2: nat,
    second2: nat,
    milliseconds2: nat,
)
    requires
        is_time_of_day(hour, minute, second, milliseconds),
        is_time_of_day(hour2, minute2, second2, milliseconds2),
        time_string(hour, minute, second, milliseconds) == time_string(
            hour2,
            minute2,
            second2,
            milliseconds2,
        ),
    ensures
        hour == hour2 && minute == minute2 && second == second2 && milliseconds == milliseconds2,
{
    law_time_format(hour, minute, second, milliseconds);
    law_time_format(hour2, minute2, second2, milliseconds2);
    let text = time_string(hour, minute, second, milliseconds);
    assert(text[0] == digit((hour2 / 10) as int));
    assert(text[1] == digit((hour2 % 10) as int));
    assert(text[3] == digit((minute2 / 10) as int));
    assert(text[4] == digit((minute2 % 10) as int));
    assert(text[6] == digit((second2 / 10) as int));
    assert(text[7] == digit((second2 % 10) as int));
    assert(text[9] == digit((milliseconds2 / 100) as int));
    assert(text[10] == digit((milliseconds2 / 10 % 10) as int));
    assert(text[11] == digit((milliseconds2 % 10) as int));
    lemma_known_by_digits(hour, hour2);
    lemma_known_by_digits(minute, minute2);
    lemma_known_by_digits(second, second2);
    lemma_known_by_digits(milliseconds, milliseconds2);
}

/// Outside its box the watermark changes nothing, and so it does not where it does
/// not fit.
pub proof fn law_watermark_stays_in_its_box(
    renderer: WatermarkRenderer,
    frame: Seq<u8>,
    row_pitch: int,
    width: u32,
    height: u32,
    bitmap: Seq<u8>,
    dib_width: u32,
    dib_height: u32,
    k: int,
)
    requires
        dib_width <= renderer.cached_bg_width,
        dib_height <= renderer.cached_bg_height,
        0 <= k < frame.len(),
        !renderer.fits(width, height) || !renderer.background(width, height).contains(
            column_of(row_pitch, k),
            row_of(row_pitch, k),
        ),
    ensures
        renderer.watermarked(frame, row_pitch, width, height, bitmap, dib_width, dib_height)[k]
            == frame[k],
{
}

/// In the box every byte ends up white under the text. Beside it a colour is darkened,
/// which never makes it brighter, and alpha is kept.
pub proof fn law_watermark_in_its_box(
    renderer: WatermarkRenderer,
    frame: Seq<u8>,
    row_pitch: int,
    width: u32,
    height: u32,
    bitmap: Seq<u8>,
    dib_width: u32,
    dib_height: u32,
    k: int,
)
    requires
        dib_width <= renderer.cached_bg_width,
        dib_height <= renderer.cached_bg_height,
        0 <= k < frame.len(),
        renderer.fits(width, height),
        renderer.background(width, height).contains(
            column_of(row_pitch, k),
            row_of(row_pitch, k),
        ),
    ensures
        ({
            let (px, py) = (column_of(row_pitch, k), row_of(row_pitch, k));
            let text = renderer.text(width, height, dib_width, dib_height);
            let lit = text.contains(px, py) && is_lit(bitmap, text.width, px - text.x, py - text.y);
            let after = renderer.watermarked(
                frame,
                row_pitch,
                width,
                height,
                bitmap,
                dib_width,
                dib_height,
            )[k];
            &&& lit ==> after == 255
            &&& !lit && channel_of(row_pitch, k) < 3 ==> after == darkened(frame[k]) && after
                <= frame[k]
            &&& !lit && channel_of(row_pitch, k) == 3 ==> after == frame[k]
        }),
{
}

/// A frame that is narrower than 100 pixels or lower than 30 gets no watermark.
pub proof fn law_small_frames_get_no_watermark(
    renderer: WatermarkRenderer,
    frame: Seq<u8>,
    row_pitch: int,
    width: u32,
    height: u32,
    bitmap: Seq<u8>,
    dib_width: u32,
    dib_height: u32,
)
    requires
        width < 100 || height < 30,
    ensures
        !renderer.fits(width, height),
        renderer.watermarked(frame, row_pitch, width, height, bitmap, dib_width, dib_height)
            == frame,
{
}

/// The box lies in the frame, 20 pixels from its left edge and from its lower edge.
pub proof fn law_box_lies_in_the_frame(renderer: WatermarkRenderer, width: u32, height: u32)
    requires
        renderer.fits(width, height),
    ensures
        ({
            let area = renderer.background(width, height);
            &&& area.x == 20
            &&& area.x + area.width <= width
            &&& 0 <= area.y
            &&& area.y + area.height + 20 == height
        }),
{
}

/// `k` is byte `c` of pixel (`px`, `py`), which may lie behind the row.
proof fn lemma_byte_position(row_pitch: int, px: int, py: int, c: int, k: int)
    requires
        0 <= px,
        0 <= py,
        0 <= c < 4,
        4 * px + c < row_pitch,
        k == py * row_pitch + 4 * px + c,
    ensures
        row_of(row_pitch, k) == py,
        column_of(row_pitch, k) == px,
        channel_of(row_pitch, k) == c,
{
    vstd::arithmetic::div_mod::lemma_fundamental_div_mod_converse(k, row_pitch, py, 4 * px + c);
}

/// Laying text over a frame makes a pixel white, all four bytes of it, if the pixel of the
/// bitmap that comes to lie on it is not black; every other byte is kept. Pixel (`col`, `row`)
/// of the bitmap stands at `4 * (row * width + col)` and comes to lie on the pixel that is as
/// many columns and rows away from the corner.
pub proof fn law_text_by_bytes(
    frame: Seq<u8>,
    row_pitch: int,
    dst_x: u32,
    dst_y: u32,
    bitmap: Seq<u8>,
    dib_width: u32,
    dib_height: u32,
    frame_width: u32,
    frame_height: u32,
    px: int,
    py: int,
    c: int,
)
    requires
        0 <= px,
        0 <= py,
        0 <= c < 4,
        4 * px + c < row_pitch,
        0 <= py * row_pitch + 4 * px + c < frame.len(),
    ensures
        ({
            let after = with_text(
                frame,
                row_pitch,
                region(dst_x, dst_y, dib_width, dib_height, frame_width, frame_height),
                bitmap,
            );
            let at = 4 * ((py - dst_y) * dib_width + (px - dst_x));
            let white = dst_x <= px < dst_x + dib_width && px < frame_width && dst_y <= py < dst_y
                + dib_height && py < frame_height && (bitmap[at] != 0 || bitmap[at + 1] != 0
                || bitmap[at + 2] != 0);
            &&& after.len() == frame.len()
            &&& white ==> after[py * row_pitch + 4 * px + c] == 255
            &&& !white ==> after[py * row_pitch + 4 * px + c] == frame[py * row_pitch + 4 * px + c]
        }),
{
    lemma_byte_position(row_pitch, px, py, c, py * row_pitch + 4 * px + c);
}

/// Darkening a region leaves 77 of 255 parts of blue, green and red of the pixels in it that
/// lie in the frame; their alpha and every other byte are kept.
pub proof fn law_background_by_bytes(
    frame: Seq<u8>,
    row_pitch: int,
    x: u32,
    y: u32,
    w: u32,
    h: u32,
    frame_width: u32,
    frame_height: u32,
    px: int,
    py: int,
    c: int,
)
    requires
        0 <= px,
        0 <= py,
        0 <= c < 4,
        4 * px + c < row_pitch,
        0 <= py * row_pitch + 4 * px + c < frame.len(),
    ensures
        ({
            let after = with_background(
                frame,
                row_pitch,
                region(x, y, w, h, frame_width, frame_height),
            );
            let old_byte = frame[py * row_pitch + 4 * px + c] as int;
            let new_byte = after[py * row_pitch + 4 * px + c] as int;
            let dark = x <= px < x + w && px < frame_width && y <= py < y + h && py < frame_height
                && c < 3;
            &&& after.len() == frame.len()
            &&& dark ==> 255 * new_byte <= 77 * old_byte < 255 * new_byte + 255
            &&& !dark ==> new_byte == old_byte
        }),
{
    lemma_byte_position(row_pitch, px, py, c, py * row_pitch + 4 * px + c);
}

/// The watermark by the bytes of the frame. The box stands 20 pixels from the left and from
/// the lower edge, and the text in its middle. Under a pixel of the text that is not black
/// the frame is white; elsewhere in the box its colours are darkened; every other byte is
/// kept.
pub proof fn law_watermark_by_bytes(
    renderer: WatermarkRenderer,
    frame: Seq<u8>,
    row_pitch: int,
    width: u32,
    height: u32,
    bitmap: Seq<u8>,
    dib_width: u32,
    dib_height: u32,
    px: int,
    py: int,
    c: int,
)
    requires
        100 <= width && 30 <= height,
        20 + renderer.cached_bg_width <= width,
        20 + renderer.cached_bg_height <= height,
        dib_width <= renderer.cached_bg_width,
        dib_height <= renderer.cached_bg_height,
        0 <= px,
        0 <= py,
        0 <= c < 4,
        4 * px + c < row_pitch,
        0 <= py * row_pitch + 4 * px + c < frame.len(),
    ensures
        ({
            let after = renderer.watermarked(
                frame,
                row_pitch,
                width,
                height,
                bitmap,
                dib_width,
                dib_height,
            );
            let old_byte = frame[py * row_pitch + 4 * px + c] as int;
            let new_byte = after[py * row_pitch + 4 * px + c] as int;
            let (bg_width, bg_height) = (renderer.cached_bg_width, renderer.cached_bg_height);
            let top = height - 20 - bg_height;
            let text_x = 20 + (bg_width - dib_width) / 2;
            let text_y = top + (bg_height - dib_height) / 2;
            let at = 4 * ((py - text_y) * dib_width + (px - text_x));
            let white = text_x <= px < text_x + dib_width && text_y <= py < text_y + dib_height && (
            bitmap[at] != 0 || bitmap[at + 1] != 0 || bitmap[at + 2] != 0);
            let dark = 20 <= px < 20 + bg_width && top <= py < top + bg_height && c < 3;
            &&& after.len() == frame.len()
            &&& white ==> new_byte == 255
            &&& !white && dark ==> 255 * new_byte <= 77 * old_byte < 255 * new_byte + 255
            &&& !white && !dark ==> new_byte == old_byte
        }),
{
    lemma_byte_position(row_pitch, px, py, c, py * row_pitch + 4 * px + c);
}

/// A watermark is drawn if and only if the frame has at least 100 by 30 pixels and takes the
/// box with 20 pixels to its left and below it.
pub proof fn law_when_a_watermark_is_drawn(renderer: WatermarkRenderer, width: u32, height: u32)
    ensures
        renderer.fits(width, height) <==> 100 <= width && 30 <= height && 20
            + renderer.cached_bg_width <= width && 20 + renderer.cached_bg_height <= height,
        renderer.is_measurable() <==> 20 + renderer.cached_bg_width <= 4294967295 && 20
            + renderer.cached_bg_height <= 4294967295,
{
}

/// A bitmap with four bytes for each of its pixels can be read, as long as 32-bit offsets
/// reach all of it.
pub proof fn law_whole_bitmaps_can_be_read(
    len: nat,
    x: u32,
    y: u32,
    width: u32,
    height: u32,
    frame_width: u32,
    frame_height: u32,
)
    requires
        4 * (width * height) <= len,
        4 * (width * height) <= 4294967295,
    ensures
        readable_bitmap(len, x, y, width, height, frame_width, frame_height),
{
    let columns = visible(x, width, frame_width);
    let rows = visible(y, height, frame_height);
    if columns > 0 && rows > 0 {
        let w = width as int;
        assert((rows - 1) * w + w <= w * height) by (nonlinear_arith)
            requires
                rows <= height,
                0 <= w,
        ;
    }
}

/// A measure is kept, but for zero, which becomes one.
pub proof fn law_measures_do_not_vanish(pixels: u32)
    ensures
        pixels > 0 ==> at_least_one(pixels) == pixels,
        pixels == 0 ==> at_least_one(pixels) == 1,
{
}

/// The number that a text of digits stands for.
pub open spec fn number_of(text: Seq<char>) -> int
    decreases text.len(),
{
    if text.len() == 0 {
        0
    } else {
        10 * number_of(text.drop_last()) + (text.last() as int - '0' as int)
    }
}

/// Every character of the text is one of `0` to `9`.
pub open spec fn is_digits(text: Seq<char>) -> bool {
    forall|i: int| 0 <= i < text.len() ==> '0' as int <= #[trigger] text[i] as int <= '9' as int
}

proof fn lemma_decimal(n: nat)
    ensures
        decimal(n).len() > 0,
        is_digits(decimal(n)),
        number_of(decimal(n)) == n,
        n > 0 ==> decimal(n)[0] != '0',
        n < 10 ==> decimal(n).len() == 1,
    decreases n,
{
    if n < 10 {
        assert(decimal(n).drop_last() =~= Seq::empty());
        assert(number_of(decimal(n).drop_last()) == 0);
    } else {
        lemma_decimal(n / 10);
        let text = decimal(n);
        assert(text.drop_last() =~= decimal(n / 10));
        assert forall|i: int| 0 <= i < text.len() implies '0' as int <= #[trigger] text[i] as int
            <= '9' as int by {
            if i < text.len() - 1 {
                assert(text[i] == decimal(n / 10)[i]);
            }
        }
        assert(text[0] == decimal(n / 10)[0]);
    }
}

proof fn lemma_leading_zeros(zeros: nat, text: Seq<char>)
    requires
        is_digits(text),
    ensures
        is_digits(Seq::new(zeros, |i: int| '0') + text),
        number_of(Seq::new(zeros, |i: int| '0') + text) == number_of(text),
    decreases zeros + text.len(),
{
    let front = Seq::new(zeros, |i: int| '0');
    let all = front + text;
    assert forall|i: int| 0 <= i < all.len() implies '0' as int <= #[trigger] all[i] as int
        <= '9' as int by {
        if i >= zeros {
            assert(all[i] == text[i - zeros]);
        }
    }
    if text.len() > 0 {
        let shorter = text.drop_last();
        assert forall|i: int| 0 <= i < shorter.len() implies '0' as int <= #[trigger] shorter[i] as int
            <= '9' as int by {
            assert(shorter[i] == text[i]);
        }
        lemma_leading_zeros(zeros, shorter);
        assert(all.drop_last() =~= front + shorter);
        assert(all.last() == text.last());
    } else if zeros > 0 {
        let fewer = (zeros - 1) as nat;
        lemma_leading_zeros(fewer, text);
        assert(all.drop_last() =~= Seq::new(fewer, |i: int| '0') + text);
        assert(all.last() == '0');
    }
}

/// Each part of a time is written with the digits that make up its number, at least two of
/// them, and three for the milliseconds; a longer number has no zero in front. Two colons and
/// a point separate the parts.
pub proof fn law_parts_of_a_time(n: nat, width: nat)
    requires
        width > 0,
    ensures
        is_digits(padded(n, width)),
        number_of(padded(n, width)) == n,
        padded(n, width).len() >= width,
        padded(n, width).len() > width ==> padded(n, width)[0] != '0',
{
    lemma_decimal(n);
    if width > decimal(n).len() {
        lemma_leading_zeros((width - decimal(n).len()) as nat, decimal(n));
    }
    if padded(n, width).len() > width {
        assert(n > 0) by {
            if n == 0 {
                assert(decimal(n).len() == 1);
            }
        }
    }
}

/// A time is its hours, minutes, seconds and milliseconds in this order, with two colons and
/// a point between them.
pub proof fn law_order_of_a_time(hour: nat, minute: nat, second: nat, milliseconds: nat)
    ensures
        time_string(hour, minute, second, milliseconds) == padded(hour, 2).push(':') + padded(
            minute,
            2,
        ).push(':') + padded(second, 2).push('.') + padded(milliseconds, 3),
{
    assert(time_string(hour, minute, second, milliseconds) =~= padded(hour, 2).push(':') + padded(
        minute,
        2,
    ).push(':') + padded(second, 2).push('.') + padded(milliseconds, 3));
}

} // verus!
