//! Frames in textures and the choice of the monitor.
//!
//! A texture that is mapped into memory holds its rows at a distance, the row pitch,
//! that may exceed the length of a row.
use crate::error::RecorderError;
use vstd::prelude::*;

verus! {

/// The place of an output on the desktop.
#[derive(Clone, Copy, Debug, PartialEq, Eq)]
pub struct DesktopRect {
    pub left: i32,
    pub top: i32,
    pub right: i32,
    pub bottom: i32,
}

/// `monitor` names the primary monitor (1) or the secondary one (2).
pub open spec fn is_monitor(monitor: u32) -> bool {
    monitor == 1 || monitor == 2
}

/// An output that `monitor` may stand for: the primary monitor starts at the left edge
/// of the desktop, a secondary one does not.
pub open spec fn qualifies(monitor: u32, rect: DesktopRect) -> bool {
    (monitor == 1) == (rect.left == 0)
}

/// `rects[i]` comes before `rects[j]` from left to right; of two outputs with the
/// same left edge the one listed first does.
pub open spec fn left_of(rects: Seq<DesktopRect>, i: int, j: int) -> bool {
    rects[i].left < rects[j].left || (rects[i].left == rects[j].left && i < j)
}

/// `monitor` stands for output number `i`: the leftmost one that qualifies.
pub open spec fn stands_for(monitor: u32, rects: Seq<DesktopRect>, i: int) -> bool {
    &&& 0 <= i < rects.len()
    &&& qualifies(monitor, rects[i])
    &&& forall|j: int|
        0 <= j < rects.len() && j != i && qualifies(monitor, #[trigger] rects[j]) ==> left_of(
            rects,
            i,
            j,
        )
}

/// The extent of the output is a 32-bit signed number in both directions.
pub open spec fn has_extent(rect: DesktopRect) -> bool {
    i32::MIN <= rect.right - rect.left <= i32::MAX && i32::MIN <= rect.bottom - rect.top
        <= i32::MAX
}

/// Width and height of an output, as 32-bit numbers without a sign.
pub open spec fn extent_of(rect: DesktopRect) -> (int, int) {
    ((rect.right - rect.left) % 0x1_0000_0000, (rect.bottom - rect.top) % 0x1_0000_0000)
}

/// The output that `monitor` stands for, if there is one, has an extent.
pub open spec fn is_measured(monitor: u32, rects: Seq<DesktopRect>) -> bool {
    forall|i: int|
        is_monitor(monitor) && #[trigger] stands_for(monitor, rects, i) ==> has_extent(rects[i])
}

/// `size` is the extent of the output that `monitor` stands for, or the error if
/// `monitor` is no monitor number or there is no such output.
pub open spec fn is_size_of(
    monitor: u32,
    rects: Seq<DesktopRect>,
    size: Result<(u32, u32), RecorderError>,
) -> bool {
    &&& !is_monitor(monitor) ==> size is Err && crate::error::is_invalid_param(
        size->Err_0,
        "monitor must be 1 or 2"@,
    )
    &&& is_monitor(monitor) && (forall|i: int|
        0 <= i < rects.len() ==> !qualifies(monitor, #[trigger] rects[i])) ==> size == Err::<
        (u32, u32),
        RecorderError,
    >(RecorderError::MonitorNotFound { monitor })
    &&& is_monitor(monitor) && (exists|i: int|
        0 <= i < rects.len() && qualifies(monitor, #[trigger] rects[i])) ==> exists|i: int| #[trigger]
        stands_for(monitor, rects, i) && size is Ok && (size->Ok_0.0 as int, size->Ok_0.1 as int)
            == extent_of(rects[i])
}

/// A signed number as the unsigned one with the same bits.
fn same_bits(value: i32) -> (bits: u32)
    ensures
        bits == value as int % 0x1_0000_0000,
{
    if value >= 0 {
        value as u32
    } else {
        (value as i64 + 0x1_0000_0000) as u32
    }
}

/// The number of bytes in a frame.
pub open spec fn frame_bytes(width: u32, height: u32) -> int {
    width * height * 4
}

/// A mapped texture of the given size fits in `len` bytes at the given row pitch.
pub open spec fn mapped_texture(len: nat, row_pitch: usize, width: u32, height: u32) -> bool {
    &&& 4 * width <= row_pitch
    &&& width > 0 && height > 0 ==> (height - 1) * row_pitch + 4 * width <= len
}

/// The mapped texture with the rows of `frame` in it; what lies between the rows and
/// behind the last one is kept.
pub open spec fn with_rows(
    mapped: Seq<u8>,
    row_pitch: int,
    frame: Seq<u8>,
    width: int,
    height: int,
) -> Seq<u8> {
    Seq::new(
        mapped.len(),
        |k: int|
            if k / row_pitch < height && 0 <= k % row_pitch < 4 * width {
                frame[k / row_pitch * (4 * width) + k % row_pitch]
            } else {
                mapped[k]
            },
    )
}

/// The textures through which frames reach the encoder.
#[derive(Clone, Copy, Debug, PartialEq, Eq)]
pub struct D3D11TextureManager {
    pub width: u32,
    pub height: u32,
}

impl D3D11TextureManager {
    /// Textures of the given size.
    pub fn new(width: u32, height: u32) -> (manager: Self)
        ensures
            manager.width == width,
            manager.height == height,
    {
        D3D11TextureManager { width, height }
    }

    /// Refuses a frame that does not have the size of the textures.
    pub fn check_frame(&self, frame_data: &[u8]) -> (checked: Result<(), RecorderError>)
        requires
            frame_bytes(self.width, self.height) <= u32::MAX,
        ensures
            frame_data@.len() == frame_bytes(self.width, self.height) ==> checked == Ok::<
                (),
                RecorderError,
            >(()),
            frame_data@.len() != frame_bytes(self.width, self.height) ==> checked == Err::<
                (),
                RecorderError,
            >(
                RecorderError::FrameSizeMismatch {
                    expected: frame_bytes(self.width, self.height) as usize,
                    actual: frame_data@.len() as usize,
                },
            ),
    {
        proof {
            lemma_frame_bytes(self.width, self.height);
        }
        let expected: usize = (self.width * self.height * 4) as usize;
        if frame_data.len() != expected {
            return Err(
                RecorderError::FrameSizeMismatch { expected, actual: frame_data.len() },
            );
        }
        Ok(())
    }

    /// Copies a frame into the mapped texture, row by row, and refuses one that does
    /// not have the size of the texture.
    pub fn upload_bgra(
        &self,
        frame_data: &[u8],
        mapped: &mut [u8],
        row_pitch: usize,
    ) -> (uploaded: Result<(), RecorderError>)
        requires
            frame_bytes(self.width, self.height) <= u32::MAX,
            frame_data@.len() == frame_bytes(self.width, self.height) ==> mapped_texture(
                old(mapped)@.len(),
                row_pitch,
                self.width,
                self.height,
            ),
        ensures
            frame_data@.len() == frame_bytes(self.width, self.height) ==> uploaded == Ok::<
                (),
                RecorderError,
            >(()) && final(mapped)@ == with_rows(
                old(mapped)@,
                row_pitch as int,
                frame_data@,
                self.width as int,
                self.height as int,
            ),
            frame_data@.len() != frame_bytes(self.width, self.height) ==> uploaded == Err::<
                (),
                RecorderError,
            >(
                RecorderError::FrameSizeMismatch {
                    expected: frame_bytes(self.width, self.height) as usize,
                    actual: frame_data@.len() as usize,
                },
            ) && final(mapped)@ == old(mapped)@,
    {
        match self.check_frame(frame_data) {
            Ok(()) => {
                copy_rows(frame_data, mapped, row_pitch, self.width as usize, self.height as usize);
                Ok(())
            },
            Err(error) => Err(error),
        }
    }

    /// The width of the textures.
    pub fn width(&self) -> (width: u32)
        ensures
            width == self.width,
    {
        self.width
    }

    /// The height of the textures.
    pub fn height(&self) -> (height: u32)
        ensures
            height == self.height,
    {
        self.height
    }
}

/// `index` is the place of byte `col` of row `row`.
proof fn lemma_row_position(row_pitch: int, row: int, col: int, index: int)
    requires
        0 <= col < row_pitch,
        0 <= row,
    ensures
        index == row * row_pitch + col <==> index / row_pitch == row && index % row_pitch == col,
{
    vstd::arithmetic::div_mod::lemma_fundamental_div_mod(index, row_pitch);
    assert(row_pitch * (index / row_pitch) == (index / row_pitch) * row_pitch) by (nonlinear_arith);
    if index == row * row_pitch + col {
        vstd::arithmetic::div_mod::lemma_fundamental_div_mod_converse(index, row_pitch, row, col);
    }
}

/// A byte of a row lies in the mapped texture, and in the frame.
proof fn lemma_row_bounds(row_pitch: int, width: int, height: int, row: int, col: int)
    requires
        0 <= row < height,
        0 <= col < 4 * width <= row_pitch,
    ensures
        0 <= row * row_pitch,
        0 <= row * (4 * width),
        row * row_pitch + col < (height - 1) * row_pitch + 4 * width,
        row * (4 * width) + col < width * height * 4,
{
    assert(0 <= row * row_pitch <= (height - 1) * row_pitch) by (nonlinear_arith)
        requires
            0 <= row <= height - 1,
            0 <= row_pitch,
    ;
    assert(0 <= row * (4 * width)) by (nonlinear_arith)
        requires
            0 <= row,
            0 <= width,
    ;
    assert(row * (4 * width) + 4 * width <= width * height * 4) by (nonlinear_arith)
        requires
            row + 1 <= height,
            0 <= width,
    ;
}

/// Copies the rows of a frame to their places in a mapped texture.
fn copy_rows(frame: &[u8], mapped: &mut [u8], row_pitch: usize, width: usize, height: usize)
    requires
        frame@.len() == width * height * 4,
        4 * width <= row_pitch,
        width > 0 && height > 0 ==> (height - 1) * row_pitch + 4 * width <= old(mapped)@.len(),
    ensures
        final(mapped)@ == with_rows(
            old(mapped)@,
            row_pitch as int,
            frame@,
            width as int,
            height as int,
        ),
{
    let row_len: usize = 4 * width;
    let ghost before = mapped@;
    let ghost pitch = row_pitch as int;
    assert(frame.len() == frame@.len());
    assert(mapped.len() == mapped@.len());
    let mut row: usize = 0;
    if width > 0 {
        while row < height
            invariant
                before == old(mapped)@,
                pitch == row_pitch,
                row <= height,
                0 < width,
                row_len == 4 * width,
                row_len <= row_pitch,
                frame@.len() == width * height * 4,
                frame@.len() <= usize::MAX,
                before.len() <= usize::MAX,
                mapped@.len() == before.len(),
                height > 0 ==> (height - 1) * row_pitch + row_len <= before.len(),
                forall|k: int|
                    0 <= k < before.len() ==> #[trigger] mapped@[k] == (if k / pitch < row && k
                        % pitch < row_len {
                        frame@[k / pitch * row_len + k % pitch]
                    } else {
                        before[k]
                    }),
            decreases height - row,
        {
            let mut col: usize = 0;
            while col < row_len
                invariant
                    pitch == row_pitch,
                    row < height,
                    col <= row_len,
                    0 < width,
                    row_len == 4 * width,
                    row_len <= row_pitch,
                    frame@.len() == width * height * 4,
                    frame@.len() <= usize::MAX,
                    before.len() <= usize::MAX,
                    mapped@.len() == before.len(),
                    (height - 1) * row_pitch + row_len <= before.len(),
                    forall|k: int|
                        0 <= k < before.len() ==> #[trigger] mapped@[k] == (if k % pitch < row_len
                            && (k / pitch < row || (k / pitch == row && k % pitch < col)) {
                            frame@[k / pitch * row_len + k % pitch]
                        } else {
                            before[k]
                        }),
                decreases row_len - col,
            {
                proof {
                    lemma_row_bounds(pitch, width as int, height as int, row as int, col as int);
                }
                let index: usize = row * row_pitch + col;
                let ghost last = mapped@;
                mapped[index] = frame[row * row_len + col];
                proof {
                    assert forall|k: int| 0 <= k < before.len() implies #[trigger] mapped@[k] == (if k
                        % pitch < row_len && (k / pitch < row || (k / pitch == row && k % pitch < col
                        + 1)) {
                        frame@[k / pitch * row_len + k % pitch]
                    } else {
                        before[k]
                    }) by {
                        lemma_row_position(pitch, row as int, col as int, k);
                        if k != index {
                            assert(mapped@[k] == last[k]);
                        }
                    }
                }
                col += 1;
            }
            row += 1;
        }
    }
    proof {
        let expected = with_rows(before, pitch, frame@, width as int, height as int);
        assert forall|k: int| 0 <= k < before.len() implies mapped@[k] == expected[k] by {
            if width > 0 {
                vstd::arithmetic::div_mod::lemma_mod_bound(k, pitch);
            }
        }
        assert(mapped@ =~= expected);
    }
}

/// Refuses a monitor number other than 1 and 2.
pub fn check_monitor(monitor: u32) -> (checked: Result<(), RecorderError>)
    ensures
        is_monitor(monitor) ==> checked == Ok::<(), RecorderError>(()),
        !is_monitor(monitor) ==> checked is Err && crate::error::is_invalid_param(
            checked->Err_0,
            "monitor must be 1 or 2"@,
        ),
{
    if monitor != 1 && monitor != 2 {
        return Err(RecorderError::InvalidParam("monitor must be 1 or 2".to_string()));
    }
    Ok(())
}

impl D3D11TextureManager {
    /// The size of the monitor among the given outputs: of the leftmost one that starts
    /// at the left edge of the desktop (1), or of the leftmost other one (2).
    pub fn detect_monitor(monitor: u32, outputs: &Vec<DesktopRect>) -> (size: Result<
        (u32, u32),
        RecorderError,
    >)
        requires
            is_measured(monitor, outputs@),
        ensures
            is_size_of(monitor, outputs@, size),
    {
        match check_monitor(monitor) {
            Ok(()) => {},
            Err(error) => {
                return Err(error);
            },
        }
        let mut found: Option<usize> = None;
        let mut i: usize = 0;
        while i < outputs.len()
            invariant
                i <= outputs@.len(),
                is_monitor(monitor),
                found is None ==> forall|j: int|
                    0 <= j < i ==> !qualifies(monitor, #[trigger] outputs@[j]),
                found matches Some(best) ==> {
                    &&& best < i
                    &&& qualifies(monitor, outputs@[best as int])
                    &&& forall|j: int|
                        0 <= j < i && j != best && qualifies(monitor, #[trigger] outputs@[j])
                            ==> left_of(outputs@, best as int, j)
                },
            decreases outputs@.len() - i,
        {
            let candidate: bool = (monitor == 1) == (outputs[i].left == 0);
            if candidate {
                match found {
                    None => {
                        found = Some(i);
                    },
                    Some(best) => {
                        if outputs[i].left < outputs[best].left {
                            found = Some(i);
                        }
                    },
                }
            }
            i += 1;
        }
        match found {
            None => Err(RecorderError::MonitorNotFound { monitor }),
            Some(best) => {
                assert(stands_for(monitor, outputs@, best as int));
                let rect: DesktopRect = outputs[best];
                Ok((same_bits(rect.right - rect.left), same_bits(rect.bottom - rect.top)))
            },
        }
    }
}

/// A monitor number never stands for two outputs.
pub proof fn law_monitor_stands_for_one_output(
    monitor: u32,
    rects: Seq<DesktopRect>,
    i: int,
    j: int,
)
    requires
        stands_for(monitor, rects, i),
        stands_for(monitor, rects, j),
    ensures
        i == j,
{
    if i != j {
        assert(qualifies(monitor, rects[i]));
        assert(qualifies(monitor, rects[j]));
    }
}

/// A monitor has one size: it does not depend on anything but the outputs.
pub proof fn law_monitor_has_one_size(
    monitor: u32,
    rects: Seq<DesktopRect>,
    size: (u32, u32),
    other: Result<(u32, u32), RecorderError>,
)
    requires
        is_size_of(monitor, rects, Ok(size)),
        is_size_of(monitor, rects, other),
    ensures
        other == Ok::<(u32, u32), RecorderError>(size),
{
    assert(exists|i: int| 0 <= i < rects.len() && qualifies(monitor, #[trigger] rects[i]));
    let i = choose|i: int| #[trigger]
        stands_for(monitor, rects, i) && (size.0 as int, size.1 as int) == extent_of(rects[i]);
    let j = choose|j: int| #[trigger]
        stands_for(monitor, rects, j) && (other->Ok_0.0 as int, other->Ok_0.1 as int) == extent_of(
            rects[j],
        );
    law_monitor_stands_for_one_output(monitor, rects, i, j);
}

/// `order` lists the outputs from left to right.
pub open spec fn left_to_right(rects: Seq<DesktopRect>, order: Seq<int>) -> bool {
    &&& forall|a: int| 0 <= a < order.len() ==> 0 <= #[trigger] order[a] < rects.len()
    &&& forall|i: int| 0 <= i < rects.len() ==> #[trigger] order.contains(i)
    &&& forall|a: int, b: int|
        0 <= a < b < order.len() ==> left_of(rects, #[trigger] order[a], #[trigger] order[b])
}

/// The output that a monitor number stands for is the first one that qualifies when
/// the outputs are sorted by their left edge and those with the same left edge keep
/// their order.
pub proof fn law_monitor_is_first_from_the_left(
    monitor: u32,
    rects: Seq<DesktopRect>,
    order: Seq<int>,
    first: int,
)
    requires
        left_to_right(rects, order),
        0 <= first < order.len(),
        qualifies(monitor, rects[order[first]]),
        forall|a: int| 0 <= a < first ==> !qualifies(monitor, rects[#[trigger] order[a]]),
    ensures
        stands_for(monitor, rects, order[first]),
{
    let i = order[first];
    assert forall|j: int|
        0 <= j < rects.len() && j != i && qualifies(monitor, #[trigger] rects[j]) implies left_of(
        rects,
        i,
        j,
    ) by {
        assert(order.contains(j));
        let a = choose|a: int| 0 <= a < order.len() && order[a] == j;
        assert(order[a] == j);
    }
}

/// Every byte of an uploaded frame is found in its row of the texture.
pub proof fn law_uploaded_frame_can_be_read_back(
    mapped: Seq<u8>,
    row_pitch: usize,
    frame: Seq<u8>,
    width: u32,
    height: u32,
    row: int,
    col: int,
)
    requires
        mapped_texture(mapped.len(), row_pitch, width, height),
        frame.len() == frame_bytes(width, height),
        0 <= row < height,
        0 <= col < 4 * width,
    ensures
        0 <= row * row_pitch + col < mapped.len(),
        with_rows(mapped, row_pitch as int, frame, width as int, height as int)[row * row_pitch
            + col] == frame[row * (4 * width) + col],
{
    lemma_row_bounds(row_pitch as int, width as int, height as int, row, col);
    lemma_row_position(row_pitch as int, row, col, row * row_pitch + col);
}

/// Uploading a second frame leaves nothing of the first one.
pub proof fn law_upload_replaces_the_frame(
    mapped: Seq<u8>,
    row_pitch: int,
    first: Seq<u8>,
    second: Seq<u8>,
    width: int,
    height: int,
)
    ensures
        with_rows(
            with_rows(mapped, row_pitch, first, width, height),
            row_pitch,
            second,
            width,
            height,
        ) == with_rows(mapped, row_pitch, second, width, height),
{
    assert(with_rows(
        with_rows(mapped, row_pitch, first, width, height),
        row_pitch,
        second,
        width,
        height,
    ) =~= with_rows(mapped, row_pitch, second, width, height));
}

proof fn lemma_frame_bytes(width: u32, height: u32)
    ensures
        0 <= width * height <= frame_bytes(width, height),
{
    assert(0 <= width * height) by (nonlinear_arith);
}

/// A frame has four bytes per pixel.
pub proof fn law_frame_size(width: u32, height: u32)
    ensures
        frame_bytes(width, height) == 4 * (width * height),
        0 <= frame_bytes(width, height),
{
    lemma_frame_bytes(width, height);
}

/// `distance` leads from one edge to the other. Where the edges are in the wrong order it
/// wraps around at 2^32.
pub open spec fn is_distance(distance: u32, from: i32, to: i32) -> bool {
    &&& from <= to ==> distance == to - from
    &&& from > to ==> distance == to - from + 4294967296
}

/// The primary monitor is the first output that starts at the left edge of the desktop. Its
/// size is the distance between its edges.
pub proof fn law_primary_monitor(
    rects: Seq<DesktopRect>,
    size: Result<(u32, u32), RecorderError>,
    i: int,
)
    requires
        is_size_of(1, rects, size),
        0 <= i < rects.len(),
        rects[i].left == 0,
        forall|j: int| 0 <= j < i ==> (#[trigger] rects[j]).left != 0,
    ensures
        size matches Ok((width, height)) && is_distance(width, rects[i].left, rects[i].right)
            && is_distance(height, rects[i].top, rects[i].bottom),
{
    assert(qualifies(1, rects[i]));
    let found = choose|found: int| #[trigger]
        stands_for(1, rects, found) && size is Ok && (size->Ok_0.0 as int, size->Ok_0.1 as int)
            == extent_of(rects[found]);
    assert(stands_for(1, rects, found));
    if found != i {
        assert(qualifies(1, rects[i]));
        assert(qualifies(1, rects[found]));
    }
}

/// The secondary monitor is the leftmost output that does not start at the left edge of the
/// desktop, and the first one of those that start at the same place.
pub proof fn law_secondary_monitor(
    rects: Seq<DesktopRect>,
    size: Result<(u32, u32), RecorderError>,
    i: int,
)
    requires
        is_size_of(2, rects, size),
        0 <= i < rects.len(),
        rects[i].left != 0,
        forall|j: int|
            0 <= j < rects.len() && (#[trigger] rects[j]).left != 0 ==> rects[i].left
                <= rects[j].left,
        forall|j: int|
            0 <= j < i && (#[trigger] rects[j]).left != 0 ==> rects[i].left < rects[j].left,
    ensures
        size matches Ok((width, height)) && is_distance(width, rects[i].left, rects[i].right)
            && is_distance(height, rects[i].top, rects[i].bottom),
{
    assert(qualifies(2, rects[i]));
    let found = choose|found: int| #[trigger]
        stands_for(2, rects, found) && size is Ok && (size->Ok_0.0 as int, size->Ok_0.1 as int)
            == extent_of(rects[found]);
    assert(stands_for(2, rects, found));
    if found != i {
        assert(qualifies(2, rects[i]));
        assert(qualifies(2, rects[found]));
        assert(left_of(rects, found, i));
    }
}

/// Without an output at the left edge there is no primary monitor, and without any other one
/// no secondary one. A monitor of any other number is refused.
pub proof fn law_missing_monitors(
    monitor: u32,
    rects: Seq<DesktopRect>,
    size: Result<(u32, u32), RecorderError>,
)
    requires
        is_size_of(monitor, rects, size),
    ensures
        monitor == 1 && (forall|j: int|
            0 <= j < rects.len() ==> (#[trigger] rects[j]).left != 0) ==> (
        size matches Err(RecorderError::MonitorNotFound { monitor: missing }) && missing == 1),
        monitor == 2 && (forall|j: int|
            0 <= j < rects.len() ==> (#[trigger] rects[j]).left == 0) ==> (
        size matches Err(RecorderError::MonitorNotFound { monitor: missing }) && missing == 2),
        monitor != 1 && monitor != 2 ==> (size matches Err(RecorderError::InvalidParam(message))
            && message@ == "monitor must be 1 or 2"@),
{
}

/// Outputs whose edges are in order and whose extents have 31 bits can be measured, whatever
/// the monitor.
pub proof fn law_ordinary_outputs_can_be_measured(monitor: u32, rects: Seq<DesktopRect>)
    requires
        forall|i: int|
            0 <= i < rects.len() ==> -2147483648 <= (#[trigger] rects[i]).right - rects[i].left
                <= 2147483647 && -2147483648 <= rects[i].bottom - rects[i].top <= 2147483647,
    ensures
        is_measured(monitor, rects),
{
    assert forall|i: int|
        is_monitor(monitor) && #[trigger] stands_for(monitor, rects, i) implies has_extent(
        rects[i],
    ) by {
        let rect = rects[i];
    }
}

/// An upload touches nothing but the rows of the frame: what lies behind a row up to the row
/// pitch, and behind the last row, is kept, and nothing is added.
pub proof fn law_upload_keeps_the_rest(
    mapped: Seq<u8>,
    row_pitch: int,
    frame: Seq<u8>,
    width: int,
    height: int,
    row: int,
    col: int,
)
    requires
        0 <= col < row_pitch,
        0 <= row,
        0 <= row * row_pitch + col < mapped.len(),
        row >= height || col >= 4 * width,
    ensures
        with_rows(mapped, row_pitch, frame, width, height).len() == mapped.len(),
        with_rows(mapped, row_pitch, frame, width, height)[row * row_pitch + col] == mapped[row
            * row_pitch + col],
{
    lemma_row_position(row_pitch, row, col, row * row_pitch + col);
}

/// A texture is mapped if the row pitch takes a row, and the bytes all rows.
pub proof fn law_mapped_textures(len: nat, row_pitch: usize, width: u32, height: u32)
    requires
        4 * width <= row_pitch,
        height * row_pitch <= len,
    ensures
        mapped_texture(len, row_pitch, width, height),
{
    if width > 0 && height > 0 {
        assert(height * row_pitch == (height - 1) * row_pitch + row_pitch) by (nonlinear_arith);
    }
}

/// There are two monitor numbers, 1 and 2.
pub proof fn law_monitor_numbers(monitor: u32)
    ensures
        is_monitor(monitor) <==> monitor == 1 || monitor == 2,
{
}

} // verus!
