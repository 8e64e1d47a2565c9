//! Validated immutable pixel video.
use vstd::prelude::*;

use crate::audio::length_details;
use crate::error::{code_prefix, ErrorCategory, MuxivaError};
use crate::frame_buffer::FrameBuffer;
use crate::text::u64_decimal;

verus! {

/// The pixel encoding of validated video data.
#[derive(Clone, Copy, Debug, PartialEq, Eq, Hash, Structural)]
pub enum PixelFormat {
    /// Packed red, green, blue, and alpha bytes for each pixel.
    Rgba8,
    /// Planar 8-bit luma with half-resolution chroma in both dimensions.
    Yuv420p,
}

/// Describes one immutable plane inside a video buffer.
#[derive(Debug, PartialEq, Eq, Structural)]
pub struct VideoPlane {
    offset: usize,
    stride: usize,
    row_bytes: usize,
    rows: u32,
}

impl VideoPlane {
    /// The plane's byte offset in the video buffer.
    pub closed spec fn spec_offset(&self) -> usize {
        self.offset
    }

    /// The stored byte distance between consecutive rows.
    pub closed spec fn spec_stride(&self) -> usize {
        self.stride
    }

    /// The meaningful pixel bytes in each row.
    pub closed spec fn spec_row_bytes(&self) -> usize {
        self.row_bytes
    }

    /// The number of stored rows.
    pub closed spec fn spec_rows(&self) -> u32 {
        self.rows
    }

    /// The bytes a plane spans: `stride * rows`, rows included in full.
    pub open spec fn spec_span(&self) -> int {
        self.spec_stride() * self.spec_rows()
    }

    /// Returns the plane's byte offset in the video buffer.
    pub fn offset(&self) -> (r: usize)
        ensures
            r == self.spec_offset(),
    {
        self.offset
    }

    /// Returns the stored byte distance between consecutive rows.
    pub fn stride(&self) -> (r: usize)
        ensures
            r == self.spec_stride(),
    {
        self.stride
    }

    /// Returns the number of meaningful pixel bytes in each row.
    pub fn row_bytes(&self) -> (r: usize)
        ensures
            r == self.spec_row_bytes(),
    {
        self.row_bytes
    }

    /// Returns the number of stored rows in the plane.
    pub fn rows(&self) -> (r: u32)
        ensures
            r == self.spec_rows(),
    {
        self.rows
    }

    fn make(offset: usize, stride: usize, row_bytes: usize, rows: u32) -> (r: Self)
        ensures
            r.spec_offset() == offset,
            r.spec_stride() == stride,
            r.spec_row_bytes() == row_bytes,
            r.spec_rows() == rows,
    {
        VideoPlane { offset, stride, row_bytes, rows }
    }
}

impl Clone for VideoPlane {
    fn clone(&self) -> (r: Self)
        ensures
            r == *self,
    {
        VideoPlane { offset: self.offset, stride: self.stride, row_bytes: self.row_bytes, rows: self.rows }
    }
}

/// The validated plane arrangement for a video buffer.
#[derive(Debug, PartialEq, Eq, Structural)]
pub enum VideoLayout {
    /// One packed RGBA8 plane.
    Rgba8 { plane: VideoPlane },
    /// Tightly sequenced Y, U, and V planes.
    Yuv420p { y: VideoPlane, u: VideoPlane, v: VideoPlane },
}

impl Clone for VideoLayout {
    fn clone(&self) -> (r: Self)
        ensures
            r == *self,
    {
        match self {
            VideoLayout::Rgba8 { plane } => VideoLayout::Rgba8 { plane: plane.clone() },
            VideoLayout::Yuv420p { y, u, v } => VideoLayout::Yuv420p {
                y: y.clone(),
                u: u.clone(),
                v: v.clone(),
            },
        }
    }
}

/// A plane with exactly the given geometry.
pub open spec fn plane_is(p: VideoPlane, offset: int, stride: int, row_bytes: int, rows: int) -> bool {
    &&& p.spec_offset() == offset
    &&& p.spec_stride() == stride
    &&& p.spec_row_bytes() == row_bytes
    &&& p.spec_rows() == rows
}

/// `p` is one of the planes of `layout`.
pub open spec fn layout_has_plane(layout: VideoLayout, p: VideoPlane) -> bool {
    match layout {
        VideoLayout::Rgba8 { plane } => p == plane,
        VideoLayout::Yuv420p { y, u, v } => p == y || p == u || p == v,
    }
}

/// The checks of the video constructors, in the order they run.
#[derive(PartialEq, Eq, Structural)]
pub enum VideoRejection {
    /// A dimension is zero, or odd for YUV420P.
    Dimensions,
    /// A stride is smaller than its plane's row width.
    Stride,
    /// A size does not fit in `usize`.
    Arithmetic,
    /// The payload length differs from the declared layout.
    Length,
}

/// The stable error code reported for each rejection.
pub open spec fn video_rejection_code(r: VideoRejection) -> Seq<char> {
    match r {
        VideoRejection::Dimensions => "MUXIVA-FRM-VIDEO-DIMENSIONS"@,
        VideoRejection::Stride => "MUXIVA-FRM-VIDEO-STRIDE"@,
        VideoRejection::Arithmetic => "MUXIVA-FRM-ARITHMETIC"@,
        VideoRejection::Length => "MUXIVA-FRM-VIDEO-LENGTH"@,
    }
}

/// The first check that `VideoData::rgba8` fails, or `None` on acceptance.
pub open spec fn rgba8_rejection(len: nat, width: u32, height: u32, stride: usize) -> Option<VideoRejection> {
    if width == 0 || height == 0 {
        Some(VideoRejection::Dimensions)
    } else if width * 4 > usize::MAX {
        Some(VideoRejection::Arithmetic)
    } else if stride < width * 4 {
        Some(VideoRejection::Stride)
    } else if stride * height > usize::MAX {
        Some(VideoRejection::Arithmetic)
    } else if len != stride * height {
        Some(VideoRejection::Length)
    } else {
        None
    }
}

/// The Y, U and V byte counts of a YUV420P layout.
pub open spec fn yuv_sizes(height: u32, y_stride: usize, u_stride: usize, v_stride: usize) -> (int, int, int) {
    (y_stride * height, u_stride * (height / 2), v_stride * (height / 2))
}

/// The first check that `VideoData::yuv420p` fails, or `None` on acceptance.
pub open spec fn yuv420p_rejection(
    len: nat,
    width: u32,
    height: u32,
    y_stride: usize,
    u_stride: usize,
    v_stride: usize,
) -> Option<VideoRejection> {
    let (y, u, v) = yuv_sizes(height, y_stride, u_stride, v_stride);
    if width == 0 || height == 0 || width % 2 != 0 || height % 2 != 0 {
        Some(VideoRejection::Dimensions)
    } else if y_stride < width || u_stride < width / 2 || v_stride < width / 2 {
        Some(VideoRejection::Stride)
    } else if y > usize::MAX || u > usize::MAX || v > usize::MAX || y + u > usize::MAX || y + u + v
        > usize::MAX {
        Some(VideoRejection::Arithmetic)
    } else if len != y + u + v {
        Some(VideoRejection::Length)
    } else {
        None
    }
}

/// Validated immutable pixel video.
#[derive(Debug, PartialEq, Eq)]
pub struct VideoData {
    buffer: FrameBuffer,
    width: u32,
    height: u32,
    pixel_format: PixelFormat,
    layout: VideoLayout,
}

/// The abstract content of validated video.
pub struct VideoView {
    pub bytes: Seq<u8>,
    pub width: u32,
    pub height: u32,
    pub pixel_format: PixelFormat,
    pub layout: VideoLayout,
}

impl View for VideoData {
    type V = VideoView;

    closed spec fn view(&self) -> VideoView {
        VideoView {
            bytes: self.buffer@,
            width: self.width,
            height: self.height,
            pixel_format: self.pixel_format,
            layout: self.layout,
        }
    }
}

/// The exact layout that validated video of the given shape has.
pub open spec fn video_well_formed(v: VideoView) -> bool {
    match v.layout {
        VideoLayout::Rgba8 { plane } => {
            &&& v.pixel_format == PixelFormat::Rgba8
            &&& rgba8_rejection(v.bytes.len(), v.width, v.height, plane.spec_stride()) is None
            &&& plane_is(plane, 0, plane.spec_stride() as int, v.width * 4, v.height as int)
        },
        VideoLayout::Yuv420p { y, u, v: vp } => {
            let (ys, us, vs) = yuv_sizes(v.height, y.spec_stride(), u.spec_stride(), vp.spec_stride());
            &&& v.pixel_format == PixelFormat::Yuv420p
            &&& yuv420p_rejection(
                v.bytes.len(),
                v.width,
                v.height,
                y.spec_stride(),
                u.spec_stride(),
                vp.spec_stride(),
            ) is None
            &&& plane_is(y, 0, y.spec_stride() as int, v.width as int, v.height as int)
            &&& plane_is(u, ys, u.spec_stride() as int, (v.width / 2) as int, (v.height / 2) as int)
            &&& plane_is(vp, ys + us, vp.spec_stride() as int, (v.width / 2) as int, (v.height / 2) as int)
        },
    }
}

/// The full stride-including byte range of a plane.
pub open spec fn plane_range(bytes: Seq<u8>, p: VideoPlane) -> Seq<u8> {
    bytes.subrange(p.spec_offset() as int, p.spec_offset() + p.spec_span())
}

fn arithmetic_error() -> (e: MuxivaError)
    ensures
        e.spec_code() == video_rejection_code(VideoRejection::Arithmetic),
        e.spec_category() == ErrorCategory::Validation,
{
    proof {
        reveal_strlit("MUXIVA-FRM-ARITHMETIC");
        assert("MUXIVA-FRM-ARITHMETIC"@.subrange(0, 7) =~= code_prefix());
    }
    MuxivaError::new(ErrorCategory::Validation, "MUXIVA-FRM-ARITHMETIC", "frame size arithmetic overflowed")
}

fn dimensions_error() -> (e: MuxivaError)
    ensures
        e.spec_code() == video_rejection_code(VideoRejection::Dimensions),
        e.spec_category() == ErrorCategory::Validation,
{
    proof {
        reveal_strlit("MUXIVA-FRM-VIDEO-DIMENSIONS");
        assert("MUXIVA-FRM-VIDEO-DIMENSIONS"@.subrange(0, 7) =~= code_prefix());
    }
    MuxivaError::new(
        ErrorCategory::Validation,
        "MUXIVA-FRM-VIDEO-DIMENSIONS",
        "video dimensions are invalid for the pixel format",
    )
}

fn stride_error() -> (e: MuxivaError)
    ensures
        e.spec_code() == video_rejection_code(VideoRejection::Stride),
        e.spec_category() == ErrorCategory::Validation,
{
    proof {
        reveal_strlit("MUXIVA-FRM-VIDEO-STRIDE");
        assert("MUXIVA-FRM-VIDEO-STRIDE"@.subrange(0, 7) =~= code_prefix());
    }
    MuxivaError::new(
        ErrorCategory::Validation,
        "MUXIVA-FRM-VIDEO-STRIDE",
        "video stride is smaller than its plane row width",
    )
}

fn length_error(expected: usize, actual: usize) -> (e: MuxivaError)
    ensures
        e.spec_code() == video_rejection_code(VideoRejection::Length),
        e.spec_category() == ErrorCategory::Validation,
        length_details(e.spec_contexts(), expected as nat, actual as nat),
{
    proof {
        reveal_strlit("MUXIVA-FRM-VIDEO-LENGTH");
        assert("MUXIVA-FRM-VIDEO-LENGTH"@.subrange(0, 7) =~= code_prefix());
    }
    let error = MuxivaError::new(
        ErrorCategory::Validation,
        "MUXIVA-FRM-VIDEO-LENGTH",
        "video payload length does not match its declared layout",
    );
    let expected_text = u64_decimal(expected as u64);
    let actual_text = u64_decimal(actual as u64);
    let error = error.with_context("expected_bytes", expected_text.as_str());
    let error = error.with_context("actual_bytes", actual_text.as_str());
    proof {
        assert(error.spec_contexts()[0] == error.spec_contexts().drop_last()[0]);
    }
    error
}

fn invalid_plane_error() -> (e: MuxivaError)
    ensures
        e.spec_code() == "MUXIVA-FRM-VIDEO-PLANE"@,
        e.spec_category() == ErrorCategory::Validation,
{
    proof {
        reveal_strlit("MUXIVA-FRM-VIDEO-PLANE");
        assert("MUXIVA-FRM-VIDEO-PLANE"@.subrange(0, 7) =~= code_prefix());
    }
    MuxivaError::new(
        ErrorCategory::Validation,
        "MUXIVA-FRM-VIDEO-PLANE",
        "video plane descriptor is not part of the layout",
    )
}

/// Whether `a` and `b` are the same plane instance (`std::ptr::eq`). The
/// answer depends on addresses; only that the same instance has the same
/// value is stated.
#[verifier::external_body]
fn same_instance(a: &VideoPlane, b: &VideoPlane) -> (r: bool)
    ensures
        r ==> *a == *b,
{
    std::ptr::eq(a, b)
}

impl VideoData {
    #[verifier::type_invariant]
    closed spec fn inv(self) -> bool {
        video_well_formed(self@)
    }

    /// Creates packed RGBA8 video after validating its exact layout and length.
    pub fn rgba8(buffer: FrameBuffer, width: u32, height: u32, stride: usize) -> (r: Result<Self, MuxivaError>)
        ensures
            match r {
                Ok(v) => {
                    &&& rgba8_rejection(buffer@.len(), width, height, stride) is None
                    &&& v@.bytes == buffer@
                    &&& v@.width == width
                    &&& v@.height == height
                    &&& v@.pixel_format == PixelFormat::Rgba8
                    &&& v@.layout matches VideoLayout::Rgba8 { plane } && plane_is(
                        plane,
                        0,
                        stride as int,
                        width * 4,
                        height as int,
                    )
                },
                Err(e) => match rgba8_rejection(buffer@.len(), width, height, stride) {
                    None => false,
                    Some(k) => {
                        &&& e.spec_code() == video_rejection_code(k)
                        &&& e.spec_category() == ErrorCategory::Validation
                        &&& k == VideoRejection::Length ==> length_details(
                            e.spec_contexts(),
                            (stride * height) as nat,
                            buffer@.len(),
                        )
                    },
                },
            },
    {
        if width == 0 || height == 0 {
            return Err(dimensions_error());
        }
        let w = width as usize;
        let row_bytes = match w.checked_mul(4) {
            Some(v) => v,
            None => return Err(arithmetic_error()),
        };
        if stride < row_bytes {
            return Err(stride_error());
        }
        let plane_bytes = match stride.checked_mul(height as usize) {
            Some(v) => v,
            None => return Err(arithmetic_error()),
        };
        if buffer.len() != plane_bytes {
            return Err(length_error(plane_bytes, buffer.len()));
        }
        let plane = VideoPlane::make(0, stride, row_bytes, height);
        Ok(VideoData { buffer, width, height, pixel_format: PixelFormat::Rgba8, layout: VideoLayout::Rgba8 { plane } })
    }

    /// Creates planar YUV420P video after validating its exact layout and length.
    pub fn yuv420p(
        buffer: FrameBuffer,
        width: u32,
        height: u32,
        y_stride: usize,
        u_stride: usize,
        v_stride: usize,
    ) -> (r: Result<Self, MuxivaError>)
        ensures
            match r {
                Ok(d) => {
                    let (ys, us, vs) = yuv_sizes(height, y_stride, u_stride, v_stride);
                    &&& yuv420p_rejection(buffer@.len(), width, height, y_stride, u_stride, v_stride) is None
                    &&& d@.bytes == buffer@
                    &&& d@.width == width
                    &&& d@.height == height
                    &&& d@.pixel_format == PixelFormat::Yuv420p
                    &&& d@.layout matches VideoLayout::Yuv420p { y, u, v } && plane_is(
                        y,
                        0,
                        y_stride as int,
                        width as int,
                        height as int,
                    ) && plane_is(u, ys, u_stride as int, (width / 2) as int, (height / 2) as int) && plane_is(
                        v,
                        ys + us,
                        v_stride as int,
                        (width / 2) as int,
                        (height / 2) as int,
                    )
                },
                Err(e) => match yuv420p_rejection(buffer@.len(), width, height, y_stride, u_stride, v_stride) {
                    None => false,
                    Some(k) => {
                        let (ys, us, vs) = yuv_sizes(height, y_stride, u_stride, v_stride);
                        &&& e.spec_code() == video_rejection_code(k)
                        &&& e.spec_category() == ErrorCategory::Validation
                        &&& k == VideoRejection::Length ==> length_details(
                            e.spec_contexts(),
                            (ys + us + vs) as nat,
                            buffer@.len(),
                        )
                    },
                },
            },
    {
        if width == 0 || height == 0 || width % 2 != 0 || height % 2 != 0 {
            return Err(dimensions_error());
        }
        let y_row_bytes = width as usize;
        let chroma_row_bytes = (width / 2) as usize;
        if y_stride < y_row_bytes || u_stride < chroma_row_bytes || v_stride < chroma_row_bytes {
            return Err(stride_error());
        }
        let y_rows = height;
        let chroma_rows = height / 2;
        let y_bytes = match y_stride.checked_mul(y_rows as usize) {
            Some(v) => v,
            None => return Err(arithmetic_error()),
        };
        let u_bytes = match u_stride.checked_mul(chroma_rows as usize) {
            Some(v) => v,
            None => return Err(arithmetic_error()),
        };
        let v_bytes = match v_stride.checked_mul(chroma_rows as usize) {
            Some(v) => v,
            None => return Err(arithmetic_error()),
        };
        let v_offset = match y_bytes.checked_add(u_bytes) {
            Some(v) => v,
            None => return Err(arithmetic_error()),
        };
        let total_bytes = match v_offset.checked_add(v_bytes) {
            Some(v) => v,
            None => return Err(arithmetic_error()),
        };
        if buffer.len() != total_bytes {
            return Err(length_error(total_bytes, buffer.len()));
        }
        let y = VideoPlane::make(0, y_stride, y_row_bytes, y_rows);
        let u = VideoPlane::make(y_bytes, u_stride, chroma_row_bytes, chroma_rows);
        let v = VideoPlane::make(v_offset, v_stride, chroma_row_bytes, chroma_rows);
        Ok(VideoData { buffer, width, height, pixel_format: PixelFormat::Yuv420p, layout: VideoLayout::Yuv420p { y, u, v } })
    }

    /// Returns the immutable pixel payload.
    pub fn buffer(&self) -> (r: &FrameBuffer)
        ensures
            r@ == self@.bytes,
    {
        &self.buffer
    }

    /// Returns the frame width in pixels.
    pub fn width(&self) -> (r: u32)
        ensures
            r == self@.width,
    {
        self.width
    }

    /// Returns the frame height in pixels.
    pub fn height(&self) -> (r: u32)
        ensures
            r == self@.height,
    {
        self.height
    }

    /// Returns the pixel encoding.
    pub fn pixel_format(&self) -> (r: PixelFormat)
        ensures
            r == self@.pixel_format,
    {
        self.pixel_format
    }

    /// Returns the validated plane arrangement.
    pub fn layout(&self) -> (r: &VideoLayout)
        ensures
            *r == self@.layout,
    {
        &self.layout
    }

    /// Returns the full stride-including byte range of a plane, given
    /// whether the descriptor is one of this value's own layout instances.
    ///
    /// A descriptor that is not one of them is rejected, even when all of
    /// its scalar fields match.
    pub fn plane_bytes_for_member(&self, plane: &VideoPlane, member: bool) -> (r: Result<&[u8], MuxivaError>)
        requires
            member ==> layout_has_plane(self@.layout, *plane),
        ensures
            member ==> (r matches Ok(b) && b@ == plane_range(self@.bytes, *plane)),
            !member ==> (r matches Err(e) && e.spec_code() == "MUXIVA-FRM-VIDEO-PLANE"@),
    {
        proof {
            use_type_invariant(self);
        }
        if !member {
            return Err(invalid_plane_error());
        }
        proof {
            lemma_layout_plane_in_bounds(self@, *plane);
        }
        let span = plane.stride * (plane.rows as usize);
        let end = plane.offset + span;
        Ok(vstd::slice::slice_subrange(self.buffer.as_slice(), plane.offset, end))
    }

    /// Returns the plane's full immutable stride-including byte range.
    ///
    /// The descriptor must be one of the exact instances borrowed from this
    /// value's [`Self::layout`]; a descriptor from another value is rejected.
    pub fn plane_bytes(&self, plane: &VideoPlane) -> (r: Result<&[u8], MuxivaError>)
        ensures
            match r {
                Ok(b) => layout_has_plane(self@.layout, *plane) && b@ == plane_range(self@.bytes, *plane),
                Err(e) => e.spec_code() == "MUXIVA-FRM-VIDEO-PLANE"@,
            },
    {
        let member = match &self.layout {
            VideoLayout::Rgba8 { plane: own } => same_instance(plane, own),
            VideoLayout::Yuv420p { y, u, v } => same_instance(plane, y) || same_instance(plane, u)
                || same_instance(plane, v),
        };
        self.plane_bytes_for_member(plane, member)
    }
}

/// Every plane of a well-formed layout lies inside the buffer.
proof fn lemma_layout_plane_in_bounds(v: VideoView, p: VideoPlane)
    requires
        video_well_formed(v),
        layout_has_plane(v.layout, p),
    ensures
        0 <= p.spec_offset() <= p.spec_offset() + p.spec_span() <= v.bytes.len(),
        p.spec_stride() * (p.spec_rows() as int) <= usize::MAX,
        p.spec_offset() + p.spec_span() <= usize::MAX,
{
    assert(p.spec_stride() * p.spec_rows() >= 0) by (nonlinear_arith);
}

impl Clone for VideoData {
    fn clone(&self) -> (r: Self)
        ensures
            r@ == self@,
    {
        proof {
            use_type_invariant(self);
        }
        VideoData {
            buffer: self.buffer.clone(),
            width: self.width,
            height: self.height,
            pixel_format: self.pixel_format,
            layout: self.layout.clone(),
        }
    }
}

/// What `VideoData::rgba8` gives for these arguments: the video when no
/// check fails, otherwise the error of the first failing check.
pub open spec fn rgba8_made(r: Result<VideoData, MuxivaError>, bytes: Seq<u8>, width: u32, height: u32, stride: usize) -> bool {
    match r {
        Ok(v) => {
            &&& rgba8_rejection(bytes.len(), width, height, stride) is None
            &&& v@.bytes == bytes
            &&& v@.width == width
            &&& v@.height == height
            &&& v@.pixel_format == PixelFormat::Rgba8
            &&& v@.layout matches VideoLayout::Rgba8 { plane } && plane_is(plane, 0, stride as int, width * 4, height as int)
        },
        Err(e) => match rgba8_rejection(bytes.len(), width, height, stride) {
            None => false,
            Some(k) => {
                &&& e.spec_code() == video_rejection_code(k)
                &&& e.spec_category() == ErrorCategory::Validation
                &&& k == VideoRejection::Length ==> length_details(e.spec_contexts(), (stride * height) as nat, bytes.len())
            },
        },
    }
}

} // verus!
