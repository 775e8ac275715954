//! What is agreed with a v4l2loopback device: the frame format, the frame size
//! and the client-usage event.

use vstd::prelude::*;

use crate::text::{begins, chars_of, digits, push_decimal, push_text, same, starts_with, string_of};

verus! {

/// `V4L2_PIX_FMT_YUYV`: the four characters `YUYV`, first one lowest.
pub const V4L2_PIX_FMT_YUYV: u32 = 0x5659_5559;

/// `V4L2_BUF_TYPE_VIDEO_OUTPUT`.
pub const V4L2_BUF_TYPE_VIDEO_OUTPUT: u32 = 2;

/// `V4L2_FIELD_NONE`.
pub const V4L2_FIELD_NONE: u32 = 1;

/// `V4L2_COLORSPACE_SRGB`.
pub const V4L2_COLORSPACE_SRGB: u32 = 8;

/// `V4L2_QUANTIZATION_FULL_RANGE` (full-range YCbCr, matches the sRGB output).
pub const V4L2_QUANTIZATION_FULL_RANGE: u32 = 1;

/// `V4L2_EVENT_PRIVATE_START`.
pub const V4L2_EVENT_PRIVATE_START: u32 = 0x0800_0000;

/// v4l2loopback's client-usage event (module base + 0x08E00000 + 1).
pub const V4L2_EVENT_PRI_CLIENT_USAGE: u32 = V4L2_EVENT_PRIVATE_START + 0x08E0_0000 + 1;

/// `V4L2_EVENT_SUB_FL_SEND_INITIAL`: deliver the current state right after
/// subscribing, so a consumer already capturing at startup is noticed at once.
pub const V4L2_EVENT_SUB_FL_SEND_INITIAL: u32 = 1;

/// The fields of `struct v4l2_pix_format`.
#[derive(Debug, Clone, Copy, PartialEq, Eq, Structural)]
pub struct PixFormat {
    pub width: u32,
    pub height: u32,
    pub pixelformat: u32,
    pub field: u32,
    pub bytesperline: u32,
    pub sizeimage: u32,
    pub colorspace: u32,
    pub private: u32,
    pub flags: u32,
    pub enc: u32,
    pub quantization: u32,
    pub xfer_func: u32,
}

/// The format of packed YUYV frames of a given size: two bytes a pixel, full
/// range.
pub fn yuyv_format(width: u32, height: u32) -> (f: PixFormat)
    requires
        2 * width <= u32::MAX,
        2 * (width * height) <= u32::MAX,
    ensures
        f == (PixFormat {
            width,
            height,
            pixelformat: V4L2_PIX_FMT_YUYV,
            field: V4L2_FIELD_NONE,
            bytesperline: (2 * width) as u32,
            sizeimage: (2 * (width * height)) as u32,
            colorspace: V4L2_COLORSPACE_SRGB,
            private: 0,
            flags: 0,
            enc: 0,
            quantization: V4L2_QUANTIZATION_FULL_RANGE,
            xfer_func: 0,
        }),
{
    PixFormat {
        width,
        height,
        pixelformat: V4L2_PIX_FMT_YUYV,
        field: V4L2_FIELD_NONE,
        bytesperline: width * 2,
        sizeimage: width * height * 2,
        colorspace: V4L2_COLORSPACE_SRGB,
        private: 0,
        flags: 0,
        enc: 0,
        quantization: V4L2_QUANTIZATION_FULL_RANGE,
        xfer_func: 0,
    }
}

/// A frame whose length does not fit the device's format.
#[derive(Debug, Clone, Copy, PartialEq, Eq, Structural)]
pub struct WrongFrameSize {
    pub got: usize,
    pub width: u32,
    pub height: u32,
}

impl WrongFrameSize {
    /// What was found and what is expected.
    pub fn message(&self) -> (s: String)
        requires
            2 * (self.width * self.height) <= usize::MAX,
        ensures
            s@ == "frame is "@ + digits(self.got as nat) + " bytes, expected "@ + digits(
                2 * (self.width as nat * self.height as nat),
            ) + " ("@ + digits(self.width as nat) + "x"@ + digits(self.height as nat) + " YUYV)"@,
    {
        let mut m: Vec<char> = Vec::new();
        push_text(&mut m, "frame is ");
        push_decimal(&mut m, self.got as u64);
        push_text(&mut m, " bytes, expected ");
        push_decimal(&mut m, frame_size(self.width, self.height) as u64);
        push_text(&mut m, " (");
        push_decimal(&mut m, self.width as u64);
        push_text(&mut m, "x");
        push_decimal(&mut m, self.height as u64);
        push_text(&mut m, " YUYV)");
        let s: String = string_of(m);
        assert(s@ =~= "frame is "@ + digits(self.got as nat) + " bytes, expected "@ + digits(
            2 * (self.width as nat * self.height as nat),
        ) + " ("@ + digits(self.width as nat) + "x"@ + digits(self.height as nat) + " YUYV)"@);
        s
    }
}

/// Frame size in bytes (YUYV: 2 bytes per pixel).
pub fn frame_size(width: u32, height: u32) -> (n: usize)
    requires
        2 * (width * height) <= usize::MAX,
    ensures
        n == 2 * (width * height),
{
    width as usize * height as usize * 2
}

/// A frame is accepted exactly when it has the device's frame size.
pub fn check_frame(len: usize, width: u32, height: u32) -> (r: Result<(), WrongFrameSize>)
    requires
        2 * (width * height) <= usize::MAX,
    ensures
        match r {
            Ok(()) => len == 2 * (width * height),
            Err(e) => len != 2 * (width * height) && e == (WrongFrameSize { got: len, width, height }),
        },
{
    if len == frame_size(width, height) {
        Ok(())
    } else {
        Err(WrongFrameSize { got: len, width, height })
    }
}

/// Is an event worth dequeuing? The loopback is opened blocking, and dequeuing
/// then waits for an event, so only a reported priority event is fetched.
pub fn event_pending(ready: i32, priority: Option<bool>) -> (r: bool)
    ensures
        r == (ready != 0 && priority == Some(true)),
{
    match priority {
        Some(p) => ready != 0 && p,
        None => false,
    }
}

/// The count that leads a client-usage payload, lowest byte first.
pub open spec fn count_le(u: Seq<u8>) -> int {
    u[0] + 0x100 * u[1] + 0x1_0000 * u[2] + 0x100_0000 * u[3]
}

/// The count that leads a client-usage payload, highest byte first.
pub open spec fn count_be(u: Seq<u8>) -> int {
    0x100_0000 * u[0] + 0x1_0000 * u[1] + 0x100 * u[2] + u[3]
}

/// Does a client-usage event report a consumer? The payload leads with a 32-bit
/// count in the machine's byte order; it is non-zero while at least one consumer
/// captures. Which order that is does not matter.
pub fn consumer_active(payload: &[u8]) -> (active: bool)
    requires
        payload.len() >= 4,
    ensures
        active == (count_le(payload@) != 0),
        active == (count_be(payload@) != 0),
{
    payload[0] != 0 || payload[1] != 0 || payload[2] != 0 || payload[3] != 0
}

/// A video device as sysfs lists it: the node's name and its label file.
pub struct LabelledNode {
    pub name: String,
    pub label: String,
}

/// A node carries a label when it is a video node whose label file holds it, with
/// or without a line end.
pub open spec fn carries(name: Seq<char>, file: Seq<char>, label: Seq<char>) -> bool {
    begins(name, "video"@) && (file == label || file == label + "\n"@)
}

/// The first video node that carries a label.
pub fn find_labelled(nodes: &[LabelledNode], label: &str) -> (found: Option<usize>)
    ensures
        match found {
            Some(i) => {
                &&& i < nodes.len()
                &&& carries(nodes@[i as int].name@, nodes@[i as int].label@, label@)
                &&& forall|j: int|
                    0 <= j < i ==> !carries((#[trigger] nodes@[j]).name@, nodes@[j].label@, label@)
            },
            None => forall|j: int|
                0 <= j < nodes.len() ==> !carries(
                    (#[trigger] nodes@[j]).name@,
                    nodes@[j].label@,
                    label@,
                ),
        },
{
    let mut ended: Vec<char> = chars_of(label);
    push_text(&mut ended, "\n");
    let line: String = string_of(ended);
    let mut i: usize = 0;
    while i < nodes.len()
        invariant
            i <= nodes.len(),
            line@ == label@ + "\n"@,
            forall|j: int|
                0 <= j < i ==> !carries((#[trigger] nodes@[j]).name@, nodes@[j].label@, label@),
        decreases nodes.len() - i,
    {
        let file: &str = nodes[i].label.as_str();
        if starts_with(nodes[i].name.as_str(), "video") && (same(file, label) || same(
            file,
            line.as_str(),
        )) {
            return Some(i);
        }
        i += 1;
    }
    None
}

} // verus!
