//! Sub-device control of the GC2607 sensor: which node it is, what is written to
//! it and in which order, and the state a session starts from.

use vstd::prelude::*;

use crate::ae::{AeState, MAX_GAIN_INDEX, VBLANK_MIN};
use crate::text::{
    begins, law_begins_and_ends, law_leading_space_is_trimmed, starts_with, trimmed,
    trimmed_starts_with,
};

verus! {

/// `V4L2_CID_EXPOSURE`.
pub const V4L2_CID_EXPOSURE: u32 = 0x0098_0911;

/// `V4L2_CID_ANALOGUE_GAIN`.
pub const V4L2_CID_ANALOGUE_GAIN: u32 = 0x009e_0903;

/// `V4L2_CID_VBLANK`.
pub const V4L2_CID_VBLANK: u32 = 0x009e_0901;

/// One control write.
#[derive(Debug, Clone, Copy, PartialEq, Eq, Structural)]
pub struct Write {
    pub id: u32,
    pub value: i32,
}

/// The writes that apply an AE state, in order.
///
/// Vertical blanking is written first: the driver couples the exposure control's
/// maximum to the frame length, so setting it before the exposure keeps the
/// requested exposure within range in both directions.
pub fn writes(state: AeState) -> (w: [Write; 3])
    ensures
        w[0] == (Write { id: V4L2_CID_VBLANK, value: state.vblank }),
        w[1] == (Write { id: V4L2_CID_EXPOSURE, value: state.exposure }),
        w[2] == (Write { id: V4L2_CID_ANALOGUE_GAIN, value: state.gain_index as i32 }),
{
    [
        Write { id: V4L2_CID_VBLANK, value: state.vblank },
        Write { id: V4L2_CID_EXPOSURE, value: state.exposure },
        Write { id: V4L2_CID_ANALOGUE_GAIN, value: state.gain_index as i32 },
    ]
}

/// A gain control value moved into the gain table.
pub open spec fn gain_clamped(g: i32) -> u8 {
    if g < 0 {
        0
    } else if g > MAX_GAIN_INDEX {
        MAX_GAIN_INDEX
    } else {
        g as u8
    }
}

/// The AE state a session starts from: what the sensor currently holds, as far as
/// it can be read (`None` where a read failed), else the defaults.
pub fn seed_state(exposure: Option<i32>, gain: Option<i32>, vblank: Option<i32>) -> (s: AeState)
    ensures
        s.exposure == (match exposure {
            Some(e) => e,
            None => 625,
        }),
        s.gain_index == (match gain {
            Some(g) => gain_clamped(g),
            None => 0,
        }),
        s.vblank == (match vblank {
            Some(v) => v,
            None => VBLANK_MIN,
        }),
{
    let mut s: AeState = AeState::default();
    if let Some(e) = exposure {
        s.exposure = e;
    }
    if let Some(g) = gain {
        s.gain_index = if g < 0 {
            0
        } else if g > MAX_GAIN_INDEX as i32 {
            MAX_GAIN_INDEX
        } else {
            g as u8
        };
    }
    if let Some(v) = vblank {
        s.vblank = v;
    }
    s
}

/// A state with explicitly requested values in place of its own.
pub fn override_state(
    s: AeState,
    exposure: Option<i32>,
    gain: Option<u8>,
    vblank: Option<i32>,
) -> (r: AeState)
    ensures
        r.exposure == (match exposure {
            Some(e) => e,
            None => s.exposure,
        }),
        r.gain_index == (match gain {
            Some(g) => if g < MAX_GAIN_INDEX {
                g
            } else {
                MAX_GAIN_INDEX
            },
            None => s.gain_index,
        }),
        r.vblank == (match vblank {
            Some(v) => v,
            None => s.vblank,
        }),
{
    let mut r: AeState = s;
    if let Some(e) = exposure {
        r.exposure = e;
    }
    if let Some(g) = gain {
        r.gain_index = if g < MAX_GAIN_INDEX {
            g
        } else {
            MAX_GAIN_INDEX
        };
    }
    if let Some(v) = vblank {
        r.vblank = v;
    }
    r
}

/// A video device as sysfs lists it: the node's name and its entity label.
pub struct Node {
    pub name: String,
    pub label: String,
}

/// A node is the sensor when it is a sub-device whose entity is named
/// `gc2607 <bus>-<addr>`.
pub open spec fn is_sensor_spec(name: Seq<char>, label: Seq<char>) -> bool {
    begins(name, "v4l-subdev"@) && begins(trimmed(label), "gc2607"@)
}

/// Is a node the sensor?
pub fn is_sensor(name: &str, label: &str) -> (r: bool)
    ensures
        r == is_sensor_spec(name@, label@),
{
    starts_with(name, "v4l-subdev") && trimmed_starts_with(label, "gc2607")
}

/// The first node that is the sensor. The sub-device node number is not stable
/// across boots, so it is resolved by name.
pub fn find_sensor(nodes: &[Node]) -> (found: Option<usize>)
    ensures
        match found {
            Some(i) => {
                &&& i < nodes.len()
                &&& is_sensor_spec(nodes[i as int].name@, nodes[i as int].label@)
                &&& forall|j: int|
                    0 <= j < i ==> !is_sensor_spec(
                        (#[trigger] nodes@[j]).name@,
                        nodes@[j].label@,
                    )
            },
            None => forall|j: int|
                0 <= j < nodes.len() ==> !is_sensor_spec(
                    (#[trigger] nodes@[j]).name@,
                    nodes@[j].label@,
                ),
        },
{
    let mut i: usize = 0;
    while i < nodes.len()
        invariant
            i <= nodes.len(),
            forall|j: int|
                0 <= j < i ==> !is_sensor_spec((#[trigger] nodes@[j]).name@, nodes@[j].label@),
        decreases nodes.len() - i,
    {
        if is_sensor(nodes[i].name.as_str(), nodes[i].label.as_str()) {
            return Some(i);
        }
        i += 1;
    }
    None
}

/// A gain control value that names a step of the table is that step; one below it means the
/// first step and one above it the last.
pub proof fn law_gain_stays_in_the_table(g: i32, h: i32)
    requires
        g <= h,
    ensures
        0 <= g <= 16 ==> gain_clamped(g) == g,
        g < 0 ==> gain_clamped(g) == gain_clamped(0),
        g > 16 ==> gain_clamped(g) == gain_clamped(16),
        gain_clamped(g) <= gain_clamped(h),
{
}

/// The sensor is a sub-device by its node's name whose label, white space before it set
/// aside, begins with the sensor's name; and nothing else is.
pub proof fn law_sensor_is_found_by_its_names(
    node: Seq<char>,
    space: Seq<char>,
    bus: Seq<char>,
    name: Seq<char>,
    label: Seq<char>,
)
    requires
        forall|i: int|
            0 <= i < space.len() ==> (#[trigger] space[i] == ' ' || space[i] == '\t' || space[i]
                == '\n' || space[i] == '\r'),
    ensures
        is_sensor_spec("v4l-subdev"@ + node, space + ("gc2607"@ + bus)),
        is_sensor_spec(name, label) ==> name == "v4l-subdev"@ + name.skip(10) && trimmed(label)
            == "gc2607"@ + trimmed(label).skip(6),
{
    reveal_strlit("v4l-subdev");
    reveal_strlit("gc2607");
    let rest = "gc2607"@ + bus;
    law_begins_and_ends("v4l-subdev"@, node);
    law_begins_and_ends("gc2607"@, bus);
    assert(rest[0] == 'g');
    law_leading_space_is_trimmed(space, rest);
    law_begins_and_ends(name, "v4l-subdev"@);
    law_begins_and_ends(trimmed(label), "gc2607"@);
}

} // verus!
