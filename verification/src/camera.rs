//! Choosing and configuring the capture camera.

use vstd::prelude::*;

use crate::text::{push_text, same, string_of};

verus! {

/// A camera as it is enumerated.
pub struct Listed {
    /// Its model property, where it has one.
    pub model: Option<String>,
    pub id: String,
}

/// A camera is the GC2607 by its model. The enumeration index is not stable: when
/// another camera is present (a USB webcam) it may enumerate first.
pub open spec fn is_gc2607(c: Listed) -> bool {
    match c.model {
        Some(m) => m@ == "gc2607"@,
        None => false,
    }
}

/// How a camera is described: its model, or a question mark, and its id.
pub open spec fn described(c: Listed) -> Seq<char> {
    (match c.model {
        Some(m) => m@,
        None => "?"@,
    }) + " ("@ + c.id@ + ")"@
}

/// Descriptions of the first `n` cameras, separated by commas.
pub open spec fn listing(cameras: Seq<Listed>, n: int) -> Seq<char>
    decreases n,
{
    if n <= 0 {
        Seq::empty()
    } else if n == 1 {
        described(cameras[0])
    } else {
        listing(cameras, n - 1) + ", "@ + described(cameras[n - 1])
    }
}

/// The first camera that is the GC2607; else the message that says which cameras
/// there are.
pub fn choose_camera(cameras: &[Listed]) -> (r: Result<usize, String>)
    ensures
        match r {
            Ok(i) => {
                &&& i < cameras.len()
                &&& is_gc2607(cameras[i as int])
                &&& forall|j: int| 0 <= j < i ==> !is_gc2607(#[trigger] cameras@[j])
            },
            Err(e) => {
                &&& forall|j: int| 0 <= j < cameras.len() ==> !is_gc2607(#[trigger] cameras@[j])
                &&& e@ == "GC2607 camera (Model \"gc2607\") not found; available cameras: ["@
                    + listing(cameras@, cameras.len() as int) + "]"@
            },
        },
{
    let mut seen: Vec<char> = Vec::new();
    let mut i: usize = 0;
    while i < cameras.len()
        invariant
            i <= cameras.len(),
            forall|j: int| 0 <= j < i ==> !is_gc2607(#[trigger] cameras@[j]),
            seen@ == listing(cameras@, i as int),
        decreases cameras.len() - i,
    {
        if i > 0 {
            push_text(&mut seen, ", ");
        }
        let ghost before = seen@;
        let matched: bool = match &cameras[i].model {
            Some(m) => {
                push_text(&mut seen, m.as_str());
                same(m.as_str(), "gc2607")
            },
            None => {
                push_text(&mut seen, "?");
                false
            },
        };
        push_text(&mut seen, " (");
        push_text(&mut seen, cameras[i].id.as_str());
        push_text(&mut seen, ")");
        proof {
            assert(seen@ =~= before + described(cameras@[i as int]));
            assert(seen@ =~= listing(cameras@, i + 1));
        }
        if matched {
            return Ok(i);
        }
        i += 1;
    }
    let mut m: Vec<char> = Vec::new();
    push_text(&mut m, "GC2607 camera (Model \"gc2607\") not found; available cameras: [");
    m.append(&mut seen);
    push_text(&mut m, "]");
    proof {
        assert(m@ =~= "GC2607 camera (Model \"gc2607\") not found; available cameras: ["@ + listing(
            cameras@,
            cameras.len() as int,
        ) + "]"@);
    }
    Err(string_of(m))
}

/// What validating a requested configuration reports.
#[derive(Debug, Clone, Copy, PartialEq, Eq, Structural)]
pub enum Validation {
    Valid,
    Adjusted,
    Invalid,
}

/// The session goes on unless the configuration is invalid; the answer says
/// whether the request was adjusted.
pub fn accept_configuration(v: Validation) -> (adjusted: Option<bool>)
    ensures
        adjusted == (match v {
            Validation::Valid => Some(false),
            Validation::Adjusted => Some(true),
            Validation::Invalid => None,
        }),
{
    match v {
        Validation::Valid => Some(false),
        Validation::Adjusted => Some(true),
        Validation::Invalid => None,
    }
}

/// How many bytes of a mapped plane a completed buffer holds: what the metadata
/// reports. `None` when that exceeds the plane: the frame is malformed and is to be
/// skipped.
pub fn used_bytes(reported: usize, plane: usize) -> (n: Option<usize>)
    ensures
        n == (if reported <= plane {
            Some(reported)
        } else {
            None
        }),
{
    if reported <= plane {
        Some(reported)
    } else {
        None
    }
}

} // verus!
