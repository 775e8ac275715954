//! GPU backend: the frame schedule, the passes of a frame, and the data that is
//! laid out for the device.
//!
//! The per-pixel stages run as compute shaders, while scene estimation stays on
//! the CPU and runs only every so many frames. Per frame the host uploads the raw
//! bytes and the uniform block, dispatches the passes decided here, and reads the
//! packed YUYV back. Only the full-res path exists on the GPU.

use vstd::prelude::*;

use crate::pipeline::bayer::Site;
use crate::pipeline::lca::Lca;
use crate::pipeline::shading::channel;
use crate::raw::{RawTooSmall, H, RAW_BYTES, STRIDE_SAMPLES, W};
use crate::text::{digits, push_decimal, push_text, string_of};

verus! {

/// Output (centre-cropped) width of the GPU path.
pub const OUT_W: usize = 1920;

/// Output (centre-cropped) height of the GPU path.
pub const OUT_H: usize = 1080;

/// Tile columns of the sensor.
pub const WW: usize = W / 2;

/// Tile rows of the sensor.
pub const HH: usize = H / 2;

/// Bytes of an output frame.
pub const YUYV_BYTES: usize = OUT_W * OUT_H * 2;

/// Invocations per workgroup in every pass.
pub const WORKGROUP: u32 = 64;

/// Bytes of the uniform block: twelve groups of four words.
pub const PARAMS_BYTES: usize = 192;

/// Output frame dimensions.
pub fn out_dims() -> (d: (usize, usize))
    ensures
        d == (1920usize, 1080usize),
{
    (OUT_W, OUT_H)
}

/// Denoise settings of a frame: real-valued settings as single-precision bit
/// patterns, beside what the schedule needs to know of them.
#[derive(Debug, Clone, Copy, PartialEq, Eq, Structural)]
pub struct DenoiseParams {
    pub chroma_radius: u32,
    pub chroma_strength: u32,
    pub temporal_alpha: u32,
    pub temporal_motion: u32,
    /// The chroma strength is positive.
    pub strong: bool,
    /// The temporal weight is positive.
    pub weight: bool,
}

/// The denoise flags of a frame.
#[derive(Debug, Clone, Copy, PartialEq, Eq, Structural)]
pub struct DenoiseFlags {
    pub chroma: bool,
    pub temporal: bool,
    /// Seed the temporal history from this frame instead of blending.
    pub reset: bool,
}

/// Uniform block shared by the compute passes, as groups of four words; reals as
/// single-precision bit patterns.
#[derive(Debug, Clone, Copy, PartialEq, Eq)]
pub struct Params {
    /// w, h, ww, hh
    pub dims: [u32; 4],
    /// dst_w, dst_h, off_x, off_y
    pub out_dims: [u32; 4],
    /// stride, groups_per_row, _, _
    pub misc: [u32; 4],
    /// black, inv_maxlin, _, _
    pub consts: [u32; 4],
    /// R, G, B, _
    pub gains: [u32; 4],
    pub ccm0: [u32; 4],
    pub ccm1: [u32; 4],
    pub ccm2: [u32; 4],
    /// lca grid_w, grid_h, cell_x, cell_y
    pub lca: [u32; 4],
    /// hue0, hue_step, sat_knee, nsec
    pub acm_cfg: [u32; 4],
    /// chroma_radius, chroma_on, temporal_on, temporal_reset
    pub dn_i: [u32; 4],
    /// chroma_strength, temporal_alpha, temporal_motion, _
    pub dn_f: [u32; 4],
}

impl Params {
    /// The block as one run of words, in the shader's order.
    pub open spec fn words_spec(&self) -> Seq<u32> {
        self.dims@ + self.out_dims@ + self.misc@ + self.consts@ + self.gains@ + self.ccm0@
            + self.ccm1@ + self.ccm2@ + self.lca@ + self.acm_cfg@ + self.dn_i@ + self.dn_f@
    }

    /// The block as one run of words, in the shader's order.
    pub fn words(&self) -> (w: Vec<u32>)
        ensures
            w@ == self.words_spec(),
            4 * w.len() == PARAMS_BYTES,
    {
        let mut w: Vec<u32> = Vec::with_capacity(48);
        push_group(&mut w, &self.dims);
        push_group(&mut w, &self.out_dims);
        push_group(&mut w, &self.misc);
        push_group(&mut w, &self.consts);
        push_group(&mut w, &self.gains);
        push_group(&mut w, &self.ccm0);
        push_group(&mut w, &self.ccm1);
        push_group(&mut w, &self.ccm2);
        push_group(&mut w, &self.lca);
        push_group(&mut w, &self.acm_cfg);
        push_group(&mut w, &self.dn_i);
        push_group(&mut w, &self.dn_f);
        proof {
            assert(w@ =~= self.words_spec());
        }
        w
    }

    /// Fill in the geometry that every frame shares.
    pub fn set_geometry(&mut self)
        ensures
            final(self).dims@ == seq![W as u32, H as u32, WW as u32, HH as u32],
            final(self).out_dims@ == seq![OUT_W as u32, OUT_H as u32, 4u32, 4u32],
            final(self).misc@ == seq![STRIDE_SAMPLES as u32, (OUT_W / 2) as u32, 0u32, 0u32],
            *final(self) == (Params {
                dims: final(self).dims,
                out_dims: final(self).out_dims,
                misc: final(self).misc,
                ..*old(self)
            }),
    {
        self.dims = [W as u32, H as u32, WW as u32, HH as u32];
        self.out_dims = [
            OUT_W as u32,
            OUT_H as u32,
            ((W - OUT_W) / 2) as u32,
            ((H - OUT_H) / 2) as u32,
        ];
        self.misc = [STRIDE_SAMPLES as u32, (OUT_W / 2) as u32, 0, 0];
        assert(self.dims@ =~= seq![W as u32, H as u32, WW as u32, HH as u32]);
        assert(self.out_dims@ =~= seq![OUT_W as u32, OUT_H as u32, 4u32, 4u32]);
        assert(self.misc@ =~= seq![STRIDE_SAMPLES as u32, (OUT_W / 2) as u32, 0u32, 0u32]);
    }

    /// Fill in a scene estimate: the white-balance gains, and the global colour
    /// matrix row by row.
    pub fn set_estimate(&mut self, gains: [u32; 3], ccm: [u32; 9])
        ensures
            final(self).gains@ == gains@.push(0),
            final(self).ccm0@ == ccm@.subrange(0, 3).push(0),
            final(self).ccm1@ == ccm@.subrange(3, 6).push(0),
            final(self).ccm2@ == ccm@.subrange(6, 9).push(0),
            *final(self) == (Params {
                gains: final(self).gains,
                ccm0: final(self).ccm0,
                ccm1: final(self).ccm1,
                ccm2: final(self).ccm2,
                ..*old(self)
            }),
    {
        self.gains = [gains[0], gains[1], gains[2], 0];
        self.ccm0 = [ccm[0], ccm[1], ccm[2], 0];
        self.ccm1 = [ccm[3], ccm[4], ccm[5], 0];
        self.ccm2 = [ccm[6], ccm[7], ccm[8], 0];
        assert(self.gains@ =~= gains@.push(0));
        assert(self.ccm0@ =~= ccm@.subrange(0, 3).push(0));
        assert(self.ccm1@ =~= ccm@.subrange(3, 6).push(0));
        assert(self.ccm2@ =~= ccm@.subrange(6, 9).push(0));
    }

    /// Fill in a frame's denoise settings.
    pub fn set_denoise(&mut self, dn: DenoiseParams, flags: DenoiseFlags)
        ensures
            final(self).dn_i@ == seq![
                dn.chroma_radius,
                bit(flags.chroma),
                bit(flags.temporal),
                bit(flags.reset),
            ],
            final(self).dn_f@ == seq![
                dn.chroma_strength,
                dn.temporal_alpha,
                dn.temporal_motion,
                0u32,
            ],
            *final(self) == (Params {
                dn_i: final(self).dn_i,
                dn_f: final(self).dn_f,
                ..*old(self)
            }),
    {
        self.dn_i = [dn.chroma_radius, word(flags.chroma), word(flags.temporal), word(flags.reset)];
        self.dn_f = [dn.chroma_strength, dn.temporal_alpha, dn.temporal_motion, 0];
        assert(self.dn_i@ =~= seq![
            dn.chroma_radius,
            bit(flags.chroma),
            bit(flags.temporal),
            bit(flags.reset),
        ]);
        assert(self.dn_f@ =~= seq![
            dn.chroma_strength,
            dn.temporal_alpha,
            dn.temporal_motion,
            0u32,
        ]);
    }
}

/// A flag as the shader reads it.
pub open spec fn bit(b: bool) -> u32 {
    if b {
        1
    } else {
        0
    }
}

/// A flag as the shader reads it.
fn word(b: bool) -> (w: u32)
    ensures
        w == bit(b),
{
    if b {
        1
    } else {
        0
    }
}

/// Append a group of four words.
fn push_group(out: &mut Vec<u32>, g: &[u32; 4])
    ensures
        final(out)@ == old(out)@ + g@,
{
    out.push(g[0]);
    out.push(g[1]);
    out.push(g[2]);
    out.push(g[3]);
    assert(out@ =~= old(out)@ + g@);
}

/// `bytes` are `words` in memory, lowest byte first.
pub open spec fn little_endian(words: Seq<u32>, bytes: Seq<u8>) -> bool {
    forall|k: int|
        0 <= k < words.len() ==> #[trigger] words[k] == bytes[4 * k] + 0x100 * bytes[4 * k + 1]
            + 0x1_0000 * bytes[4 * k + 2] + 0x100_0000 * bytes[4 * k + 3]
}

/// `bytes` are `words` in memory, highest byte first.
pub open spec fn big_endian(words: Seq<u32>, bytes: Seq<u8>) -> bool {
    forall|k: int|
        0 <= k < words.len() ==> #[trigger] words[k] == 0x100_0000 * bytes[4 * k] + 0x1_0000
            * bytes[4 * k + 1] + 0x100 * bytes[4 * k + 2] + bytes[4 * k + 3]
}

/// The bytes of words in memory.
///
/// Calls `bytemuck::cast_slice` from `u32` to `u8` and copies the view. Taken on
/// trust: the view has four bytes per word, in order, each word in the machine's
/// byte order, which is the same for all of them. The cast does not panic: bytes
/// need no alignment and divide every length.
#[verifier::external_body]
fn bytes_of_words(words: &[u32]) -> (bytes: Vec<u8>)
    requires
        4 * words.len() <= usize::MAX,
    ensures
        bytes.len() == 4 * words.len(),
        little_endian(words@, bytes@) || big_endian(words@, bytes@),
{
    bytemuck::cast_slice::<u32, u8>(words).to_vec()
}

/// The uniform block as it is uploaded.
pub fn params_bytes(p: &Params) -> (bytes: Vec<u8>)
    ensures
        bytes.len() == PARAMS_BYTES,
        little_endian(p.words_spec(), bytes@) || big_endian(p.words_spec(), bytes@),
{
    let w: Vec<u32> = p.words();
    bytes_of_words(&w)
}

/// A resized grid as it is uploaded.
pub fn upload_bytes(words: &[u32]) -> (bytes: Vec<u8>)
    requires
        4 * words.len() <= usize::MAX,
    ensures
        bytes.len() == 4 * words.len(),
        little_endian(words@, bytes@) || big_endian(words@, bytes@),
{
    bytes_of_words(words)
}

/// The four aberration grids, one after the other, as they are uploaded.
pub fn lca_bytes(lca: &Lca) -> (bytes: Vec<u8>)
    requires
        4 * lca.flat_spec().len() <= usize::MAX,
    ensures
        bytes.len() == 4 * lca.flat_spec().len(),
        little_endian(lca.flat_spec(), bytes@) || big_endian(lca.flat_spec(), bytes@),
{
    let w: Vec<u32> = lca.flat();
    bytes_of_words(&w)
}

/// Matrices one after the other, each row by row.
pub open spec fn flattened(mats: Seq<[u32; 9]>) -> Seq<u32>
    decreases mats.len(),
{
    if mats.len() == 0 {
        Seq::empty()
    } else {
        flattened(mats.drop_last()) + mats.last()@
    }
}

/// Matrices one after the other, each row by row.
fn flatten(mats: &[[u32; 9]]) -> (out: Vec<u32>)
    requires
        9 * mats.len() <= usize::MAX,
    ensures
        out@ == flattened(mats@),
        out.len() == 9 * mats.len(),
{
    let mut out: Vec<u32> = Vec::with_capacity(9 * mats.len());
    let mut i: usize = 0;
    while i < mats.len()
        invariant
            i <= mats.len(),
            out@ == flattened(mats@.take(i as int)),
            out.len() == 9 * i,
        decreases mats.len() - i,
    {
        let m: [u32; 9] = mats[i];
        let ghost before = out@;
        let mut k: usize = 0;
        while k < 9
            invariant
                k <= 9,
                out@ == before + m@.take(k as int),
            decreases 9 - k,
        {
            out.push(m[k]);
            k += 1;
            assert(out@ =~= before + m@.take(k as int));
        }
        proof {
            assert(m@.take(9) =~= m@);
            assert(mats@.take(i + 1).drop_last() =~= mats@.take(i as int));
            assert(mats@.take(i + 1).last() == m);
        }
        i += 1;
    }
    proof {
        assert(mats@.take(mats@.len() as int) =~= mats@);
    }
    out
}

/// The per-sector matrices as they are uploaded.
pub fn acm_bytes(mats: &[[u32; 9]]) -> (bytes: Vec<u8>)
    requires
        36 * mats.len() <= usize::MAX,
    ensures
        bytes.len() == 36 * mats.len(),
        little_endian(flattened(mats@), bytes@) || big_endian(flattened(mats@), bytes@),
{
    let w: Vec<u32> = flatten(mats);
    bytes_of_words(&w)
}

/// The persistent buffers.
#[derive(Debug, Clone, Copy, PartialEq, Eq, Structural)]
pub enum Buffer {
    Params,
    Raw,
    Grid(Site),
    Cfa,
    Yuyv,
    Rgb,
    Lca,
    Acm,
    ChromaScratch,
    LumaHistory,
    Staging,
}

/// How a shader binds a buffer.
#[derive(Debug, Clone, Copy, PartialEq, Eq, Structural)]
pub enum Access {
    Uniform,
    Read,
    ReadWrite,
}

/// Bindings in the group.
pub const BINDINGS: u32 = 13;

/// What stands at a binding of the group.
pub open spec fn binding_spec(k: int) -> (Buffer, Access) {
    if k == 0 {
        (Buffer::Params, Access::Uniform)
    } else if k == 1 {
        (Buffer::Raw, Access::Read)
    } else if k == 2 {
        (Buffer::Grid(Site::Gr), Access::Read)
    } else if k == 3 {
        (Buffer::Grid(Site::R), Access::Read)
    } else if k == 4 {
        (Buffer::Grid(Site::B), Access::Read)
    } else if k == 5 {
        (Buffer::Grid(Site::Gb), Access::Read)
    } else if k == 6 {
        (Buffer::Cfa, Access::ReadWrite)
    } else if k == 7 {
        (Buffer::Yuyv, Access::ReadWrite)
    } else if k == 8 {
        (Buffer::Rgb, Access::ReadWrite)
    } else if k == 9 {
        (Buffer::Lca, Access::Read)
    } else if k == 10 {
        (Buffer::Acm, Access::Read)
    } else if k == 11 {
        (Buffer::ChromaScratch, Access::ReadWrite)
    } else {
        (Buffer::LumaHistory, Access::ReadWrite)
    }
}

/// What stands at a binding of the group.
pub fn binding(k: u32) -> (b: (Buffer, Access))
    requires
        k < BINDINGS,
    ensures
        b == binding_spec(k as int),
{
    match k {
        0 => (Buffer::Params, Access::Uniform),
        1 => (Buffer::Raw, Access::Read),
        2 => (Buffer::Grid(Site::Gr), Access::Read),
        3 => (Buffer::Grid(Site::R), Access::Read),
        4 => (Buffer::Grid(Site::B), Access::Read),
        5 => (Buffer::Grid(Site::Gb), Access::Read),
        6 => (Buffer::Cfa, Access::ReadWrite),
        7 => (Buffer::Yuyv, Access::ReadWrite),
        8 => (Buffer::Rgb, Access::ReadWrite),
        9 => (Buffer::Lca, Access::Read),
        10 => (Buffer::Acm, Access::Read),
        11 => (Buffer::ChromaScratch, Access::ReadWrite),
        _ => (Buffer::LumaHistory, Access::ReadWrite),
    }
}

/// No buffer is bound twice.
pub proof fn law_bindings_are_distinct(j: int, k: int)
    requires
        0 <= j < k < BINDINGS,
    ensures
        binding_spec(j).0 != binding_spec(k).0,
{
}

/// Bytes of a buffer; `lca_cells` is the number of cells of one aberration grid.
pub open spec fn buffer_bytes(b: Buffer, lca_cells: int, sectors: int) -> int {
    match b {
        Buffer::Params => PARAMS_BYTES as int,
        Buffer::Raw => RAW_BYTES as int,
        Buffer::Grid(_) => HH * WW * 4,
        Buffer::Cfa => W * H * 4,
        Buffer::Yuyv => YUYV_BYTES as int,
        Buffer::Rgb => W * H * 3 * 4,
        Buffer::Lca => 4 * lca_cells * 4,
        Buffer::Acm => sectors * 9 * 4,
        Buffer::ChromaScratch => (OUT_W as int / 2) * OUT_H * 4,
        Buffer::LumaHistory => OUT_W * OUT_H * 4,
        Buffer::Staging => YUYV_BYTES as int,
    }
}

/// Bytes of a buffer.
pub fn buffer_size(b: Buffer, lca_cells: u32, sectors: u32) -> (n: u64)
    ensures
        n == buffer_bytes(b, lca_cells as int, sectors as int),
{
    match b {
        Buffer::Params => PARAMS_BYTES as u64,
        Buffer::Raw => RAW_BYTES as u64,
        Buffer::Grid(_) => (HH * WW * 4) as u64,
        Buffer::Cfa => (W * H * 4) as u64,
        Buffer::Yuyv => YUYV_BYTES as u64,
        Buffer::Rgb => (W * H * 3 * 4) as u64,
        Buffer::Lca => 4 * lca_cells as u64 * 4,
        Buffer::Acm => sectors as u64 * 9 * 4,
        Buffer::ChromaScratch => ((OUT_W / 2) * OUT_H * 4) as u64,
        Buffer::LumaHistory => (OUT_W * OUT_H * 4) as u64,
        Buffer::Staging => YUYV_BYTES as u64,
    }
}

/// The compute passes, one per shader entry point.
#[derive(Debug, Clone, Copy, PartialEq, Eq, Structural)]
pub enum Pass {
    /// Unpack, black level, LSC and white balance into the mosaic.
    BuildCfa,
    /// Debayer into planes.
    MhcPlanar,
    /// Realign red and blue, colour and pack.
    RenderPackLca,
    /// Debayer, colour and pack.
    RenderPack,
    /// Horizontal chroma blur.
    ChromaH,
    /// Vertical chroma blur and blend.
    ChromaV,
    /// Temporal luma blend.
    Temporal,
}

/// Elements a pass covers: samples of the mosaic or words of the packed frame.
pub open spec fn elements(p: Pass) -> int {
    match p {
        Pass::BuildCfa | Pass::MhcPlanar => W * H,
        _ => (OUT_W as int / 2) * OUT_H,
    }
}

/// Workgroups a pass is dispatched with.
pub fn groups(p: Pass) -> (n: u32)
    ensures
        (n - 1) * WORKGROUP < elements(p) <= n * WORKGROUP,
{
    let count: u32 = match p {
        Pass::BuildCfa | Pass::MhcPlanar => (W * H) as u32,
        _ => ((OUT_W / 2) * OUT_H) as u32,
    };
    (count + (WORKGROUP - 1)) / WORKGROUP
}

/// The passes of a frame, in order.
pub open spec fn passes_spec(lca: bool, flags: DenoiseFlags) -> Seq<Pass> {
    seq![Pass::BuildCfa] + (if lca {
        seq![Pass::MhcPlanar, Pass::RenderPackLca]
    } else {
        seq![Pass::RenderPack]
    }) + (if flags.chroma {
        seq![Pass::ChromaH, Pass::ChromaV]
    } else {
        Seq::empty()
    }) + (if flags.temporal {
        seq![Pass::Temporal]
    } else {
        Seq::empty()
    })
}

/// The passes of a frame, in order: the mosaic, the colour (through planes when
/// red and blue are realigned), then the denoising that is on.
pub fn passes(lca: bool, flags: DenoiseFlags) -> (v: Vec<Pass>)
    ensures
        v@ == passes_spec(lca, flags),
{
    let mut v: Vec<Pass> = Vec::new();
    v.push(Pass::BuildCfa);
    if lca {
        v.push(Pass::MhcPlanar);
        v.push(Pass::RenderPackLca);
    } else {
        v.push(Pass::RenderPack);
    }
    if flags.chroma {
        v.push(Pass::ChromaH);
        v.push(Pass::ChromaV);
    }
    if flags.temporal {
        v.push(Pass::Temporal);
    }
    assert(v@ =~= passes_spec(lca, flags));
    v
}

/// A read-back frame of the wrong size.
#[derive(Debug, Clone, Copy, PartialEq, Eq, Structural)]
pub struct WrongReadback {
    pub got: usize,
}

impl WrongReadback {
    /// What was found and what is expected.
    pub fn message(&self) -> (s: String)
        ensures
            s@ == "gpu readback size "@ + digits(self.got as nat) + " != expected "@ + digits(
                YUYV_BYTES as nat,
            ),
    {
        let mut m: Vec<char> = Vec::new();
        push_text(&mut m, "gpu readback size ");
        push_decimal(&mut m, self.got as u64);
        push_text(&mut m, " != expected ");
        push_decimal(&mut m, YUYV_BYTES as u64);
        let s: String = string_of(m);
        assert(s@ =~= "gpu readback size "@ + digits(self.got as nat) + " != expected "@ + digits(
            YUYV_BYTES as nat,
        ));
        s
    }
}

/// A read-back frame is accepted exactly when it has the size of an output frame.
pub fn check_readback(got: usize) -> (r: Result<(), WrongReadback>)
    ensures
        match r {
            Ok(()) => got == YUYV_BYTES,
            Err(e) => got != YUYV_BYTES && e.got == got,
        },
{
    if got == YUYV_BYTES {
        Ok(())
    } else {
        Err(WrongReadback { got })
    }
}

/// The host side of the GPU processor between frames.
#[derive(Debug, Clone, Copy, PartialEq, Eq, Structural)]
pub struct Schedule {
    /// Frames between estimates.
    pub interval: u64,
    /// Frames processed, modulo 2^64.
    pub frame: u64,
    /// Correct lateral chromatic aberration.
    pub lca: bool,
    /// Temporal denoising ran on the previous frame.
    pub temporal_was_on: bool,
    /// The light source of the current estimate.
    pub source: Option<usize>,
}

impl Schedule {
    /// A schedule that re-estimates every `awb_interval` frames (clamped to >= 1;
    /// the first frame always estimates).
    pub fn new(awb_interval: u64, lca: bool) -> (s: Self)
        ensures
            s.interval == (if awb_interval == 0 {
                1
            } else {
                awb_interval as int
            }),
            s.frame == 0,
            s.lca == lca,
            !s.temporal_was_on,
            s.source is None,
            s.due(),
    {
        Schedule {
            interval: if awb_interval == 0 {
                1
            } else {
                awb_interval
            },
            frame: 0,
            lca,
            temporal_was_on: false,
            source: None,
        }
    }

    /// The next frame is estimated: it is the first, or its turn has come.
    pub open spec fn due(&self) -> bool {
        self.source is None || self.frame % self.interval == 0
    }

    /// Accept a frame of `len` bytes; the answer says whether it is estimated.
    pub fn begin(&self, len: usize) -> (r: Result<bool, RawTooSmall>)
        requires
            self.interval >= 1,
        ensures
            match r {
                Ok(estimating) => len >= RAW_BYTES && estimating == self.due(),
                Err(e) => len < RAW_BYTES && e.got == len,
            },
    {
        if len < RAW_BYTES {
            return Err(RawTooSmall { got: len });
        }
        match self.source {
            None => Ok(true),
            Some(_) => Ok(self.frame % self.interval == 0),
        }
    }

    /// Take note of an estimate's light source; the answer says whether its grids
    /// are to be uploaded, which is when the source changed.
    pub fn estimated(&mut self, ls: usize) -> (upload: bool)
        ensures
            upload == (old(self).source != Some(ls)),
            *final(self) == (Schedule { source: Some(ls), ..*old(self) }),
    {
        let upload: bool = match self.source {
            Some(prev) => prev != ls,
            None => true,
        };
        self.source = Some(ls);
        upload
    }

    /// A frame's denoise flags. Chroma needs a positive radius and strength;
    /// temporal needs a positive weight. The history is seeded, not blended, on the
    /// frame on which temporal denoising starts or restarts.
    pub open spec fn flags(&self, dn: DenoiseParams) -> DenoiseFlags {
        DenoiseFlags {
            chroma: dn.chroma_radius > 0 && dn.strong,
            temporal: dn.weight,
            reset: dn.weight && !self.temporal_was_on,
        }
    }

    /// The schedule once a frame's denoise settings are resolved.
    pub open spec fn denoised(&self, dn: DenoiseParams) -> Schedule {
        Schedule { temporal_was_on: dn.weight, ..*self }
    }

    /// Resolve a frame's denoise settings.
    pub fn denoise(&mut self, dn: DenoiseParams) -> (flags: DenoiseFlags)
        ensures
            flags == old(self).flags(dn),
            *final(self) == old(self).denoised(dn),
    {
        let flags = DenoiseFlags {
            chroma: dn.chroma_radius > 0 && dn.strong,
            temporal: dn.weight,
            reset: dn.weight && !self.temporal_was_on,
        };
        self.temporal_was_on = dn.weight;
        flags
    }

    /// Count a frame that was read back.
    pub fn finish(&mut self)
        ensures
            *final(self) == (Schedule {
                frame: if old(self).frame == u64::MAX {
                    0
                } else {
                    (old(self).frame + 1) as u64
                },
                ..*old(self)
            }),
    {
        self.frame = self.frame.wrapping_add(1);
    }
}

/// The temporal history never blends with a stale frame: a frame blends only when
/// the frame before it was denoised too.
pub proof fn law_history_is_never_stale(s: Schedule, first: DenoiseParams, second: DenoiseParams)
    ensures
        ({
            let flags = s.denoised(first).flags(second);
            flags.temporal && !flags.reset ==> s.flags(first).temporal
        }),
{
}

/// The centre crop lies at least two samples inside the sensor on every side, so
/// the debayer of an output pixel needs no clamping.
pub proof fn law_output_lies_in_the_interior(y: int, x: int)
    requires
        0 <= y < OUT_H,
        0 <= x < OUT_W,
    ensures
        ({
            let (sy, sx) = ((H - OUT_H) / 2 + y, (W - OUT_W) / 2 + x);
            2 <= sy && sy + 2 < H && 2 <= sx && sx + 2 < W
        }),
{
}

/// Words of one group of the uniform block follow those of the group before it, four and
/// four.
pub proof fn law_groups_lie_four_words_apart(p: Params, j: int)
    requires
        0 <= j < 4,
    ensures
        p.words_spec().len() == 48,
        p.words_spec()[j] == p.dims@[j],
        p.words_spec()[4 + j] == p.out_dims@[j],
        p.words_spec()[8 + j] == p.misc@[j],
        p.words_spec()[12 + j] == p.consts@[j],
        p.words_spec()[16 + j] == p.gains@[j],
        p.words_spec()[20 + j] == p.ccm0@[j],
        p.words_spec()[24 + j] == p.ccm1@[j],
        p.words_spec()[28 + j] == p.ccm2@[j],
        p.words_spec()[32 + j] == p.lca@[j],
        p.words_spec()[36 + j] == p.acm_cfg@[j],
        p.words_spec()[40 + j] == p.dn_i@[j],
        p.words_spec()[44 + j] == p.dn_f@[j],
{
}

/// Matrices lie nine words apart: entry `k` of matrix `i` is word `9 i + k`.
pub proof fn law_matrices_lie_nine_words_apart(mats: Seq<[u32; 9]>, i: int, k: int)
    requires
        0 <= i < mats.len(),
        0 <= k < 9,
    ensures
        flattened(mats).len() == 9 * mats.len(),
        flattened(mats)[9 * i + k] == mats[i]@[k],
    decreases mats.len(),
{
    let rest = mats.drop_last();
    if i < rest.len() {
        law_matrices_lie_nine_words_apart(rest, i, k);
    } else {
        lemma_flattened_len(rest);
    }
}

/// Nine words a matrix.
proof fn lemma_flattened_len(mats: Seq<[u32; 9]>)
    ensures
        flattened(mats).len() == 9 * mats.len(),
    decreases mats.len(),
{
    if mats.len() > 0 {
        lemma_flattened_len(mats.drop_last());
    }
}

/// A word has one set of bytes in memory under one byte order: what is read back from the
/// bytes is the word.
pub proof fn law_bytes_read_back(words: Seq<u32>, bytes: Seq<u8>, k: int)
    requires
        little_endian(words, bytes),
        0 <= k < words.len(),
    ensures
        words[k] as int % 256 == bytes[4 * k],
        words[k] as int / 256 % 256 == bytes[4 * k + 1],
        words[k] as int / 65536 % 256 == bytes[4 * k + 2],
        words[k] as int / 16777216 == bytes[4 * k + 3],
{
    let (b0, b1, b2, b3) = (bytes[4 * k], bytes[4 * k + 1], bytes[4 * k + 2], bytes[4 * k + 3]);
    lemma_four_bytes(words[k] as int, b0, b1, b2, b3);
}

/// Four bytes of a number.
proof fn lemma_four_bytes(w: int, b0: u8, b1: u8, b2: u8, b3: u8)
    requires
        w == b0 + 0x100 * b1 + 0x1_0000 * b2 + 0x100_0000 * b3,
    ensures
        w % 256 == b0,
        w / 256 % 256 == b1,
        w / 65536 % 256 == b2,
        w / 16777216 == b3,
{
}

/// Every pass covers the buffer that it fills: the mosaic pass a word a sample, the planar
/// pass three, a packing pass a word a pixel pair, the chroma pass a word a chroma pair,
/// and the temporal pass two words of history a pair.
pub proof fn law_passes_cover_what_they_fill(lca_cells: int, sectors: int)
    ensures
        4 * elements(Pass::BuildCfa) == buffer_bytes(Buffer::Cfa, lca_cells, sectors),
        12 * elements(Pass::MhcPlanar) == buffer_bytes(Buffer::Rgb, lca_cells, sectors),
        4 * elements(Pass::RenderPackLca) == buffer_bytes(Buffer::Yuyv, lca_cells, sectors),
        4 * elements(Pass::RenderPack) == buffer_bytes(Buffer::Yuyv, lca_cells, sectors),
        4 * elements(Pass::ChromaH) == buffer_bytes(Buffer::ChromaScratch, lca_cells, sectors),
        4 * elements(Pass::ChromaV) == buffer_bytes(Buffer::ChromaScratch, lca_cells, sectors),
        8 * elements(Pass::Temporal) == buffer_bytes(Buffer::LumaHistory, lca_cells, sectors),
        buffer_bytes(Buffer::Staging, lca_cells, sectors) == buffer_bytes(
            Buffer::Yuyv,
            lca_cells,
            sectors,
        ),
        elements(Pass::BuildCfa) == 1928 * 1088,
        elements(Pass::RenderPack) == 960 * 1080,
        // One gain a sample of the mosaic, and every sample a tile's.
        forall|s: Site| 4 * #[trigger] buffer_bytes(Buffer::Grid(s), lca_cells, sectors)
            == buffer_bytes(Buffer::Cfa, lca_cells, sectors),
        buffer_bytes(Buffer::Lca, lca_cells, sectors) == 16 * lca_cells,
        buffer_bytes(Buffer::Acm, lca_cells, sectors) == 36 * sectors,
        buffer_bytes(Buffer::Raw, lca_cells, sectors) == 2 * 1952 * 1088,
        buffer_bytes(Buffer::Params, lca_cells, sectors) == 4 * 48,
{
}

/// The shading grids are bound in the calibration's channel order, and shaders may write
/// just the buffers that passes fill.
pub proof fn law_bindings_serve_the_passes(k: int)
    requires
        0 <= k < 13,
    ensures
        binding_spec(k).0 matches Buffer::Grid(s) ==> k == 2 + channel(s),
        2 <= k <= 5 ==> binding_spec(k).0 is Grid,
        binding_spec(k).1 == Access::Uniform <==> binding_spec(k).0 == Buffer::Params,
        binding_spec(k).1 == Access::ReadWrite <==> {
            ||| binding_spec(k).0 == Buffer::Cfa
            ||| binding_spec(k).0 == Buffer::Rgb
            ||| binding_spec(k).0 == Buffer::Yuyv
            ||| binding_spec(k).0 == Buffer::ChromaScratch
            ||| binding_spec(k).0 == Buffer::LumaHistory
        },
        binding_spec(k).0 != Buffer::Staging,
{
}

/// The passes of a frame come in the order in which they fill what later ones read: the
/// mosaic first; where red and blue are realigned the planes, then their packing, and
/// plain packing otherwise; then the horizontal chroma blur and the vertical one, both or
/// neither; the temporal blend last. None comes twice.
pub proof fn law_passes_come_in_order(lca: bool, flags: DenoiseFlags, i: int, j: int)
    requires
        0 <= i < j < passes_spec(lca, flags).len(),
    ensures
        ({
            let v = passes_spec(lca, flags);
            &&& v[0] == Pass::BuildCfa
            &&& v[i] != v[j]
            &&& v[j] != Pass::BuildCfa && v[i] != Pass::Temporal
            &&& v[j] == Pass::RenderPackLca ==> v[j - 1] == Pass::MhcPlanar
            &&& v[j] == Pass::ChromaH ==> v[j - 1] == Pass::RenderPackLca || v[j - 1]
                == Pass::RenderPack
            &&& v[j] == Pass::ChromaV ==> v[j - 1] == Pass::ChromaH
            &&& v.contains(Pass::MhcPlanar) == lca
            &&& v.contains(Pass::RenderPackLca) == lca
            &&& v.contains(Pass::RenderPack) == !lca
            &&& v.contains(Pass::ChromaH) == flags.chroma
            &&& v.contains(Pass::ChromaV) == flags.chroma
            &&& v.contains(Pass::Temporal) == flags.temporal
        }),
{
    let v = passes_spec(lca, flags);
    let a: int = if lca {
        3
    } else {
        2
    };
    assert(v[0] == Pass::BuildCfa);
    if lca {
        assert(v[1] == Pass::MhcPlanar && v[2] == Pass::RenderPackLca);
    } else {
        assert(v[1] == Pass::RenderPack);
    }
    if flags.chroma {
        assert(v[a] == Pass::ChromaH && v[a + 1] == Pass::ChromaV);
        if flags.temporal {
            assert(v[a + 2] == Pass::Temporal);
        }
    } else if flags.temporal {
        assert(v[a] == Pass::Temporal);
    }
}

/// Temporal denoising blends on every frame but the one on which it starts or restarts, and
/// chroma denoising needs both a radius and a strength.
pub proof fn law_history_is_seeded_once(s: Schedule, first: DenoiseParams, second: DenoiseParams)
    ensures
        ({
            let flags = s.denoised(first).flags(second);
            &&& flags.reset == (s.flags(second).temporal && !s.flags(first).temporal)
            &&& flags.temporal == second.weight
            &&& flags.chroma == (second.chroma_radius > 0 && second.strong)
        }),
        s.denoised(first).source == s.source && s.denoised(first).frame == s.frame && s.denoised(
            first,
        ).lca == s.lca && s.denoised(first).interval == s.interval,
{
}

} // verus!
