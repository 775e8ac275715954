//! Still pictures: binary PPM, written here, and PNG, through the `image` crate.

use vstd::prelude::*;

use crate::text::{chars_of, closes, digits, ends_with, push_decimal, push_text};

verus! {

/// How a picture is written, by the end of its path: `.png` as PNG, anything else as
/// binary PPM.
#[derive(Debug, Clone, Copy, PartialEq, Eq, Structural)]
pub enum Format {
    Png,
    Ppm,
    /// The path asks for PNG, but its file name is `.png` alone: a hidden file without
    /// an extension, whose format cannot be determined.
    Undetermined,
}

/// The format that a path asks for.
pub open spec fn format_spec(path: Seq<char>) -> Format {
    if !closes(path, ".png"@) {
        Format::Ppm
    } else if path.len() == 4 || path[path.len() - 5] == '/' {
        Format::Undetermined
    } else {
        Format::Png
    }
}

/// The format that a path asks for.
pub fn format_of(path: &str) -> (f: Format)
    ensures
        f == format_spec(path@),
{
    proof {
        reveal_strlit(".png");
    }
    if !ends_with(path, ".png") {
        return Format::Ppm;
    }
    let chars: Vec<char> = chars_of(path);
    let n: usize = chars.len();
    if n == 4 || chars[n - 5] == '/' {
        Format::Undetermined
    } else {
        Format::Png
    }
}

/// The characters of a PPM header.
pub open spec fn ppm_header(w: nat, h: nat) -> Seq<char> {
    "P6\n"@ + digits(w) + " "@ + digits(h) + "\n255\n"@
}

/// Append characters as bytes.
fn push_ascii(out: &mut Vec<u8>, chars: &Vec<char>)
    ensures
        final(out)@ == old(out)@ + chars@.map_values(|c: char| c as u8),
{
    let mut i: usize = 0;
    while i < chars.len()
        invariant
            i <= chars.len(),
            out@ == old(out)@ + chars@.take(i as int).map_values(|c: char| c as u8),
        decreases chars.len() - i,
    {
        out.push(chars[i] as u8);
        i += 1;
        proof {
            assert(out@ =~= old(out)@ + chars@.take(i as int).map_values(|c: char| c as u8));
        }
    }
    proof {
        assert(chars@.take(chars@.len() as int) =~= chars@);
    }
}

/// Append bytes.
fn push_bytes(out: &mut Vec<u8>, bytes: &[u8])
    ensures
        final(out)@ == old(out)@ + bytes@,
{
    let mut i: usize = 0;
    while i < bytes.len()
        invariant
            i <= bytes.len(),
            out@ == old(out)@ + bytes@.take(i as int),
        decreases bytes.len() - i,
    {
        out.push(bytes[i]);
        i += 1;
        proof {
            assert(out@ =~= old(out)@ + bytes@.take(i as int));
        }
    }
    proof {
        assert(bytes@.take(bytes@.len() as int) =~= bytes@);
    }
}

/// A binary PPM (P6) file: the header, then the RGB bytes as they are.
pub fn ppm(w: usize, h: usize, rgb: &[u8]) -> (file: Vec<u8>)
    ensures
        file@ == ppm_header(w as nat, h as nat).map_values(|c: char| c as u8) + rgb@,
{
    let mut header: Vec<char> = Vec::new();
    push_text(&mut header, "P6\n");
    push_decimal(&mut header, w as u64);
    push_text(&mut header, " ");
    push_decimal(&mut header, h as u64);
    push_text(&mut header, "\n255\n");
    proof {
        assert(header@ =~= ppm_header(w as nat, h as nat));
    }
    let mut file: Vec<u8> = Vec::new();
    push_ascii(&mut file, &header);
    push_bytes(&mut file, rgb);
    file
}

/// The `image` crate's error.
#[verifier::external_type_specification]
#[verifier::external_body]
pub struct ExImageError(image::ImageError);

/// The PNG file that encodes an image of RGB bytes; `None` where the encoder
/// refuses it.
pub uninterp spec fn png_of(w: u32, h: u32, rgb: Seq<u8>) -> Option<Seq<u8>>;

/// Encode RGB bytes as PNG, into memory.
///
/// Calls `image::write_buffer_with_format` with eight-bit RGB and the PNG format.
/// Taken on trust: what it writes, or that it refuses, is determined by the size
/// and the bytes. It panics on a buffer that does not fill the size exactly, which
/// is why that is required.
#[verifier::external_body]
fn encode_png(w: u32, h: u32, rgb: &[u8]) -> (file: Result<Vec<u8>, image::ImageError>)
    requires
        rgb.len() == 3 * (w * h),
    ensures
        match (file, png_of(w, h, rgb@)) {
            (Ok(file), Some(bytes)) => file@ == bytes,
            (Err(_), None) => true,
            _ => false,
        },
{
    let mut out = std::io::Cursor::new(Vec::new());
    let color = image::ExtendedColorType::Rgb8;
    image::write_buffer_with_format(&mut out, rgb, w, h, color, image::ImageFormat::Png)?;
    Ok(out.into_inner())
}

/// Why a picture could not be encoded.
#[derive(Debug, Clone, PartialEq, Eq)]
pub enum PngError {
    /// The buffer does not fill the size.
    SizeMismatch,
    /// The encoder refused, for this reason.
    Refused(String),
}

/// A PNG file of an image. Bytes past the last pixel are left out; a buffer that is
/// too short is refused.
pub fn png(w: u32, h: u32, rgb: &[u8]) -> (file: Result<Vec<u8>, PngError>)
    requires
        3 * (w * h) <= usize::MAX,
    ensures
        match file {
            Ok(file) => rgb.len() >= 3 * (w * h) && png_of(w, h, rgb@.take(3 * (w * h))) == Some(
                file@,
            ),
            Err(PngError::SizeMismatch) => rgb.len() < 3 * (w * h),
            Err(PngError::Refused(_)) => rgb.len() >= 3 * (w * h) && png_of(
                w,
                h,
                rgb@.take(3 * (w * h)),
            ) is None,
        },
{
    proof {
        assert(w * h <= 3 * (w * h) && 0 <= w * h) by (nonlinear_arith)
            requires
                0 <= w,
                0 <= h,
        ;
    }
    let n: usize = w as usize * h as usize * 3;
    if rgb.len() < n {
        return Err(PngError::SizeMismatch);
    }
    let used: &[u8] = vstd::slice::slice_subrange(rgb, 0, n);
    proof {
        assert(used@ =~= rgb@.take(3 * (w * h)));
    }
    match encode_png(w, h, used) {
        Ok(file) => Ok(file),
        Err(e) => Err(PngError::Refused(e.to_string())),
    }
}

/// A path is a PNG picture's when it is a file name and `.png` behind it; it is undetermined
/// when the name is missing, and any other path is a PPM picture's.
pub proof fn law_extension_follows_a_name(stem: Seq<char>, path: Seq<char>)
    ensures
        format_spec(stem + ".png"@) == (if stem.len() == 0 || stem.last() == '/' {
            Format::Undetermined
        } else {
            Format::Png
        }),
        format_spec(path) != Format::Ppm ==> path.len() >= 4 && path == path.take(path.len() - 4)
            + ".png"@,
{
    reveal_strlit(".png");
    let full = stem + ".png"@;
    assert(full.skip(full.len() - 4) =~= ".png"@);
    if stem.len() > 0 {
        assert(full[full.len() - 5] == stem.last());
    }
    if closes(path, ".png"@) {
        assert(path =~= path.take(path.len() - 4) + ".png"@);
    }
}

} // verus!
