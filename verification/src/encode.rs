//! Encoding the framebuffer as a PNG file: eight bits per channel, red,
//! green, blue and alpha, with the gamma and the chromaticities of the
//! source written into the header.

use crate::renderer::Renderer;
use vstd::prelude::*;

verus! {

/// The error type of the `png` crate's encoder.
#[verifier::external_type_specification]
#[verifier::external_body]
pub struct ExEncodingError(png::EncodingError);

/// Source gamma `1 / 2.2`, in units of 1/100000 and rounded down.
pub const SOURCE_GAMMA: u32 = 45454;

/// The bytes of the transparency chunk.
pub const TRANSPARENCY: [u8; 4] = [255, 255, 255, 255];

/// The chromaticities of the source in units of 1/100000: x and y of the
/// white point, of red, of green and of blue.
pub const SOURCE_CHROMATICITIES: [u32; 8] = [31270, 32900, 64000, 33000, 30000, 60000, 15000, 6000];

/// The eight bytes that every PNG file begins with.
pub open spec fn png_signature() -> Seq<u8> {
    seq![137u8, 80u8, 78u8, 71u8, 13u8, 10u8, 26u8, 10u8]
}

/// The PNG colour type of the image: red, green, blue and alpha.
pub const COLOR_TYPE: u8 = 6;

/// The bits of each channel.
pub const BIT_DEPTH: u8 = 8;

/// What the `png` crate's encoder makes of an image of `width` by `height`
/// pixels of the colour type `color` at `depth` bits a channel, with the
/// bytes `data`, a transparency chunk `trns`, the source gamma `gamma` and
/// the source chromaticities `chroma`: the PNG file that it writes, or
/// nothing where it refuses the image.
pub uninterp spec fn png_file(
    width: u32,
    height: u32,
    color: u8,
    depth: u8,
    data: Seq<u8>,
    trns: Seq<u8>,
    gamma: u32,
    chroma: Seq<u32>,
) -> Option<Seq<u8>>;

/// Runs the `png` crate's encoder into memory: `Encoder::new`, `set_color`,
/// `set_depth`, `set_trns`, `set_source_gamma`, `set_source_chromaticities`,
/// `write_header`, `Writer::write_image_data` and `Writer::finish`, with
/// `ColorType::from_u8`, `BitDepth::from_u8` and `ScaledFloat::from_scaled`
/// for the numbers. It is called for four bytes a pixel and for images whose
/// bytes a `u32` counts, which keeps the encoder's own arithmetic in range.
///
/// The encoder writes into memory and works on its arguments alone, so
/// whether it succeeds and what it writes is what `png_file` names. Trusted
/// besides: a file begins with the PNG signature, which `write_header` writes
/// first; an image without width or without height is refused, which
/// `write_header` tests before it writes; every other image is encoded, since
/// the bytes are as many as the image asks for and writing into memory does
/// not fail.
#[verifier::external_body]
fn png_encode(
    width: u32,
    height: u32,
    color: u8,
    depth: u8,
    data: &Vec<u8>,
    trns: [u8; 4],
    gamma: u32,
    chroma: [u32; 8],
) -> (r: Result<Vec<u8>, png::EncodingError>)
    requires
        color == COLOR_TYPE,
        depth == BIT_DEPTH,
        width * height * 4 <= u32::MAX,
        data@.len() == 4 * (width * height),
    ensures
        match r {
            Ok(file) => png_file(width, height, color, depth, data@, trns@, gamma, chroma@)
                == Some(file@),
            Err(_) => png_file(width, height, color, depth, data@, trns@, gamma, chroma@) is None,
        },
        r matches Ok(file) ==> file@.len() >= 8 && file@.subrange(0, 8) == png_signature(),
        (r is Ok) == (width != 0 && height != 0),
{
    let [wx, wy, rx, ry, gx, gy, bx, by] = chroma.map(png::ScaledFloat::from_scaled);
    let mut file = Vec::new();
    let mut encoder = png::Encoder::new(&mut file, width, height);
    encoder.set_color(png::ColorType::from_u8(color).unwrap());
    encoder.set_depth(png::BitDepth::from_u8(depth).unwrap());
    encoder.set_trns(trns.to_vec());
    encoder.set_source_gamma(png::ScaledFloat::from_scaled(gamma));
    encoder.set_source_chromaticities(png::SourceChromaticities {
        white: (wx, wy), red: (rx, ry), green: (gx, gy), blue: (bx, by),
    });
    let mut writer = encoder.write_header()?;
    writer.write_image_data(data)?;
    writer.finish()?;
    Ok(file)
}

/// The encoder's own words for an error, through its `Display`.
#[verifier::external_body]
fn describe(error: &png::EncodingError) -> String {
    format!("{}", error)
}

/// The image could not be encoded.
#[derive(Debug, Clone)]
pub struct EncodeError {
    /// The cause, in the encoder's words.
    pub message: String,
}

/// Turns what the encoder returned into the library's result: a file stays
/// the file it is, an error is kept by its description.
pub fn encoded(outcome: Result<Vec<u8>, png::EncodingError>) -> (r: Result<Vec<u8>, EncodeError>)
    ensures
        outcome is Ok <==> r is Ok,
        outcome matches Ok(file) ==> r matches Ok(same) && same == file,
{
    match outcome {
        Ok(file) => Ok(file),
        Err(error) => Err(EncodeError { message: describe(&error) }),
    }
}

impl Renderer {
    /// What the encoder makes of the image as it stands: eight bits a
    /// channel, red, green, blue and alpha, with the library's transparency
    /// chunk, source gamma and source chromaticities.
    pub open spec fn spec_png(&self) -> Option<Seq<u8>> {
        png_file(
            self.spec_width(),
            self.spec_height(),
            COLOR_TYPE,
            BIT_DEPTH,
            self.spec_data(),
            TRANSPARENCY@,
            SOURCE_GAMMA,
            SOURCE_CHROMATICITIES@,
        )
    }

    /// The PNG file of the image as it stands. An image with pixels is
    /// encoded, and the file is the encoder's; an image without width or
    /// without height has no file.
    pub fn encode_png(&self) -> (r: Result<Vec<u8>, EncodeError>)
        requires
            self.wf(),
        ensures
            (r is Ok) == (self.spec_width() != 0 && self.spec_height() != 0),
            match self.spec_png() {
                Some(file) => r matches Ok(written) && written@ == file,
                None => r is Err,
            },
            r matches Ok(file) ==> file@.len() >= 8 && file@.subrange(0, 8) == png_signature(),
    {
        proof {
            self.lemma_size();
        }
        encoded(
            png_encode(
                self.width(),
                self.height(),
                COLOR_TYPE,
                BIT_DEPTH,
                self.data(),
                TRANSPARENCY,
                SOURCE_GAMMA,
                SOURCE_CHROMATICITIES,
            ),
        )
    }
}

} // verus!
