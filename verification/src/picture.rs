//! The pixels of images that are pasted into a prompt.
use vstd::prelude::*;

verus! {

/// An image as pixels, row after row, each of four bytes: red, green, blue and
/// opacity.
#[derive(Debug, Clone)]
pub struct Picture {
    pub width: u32,
    pub height: u32,
    pub rgba: Vec<u8>,
}

/// An image as pixels.
pub struct PictureView {
    pub width: u32,
    pub height: u32,
    pub rgba: Seq<u8>,
}

impl View for Picture {
    type V = PictureView;

    open spec fn view(&self) -> PictureView {
        PictureView { width: self.width, height: self.height, rgba: self.rgba@ }
    }
}

impl PictureView {
    /// Every pixel has its four bytes.
    pub open spec fn well_formed(self) -> bool {
        self.rgba.len() == 4 * (self.width as nat * self.height as nat)
    }
}

/// The width, the height and the pixels that the `image` crate makes of a file, if
/// the file is an image.
pub uninterp spec fn decoded_picture(bytes: Seq<u8>) -> Option<(u32, u32, Seq<u8>)>;

/// The image that is in a file, if one is.
pub open spec fn picture_of(bytes: Seq<u8>) -> Option<PictureView> {
    match decoded_picture(bytes) {
        Some((width, height, rgba)) => Some(PictureView { width, height, rgba }),
        None => None,
    }
}

/// Calls `image::load_from_memory` and turns what it loads into pixels of four
/// bytes with `DynamicImage::into_rgba8`. The result depends on the bytes alone and
/// is `decoded_picture` of them; where there is one, it has four bytes for each of
/// its width times height pixels. Which files are images, and what their pixels
/// are, is left to the decoders.
#[verifier::external_body]
fn load_picture(bytes: &Vec<u8>) -> (r: Option<Picture>)
    ensures
        match r {
            Some(p) => decoded_picture(bytes@) == Some((p.width, p.height, p.rgba@))
                && p@.well_formed(),
            None => decoded_picture(bytes@) is None,
        },
{
    let pixels = image::load_from_memory(bytes).ok()?.into_rgba8();
    let (width, height) = pixels.dimensions();
    Some(Picture { width, height, rgba: pixels.into_raw() })
}

/// The image in the bytes of a file, as it is shown beside the prompt.
pub fn prompt_image(bytes: &Vec<u8>) -> (r: Option<Picture>)
    ensures
        match r {
            Some(p) => picture_of(bytes@) == Some(p@) && p@.well_formed(),
            None => picture_of(bytes@) is None,
        },
{
    load_picture(bytes)
}

} // verus!
