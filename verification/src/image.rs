//! Palettes as images: a raster of RGBA pixels, 256 wide and 1 high.

use vstd::prelude::*;

use crate::types::{Color, Palette};

verus! {

/// What an [`RgbaImage`] holds.
pub struct RgbaImageView {
    pub width: u32,
    pub height: u32,
    /// The pixels, row by row.
    pub pixels: Seq<Color>,
}

/// A raster of RGBA pixels, row by row.
#[derive(Debug)]
pub struct RgbaImage {
    width: u32,
    height: u32,
    pixels: Vec<Color>,
}

impl View for RgbaImage {
    type V = RgbaImageView;

    closed spec fn view(&self) -> RgbaImageView {
        RgbaImageView { width: self.width, height: self.height, pixels: self.pixels@ }
    }
}

impl RgbaImage {
    #[verifier::type_invariant]
    spec fn whole(self) -> bool {
        self.pixels@.len() == self.width * self.height
    }

    /// The image of the given extent with the given pixels, row by row.
    /// There is none where the number of pixels is not that of the extent.
    pub fn new(width: u32, height: u32, pixels: Vec<Color>) -> (r: Option<RgbaImage>)
        ensures
            r is Some <==> pixels@.len() == width * height,
            r matches Some(image) ==> image@ == (RgbaImageView {
                width,
                height,
                pixels: pixels@,
            }),
    {
        assert(width * height <= 0xffff_ffff * 0xffff_ffff) by (nonlinear_arith)
            requires
                width <= 0xffff_ffff,
                height <= 0xffff_ffff,
        ;
        if pixels.len() as u64 == width as u64 * height as u64 {
            Some(RgbaImage { width, height, pixels })
        } else {
            None
        }
    }

    /// The width, in pixels.
    pub fn width(&self) -> (r: u32)
        ensures
            r == self@.width,
            self@.pixels.len() == self@.width * self@.height,
    {
        proof {
            use_type_invariant(self);
        }
        self.width
    }

    /// The height, in pixels.
    pub fn height(&self) -> (r: u32)
        ensures
            r == self@.height,
    {
        self.height
    }

    /// The pixels, row by row.
    pub fn pixels(&self) -> (r: &Vec<Color>)
        ensures
            r@ == self@.pixels,
    {
        &self.pixels
    }
}

/// The first 256 pixels of an image as a palette: slots for which the image
/// has no pixel are transparent black.
pub open spec fn colors_of_pixels(pixels: Seq<Color>) -> Seq<Color> {
    Seq::new(
        256,
        |i: int|
            if i < pixels.len() {
                pixels[i]
            } else {
                Color { r: 0, g: 0, b: 0, a: 0 }
            },
    )
}

impl Palette {
    /// The palette as an image of 256 by 1 pixels.
    pub fn as_image(&self) -> (image: RgbaImage)
        ensures
            image@ == (RgbaImageView { width: 256, height: 1, pixels: self@ }),
    {
        let mut pixels: Vec<Color> = Vec::new();
        let mut i: usize = 0;
        while i < 256
            invariant
                i <= 256,
                pixels@.len() == i,
                forall|k: int| 0 <= k < i ==> pixels@[k] == self@[k],
            decreases 256 - i,
        {
            pixels.push(self.colors[i]);
            i = i + 1;
        }
        assert(pixels@ =~= self@);
        RgbaImage { width: 256, height: 1, pixels }
    }

    /// The palette of the first 256 pixels of an image, row by row. Where
    /// the image has fewer, the other slots are transparent black. The
    /// colour of slot 0 is lost once the palette is written to a file.
    pub fn from_image(image: &RgbaImage) -> (palette: Palette)
        ensures
            palette@ == colors_of_pixels(image@.pixels),
    {
        let mut colors = [Color { r: 0, g: 0, b: 0, a: 0 };256];
        let mut i: usize = 0;
        while i < 256 && i < image.pixels.len()
            invariant
                i <= 256,
                i <= image.pixels@.len(),
                forall|k: int| 0 <= k < i ==> colors@[k] == image.pixels@[k],
                forall|k: int| i <= k < 256 ==> colors@[k] == (Color { r: 0, g: 0, b: 0, a: 0 }),
            decreases 256 - i,
        {
            colors[i] = image.pixels[i];
            i = i + 1;
        }
        assert(colors@ =~= colors_of_pixels(image@.pixels));
        Palette { colors }
    }
}

} // verus!
