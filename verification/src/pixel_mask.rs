//! Alpha masks for pixel-perfect collision detection.
//!
//! A mask stores one byte per pixel of a sprite image: `1` where the image's
//! alpha channel is non-zero (opaque), `0` where it is fully transparent.
//! Pixels are stored row by row, `(0, 0)` being the top-left corner.
use vstd::prelude::*;

verus! {

/// The raw pixel data of a sprite image, as the asset system hands it over:
/// its size in pixels and, once the asset has loaded, its RGBA8 bytes
/// (four bytes per pixel, the alpha byte at offset 3).
pub struct ImageData {
    pub width: u32,
    pub height: u32,
    pub data: Option<Vec<u8>>,
}

/// A per-pixel opacity map of a sprite.
pub struct PixelMask {
    pub width: u32,
    pub height: u32,
    /// One byte per pixel: `1` = opaque, `0` = transparent.
    pub data: Vec<u8>,
}

/// Number of pixels of an image of the given size.
pub open spec fn pixel_count(width: u32, height: u32) -> int {
    width * height
}

/// The alpha byte of pixel `i` (row-major order) exists in the raw data and
/// is non-zero.
pub open spec fn alpha_is_set(image: ImageData, i: int) -> bool {
    match image.data {
        Some(raw) => 4 * i + 3 < raw@.len() && raw@[4 * i + 3] > 0,
        None => false,
    }
}

/// The mask bytes that an image yields: one per pixel, `1` exactly where
/// the alpha byte is present and non-zero.
pub open spec fn mask_bytes(image: ImageData) -> Seq<u8> {
    Seq::new(
        pixel_count(image.width, image.height) as nat,
        |i: int| if alpha_is_set(image, i) { 1u8 } else { 0u8 },
    )
}

/// Sizes for which pixel indices (and, with pixel data present, byte
/// offsets of alpha bytes) can be computed in 32-bit arithmetic.
pub open spec fn image_fits(image: ImageData) -> bool {
    &&& pixel_count(image.width, image.height) <= u32::MAX
    &&& image.data is Some ==> pixel_count(image.width, image.height) <= 0x4000_0000
}

/// `mask` is the mask built from `image`.
pub open spec fn is_mask_of(mask: PixelMask, image: ImageData) -> bool {
    &&& mask.width == image.width
    &&& mask.height == image.height
    &&& mask.data@ == mask_bytes(image)
}

impl PixelMask {
    /// The mask holds a byte for every pixel, and pixel indices fit in 32
    /// bits.
    pub open spec fn wf(&self) -> bool {
        &&& self.data@.len() >= pixel_count(self.width, self.height)
        &&& pixel_count(self.width, self.height) <= 0x1_0000_0000
    }

    /// Pixel `(x, y)` lies inside the mask and is opaque. A mask wider or
    /// taller than `i32::MAX` has no addressable pixel, since coordinates
    /// are compared as `i32`.
    pub open spec fn opaque_at(&self, x: int, y: int) -> bool {
        &&& self.width <= i32::MAX
        &&& self.height <= i32::MAX
        &&& 0 <= x < self.width
        &&& 0 <= y < self.height
        &&& self.data@[y * self.width + x] != 0
    }

    /// Builds the mask of an image: a pixel is opaque exactly when its
    /// alpha byte is present and greater than zero. Without pixel data the
    /// mask is fully transparent.
    pub fn from_image(image: &ImageData) -> (mask: PixelMask)
        requires
            image_fits(*image),
        ensures
            is_mask_of(mask, *image),
            mask.wf(),
            mask.width == image.width,
            mask.height == image.height,
            mask.data@.len() == image.width * image.height,
            forall|i: int|
                0 <= i < image.width * image.height ==> {
                    &&& (#[trigger] mask.data@[i] == 0 || mask.data@[i] == 1)
                    &&& (mask.data@[i] == 1 <==> (image.data matches Some(raw) && 4 * i + 3 < raw@.len()
                        && raw@[4 * i + 3] > 0))
                },
    {
        let width = image.width;
        let height = image.height;
        let count = width * height;
        let mut data = vec![0u8; count as usize];
        assert(data@ =~= Seq::new(count as nat, |i: int| 0u8));
        match &image.data {
            Some(raw) => {
                // Pixels are visited in row-major order: index `i` is the
                // pixel at `(i % width, i / width)`.
                let mut i: u32 = 0;
                while i < count
                    invariant
                        i <= count,
                        count == pixel_count(width, height),
                        count <= 0x4000_0000,
                        image.data == Some(*raw),
                        data@.len() == count,
                        forall|j: int|
                            0 <= j < i ==> #[trigger] data@[j] == (if alpha_is_set(*image, j) {
                                1u8
                            } else {
                                0u8
                            }),
                        forall|j: int| i <= j < count ==> #[trigger] data@[j] == 0u8,
                    decreases count - i,
                {
                    let pixel_idx = (i * 4) as usize;
                    if pixel_idx + 3 < raw.len() && raw[pixel_idx + 3] > 0 {
                        data.set(i as usize, 1);
                    }
                    i = i + 1;
                }
            },
            None => {},
        }
        let mask = PixelMask { width, height, data };
        assert(mask.data@ =~= mask_bytes(*image));
        mask
    }

    /// Whether the pixel at local image coordinates `(x, y)` is opaque;
    /// `false` for coordinates outside the mask.
    pub fn is_opaque(&self, x: i32, y: i32) -> (opaque: bool)
        requires
            self.wf(),
        ensures
            opaque == self.opaque_at(x as int, y as int),
            opaque == {
                &&& self.width <= i32::MAX
                &&& self.height <= i32::MAX
                &&& 0 <= x < self.width
                &&& 0 <= y < self.height
                &&& self.data@[y * self.width + x] != 0
            },
    {
        if x < 0 || y < 0 {
            return false;
        }
        // A size beyond `i32::MAX` reads as negative in the `i32` comparison
        // below, which puts every coordinate out of bounds.
        if self.width > i32::MAX as u32 || self.height > i32::MAX as u32 {
            return false;
        }
        if x >= self.width as i32 || y >= self.height as i32 {
            return false;
        }
        let w = self.width;
        let h = self.height;
        let ux = x as u32;
        let uy = y as u32;
        assert(uy * w + ux < w * h) by (nonlinear_arith)
            requires
                uy < h,
                ux < w,
        ;
        let idx = uy * w + ux;
        self.data[idx as usize] != 0
    }
}

/// Builds the mask of an image once it is available; `None` while the image
/// has not loaded.
pub fn try_load_mask(image: Option<&ImageData>) -> (mask: Option<PixelMask>)
    requires
        image matches Some(img) ==> image_fits(*img),
    ensures
        image is None ==> mask is None,
        image matches Some(img) ==> (mask matches Some(m) && is_mask_of(m, *img) && m.wf()),
{
    match image {
        Some(img) => Some(PixelMask::from_image(img)),
        None => None,
    }
}

/// A pixel of the mask built from an image is opaque exactly when it lies
/// inside the image (whose sides fit `i32`) and its alpha byte is present
/// and non-zero.
pub proof fn lemma_mask_pixel_matches_alpha(mask: PixelMask, image: ImageData, x: int, y: int)
    requires
        is_mask_of(mask, image),
    ensures
        mask.opaque_at(x, y) <==> {
            &&& image.width <= i32::MAX
            &&& image.height <= i32::MAX
            &&& 0 <= x < image.width
            &&& 0 <= y < image.height
            &&& alpha_is_set(image, y * image.width + x)
        },
{
    if 0 <= x < image.width && 0 <= y < image.height {
        let w = image.width as int;
        let h = image.height as int;
        assert(0 <= y * w + x < w * h) by (nonlinear_arith)
            requires
                0 <= x < w,
                0 <= y < h,
        ;
    }
}

} // verus!
