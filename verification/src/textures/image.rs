//! An image held as rows of RGB bytes.

use vstd::prelude::*;

verus! {

/// Why a buffer of bytes is no image of the size given for it.
#[derive(Clone, Copy, Debug, PartialEq, Eq)]
pub enum ImageError {
    /// The buffer does not hold exactly three bytes for each pixel.
    Size,
}

/// An RGB image, three bytes to the pixel, rows from the top.
#[derive(Debug)]
pub struct Image {
    width: usize,
    height: usize,
    data: Vec<u8>,
}

impl Image {
    #[verifier::type_invariant]
    pub open spec fn inv(&self) -> bool {
        self.wf()
    }

    /// The number of pixels in a row.
    pub closed spec fn spec_width(&self) -> nat {
        self.width as nat
    }

    /// The number of rows.
    pub closed spec fn spec_height(&self) -> nat {
        self.height as nat
    }

    /// The bytes, row after row from the top, three to the pixel.
    pub closed spec fn bytes(&self) -> Seq<u8> {
        self.data@
    }

    /// The buffer holds exactly three bytes for each pixel.
    pub open spec fn wf(&self) -> bool {
        self.bytes().len() == self.spec_width() * self.spec_height() * 3
    }

    /// Where in the buffer the pixel starts that a lookup at a column and a
    /// row counted from the bottom reads: column and row are held to the
    /// image, and the row is then counted from the top.
    pub open spec fn offset(&self, column: int, row: int) -> int {
        let i = if column >= self.spec_width() {
            self.spec_width() - 1
        } else {
            column
        };
        let j = if row >= self.spec_height() {
            self.spec_height() - 1
        } else {
            row
        };
        i * 3 + (self.spec_height() - 1 - j) * 3 * self.spec_width()
    }

    /// An image of a width and a height from its bytes, three for each pixel.
    pub fn new(width: usize, height: usize, data: Vec<u8>) -> (image: Self)
        requires
            data@.len() == width * height * 3,
        ensures
            image.wf(),
            image.spec_width() == width,
            image.spec_height() == height,
            image.bytes() == data@,
    {
        Image { width, height, data }
    }

    /// The image that a decoder hands over as a width, a height and a buffer
    /// of bytes; an error where the buffer does not fit the two.
    pub fn load(width: u32, height: u32, raw: Vec<u8>) -> (loaded: Result<Self, ImageError>)
        ensures
            loaded is Ok <==> raw@.len() == width * height * 3,
            loaded matches Ok(image) ==> {
                &&& image.wf()
                &&& image.spec_width() == width
                &&& image.spec_height() == height
                &&& image.bytes() == raw@
            },
            loaded matches Err(error) ==> error == ImageError::Size,
    {
        assert(width * height <= 0xffff_ffff * 0xffff_ffff) by (nonlinear_arith)
            requires
                width <= 0xffff_ffff,
                height <= 0xffff_ffff,
        ;
        let pixels: u128 = (width as u128) * (height as u128);
        let needed: u128 = pixels * 3;
        if raw.len() as u128 == needed {
            Ok(Image { width: width as usize, height: height as usize, data: raw })
        } else {
            Err(ImageError::Size)
        }
    }

    /// The number of pixels in a row.
    pub fn width(&self) -> (width: usize)
        ensures
            width == self.spec_width(),
    {
        self.width
    }

    /// The number of rows.
    pub fn height(&self) -> (height: usize)
        ensures
            height == self.spec_height(),
    {
        self.height
    }

    /// The red, green and blue bytes of the pixel at a column and at a row
    /// counted from the bottom. A column or a row beyond the image reads the
    /// last one. The image has at least one pixel.
    pub fn texel(&self, column: usize, row: usize) -> (rgb: (u8, u8, u8))
        requires
            self.spec_width() > 0,
            self.spec_height() > 0,
        ensures
            0 <= self.offset(column as int, row as int),
            self.offset(column as int, row as int) + 2 < self.bytes().len(),
            rgb.0 == self.bytes()[self.offset(column as int, row as int)],
            rgb.1 == self.bytes()[self.offset(column as int, row as int) + 1],
            rgb.2 == self.bytes()[self.offset(column as int, row as int) + 2],
    {
        proof {
            use_type_invariant(self);
        }
        let i: usize = if column >= self.width {
            self.width - 1
        } else {
            column
        };
        let j: usize = if row >= self.height {
            self.height - 1
        } else {
            row
        };
        let from_top: usize = self.height - 1 - j;
        assert(i * 3 + from_top * 3 * self.width + 2 < self.width * self.height * 3 && 0 <= from_top
            * 3 * self.width && from_top * 3 <= from_top * 3 * self.width) by (nonlinear_arith)
            requires
                0 <= i < self.width,
                0 <= from_top < self.height,
        ;
        let length: usize = self.data.len();
        assert(self.width * self.height * 3 == length);
        let pixel: usize = i * 3 + from_top * 3 * self.width;
        (self.data[pixel], self.data[pixel + 1], self.data[pixel + 2])
    }
}

} // verus!
