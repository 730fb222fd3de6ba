use vstd::prelude::*;

verus! {

/// The content of a character bitmap: its size and its pixels row by row.
pub struct BitmapModel {
    pub width: nat,
    pub height: nat,
    pub pixels: Seq<bool>,
}

/// A character drawn as a grid of set and unset pixels, stored row by row
/// (index = y * width + x).
#[derive(Debug)]
pub struct CharBitmap {
    pub width: usize,
    pub height: usize,
    pub pixels: Vec<bool>,
}

impl View for CharBitmap {
    type V = BitmapModel;

    open spec fn view(&self) -> BitmapModel {
        BitmapModel { width: self.width as nat, height: self.height as nat, pixels: self.pixels@ }
    }
}

impl Clone for CharBitmap {
    fn clone(&self) -> (b: CharBitmap)
        ensures
            b@ == self@,
    {
        CharBitmap { width: self.width, height: self.height, pixels: self.pixels.clone() }
    }
}

impl CharBitmap {
    /// The buffer slot of (x, y) exists when (x, y) is in bounds.
    pub open spec fn slot_ok(&self, x: int, y: int) -> bool {
        0 <= x < self.width && 0 <= y < self.height ==> y * self.width + x < self.pixels@.len()
    }

    /// The pixel at (x, y); positions outside the bitmap are unset.
    pub open spec fn pixel_at(&self, x: int, y: int) -> bool {
        if 0 <= x < self.width && 0 <= y < self.height {
            self.pixels@[y * self.width + x]
        } else {
            false
        }
    }

    /// A `width` x `height` bitmap with no pixel set.
    pub fn new(width: usize, height: usize) -> (b: CharBitmap)
        requires
            width * height <= usize::MAX,
        ensures
            b@ == (BitmapModel {
                width: width as nat,
                height: height as nat,
                pixels: Seq::new((width * height) as nat, |i: int| false),
            }),
    {
        let size = width * height;
        let mut pixels: Vec<bool> = Vec::new();
        let mut k: usize = 0;
        while k < size
            invariant
                k <= size,
                pixels@ == Seq::new(k as nat, |i: int| false),
            decreases size - k,
        {
            pixels.push(false);
            k = k + 1;
        }
        CharBitmap { width, height, pixels }
    }

    /// The pixel at (x, y); unset outside the bitmap.
    pub fn get(&self, x: usize, y: usize) -> (p: bool)
        requires
            self.slot_ok(x as int, y as int),
        ensures
            p == self.pixel_at(x as int, y as int),
    {
        if x >= self.width || y >= self.height {
            return false;
        }
        proof {
            // A Vec's length fits in a usize.
            assert(self.pixels@.len() == self.pixels.len());
        }
        self.pixels[y * self.width + x]
    }

    /// Set the pixel at (x, y); positions outside the bitmap are ignored.
    pub fn set(&mut self, x: usize, y: usize, value: bool)
        requires
            old(self).slot_ok(x as int, y as int),
        ensures
            final(self).width == old(self).width,
            final(self).height == old(self).height,
            final(self).pixels@ == if x < old(self).width && y < old(self).height {
                old(self).pixels@.update(y * old(self).width + x, value)
            } else {
                old(self).pixels@
            },
    {
        if x < self.width && y < self.height {
            proof {
                // A Vec's length fits in a usize.
                assert(self.pixels@.len() == self.pixels.len());
            }
            let i = y * self.width + x;
            self.pixels.set(i, value);
        }
    }
}

/// A source of character bitmaps for drawing text.
pub trait FontRenderer: Send + Sync {
    /// Whether the font can draw `ch` (the bitmap it would draw fits in
    /// memory).
    spec fn can_render(&self, ch: char) -> bool;

    /// The bitmap of `ch`.
    fn render_char(&self, ch: char) -> CharBitmap
        requires
            self.can_render(ch),
    ;

    /// Height of every bitmap of the font.
    fn height(&self) -> usize;
}

} // verus!
