//! A fixed-size grid of pixels, row-major, and its serialization to the
//! plain-text PPM image format.
use vstd::prelude::*;
use vstd::string::StringExecFns;

use crate::ppm::{body_text, format_header, format_vector, header_text, row_channels, DisplayColor};

verus! {

/// A `width` by `height` grid of pixels of type `C`.
pub struct Canvas<C> {
    width: usize,
    height: usize,
    pixels: Vec<Vec<C>>,
}

impl<C> View for Canvas<C> {
    /// The rows of the canvas, top row first; each row left pixel first.
    type V = Seq<Seq<C>>;

    closed spec fn view(&self) -> Seq<Seq<C>> {
        self.pixels@.map_values(|row: Vec<C>| row@)
    }
}

impl<C> Canvas<C> {
    pub closed spec fn spec_width(&self) -> nat {
        self.width as nat
    }

    pub closed spec fn spec_height(&self) -> nat {
        self.height as nat
    }

    /// There are `height` rows of `width` pixels each.
    pub open spec fn wf(&self) -> bool {
        &&& self@.len() == self.spec_height()
        &&& forall|y: int| 0 <= y < self@.len() ==> #[trigger] self@[y].len() == self.spec_width()
    }

    /// Every pixel is `color`.
    pub open spec fn filled_with(&self, color: C) -> bool {
        forall|y: int, x: int|
            0 <= y < self.spec_height() && 0 <= x < self.spec_width() ==> #[trigger] self@[y][x]
                == color
    }

    /// A canvas whose every pixel is `color`.
    pub fn new_with_color(width: usize, height: usize, color: C) -> (r: Canvas<C>)
        where
            C: Copy,
        ensures
            r.wf(),
            r.spec_width() == width,
            r.spec_height() == height,
            r.filled_with(color),
    {
        let mut pixels: Vec<Vec<C>> = Vec::new();
        let mut y: usize = 0;
        while y < height
            invariant
                y <= height,
                pixels@.len() == y,
                forall|k: int| 0 <= k < y ==> #[trigger] pixels@[k]@.len() == width,
                forall|k: int, x: int|
                    0 <= k < y && 0 <= x < width ==> #[trigger] pixels@[k]@[x] == color,
            decreases height - y,
        {
            let mut row: Vec<C> = Vec::new();
            let mut x: usize = 0;
            while x < width
                invariant
                    x <= width,
                    row@.len() == x,
                    forall|k: int| 0 <= k < x ==> #[trigger] row@[k] == color,
                decreases width - x,
            {
                row.push(color);
                x += 1;
            }
            pixels.push(row);
            y += 1;
        }
        let r = Canvas { width, height, pixels };
        assert forall|k: int| 0 <= k < r@.len() implies #[trigger] r@[k].len() == r.spec_width() by {
            assert(r@[k] == pixels@[k]@);
        }
        assert forall|k: int, x: int|
            0 <= k < r.spec_height() && 0 <= x < r.spec_width() implies #[trigger] r@[k][x]
            == color by {
            assert(r@[k] == pixels@[k]@);
        }
        r
    }

    /// A canvas whose every pixel is what `C::default()` returns (black, for
    /// a color type whose default is black).
    pub fn new(width: usize, height: usize) -> (r: Canvas<C>)
        where
            C: Copy + Default,
        ensures
            r.wf(),
            r.spec_width() == width,
            r.spec_height() == height,
            exists|fill: C| call_ensures(C::default, (), fill) && r.filled_with(fill),
    {
        let fill = C::default();
        Self::new_with_color(width, height, fill)
    }

    pub fn width(&self) -> (r: usize)
        ensures
            r == self.spec_width(),
    {
        self.width
    }

    pub fn height(&self) -> (r: usize)
        ensures
            r == self.spec_height(),
    {
        self.height
    }

    /// The pixel in column `x` of row `y`.
    pub fn get_pixel_at(&self, x: usize, y: usize) -> (r: C)
        where
            C: Copy,
        requires
            self.wf(),
            x < self.spec_width(),
            y < self.spec_height(),
        ensures
            r == self@[y as int][x as int],
    {
        assert(self@[y as int] == self.pixels@[y as int]@);
        self.pixels[y][x]
    }

    /// Sets the pixel in column `x` of row `y` to `color`; every other pixel
    /// keeps its value.
    pub fn write_pixel_at(&mut self, x: usize, y: usize, color: C)
        requires
            old(self).wf(),
            x < old(self).spec_width(),
            y < old(self).spec_height(),
        ensures
            final(self).wf(),
            final(self).spec_width() == old(self).spec_width(),
            final(self).spec_height() == old(self).spec_height(),
            final(self)@ == old(self)@.update(y as int, old(self)@[y as int].update(x as int, color)),
    {
        assert(self@[y as int] == self.pixels@[y as int]@);
        self.pixels[y][x] = color;
        assert(self@ =~= old(self)@.update(y as int, old(self)@[y as int].update(x as int, color)));
    }

    /// The header of the serialized image.
    pub fn format_ppm_header(&self) -> (r: String)
        ensures
            r@ == header_text(self.spec_width(), self.spec_height()),
    {
        format_header(self.width, self.height)
    }

    /// A canvas of the same size whose pixels are `f` applied to this one's,
    /// pixel by pixel (a color turned into what it is shown as, say).
    pub fn map_pixels<D, F: Fn(C) -> D>(&self, f: F) -> (r: Canvas<D>)
        where
            C: Copy,
        requires
            self.wf(),
            forall|c: C| #[trigger] f.requires((c,)),
        ensures
            r.wf(),
            r.spec_width() == self.spec_width(),
            r.spec_height() == self.spec_height(),
            forall|y: int, x: int|
                0 <= y < self.spec_height() && 0 <= x < self.spec_width() ==> f.ensures(
                    (self@[y][x],),
                    #[trigger] r@[y][x],
                ),
    {
        let mut pixels: Vec<Vec<D>> = Vec::new();
        let mut y: usize = 0;
        while y < self.height
            invariant
                self.wf(),
                forall|c: C| #[trigger] f.requires((c,)),
                y <= self.height,
                pixels@.len() == y,
                forall|k: int| 0 <= k < y ==> #[trigger] pixels@[k]@.len() == self.width,
                forall|k: int, x: int|
                    0 <= k < y && 0 <= x < self.width ==> f.ensures(
                        (self@[k][x],),
                        #[trigger] pixels@[k]@[x],
                    ),
            decreases self.height - y,
        {
            assert(self@[y as int] == self.pixels@[y as int]@);
            let src = &self.pixels[y];
            let mut row: Vec<D> = Vec::new();
            let mut x: usize = 0;
            while x < self.width
                invariant
                    forall|c: C| #[trigger] f.requires((c,)),
                    x <= self.width,
                    src@ == self@[y as int],
                    src@.len() == self.width,
                    row@.len() == x,
                    forall|k: int| 0 <= k < x ==> f.ensures((src@[k],), #[trigger] row@[k]),
                decreases self.width - x,
            {
                row.push(f(src[x]));
                x += 1;
            }
            pixels.push(row);
            y += 1;
        }
        let r = Canvas { width: self.width, height: self.height, pixels };
        assert forall|k: int| 0 <= k < r@.len() implies #[trigger] r@[k].len() == r.spec_width() by {
            assert(r@[k] == pixels@[k]@);
        }
        assert forall|k: int, x: int|
            0 <= k < self.spec_height() && 0 <= x < self.spec_width() implies f.ensures(
            (self@[k][x],),
            #[trigger] r@[k][x],
        ) by {
            assert(r@[k] == pixels@[k]@);
        }
        r
    }
}

impl Canvas<DisplayColor> {
    /// The body of the serialized image: each row's channel values, three
    /// per pixel, as decimal tokens joined by spaces, wrapped so that no line
    /// is longer than the line limit; each row's last line ends with a
    /// newline. Reading only, the same canvas always gives the same text.
    pub fn format_ppm_data(&self) -> (r: String)
        requires
            self.wf(),
        ensures
            r@ == body_text(self@),
    {
        let mut data = String::new();
        let mut y: usize = 0;
        while y < self.pixels.len()
            invariant
                self.wf(),
                y <= self.pixels@.len(),
                self.pixels@.len() == self@.len(),
                data@ == body_text(self@.take(y as int)),
            decreases self.pixels.len() - y,
        {
            assert(self@[y as int] == self.pixels@[y as int]@);
            let row = &self.pixels[y];
            let mut vals: Vec<u8> = Vec::new();
            let mut x: usize = 0;
            while x < row.len()
                invariant
                    x <= row@.len(),
                    vals@ == row_channels(row@.take(x as int)),
                decreases row.len() - x,
            {
                let p = row[x];
                vals.push(p.red);
                vals.push(p.green);
                vals.push(p.blue);
                assert(row@.take(x + 1).drop_last() =~= row@.take(x as int));
                assert(vals@ =~= row_channels(row@.take(x as int)) + seq![p.red, p.green, p.blue]);
                x += 1;
            }
            assert(row@.take(row@.len() as int) =~= row@);
            let line = format_vector(&vals);
            data.append(line.as_str());
            assert(self@.take(y + 1).drop_last() =~= self@.take(y as int));
            y += 1;
        }
        assert(self@.take(self@.len() as int) =~= self@);
        data
    }
}

} // verus!
