use vstd::prelude::*;

verus! {

/// Largest width or height of a pixel buffer.
pub const SIZE_LIMIT: usize = 0x8000;

/// A color with an alpha channel.
#[derive(Clone, Copy, Debug, PartialEq, Eq, Structural)]
pub struct Color {
    pub r: u8,
    pub g: u8,
    pub b: u8,
    pub a: u8,
}

impl Color {
    pub fn new(r: u8, g: u8, b: u8, a: u8) -> (c: Color)
        ensures
            c == (Color { r, g, b, a }),
    {
        Color { r, g, b, a }
    }
}

/// A pixel buffer of `width * height` colors stored row after row, with a
/// background color used by `clear` and a current color used by `set_pixel`.
pub struct Framebuffer {
    pub width: usize,
    pub height: usize,
    pub buffer: Vec<Color>,
    pub background_color: Color,
    pub current_color: Color,
}

/// Position of pixel `(x, y)` in a buffer of the given width.
pub open spec fn index_of(width: int, x: int, y: int) -> int {
    y * width + x
}

/// Pixels of distinct coordinates lie at distinct positions in the buffer, and
/// every pixel lies within it.
pub proof fn lemma_index(width: int, height: int, x: int, y: int, x2: int, y2: int)
    requires
        0 <= x < width,
        0 <= y < height,
        0 <= x2 < width,
        0 <= y2 < height,
        height <= SIZE_LIMIT,
        width <= SIZE_LIMIT,
    ensures
        0 <= y * width <= index_of(width, x, y) < width * height <= SIZE_LIMIT * SIZE_LIMIT,
        (x != x2 || y != y2) ==> index_of(width, x, y) != index_of(width, x2, y2),
{
    assert(0 <= y * width <= y * width + x < width * height <= SIZE_LIMIT * SIZE_LIMIT) by (nonlinear_arith)
        requires
            0 <= x < width,
            0 <= y < height,
            height <= SIZE_LIMIT,
            width <= SIZE_LIMIT,
    ;
    if y < y2 {
        assert(y * width + x < y2 * width + x2) by (nonlinear_arith)
            requires
                0 <= x < width,
                0 <= x2,
                y < y2,
        ;
    } else if y2 < y {
        assert(y2 * width + x2 < y * width + x) by (nonlinear_arith)
            requires
                0 <= x2 < width,
                0 <= x,
                y2 < y,
        ;
    }
}

impl Framebuffer {
    pub open spec fn wf(&self) -> bool {
        &&& self.width <= SIZE_LIMIT
        &&& self.height <= SIZE_LIMIT
        &&& self.buffer@.len() == self.width * self.height
    }

    pub open spec fn in_bounds(&self, x: int, y: int) -> bool {
        0 <= x < self.width && 0 <= y < self.height
    }

    /// The color of pixel `(x, y)`.
    pub open spec fn px(&self, x: int, y: int) -> Color {
        self.buffer@[index_of(self.width as int, x, y)]
    }

    /// A buffer of the given size, every pixel black.
    pub fn new(width: usize, height: usize) -> (fb: Framebuffer)
        requires
            width <= SIZE_LIMIT,
            height <= SIZE_LIMIT,
        ensures
            fb.wf(),
            fb.width == width,
            fb.height == height,
            fb.background_color == (Color { r: 0, g: 0, b: 0, a: 255 }),
            fb.current_color == (Color { r: 255, g: 255, b: 255, a: 255 }),
            forall|x: int, y: int| fb.in_bounds(x, y) ==> fb.px(x, y) == fb.background_color,
    {
        let black = Color { r: 0, g: 0, b: 0, a: 255 };
        assert(width * height <= SIZE_LIMIT * SIZE_LIMIT) by (nonlinear_arith)
            requires
                width <= SIZE_LIMIT,
                height <= SIZE_LIMIT,
        ;
        let n: usize = width * height;
        let mut buffer: Vec<Color> = Vec::new();
        while buffer.len() < n
            invariant
                buffer@.len() <= n,
                forall|i: int| 0 <= i < buffer@.len() ==> buffer@[i] == black,
            decreases n - buffer@.len(),
        {
            buffer.push(black);
        }
        let fb = Framebuffer {
            width,
            height,
            buffer,
            background_color: black,
            current_color: Color { r: 255, g: 255, b: 255, a: 255 },
        };
        assert forall|x: int, y: int| fb.in_bounds(x, y) implies fb.px(x, y) == fb.background_color by {
            lemma_index(width as int, height as int, x, y, x, y);
        }
        fb
    }

    /// Paints every pixel with the background color.
    pub fn clear(&mut self)
        requires
            old(self).wf(),
        ensures
            final(self).wf(),
            final(self).width == old(self).width,
            final(self).height == old(self).height,
            final(self).background_color == old(self).background_color,
            final(self).current_color == old(self).current_color,
            forall|x: int, y: int|
                final(self).in_bounds(x, y) ==> final(self).px(x, y) == final(self).background_color,
    {
        let n = self.buffer.len();
        let mut i: usize = 0;
        while i < n
            invariant
                i <= n,
                n == self.buffer@.len(),
                self.wf(),
                self.width == old(self).width,
                self.height == old(self).height,
                self.background_color == old(self).background_color,
                self.current_color == old(self).current_color,
                forall|j: int| 0 <= j < i ==> self.buffer@[j] == self.background_color,
            decreases n - i,
        {
            let c = self.background_color;
            self.buffer.set(i, c);
            i = i + 1;
        }
        assert forall|x: int, y: int| self.in_bounds(x, y) implies self.px(x, y)
            == self.background_color by {
            lemma_index(self.width as int, self.height as int, x, y, x, y);
        }
    }

    pub fn set_background_color(&mut self, color: Color)
        ensures
            *final(self) == (Framebuffer { background_color: color, ..*old(self) }),
    {
        self.background_color = color;
    }

    pub fn set_current_color(&mut self, color: Color)
        ensures
            *final(self) == (Framebuffer { current_color: color, ..*old(self) }),
    {
        self.current_color = color;
    }

    /// Paints pixel `(x, y)` with the current color; a pixel outside the
    /// buffer is ignored.
    pub fn set_pixel(&mut self, x: u32, y: u32)
        requires
            old(self).wf(),
        ensures
            final(self).wf(),
            final(self).width == old(self).width,
            final(self).height == old(self).height,
            final(self).background_color == old(self).background_color,
            final(self).current_color == old(self).current_color,
            forall|x2: int, y2: int|
                #![trigger final(self).px(x2, y2)]
                final(self).in_bounds(x2, y2) ==> final(self).px(x2, y2) == if x2 == x && y2 == y {
                    old(self).current_color
                } else {
                    old(self).px(x2, y2)
                },
    {
        if (x as usize) < self.width && (y as usize) < self.height {
            proof {
                lemma_index(self.width as int, self.height as int, x as int, y as int, 0, 0);
            }
            let i: usize = y as usize * self.width + x as usize;
            let c = self.current_color;
            self.buffer.set(i, c);
            assert(self.buffer@ == old(self).buffer@.update(index_of(self.width as int, x as int, y as int), c));
            assert forall|x2: int, y2: int| self.in_bounds(x2, y2) implies self.px(x2, y2) == if x2
                == x && y2 == y {
                old(self).current_color
            } else {
                old(self).px(x2, y2)
            } by {
                lemma_index(self.width as int, self.height as int, x as int, y as int, x2, y2);
                lemma_index(self.width as int, self.height as int, x2, y2, x2, y2);
                let k = index_of(self.width as int, x2, y2);
                assert(self.buffer@[k] == old(self).buffer@.update(
                    index_of(self.width as int, x as int, y as int),
                    c,
                )[k]);
            }
        }
    }

    /// The color of pixel `(x, y)`.
    pub fn get_pixel(&self, x: usize, y: usize) -> (c: Color)
        requires
            self.wf(),
            x < self.width,
            y < self.height,
        ensures
            c == self.px(x as int, y as int),
    {
        proof {
            lemma_index(self.width as int, self.height as int, x as int, y as int, 0, 0);
        }
        self.buffer[y * self.width + x]
    }
}

} // verus!
