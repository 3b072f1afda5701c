use vstd::prelude::*;

use crate::framebuffer::Color;

verus! {

/// The color returned for a key without texture or a texel outside its texture.
pub open spec fn missing_color() -> Color {
    Color { r: 255, g: 255, b: 255, a: 255 }
}

/// An image of `width * height` colors stored row after row, named by the
/// cell identifier or sprite key that it is drawn for.
pub struct Texture {
    pub key: char,
    pub width: u32,
    pub height: u32,
    pub pixels: Vec<Color>,
}

impl Texture {
    pub open spec fn wf(&self) -> bool {
        self.pixels@.len() == self.width * self.height
    }

    /// The texel at `(x, y)`, or `missing_color()` outside the image.
    pub open spec fn texel(&self, x: int, y: int) -> Color {
        if 0 <= x < self.width && 0 <= y < self.height {
            self.pixels@[y * self.width + x]
        } else {
            missing_color()
        }
    }

    /// A texture of the given size; `pixels` must hold `width * height` colors.
    pub fn new(key: char, width: u32, height: u32, pixels: Vec<Color>) -> (t: Texture)
        requires
            pixels@.len() == width * height,
        ensures
            t.wf(),
            t == (Texture { key, width, height, pixels }),
    {
        Texture { key, width, height, pixels }
    }
}

/// The textures of a scene, looked up by key; the first with a key wins.
pub struct TextureManager {
    pub textures: Vec<Texture>,
}

/// `i` is the position of the first texture with the key.
pub open spec fn is_first_with_key(ts: Seq<Texture>, key: char, i: int) -> bool {
    &&& 0 <= i < ts.len()
    &&& ts[i].key == key
    &&& forall|j: int| 0 <= j < i ==> ts[j].key != key
}

/// The color at `(x, y)` of the texture for `key`.
pub open spec fn texel_of(ts: Seq<Texture>, key: char, x: int, y: int) -> Color {
    if exists|i: int| is_first_with_key(ts, key, i) {
        let i = choose|i: int| is_first_with_key(ts, key, i);
        ts[i].texel(x, y)
    } else {
        missing_color()
    }
}

impl TextureManager {
    pub open spec fn wf(&self) -> bool {
        forall|i: int| 0 <= i < self.textures@.len() ==> (#[trigger] self.textures@[i]).wf()
    }

    pub fn new() -> (tm: TextureManager)
        ensures
            tm.wf(),
            tm.textures@.len() == 0,
    {
        TextureManager { textures: Vec::new() }
    }

    /// Adds a texture; one already held under the same key keeps precedence.
    pub fn add(&mut self, texture: Texture)
        requires
            old(self).wf(),
            texture.wf(),
        ensures
            final(self).wf(),
            final(self).textures@ == old(self).textures@.push(texture),
    {
        self.textures.push(texture);
    }

    /// Position of the first texture with the key.
    pub fn find(&self, key: char) -> (r: Option<usize>)
        ensures
            match r {
                Some(i) => is_first_with_key(self.textures@, key, i as int),
                None => forall|j: int| 0 <= j < self.textures@.len() ==> self.textures@[j].key != key,
            },
    {
        let mut i: usize = 0;
        while i < self.textures.len()
            invariant
                i <= self.textures@.len(),
                forall|j: int| 0 <= j < i ==> self.textures@[j].key != key,
            decreases self.textures@.len() - i,
        {
            if self.textures[i].key == key {
                return Some(i);
            }
            i = i + 1;
        }
        None
    }

    /// The texture for `key`.
    pub fn get_texture(&self, key: char) -> (r: Option<&Texture>)
        ensures
            match r {
                Some(t) => exists|i: int| is_first_with_key(self.textures@, key, i) && self.textures@[i] == *t,
                None => !exists|i: int| is_first_with_key(self.textures@, key, i),
            },
    {
        match self.find(key) {
            Some(i) => Some(&self.textures[i]),
            None => None,
        }
    }

    /// The color at `(tx, ty)` of the texture for `key`; `missing_color()` where
    /// there is no such texture or texel.
    pub fn get_pixel_color(&self, key: char, tx: u32, ty: u32) -> (c: Color)
        requires
            self.wf(),
        ensures
            c == texel_of(self.textures@, key, tx as int, ty as int),
    {
        match self.find(key) {
            Some(i) => {
                proof {
                    let j = choose|j: int| is_first_with_key(self.textures@, key, j);
                    assert(j == i as int);
                }
                let t = &self.textures[i];
                if tx < t.width && ty < t.height {
                    assert(self.textures@[i as int].wf());
                    assert(ty * t.width <= ty * t.width + tx < t.width * t.height <= 0xffff_ffff * 0xffff_ffff)
                        by (nonlinear_arith)
                        requires
                            tx < t.width,
                            ty < t.height,
                            t.width <= 0xffff_ffff,
                            t.height <= 0xffff_ffff,
                    ;
                    let row: u64 = ty as u64 * t.width as u64;
                    let k: u64 = row + tx as u64;
                    let n: usize = t.pixels.len();
                    assert(k < n);
                    t.pixels[k as usize]
                } else {
                    Color { r: 255, g: 255, b: 255, a: 255 }
                }
            },
            None => Color { r: 255, g: 255, b: 255, a: 255 },
        }
    }
}

} // verus!
