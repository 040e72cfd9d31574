use std::collections::HashMap;
use vstd::prelude::*;

use crate::color::{pack_pixel, pack_rgb};

verus! {

broadcast use vstd::std_specs::hash::group_hash_axioms;

/// What a texture holds: its size and its pixels row by row.
pub struct TexelGrid {
    pub width: nat,
    pub height: nat,
    pub pixels: Seq<u32>,
}

impl TexelGrid {
    /// One pixel per cell of the grid.
    pub open spec fn well_sized(self) -> bool {
        self.pixels.len() == self.width * self.height
    }

    /// The pixel at column `x` of row `y`.
    pub open spec fn texel(self, x: int, y: int) -> u32 {
        self.pixels[y * self.width + x]
    }
}

/// `v` brought into `0..n`: values past the end stick to the last index.
pub open spec fn clamp_index(v: int, n: int) -> int {
    if v < n {
        v
    } else {
        n - 1
    }
}

/// The pixels of `rgb`, three bytes (red, green, blue) per pixel.
pub open spec fn packed_pixels(rgb: Seq<u8>) -> Seq<u32> {
    Seq::new(rgb.len() / 3, |k: int| pack_rgb(rgb[3 * k], rgb[3 * k + 1], rgb[3 * k + 2]))
}

/// A decoded texture kept in memory: its pixels are in the same `0xRRGGBB`
/// format the frame buffer uses, so sampling needs no conversion while
/// rendering.
pub struct Texture {
    width: usize,
    height: usize,
    pixels: Vec<u32>,
}

impl View for Texture {
    type V = TexelGrid;

    closed spec fn view(&self) -> TexelGrid {
        TexelGrid { width: self.width as nat, height: self.height as nat, pixels: self.pixels@ }
    }
}

impl Texture {
    #[verifier::type_invariant]
    spec fn well_sized(self) -> bool {
        self.pixels.len() == self.width * self.height
    }

    /// Builds a texture from decoded RGB bytes, three per pixel, row by row.
    pub fn from_rgb(width: usize, height: usize, rgb: &[u8]) -> (t: Texture)
        requires
            rgb@.len() == 3 * width * height,
        ensures
            t@.width == width,
            t@.height == height,
            t@.pixels == packed_pixels(rgb@),
            t@.well_sized(),
    {
        let len = rgb.len();
        let n = len / 3;
        assert(n == width * height && rgb@.len() == 3 * n) by (nonlinear_arith)
            requires
                rgb@.len() == 3 * width * height,
                n == rgb@.len() / 3,
        ;
        let mut pixels: Vec<u32> = Vec::new();
        for k in 0..n
            invariant
                len == rgb@.len(),
                n == rgb@.len() / 3,
                rgb@.len() == 3 * n,
                pixels@ == packed_pixels(rgb@).take(k as int),
        {
            assert(3 * k + 2 < rgb@.len()) by (nonlinear_arith)
                requires
                    k < n,
                    rgb@.len() == 3 * n,
            ;
            let p = pack_pixel(rgb[3 * k], rgb[3 * k + 1], rgb[3 * k + 2]);
            pixels.push(p);
            assert(pixels@ == packed_pixels(rgb@).take(k + 1));
        }
        assert(packed_pixels(rgb@).take(n as int) == packed_pixels(rgb@));
        Texture { width, height, pixels }
    }

    /// Width in pixels.
    pub fn width(&self) -> (w: usize)
        ensures
            w == self@.width,
    {
        self.width
    }

    /// Height in pixels.
    pub fn height(&self) -> (h: usize)
        ensures
            h == self@.height,
    {
        self.height
    }

    /// The pixel at column `x` of row `y`; coordinates past the right or
    /// bottom edge read the last column or row, so any coordinate is safe.
    pub fn sample(&self, x: usize, y: usize) -> (c: u32)
        requires
            self@.width > 0,
            self@.height > 0,
        ensures
            c == self@.texel(
                clamp_index(x as int, self@.width as int),
                clamp_index(y as int, self@.height as int),
            ),
    {
        proof {
            use_type_invariant(self);
        }
        let x = if x < self.width { x } else { self.width - 1 };
        let y = if y < self.height { y } else { self.height - 1 };
        assert(y * self.width + x < self.width * self.height) by (nonlinear_arith)
            requires
                x < self.width,
                y < self.height,
        ;
        self.pixels[y * self.width + x]
    }
}

/// The textures that inserting `entries` in order leaves, keyed by the code
/// of their character: a later entry for a character replaces an earlier one.
pub open spec fn entries_map(entries: Seq<(char, Texture)>) -> Map<u32, Texture>
    decreases entries.len(),
{
    if entries.len() == 0 {
        Map::empty()
    } else {
        entries_map(entries.drop_last()).insert(
            entries.last().0 as u32,
            entries.last().1,
        )
    }
}

/// The texture drawn for maze character `cell`: its own when one was
/// loaded for it, the fallback otherwise.
pub open spec fn texture_for(loaded: Map<u32, Texture>, fallback: Texture, cell: char) -> Texture {
    if loaded.contains_key(cell as u32) {
        loaded[cell as u32]
    } else {
        fallback
    }
}

/// One texture per maze character, and a fallback for characters without
/// one. The images are decoded once, before rendering starts.
pub struct TextureManager {
    textures: HashMap<u32, Texture>,
    fallback: Texture,
}

impl TextureManager {
    /// The loaded textures, keyed by the code of their character.
    pub closed spec fn loaded(&self) -> Map<u32, Texture> {
        self.textures@
    }

    /// The texture for characters that have none of their own.
    pub closed spec fn fallback_texture(&self) -> Texture {
        self.fallback
    }

    /// Keeps `entries`, each a maze character and its texture, inserted in
    /// order, and `fallback` for every other character.
    pub fn new(entries: Vec<(char, Texture)>, fallback: Texture) -> (m: TextureManager)
        ensures
            m.loaded() == entries_map(entries@),
            m.fallback_texture() == fallback,
    {
        let ghost all = entries@;
        let mut rest = entries;
        let mut textures: HashMap<u32, Texture> = HashMap::new();
        let ghost mut i: int = 0;
        while rest.len() > 0
            invariant
                0 <= i <= all.len(),
                rest@ == all.skip(i),
                textures@ == entries_map(all.take(i)),
            decreases rest.len(),
        {
            let (cell, texture) = rest.remove(0);
            proof {
                assert(all.take(i + 1).drop_last() == all.take(i));
                assert(all.take(i + 1).last() == all[i]);
            }
            textures.insert(cell as u32, texture);
            proof {
                i = i + 1;
                assert(rest@ == all.skip(i));
            }
        }
        assert(all.take(all.len() as int) == all);
        TextureManager { textures, fallback }
    }

    /// The texture drawn for maze character `cell`.
    pub fn texture(&self, cell: char) -> (t: &Texture)
        ensures
            *t == texture_for(self.loaded(), self.fallback_texture(), cell),
    {
        match self.textures.get(&(cell as u32)) {
            Some(t) => t,
            None => &self.fallback,
        }
    }
}

/// Sampling never leaves the texture: whatever the coordinates, the pixel
/// read is one of the texture's own, and inside the texture it is the one
/// at those coordinates.
pub proof fn law_sample_stays_inside(t: TexelGrid, x: int, y: int)
    requires
        t.well_sized(),
        t.width > 0,
        t.height > 0,
        x >= 0,
        y >= 0,
    ensures
        t.pixels.contains(t.texel(clamp_index(x, t.width as int), clamp_index(y, t.height as int))),
        x < t.width && y < t.height ==> t.texel(
            clamp_index(x, t.width as int),
            clamp_index(y, t.height as int),
        ) == t.pixels[y * t.width + x],
{
    let cx = clamp_index(x, t.width as int);
    let cy = clamp_index(y, t.height as int);
    assert(0 <= cy * t.width + cx < t.width * t.height) by (nonlinear_arith)
        requires
            0 <= cx < t.width,
            0 <= cy < t.height,
    ;
    assert(t.pixels[cy * t.width + cx] == t.texel(cx, cy));
}

/// A loaded texture reads back the colour of each pixel of its image: the
/// pixel at `(x, y)` packs the three bytes of that pixel.
pub proof fn law_loaded_pixel(width: nat, height: nat, rgb: Seq<u8>, x: int, y: int)
    requires
        rgb.len() == 3 * width * height,
        0 <= x < width,
        0 <= y < height,
    ensures
        ({
            let t = TexelGrid { width, height, pixels: packed_pixels(rgb) };
            let k = y * width + x;
            &&& t.well_sized()
            &&& t.texel(x, y) == pack_rgb(rgb[3 * k], rgb[3 * k + 1], rgb[3 * k + 2])
        }),
{
    let k = y * width + x;
    assert(rgb.len() / 3 == width * height) by (nonlinear_arith)
        requires
            rgb.len() == 3 * width * height,
    ;
    assert(0 <= k < width * height) by (nonlinear_arith)
        requires
            0 <= x < width,
            0 <= y < height,
            k == y * width + x,
    ;
}

proof fn lemma_char_code(a: char)
    ensures
        (a as u32) as int == a as int,
{
}

proof fn lemma_char_code_injective(a: char, b: char)
    requires
        a != b,
    ensures
        (a as u32) != (b as u32),
{
    lemma_char_code(a);
    lemma_char_code(b);
}

/// The texture drawn for a character is the last one given for it when
/// the manager was built, and the fallback when none was given.
pub proof fn law_texture_for_last_entry(entries: Seq<(char, Texture)>, fallback: Texture, cell: char)
    ensures
        (forall|i: int| 0 <= i < entries.len() ==> #[trigger] entries[i].0 != cell)
            ==> texture_for(entries_map(entries), fallback, cell) == fallback,
        (exists|i: int| 0 <= i < entries.len() && #[trigger] entries[i].0 == cell) ==> exists|i: int|
            {
                &&& 0 <= i < entries.len()
                &&& #[trigger] entries[i].0 == cell
                &&& texture_for(entries_map(entries), fallback, cell) == entries[i].1
                &&& forall|j: int| i < j < entries.len() ==> #[trigger] entries[j].0 != cell
            },
    decreases entries.len(),
{
    if entries.len() > 0 {
        let prev = entries.drop_last();
        law_texture_for_last_entry(prev, fallback, cell);
        let last = entries.last();
        let n = entries.len() - 1;
        assert(entries[n] == last);
        if last.0 == cell {
            assert(texture_for(entries_map(entries), fallback, cell) == last.1);
            assert(entries[n].0 == cell);
        } else {
            lemma_char_code_injective(last.0, cell);
            assert(texture_for(entries_map(entries), fallback, cell) == texture_for(
                entries_map(prev),
                fallback,
                cell,
            ));
            assert forall|i: int| 0 <= i < prev.len() implies #[trigger] prev[i] == entries[i] by {}
            if exists|i: int| 0 <= i < entries.len() && #[trigger] entries[i].0 == cell {
                let i0 = choose|i: int| 0 <= i < entries.len() && #[trigger] entries[i].0 == cell;
                assert(prev[i0].0 == cell);
                let i1 = choose|i: int|
                    {
                        &&& 0 <= i < prev.len()
                        &&& #[trigger] prev[i].0 == cell
                        &&& texture_for(entries_map(prev), fallback, cell) == prev[i].1
                        &&& forall|j: int| i < j < prev.len() ==> #[trigger] prev[j].0 != cell
                    };
                assert(entries[i1].0 == cell);
                assert forall|j: int| i1 < j < entries.len() implies #[trigger] entries[j].0 != cell by {
                    if j < n {
                        assert(prev[j].0 != cell);
                    }
                }
            }
        }
    }
}

} // verus!
