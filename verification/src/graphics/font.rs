//! The font atlas: an image in memory, the glyphs packed into it row by
//! row, and the characters it is filled with.

use vstd::prelude::*;
use std::collections::HashMap;

verus! {

/// The characters with the codes 0 to 254, in the order of their codes.
pub fn ascii_character_list() -> (list: Vec<char>)
    ensures
        list@.len() == 255,
        forall|i: int| 0 <= i < 255 ==> (#[trigger] list@[i]) as u32 == i,
{
    let mut list: Vec<char> = Vec::new();
    let mut code: u8 = 0;
    while code < 255
        invariant
            list@.len() == code,
            forall|i: int| 0 <= i < code ==> (#[trigger] list@[i]) as u32 == i,
        decreases 255 - code,
    {
        list.push(code as char);
        code += 1;
    }
    list
}

/// An image in memory, four bytes to the pixel, row after row.
#[derive(Debug)]
pub struct CpuImage {
    pub bytes: Vec<u8>,
    pub width: u16,
    pub height: u16,
}

impl CpuImage {
    /// Whether the image has four bytes for each of its pixels.
    pub open spec fn wf(&self) -> bool {
        self.bytes@.len() == self.width * self.height * 4
    }

    /// The four bytes of the pixel with the given number, counted row by
    /// row.
    pub open spec fn spec_pixel(&self, index: int) -> Seq<u8> {
        self.bytes@.subrange(4 * index, 4 * index + 4)
    }

    /// An image of the given size, every pixel of which has the given color.
    pub fn gen_image_color(width: u16, height: u16, color: [u8; 4]) -> (image: Self)
        requires
            width * height * 4 <= usize::MAX,
        ensures
            image.wf(),
            image.width == width,
            image.height == height,
            forall|p: int| 0 <= p < width * height ==> #[trigger] image.spec_pixel(p) == color@,
    {
        let total: usize = width as usize * height as usize;
        let mut bytes: Vec<u8> = Vec::new();
        let mut i: usize = 0;
        while i < total
            invariant
                0 <= i <= total,
                total == width * height,
                total * 4 <= usize::MAX,
                bytes@.len() == 4 * i,
                forall|p: int| 0 <= p < i ==> #[trigger] bytes@.subrange(4 * p, 4 * p + 4) == color@,
            decreases total - i,
        {
            let ghost before = bytes@;
            bytes.push(color[0]);
            bytes.push(color[1]);
            bytes.push(color[2]);
            bytes.push(color[3]);
            proof {
                assert(bytes@.subrange(4 * i, 4 * i + 4) =~= color@);
                assert forall|p: int| 0 <= p < i implies #[trigger] bytes@.subrange(
                    4 * p,
                    4 * p + 4,
                ) == color@ by {
                    assert(bytes@.subrange(4 * p, 4 * p + 4) =~= before.subrange(4 * p, 4 * p + 4));
                }
            }
            i += 1;
        }
        Self { bytes, width, height }
    }

    /// Gives the pixel in column `x` of row `y` the given color. A column
    /// beyond the row's end counts on into the next rows.
    pub fn set_pixel(&mut self, x: usize, y: usize, color: [u8; 4])
        requires
            old(self).wf(),
            y * old(self).width + x < old(self).width * old(self).height,
        ensures
            final(self).wf(),
            final(self).width == old(self).width,
            final(self).height == old(self).height,
            final(self).spec_pixel(y * old(self).width + x) == color@,
            forall|k: int|
                0 <= k < old(self).bytes@.len() && !(4 * (y * old(self).width + x) <= k < 4 * (y
                    * old(self).width + x) + 4) ==> final(self).bytes@[k] == old(self).bytes@[k],
    {
        let width = self.width as usize;
        let len = self.bytes.len();
        proof {
            assert(0 <= y * width) by (nonlinear_arith)
                requires
                    0 <= y,
                    0 <= width,
            ;
            assert(len == self.width * self.height * 4);
        }
        let index: usize = y * width + x;
        let at: usize = index * 4;
        self.bytes.set(at, color[0]);
        self.bytes.set(at + 1, color[1]);
        self.bytes.set(at + 2, color[2]);
        self.bytes.set(at + 3, color[3]);
        proof {
            assert(self.bytes@.subrange(4 * index, 4 * index + 4) =~= color@);
        }
    }
}

/// The room that is left free around a row of glyphs.
pub const GAP: u16 = 16;

/// Where a glyph lies in the atlas, and how far it is set off from the pen.
#[derive(Debug, Clone, Copy, PartialEq, Eq, Structural)]
pub struct CharInfo {
    pub offset_x: i32,
    pub offset_y: i32,
    pub glyph_x: u32,
    pub glyph_y: u32,
    pub glyph_w: u32,
    pub glyph_h: u32,
}

/// A rasterized glyph: its size, how far it is set off from the pen, and the
/// colors of its pixels, row by row.
#[derive(Debug)]
pub struct Glyph {
    pub width: u16,
    pub height: u16,
    pub offset_x: i32,
    pub offset_y: i32,
    pub pixels: Vec<[u8; 4]>,
}

/// Where the packing puts a glyph, and where it leaves the cursor.
pub struct Placement {
    pub x: u16,
    pub y: u16,
    pub cursor_x: u16,
    pub cursor_y: u16,
    pub max_line_height: u16,
}

/// The atlas of a font: the image, the cursor of the packing, and for each
/// character that was packed, by its code, the record of its latest glyph.
#[derive(Debug)]
pub struct Font {
    pub name: String,
    pub font_image: CpuImage,
    pub cursor_x: u16,
    pub cursor_y: u16,
    pub max_line_height: u16,
    pub glyphs: HashMap<u32, CharInfo>,
}

/// The table of an atlas into which nothing was packed yet.
pub open spec fn no_glyphs() -> Map<u32, CharInfo> {
    Map::empty()
}

/// Two pixels of an image with rows of `w` pixels that lie in different
/// columns or different rows have different numbers.
pub proof fn lemma_pixel_numbers(w: int, r1: int, c1: int, r2: int, c2: int)
    requires
        0 <= c1 < w,
        0 <= c2 < w,
        r1 * w + c1 == r2 * w + c2,
    ensures
        r1 == r2,
        c1 == c2,
{
    assert(r1 == r2) by (nonlinear_arith)
        requires
            0 <= c1 < w,
            0 <= c2 < w,
            r1 * w + c1 == r2 * w + c2,
    ;
}

/// The number of the pixel in column `x + i` of row `y + j` of an image
/// with rows of `w` pixels.
pub open spec fn pixel_at(w: int, x: int, y: int, i: int, j: int) -> int {
    (y + j) * w + x + i
}

/// Whether the pixel with the number `k` lies in the block of the given
/// width and height whose upper left corner is in column `x` of row `y`.
pub open spec fn in_block(k: int, w: int, x: int, y: int, width: int, height: int) -> bool {
    exists|i: int, j: int| 0 <= i < width && 0 <= j < height && #[trigger] pixel_at(w, x, y, i, j) == k
}

/// Whether the image shows the glyph with its upper left corner in column
/// `x` of row `y`.
pub open spec fn shows_glyph(image: CpuImage, glyph: &Glyph, x: int, y: int) -> bool {
    forall|i: int, j: int|
        0 <= i < glyph.width && 0 <= j < glyph.height ==> image.spec_pixel(
            #[trigger] pixel_at(image.width as int, x, y, i, j),
        ) == glyph.pixels@[j * glyph.width + i]@
}

/// Whether the two images agree on every pixel outside the block.
pub open spec fn same_outside(
    a: CpuImage,
    b: CpuImage,
    x: int,
    y: int,
    width: int,
    height: int,
) -> bool {
    forall|k: int|
        0 <= k < a.width * a.height && !in_block(k, a.width as int, x, y, width, height)
            ==> #[trigger] b.spec_pixel(k) == a.spec_pixel(k)
}

impl Font {
    /// Whether the image is well formed.
    pub open spec fn wf(&self) -> bool {
        self.font_image.wf()
    }

    /// Where the packing puts a glyph of the given size. The glyph goes
    /// behind the cursor where it fits into the row with a gap to spare, and
    /// the row grows to its height. Else a new row begins below the tallest
    /// glyph of the old one, a gap lower and a gap in from the left.
    pub open spec fn spec_place(&self, width: u16, height: u16) -> Placement {
        if self.cursor_x + (GAP + width) < self.font_image.width {
            Placement {
                x: self.cursor_x,
                y: self.cursor_y,
                cursor_x: (self.cursor_x + width) as u16,
                cursor_y: self.cursor_y,
                max_line_height: if height > self.max_line_height {
                    height
                } else {
                    self.max_line_height
                },
            }
        } else {
            Placement {
                x: GAP,
                y: (self.cursor_y + self.max_line_height + GAP) as u16,
                cursor_x: (width + GAP) as u16,
                cursor_y: (self.cursor_y + self.max_line_height + GAP) as u16,
                max_line_height: height,
            }
        }
    }

    /// Whether a glyph of the given size can be packed: the numbers of the
    /// packing stay within `u16`, and the glyph lies within the image where
    /// the packing puts it.
    pub open spec fn can_place(&self, width: u16, height: u16) -> bool {
        &&& GAP + width <= u16::MAX
        &&& self.cursor_x + (GAP + width) <= u16::MAX
        &&& self.cursor_x + (GAP + width) >= self.font_image.width ==> self.cursor_y
            + self.max_line_height + GAP <= u16::MAX
        &&& self.spec_place(width, height).x + width <= self.font_image.width
        &&& self.spec_place(width, height).y + height <= self.font_image.height
    }

    /// Whether the glyph can be cached: it has a color for each of its
    /// pixels and can be packed.
    pub open spec fn can_cache(&self, glyph: &Glyph) -> bool {
        &&& self.wf()
        &&& glyph.pixels@.len() == glyph.width * glyph.height
        &&& self.can_place(glyph.width, glyph.height)
    }

    /// The record of a glyph packed at the given place.
    pub open spec fn spec_info(glyph: &Glyph, place: Placement) -> CharInfo {
        CharInfo {
            offset_x: glyph.offset_x,
            offset_y: glyph.offset_y,
            glyph_x: place.x as u32,
            glyph_y: place.y as u32,
            glyph_w: glyph.width as u32,
            glyph_h: glyph.height as u32,
        }
    }

    /// An empty atlas of 1024 by 1024 clear pixels.
    pub fn load(name: String) -> (font: Font)
        ensures
            font.wf(),
            font.name == name,
            font.font_image.width == 1024,
            font.font_image.height == 1024,
            forall|p: int| 0 <= p < 1024 * 1024 ==> #[trigger] font.font_image.spec_pixel(p) == seq![0u8, 0u8, 0u8, 0u8],
            font.cursor_x == 0,
            font.cursor_y == 0,
            font.max_line_height == 0,
            font.glyphs@ == no_glyphs(),
    {
        let clear: [u8; 4] = [0, 0, 0, 0];
        proof {
            assert(clear@ =~= seq![0u8, 0u8, 0u8, 0u8]);
        }
        let font_image = CpuImage::gen_image_color(1024, 1024, clear);
        Font {
            name,
            font_image,
            cursor_x: 0,
            cursor_y: 0,
            max_line_height: 0,
            glyphs: HashMap::new(),
        }
    }

    /// The width and the height of the image.
    pub fn image_dimensions(&self) -> (size: (u16, u16))
        ensures
            size == (self.font_image.width, self.font_image.height),
    {
        (self.font_image.width, self.font_image.height)
    }

    /// Whether the glyph can be cached.
    pub fn check_cache(&self, glyph: &Glyph) -> (fits: bool)
        requires
            self.wf(),
        ensures
            fits == self.can_cache(glyph),
    {
        let width: u32 = glyph.width as u32;
        let height: u32 = glyph.height as u32;
        let gap: u32 = GAP as u32;
        let top: u32 = 0xffff;
        proof {
            assert(glyph.width * glyph.height <= 0xffff * 0xffff) by (nonlinear_arith)
                requires
                    0 <= glyph.width <= 0xffff,
                    0 <= glyph.height <= 0xffff,
            ;
        }
        if glyph.pixels.len() as u64 != glyph.width as u64 * glyph.height as u64 {
            return false;
        }
        if gap + width > top || self.cursor_x as u32 + (gap + width) > top {
            return false;
        }
        if self.cursor_x as u32 + (gap + width) < self.font_image.width as u32 {
            self.cursor_x as u32 + width <= self.font_image.width as u32 && self.cursor_y as u32
                + height <= self.font_image.height as u32
        } else {
            let y: u32 = self.cursor_y as u32 + self.max_line_height as u32 + gap;
            y <= top && gap + width <= self.font_image.width as u32 && y + height
                <= self.font_image.height as u32
        }
    }

    /// The record of the glyph that was cached last for the character.
    pub fn glyph(&self, character: char) -> (info: Option<CharInfo>)
        ensures
            info == (if self.glyphs@.contains_key(character as u32) {
                Some(self.glyphs@[character as u32])
            } else {
                None
            }),
    {
        broadcast use vstd::std_specs::hash::group_hash_axioms;

        let code: u32 = character as u32;
        match self.glyphs.get(&code) {
            Some(found) => Some(*found),
            None => None,
        }
    }

    /// Packs the glyph into the atlas and records it for the character: the
    /// cursor moves on, the record of where the glyph lies takes the place of
    /// any earlier one for the character, and the glyph's pixels are written
    /// into the image there. The rest of the image stays.
    pub fn cache_glyph(&mut self, character: char, glyph: &Glyph)
        requires
            old(self).can_cache(glyph),
        ensures
            final(self).wf(),
            final(self).name == old(self).name,
            final(self).font_image.width == old(self).font_image.width,
            final(self).font_image.height == old(self).font_image.height,
            final(self).cursor_x == old(self).spec_place(glyph.width, glyph.height).cursor_x,
            final(self).cursor_y == old(self).spec_place(glyph.width, glyph.height).cursor_y,
            final(self).max_line_height == old(self).spec_place(
                glyph.width,
                glyph.height,
            ).max_line_height,
            final(self).glyphs@ == old(self).glyphs@.insert(
                character as u32,
                Font::spec_info(glyph, old(self).spec_place(glyph.width, glyph.height)),
            ),
            shows_glyph(
                final(self).font_image,
                glyph,
                old(self).spec_place(glyph.width, glyph.height).x as int,
                old(self).spec_place(glyph.width, glyph.height).y as int,
            ),
            same_outside(
                old(self).font_image,
                final(self).font_image,
                old(self).spec_place(glyph.width, glyph.height).x as int,
                old(self).spec_place(glyph.width, glyph.height).y as int,
                glyph.width as int,
                glyph.height as int,
            ),
    {
        broadcast use vstd::std_specs::hash::group_hash_axioms;

        let width = glyph.width;
        let height = glyph.height;
        let ghost place = self.spec_place(width, height);
        let x = if self.cursor_x + (GAP + width) < self.font_image.width {
            if height > self.max_line_height {
                self.max_line_height = height;
            }
            let res = self.cursor_x;
            self.cursor_x += width;
            res
        } else {
            self.cursor_y += self.max_line_height + GAP;
            self.cursor_x = width + GAP;
            self.max_line_height = height;
            GAP
        };
        let y = self.cursor_y;
        let character_info = CharInfo {
            offset_x: glyph.offset_x,
            offset_y: glyph.offset_y,
            glyph_x: x as u32,
            glyph_y: y as u32,
            glyph_w: width as u32,
            glyph_h: height as u32,
        };
        self.glyphs.insert(character as u32, character_info);
        let ghost w = self.font_image.width as int;
        let ghost h = self.font_image.height as int;
        let mut j: u16 = 0;
        while j < height
            invariant
                0 <= j <= height,
                x == place.x,
                y == place.y,
                width == glyph.width,
                height == glyph.height,
                glyph.pixels@.len() == width * height,
                x + width <= w,
                y + height <= h,
                self.font_image.wf(),
                self.font_image.width == w,
                self.font_image.height == h,
                old(self).font_image.width == w,
                old(self).font_image.height == h,
                self.name == old(self).name,
                self.cursor_x == place.cursor_x,
                self.cursor_y == place.cursor_y,
                self.max_line_height == place.max_line_height,
                self.glyphs@ == old(self).glyphs@.insert(
                    character as u32,
                    Font::spec_info(glyph, place),
                ),
                forall|a: int, b: int|
                    0 <= a < width && 0 <= b < j ==> self.font_image.spec_pixel(
                        #[trigger] pixel_at(w, x as int, y as int, a, b),
                    ) == glyph.pixels@[b * width + a]@,
                same_outside(
                    old(self).font_image,
                    self.font_image,
                    x as int,
                    y as int,
                    width as int,
                    height as int,
                ),
            decreases height - j,
        {
            let mut i: u16 = 0;
            while i < width
                invariant
                    0 <= i <= width,
                    0 <= j < height,
                    x == place.x,
                    y == place.y,
                    width == glyph.width,
                    height == glyph.height,
                    glyph.pixels@.len() == width * height,
                    x + width <= w,
                    y + height <= h,
                    self.font_image.wf(),
                    self.font_image.width == w,
                    self.font_image.height == h,
                    old(self).font_image.width == w,
                    old(self).font_image.height == h,
                    self.name == old(self).name,
                    self.cursor_x == place.cursor_x,
                    self.cursor_y == place.cursor_y,
                    self.max_line_height == place.max_line_height,
                    self.glyphs@ == old(self).glyphs@.insert(
                        character as u32,
                        Font::spec_info(glyph, place),
                    ),
                    forall|a: int, b: int|
                        0 <= a < width && 0 <= b < j ==> self.font_image.spec_pixel(
                            #[trigger] pixel_at(w, x as int, y as int, a, b),
                        ) == glyph.pixels@[b * width + a]@,
                    forall|a: int|
                        0 <= a < i ==> self.font_image.spec_pixel(
                            #[trigger] pixel_at(w, x as int, y as int, a, j as int),
                        ) == glyph.pixels@[j * width + a]@,
                    same_outside(
                        old(self).font_image,
                        self.font_image,
                        x as int,
                        y as int,
                        width as int,
                        height as int,
                    ),
                decreases width - i,
            {
                let ghost image = self.font_image;
                let ghost target = (y + j) * w + x + i;
                proof {
                    assert((y + j) * w + x + i < w * h) by (nonlinear_arith)
                        requires
                            0 <= y + j < h,
                            0 <= x + i < w,
                    ;
                    assert(0 <= j * width + i < width * height) by (nonlinear_arith)
                        requires
                            0 <= j < height,
                            0 <= i < width,
                    ;
                    assert(0 <= (y + j) * w) by (nonlinear_arith)
                        requires
                            0 <= y + j,
                            0 <= w,
                    ;
                    assert(0 <= j * width) by (nonlinear_arith)
                        requires
                            0 <= j,
                            0 <= width,
                    ;
                }
                let count = glyph.pixels.len();
                let source: usize = j as usize * width as usize + i as usize;
                let color = glyph.pixels[source];
                self.font_image.set_pixel((x + i) as usize, (y + j) as usize, color);
                proof {
                    assert(pixel_at(w, x as int, y as int, i as int, j as int) == target);
                    assert forall|k: int| 0 <= k < w * h && k != target implies #[trigger] self.font_image.spec_pixel(
                        k,
                    ) == image.spec_pixel(k) by {
                        assert(self.font_image.spec_pixel(k) =~= image.spec_pixel(k));
                    }
                    assert forall|a: int, b: int| 0 <= a < width && 0 <= b < j implies self.font_image.spec_pixel(
                        #[trigger] pixel_at(w, x as int, y as int, a, b),
                    ) == glyph.pixels@[b * width + a]@ by {
                        if pixel_at(w, x as int, y as int, a, b) == target {
                            lemma_pixel_numbers(w, y + b, x + a, y + j, x + i);
                        }
                        assert(0 <= (y + b) * w + x + a < w * h) by (nonlinear_arith)
                            requires
                                0 <= y + b < h,
                                0 <= x + a < w,
                        ;
                    }
                    assert forall|a: int| 0 <= a < i + 1 implies self.font_image.spec_pixel(
                        #[trigger] pixel_at(w, x as int, y as int, a, j as int),
                    ) == glyph.pixels@[j * width + a]@ by {
                        if a < i {
                            assert(0 <= (y + j) * w + x + a < w * h) by (nonlinear_arith)
                                requires
                                    0 <= y + j < h,
                                    0 <= x + a < w,
                            ;
                        }
                    }
                    assert forall|k: int|
                        0 <= k < w * h && !in_block(
                            k,
                            w,
                            x as int,
                            y as int,
                            width as int,
                            height as int,
                        ) implies #[trigger] self.font_image.spec_pixel(k) == old(
                        self,
                    ).font_image.spec_pixel(k) by {
                        assert(k != target);
                        assert(self.font_image.spec_pixel(k) == image.spec_pixel(k));
                        assert(image.spec_pixel(k) == old(self).font_image.spec_pixel(k));
                    }
                }
                i += 1;
            }
            j += 1;
        }
    }
}

} // verus!
