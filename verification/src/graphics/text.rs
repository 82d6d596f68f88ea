use vstd::prelude::*;

pub mod packing;

use self::packing::{last_pos, Coord, GlyphPacking, GlyphSize};

verus! {

/// The characters a font loads unless told otherwise: NUL, then the
/// printable ASCII characters from space to `~`.
pub open spec fn spec_default_characters() -> Seq<char> {
    seq![0u8 as char] + Seq::new(95, |i: int| (32 + i) as u8 as char)
}

pub fn default_characters() -> (chars: Vec<char>)
    ensures
        chars@ == spec_default_characters(),
{
    let mut chars: Vec<char> = vec![0u8 as char];
    let mut code: u8 = 32;
    while code < 127
        invariant
            32 <= code <= 127,
            chars@ == seq![0u8 as char] + Seq::new((code - 32) as nat, |i: int| (32 + i) as u8 as char),
        decreases 127 - code,
    {
        chars.push(code as char);
        assert(chars@ =~= seq![0u8 as char] + Seq::new((code + 1 - 32) as nat, |i: int| (32 + i) as u8 as char));
        code = code + 1;
    }
    chars
}

/// A grey image with each byte repeated as red, green, blue and alpha.
pub open spec fn spec_r_to_rgba(r: Seq<u8>) -> Seq<u8> {
    Seq::new(4 * r.len(), |i: int| r[i / 4])
}

pub fn convert_r_to_rgba(r: &Vec<u8>) -> (out: Vec<u8>)
    requires
        4 * r@.len() <= usize::MAX,
    ensures
        out@ == spec_r_to_rgba(r@),
{
    let mut out: Vec<u8> = Vec::new();
    let mut i: usize = 0;
    while i < r.len()
        invariant
            i <= r@.len(),
            4 * r@.len() <= usize::MAX,
            out@ == spec_r_to_rgba(r@.take(i as int)),
        decreases r@.len() - i,
    {
        let b = r[i];
        out.push(b);
        out.push(b);
        out.push(b);
        out.push(b);
        assert(out@ =~= spec_r_to_rgba(r@.take(i + 1)));
        i = i + 1;
    }
    assert(r@.take(i as int) =~= r@);
    out
}

/// A glyph's bitmap: one byte per pixel, row after row, `width` bytes a row.
pub struct GlyphImage {
    pub id: u32,
    pub width: Coord,
    pub height: Coord,
    pub buffer: Vec<u8>,
}

impl GlyphSize for GlyphImage {
    open spec fn spec_id(&self) -> u32 {
        self.id
    }

    open spec fn spec_width(&self) -> Coord {
        self.width
    }

    open spec fn spec_height(&self) -> Coord {
        self.height
    }

    fn id(&self) -> (r: u32) {
        self.id
    }

    fn width(&self) -> (r: Coord) {
        self.width
    }

    fn height(&self) -> (r: Coord) {
        self.height
    }
}

/// The image `img`, `w` pixels a row, with a glyph's bitmap `buf` (`gw`
/// pixels a row) copied in with its top left corner at (`px`, `py`): its
/// first `row` rows, and the first `col` pixels of the row after them.
pub open spec fn blit_rows(
    img: Seq<u8>,
    buf: Seq<u8>,
    gw: int,
    px: int,
    py: int,
    w: int,
    row: int,
    col: int,
) -> Seq<u8> {
    Seq::new(
        img.len(),
        |i: int|
            {
                let x = i % w - px;
                let y = i / w - py;
                if 0 <= x < gw && ((0 <= y < row) || (y == row && x < col)) {
                    buf[y * gw + x]
                } else {
                    img[i]
                }
            },
    )
}

/// The image `img`, `w` pixels a row, with the whole glyph copied in at
/// (`px`, `py`).
pub open spec fn blit(img: Seq<u8>, g: GlyphImage, px: int, py: int, w: int) -> Seq<u8> {
    blit_rows(img, g.buffer@, g.width as int, px, py, w, g.height as int, 0)
}

/// The glyph has a place in the packing, its bitmap holds all its pixels,
/// and a glyph with pixels lies within the texture.
pub open spec fn glyph_fits(g: GlyphImage, p: GlyphPacking) -> bool {
    &&& last_pos(p.placements(), g.id) is Some
    &&& g.width * g.height <= g.buffer@.len()
    &&& g.width > 0 && g.height > 0 ==> {
        let pos = last_pos(p.placements(), g.id)->0;
        &&& pos.0 + g.width <= p.spec_width()
        &&& pos.1 + g.height <= p.spec_height()
    }
}

/// The texture of the packing, blank at first, with the glyphs copied in
/// at their places one after another.
pub open spec fn packed_image(glyphs: Seq<GlyphImage>, p: GlyphPacking) -> Seq<u8>
    decreases glyphs.len(),
{
    if glyphs.len() == 0 {
        Seq::new((p.spec_width() * p.spec_height()) as nat, |i: int| 0u8)
    } else {
        let g = glyphs.last();
        let pos = last_pos(p.placements(), g.id)->0;
        blit(packed_image(glyphs.drop_last(), p), g, pos.0 as int, pos.1 as int, p.spec_width() as int)
    }
}

proof fn lemma_packed_len(glyphs: Seq<GlyphImage>, p: GlyphPacking)
    ensures
        packed_image(glyphs, p).len() == p.spec_width() * p.spec_height(),
    decreases glyphs.len(),
{
    if glyphs.len() > 0 {
        lemma_packed_len(glyphs.drop_last(), p);
    }
}

/// Copies each glyph's bitmap into a blank texture of the packing's size at
/// the place the packing gave it, as `packed_image` says.
pub fn apply_packing(glyphs: &Vec<GlyphImage>, packing: &GlyphPacking) -> (image: Vec<u8>)
    requires
        packing.spec_width() * packing.spec_height() <= usize::MAX,
        forall|k: int| 0 <= k < glyphs@.len() ==> glyph_fits(#[trigger] glyphs@[k], *packing),
    ensures
        image@ == packed_image(glyphs@, *packing),
{
    let width = packing.width() as usize;
    let height = packing.height() as usize;
    let ghost w = width as int;
    let ghost h = height as int;
    let mut image: Vec<u8> = Vec::new();
    image.resize(width * height, 0);
    assert(image@ =~= packed_image(glyphs@.take(0), *packing));
    let mut k: usize = 0;
    while k < glyphs.len()
        invariant
            k <= glyphs@.len(),
            w == width,
            h == height,
            w == packing.spec_width(),
            h == packing.spec_height(),
            w * h <= usize::MAX,
            forall|j: int| 0 <= j < glyphs@.len() ==> glyph_fits(#[trigger] glyphs@[j], *packing),
            image@ == packed_image(glyphs@.take(k as int), *packing),
        decreases glyphs@.len() - k,
    {
        proof {
            lemma_packed_len(glyphs@.take(k as int), *packing);
        }
        let g = &glyphs[k];
        assert(glyph_fits(glyphs@[k as int], *packing));
        let (px, py) = packing.get_glyph_pos(g.id).unwrap();
        let gw = g.width as usize;
        let gh = g.height as usize;
        let ghost base = image@;
        let mut y: usize = 0;
        assert(image@ =~= blit_rows(base, g.buffer@, gw as int, px as int, py as int, w, 0, 0));
        while y < gh
            invariant
                y <= gh,
                w == width,
                h == height,
                w * h <= usize::MAX,
                base.len() == w * h,
                gw == g.width,
                gh == g.height,
                gw * gh <= g.buffer@.len(),
                gw > 0 && gh > 0 ==> px + gw <= w && py + gh <= h,
                image@ == blit_rows(base, g.buffer@, gw as int, px as int, py as int, w, y as int, 0),
            decreases gh - y,
        {
            let mut x: usize = 0;
            while x < gw
                invariant
                    x <= gw,
                    y < gh,
                    w == width,
                    h == height,
                    w * h <= usize::MAX,
                    base.len() == w * h,
                    gw == g.width,
                    gh == g.height,
                    gw * gh <= g.buffer@.len(),
                    gw > 0 && gh > 0 ==> px + gw <= w && py + gh <= h,
                    image@ == blit_rows(base, g.buffer@, gw as int, px as int, py as int, w, y as int, x as int),
                decreases gw - x,
            {
                let r: usize = py as usize + y;
                let c: usize = px as usize + x;
                assert(r * width + c < width * height) by (nonlinear_arith)
                    requires
                        r < height,
                        c < width,
                ;
                assert(y * gw + x < gw * gh) by (nonlinear_arith)
                    requires
                        y < gh,
                        x < gw,
                ;
                assert(g.buffer@.len() == g.buffer.len());
                let idx = r * width + c;
                let v = g.buffer[y * gw + x];
                let ghost row = r as int;
                let ghost col = c as int;
                let ghost before = image@;
                image.set(idx, v);
                proof {
                    vstd::arithmetic::div_mod::lemma_fundamental_div_mod_converse(idx as int, w, row as int, col as int);
                    assert forall|i: int| 0 <= i < image@.len() implies image@[i] == blit_rows(
                        base,
                        g.buffer@,
                        gw as int,
                        px as int,
                        py as int,
                        w,
                        y as int,
                        x + 1,
                    )[i] by {
                        if i != idx {
                            vstd::arithmetic::div_mod::lemma_fundamental_div_mod(i, w);
                            if i % w == col && i / w == row {
                                vstd::arithmetic::mul::lemma_mul_is_commutative(w, row as int);
                                assert(i == idx);
                            }
                        }
                    }
                    assert(image@ =~= blit_rows(base, g.buffer@, gw as int, px as int, py as int, w, y as int, x + 1));
                }
                x = x + 1;
            }
            assert(image@ =~= blit_rows(base, g.buffer@, gw as int, px as int, py as int, w, y + 1, 0));
            y = y + 1;
        }
        assert(glyphs@.take(k + 1).drop_last() =~= glyphs@.take(k as int));
        assert(image@ =~= packed_image(glyphs@.take(k + 1), *packing));
        k = k + 1;
    }
    assert(glyphs@.take(k as int) =~= glyphs@);
    image
}

} // verus!
