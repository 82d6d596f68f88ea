use vstd::prelude::*;

verus! {

pub type Coord = u32;

/// A glyph whose bitmap is to be packed into a texture.
pub trait GlyphSize {
    spec fn spec_id(&self) -> u32;

    spec fn spec_width(&self) -> Coord;

    spec fn spec_height(&self) -> Coord;

    fn id(&self) -> (r: u32)
        ensures
            r == self.spec_id(),
    ;

    fn width(&self) -> (r: Coord)
        ensures
            r == self.spec_width(),
    ;

    fn height(&self) -> (r: Coord)
        ensures
            r == self.spec_height(),
    ;
}

/// The size of a glyph, apart from its bitmap.
#[derive(Clone, Copy, Debug, PartialEq, Eq, Structural)]
pub struct GlyphInfo {
    pub id: u32,
    pub width: Coord,
    pub height: Coord,
}

impl GlyphInfo {
    pub fn copy<T: GlyphSize>(glyph: &T) -> (g: GlyphInfo)
        ensures
            g == (GlyphInfo { id: glyph.spec_id(), width: glyph.spec_width(), height: glyph.spec_height() }),
    {
        GlyphInfo { id: glyph.id(), width: glyph.width(), height: glyph.height() }
    }
}

impl GlyphSize for GlyphInfo {
    open spec fn spec_id(&self) -> u32 {
        self.id
    }

    open spec fn spec_width(&self) -> Coord {
        self.width
    }

    open spec fn spec_height(&self) -> Coord {
        self.height
    }

    fn id(&self) -> (r: u32) {
        self.id
    }

    fn width(&self) -> (r: Coord) {
        self.width
    }

    fn height(&self) -> (r: Coord) {
        self.height
    }
}

/// Where each glyph went in a square texture.
pub struct GlyphPacking {
    width: Coord,
    height: Coord,
    pos_map: Vec<(u32, Coord, Coord)>,
}

/// The position of the last glyph placed with `id`.
pub open spec fn last_pos(placed: Seq<(u32, Coord, Coord)>, id: u32) -> Option<(Coord, Coord)>
    decreases placed.len(),
{
    if placed.len() == 0 {
        None
    } else if placed.last().0 == id {
        Some((placed.last().1, placed.last().2))
    } else {
        last_pos(placed.drop_last(), id)
    }
}

impl GlyphPacking {
    pub closed spec fn spec_width(&self) -> Coord {
        self.width
    }

    pub closed spec fn spec_height(&self) -> Coord {
        self.height
    }

    /// Each glyph placed, as its ID and the position of its top left corner,
    /// in the order they were placed.
    pub closed spec fn placements(&self) -> Seq<(u32, Coord, Coord)> {
        self.pos_map@
    }

    pub fn width(&self) -> (w: Coord)
        ensures
            w == self.spec_width(),
    {
        self.width
    }

    pub fn height(&self) -> (h: Coord)
        ensures
            h == self.spec_height(),
    {
        self.height
    }

    /// Where the glyph with ID `char_index` went.
    pub fn get_glyph_pos(&self, char_index: u32) -> (pos: Option<(Coord, Coord)>)
        ensures
            pos == last_pos(self.placements(), char_index),
    {
        let mut i = self.pos_map.len();
        assert(self.pos_map@.take(i as int) =~= self.pos_map@);
        while i > 0
            invariant
                i <= self.pos_map@.len(),
                last_pos(self.pos_map@, char_index) == last_pos(self.pos_map@.take(i as int), char_index),
            decreases i,
        {
            let (id, x, y) = self.pos_map[i - 1];
            assert(self.pos_map@.take(i as int).drop_last() =~= self.pos_map@.take(i - 1));
            if id == char_index {
                return Some((x, y));
            }
            i = i - 1;
        }
        None
    }
}

/// The state of the packing: the width used in the current row, where the
/// current row starts and how far down the rows reach, the glyphs placed so
/// far, and whether a glyph failed to fit.
pub type PackState = (int, int, int, Seq<(u32, Coord, Coord)>, bool);

/// One step of the packing: the glyph goes at the end of the current row,
/// or at the start of a new row below everything placed if the row is too
/// full; if it sticks out of the texture, the packing fails.
pub open spec fn pack_step(st: PackState, g: GlyphInfo, width: int, height: int) -> PackState {
    if st.4 {
        st
    } else if g.width > width {
        (st.0, st.1, st.2, st.3, true)
    } else {
        let (rw, rs) = if st.0 + g.width > width {
            (0, st.2)
        } else {
            (st.0, st.1)
        };
        let bottom = if st.2 > rs + g.height {
            st.2
        } else {
            rs + g.height
        };
        if bottom <= height {
            (rw + g.width, rs, bottom, st.3.push((g.id, rw as Coord, rs as Coord)), false)
        } else {
            (rw, rs, st.2, st.3, true)
        }
    }
}

/// The packing of `glyphs`, in order, into a `width` by `height` texture.
pub open spec fn pack(glyphs: Seq<GlyphInfo>, width: int, height: int) -> PackState
    decreases glyphs.len(),
{
    if glyphs.len() == 0 {
        (0, 0, 0, Seq::empty(), false)
    } else {
        pack_step(pack(glyphs.drop_last(), width, height), glyphs.last(), width, height)
    }
}

proof fn lemma_pack_failure_sticks(glyphs: Seq<GlyphInfo>, i: int, width: int, height: int)
    requires
        0 <= i <= glyphs.len(),
        pack(glyphs.take(i), width, height).4,
    ensures
        pack(glyphs, width, height).4,
    decreases glyphs.len() - i,
{
    if i < glyphs.len() {
        assert(glyphs.take(i + 1).drop_last() =~= glyphs.take(i));
        lemma_pack_failure_sticks(glyphs, i + 1, width, height);
    } else {
        assert(glyphs.take(i) =~= glyphs);
    }
}

/// Packs `glyphs`, in order, into a `width` by `height` texture, filling one
/// row after another; `None` if they do not fit.
fn get_packing(glyphs: &Vec<GlyphInfo>, width: Coord, height: Coord) -> (r: Option<GlyphPacking>)
    requires
        width <= 0x4000_0000,
        height <= 0x4000_0000,
        forall|i: int| 0 <= i < glyphs@.len() ==> #[trigger] glyphs@[i].height <= u32::MAX - height,
    ensures
        r is None <==> pack(glyphs@, width as int, height as int).4,
        r matches Some(p) ==> p.spec_width() == width && p.spec_height() == height && p.placements()
            == pack(glyphs@, width as int, height as int).3,
{
    let mut map: Vec<(u32, Coord, Coord)> = Vec::new();
    let mut row_width: Coord = 0;
    let mut row_start_y: Coord = 0;
    let mut row_end_y: Coord = 0;
    let mut i: usize = 0;
    while i < glyphs.len()
        invariant
            i <= glyphs@.len(),
            width <= 0x4000_0000,
            height <= 0x4000_0000,
            forall|i: int| 0 <= i < glyphs@.len() ==> #[trigger] glyphs@[i].height <= u32::MAX - height,
            row_width <= width,
            row_start_y <= row_end_y <= height,
            pack(glyphs@.take(i as int), width as int, height as int) == (
                row_width as int,
                row_start_y as int,
                row_end_y as int,
                map@,
                false,
            ),
        decreases glyphs@.len() - i,
    {
        let glyph = glyphs[i];
        assert(glyphs@.take(i + 1).drop_last() =~= glyphs@.take(i as int));
        assert(glyphs@.take(i + 1).last() == glyph);
        if glyph.width() > width {
            proof {
                lemma_pack_failure_sticks(glyphs@, i + 1, width as int, height as int);
            }
            return None;
        }
        if glyph.width() > width - row_width {
            row_width = 0;
            row_start_y = row_end_y;
        }
        let low = row_start_y + glyph.height();
        let bottom = if row_end_y > low {
            row_end_y
        } else {
            low
        };
        if bottom <= height {
            map.push((glyph.id(), row_width, row_start_y));
            row_width = row_width + glyph.width();
            row_end_y = bottom;
        } else {
            proof {
                lemma_pack_failure_sticks(glyphs@, i + 1, width as int, height as int);
            }
            return None;
        }
        i = i + 1;
    }
    assert(glyphs@.take(i as int) =~= glyphs@);
    Some(GlyphPacking { width, height, pos_map: map })
}


/// `2` to the power `e`.
pub open spec fn pow2(e: nat) -> nat
    decreases e,
{
    if e == 0 {
        1
    } else {
        2 * pow2((e - 1) as nat)
    }
}

proof fn lemma_pow2_bound(a: nat, b: nat)
    requires
        a <= b,
    ensures
        1 <= pow2(a) <= pow2(b),
    decreases b,
{
    if b > 0 {
        if a == b {
            lemma_pow2_bound((b - 1) as nat, (b - 1) as nat);
        } else {
            lemma_pow2_bound(a, (b - 1) as nat);
        }
    }
}

proof fn lemma_pow2_30()
    ensures
        pow2(30) == 0x4000_0000,
{
    reveal_with_fuel(pow2, 31);
}

fn power_of_two(e: u32) -> (r: Coord)
    requires
        e <= 30,
    ensures
        r == pow2(e as nat),
{
    let mut r: Coord = 1;
    let mut i: u32 = 0;
    while i < e
        invariant
            i <= e <= 30,
            r == pow2(i as nat),
        decreases e - i,
    {
        proof {
            lemma_pow2_bound(i as nat + 1, 30);
            lemma_pow2_30();
        }
        r = r * 2;
        i = i + 1;
    }
    r
}

/// The packing at side `2^log`, as side and placements, if it fits.
pub open spec fn pack_at(glyphs: Seq<GlyphInfo>, log: nat) -> Option<(nat, Seq<(u32, Coord, Coord)>)> {
    let size = pow2(log) as int;
    let p = pack(glyphs, size, size);
    if p.4 {
        None
    } else {
        Some((size as nat, p.3))
    }
}

/// The search for a small square texture between sides `2^min` and `2^max`:
/// try the side halfway between (in powers of two); if the glyphs fit, look
/// for a smaller fit below it, else look above it.
pub open spec fn search(glyphs: Seq<GlyphInfo>, min: nat, max: nat) -> Option<(nat, Seq<(u32, Coord, Coord)>)>
    decreases max - min,
{
    if max <= min {
        pack_at(glyphs, min)
    } else {
        let log = ((min + max + 1) / 2) as nat;
        match pack_at(glyphs, log) {
            Some(p) => match search(glyphs, min, if log - 1 > min { (log - 1) as nat } else { min }) {
                Some(smaller) => Some(smaller),
                None => Some(p),
            },
            None => if log == max {
                None
            } else {
                search(glyphs, if log + 1 < max { (log + 1) as nat } else { max }, max)
            },
        }
    }
}

fn recursive(glyphs: &Vec<GlyphInfo>, min: Coord, max: Coord) -> (r: Option<GlyphPacking>)
    requires
        min <= max <= 30,
        forall|i: int| 0 <= i < glyphs@.len() ==> #[trigger] glyphs@[i].height <= u32::MAX - pow2(max as nat),
    ensures
        match r {
            Some(p) => search(glyphs@, min as nat, max as nat) == Some(
                (p.spec_width() as nat, p.placements()),
            ) && p.spec_width() == p.spec_height(),
            None => search(glyphs@, min as nat, max as nat) is None,
        },
    decreases max - min,
{
    proof {
        lemma_pow2_bound(min as nat, 30);
        lemma_pow2_bound(max as nat, 30);
        lemma_pow2_30();
    }
    if max == min {
        let size = power_of_two(min);
        proof {
            lemma_pow2_bound(min as nat, max as nat);
        }
        get_packing(glyphs, size, size)
    } else {
        let log_size = (min + max + 1) / 2;
        proof {
            lemma_pow2_bound(log_size as nat, 30);
            lemma_pow2_bound(log_size as nat, max as nat);
        }
        let size = power_of_two(log_size);
        match get_packing(glyphs, size, size) {
            Some(packing) => {
                let lower = if log_size - 1 > min {
                    log_size - 1
                } else {
                    min
                };
                match recursive(glyphs, min, lower) {
                    Some(smaller) => Some(smaller),
                    None => Some(packing),
                }
            },
            None => {
                if log_size == max {
                    None
                } else {
                    let upper = if log_size + 1 < max {
                        log_size + 1
                    } else {
                        max
                    };
                    recursive(glyphs, upper, max)
                }
            },
        }
    }
}

/// `glyphs` in order of decreasing height, glyphs of equal height in the
/// order they came in: `g` goes behind every glyph at least as tall.
pub open spec fn insert_by_height(sorted: Seq<GlyphInfo>, g: GlyphInfo) -> Seq<GlyphInfo>
    decreases sorted.len(),
{
    if sorted.len() == 0 {
        seq![g]
    } else if sorted.last().height >= g.height {
        sorted.push(g)
    } else {
        insert_by_height(sorted.drop_last(), g).push(sorted.last())
    }
}

/// The stable sort of `glyphs` by decreasing height.
pub open spec fn sort_by_height(glyphs: Seq<GlyphInfo>) -> Seq<GlyphInfo>
    decreases glyphs.len(),
{
    if glyphs.len() == 0 {
        Seq::empty()
    } else {
        insert_by_height(sort_by_height(glyphs.drop_last()), glyphs.last())
    }
}

proof fn lemma_insert_at(s: Seq<GlyphInfo>, g: GlyphInfo, j: int)
    requires
        0 <= j <= s.len(),
        j == 0 || s[j - 1].height >= g.height,
        forall|k: int| j <= k < s.len() ==> #[trigger] s[k].height < g.height,
    ensures
        insert_by_height(s, g) == s.take(j).push(g) + s.skip(j),
    decreases s.len(),
{
    if s.len() == 0 {
        assert(s.take(j).push(g) + s.skip(j) =~= seq![g]);
    } else if j == s.len() {
        assert(s.take(j).push(g) + s.skip(j) =~= s.push(g));
    } else {
        let init = s.drop_last();
        assert(s.last() == s[s.len() - 1]);
        assert forall|k: int| j <= k < init.len() implies #[trigger] init[k].height < g.height by {
            assert(init[k] == s[k]);
        }
        lemma_insert_at(init, g, j);
        assert(init.take(j).push(g) + init.skip(j) + seq![s.last()] =~= s.take(j).push(g) + s.skip(j));
    }
}

/// Glyphs sorted by decreasing height, equal heights kept in order.
fn sort_glyphs(glyphs: Vec<GlyphInfo>) -> (out: Vec<GlyphInfo>)
    ensures
        out@ == sort_by_height(glyphs@),
{
    let mut out: Vec<GlyphInfo> = Vec::new();
    let mut i: usize = 0;
    while i < glyphs.len()
        invariant
            i <= glyphs@.len(),
            out@ == sort_by_height(glyphs@.take(i as int)),
        decreases glyphs@.len() - i,
    {
        let g = glyphs[i];
        let mut j = out.len();
        while j > 0 && out[j - 1].height < g.height
            invariant
                j <= out@.len(),
                forall|k: int| j <= k < out@.len() ==> #[trigger] out@[k].height < g.height,
            decreases j,
        {
            j = j - 1;
        }
        proof {
            lemma_insert_at(out@, g, j as int);
            assert(glyphs@.take(i + 1).drop_last() =~= glyphs@.take(i as int));
            assert(glyphs@.take(i + 1).last() == g);
        }
        let ghost before = out@;
        out.insert(j, g);
        assert(out@ =~= before.take(j as int).push(g) + before.skip(j as int));
        i = i + 1;
    }
    assert(glyphs@.take(i as int) =~= glyphs@);
    out
}


/// The glyph sizes of `glyphs`.
pub open spec fn glyph_infos<T: GlyphSize>(glyphs: Seq<T>) -> Seq<GlyphInfo> {
    glyphs.map_values(|g: T| GlyphInfo { id: g.spec_id(), width: g.spec_width(), height: g.spec_height() })
}

/// Packs the glyphs into the smallest square texture, with sides a power of
/// two from 64 to 16384, that the search finds them to fit in, tallest
/// glyphs first, each row filled from the left.
pub fn do_font_packing<T: GlyphSize>(glyphs: &Vec<T>) -> (r: Option<GlyphPacking>)
    requires
        forall|i: int| 0 <= i < glyphs@.len() ==> #[trigger] glyphs@[i].spec_height() <= u32::MAX - 16384,
    ensures
        match r {
            Some(p) => search(sort_by_height(glyph_infos(glyphs@)), 6, 14) == Some(
                (p.spec_width() as nat, p.placements()),
            ) && p.spec_width() == p.spec_height(),
            None => search(sort_by_height(glyph_infos(glyphs@)), 6, 14) is None,
        },
{
    let min: Coord = 6;
    let max: Coord = 14;
    let mut copies: Vec<GlyphInfo> = Vec::new();
    let mut i: usize = 0;
    while i < glyphs.len()
        invariant
            i <= glyphs@.len(),
            copies@ == glyph_infos(glyphs@.take(i as int)),
        decreases glyphs@.len() - i,
    {
        copies.push(GlyphInfo::copy(&glyphs[i]));
        assert(copies@ =~= glyph_infos(glyphs@.take(i + 1)));
        i = i + 1;
    }
    assert(glyphs@.take(i as int) =~= glyphs@);
    let sorted = sort_glyphs(copies);
    proof {
        lemma_sort_keeps_heights(glyph_infos(glyphs@), 16384);
        reveal_with_fuel(pow2, 15);
    }
    recursive(&sorted, min, max)
}

proof fn lemma_insert_keeps_heights(s: Seq<GlyphInfo>, g: GlyphInfo, bound: int)
    requires
        forall|i: int| 0 <= i < s.len() ==> #[trigger] s[i].height <= u32::MAX - bound,
        g.height <= u32::MAX - bound,
    ensures
        forall|i: int|
            0 <= i < insert_by_height(s, g).len() ==> #[trigger] insert_by_height(s, g)[i].height <= u32::MAX
                - bound,
        insert_by_height(s, g).len() == s.len() + 1,
    decreases s.len(),
{
    if s.len() > 0 && s.last().height < g.height {
        let init = s.drop_last();
        assert forall|i: int| 0 <= i < init.len() implies #[trigger] init[i].height <= u32::MAX - bound by {
            assert(init[i] == s[i]);
        }
        lemma_insert_keeps_heights(init, g, bound);
        let r = insert_by_height(init, g).push(s.last());
        assert forall|i: int| 0 <= i < r.len() implies #[trigger] r[i].height <= u32::MAX - bound by {
            if i == r.len() - 1 {
                assert(s.last() == s[s.len() - 1]);
            }
        }
    } else if s.len() > 0 {
        assert forall|i: int| 0 <= i < s.push(g).len() implies #[trigger] s.push(g)[i].height <= u32::MAX
            - bound by {
            if i < s.len() {
                assert(s.push(g)[i] == s[i]);
            }
        }
    }
}

proof fn lemma_sort_keeps_heights(s: Seq<GlyphInfo>, bound: int)
    requires
        forall|i: int| 0 <= i < s.len() ==> #[trigger] s[i].height <= u32::MAX - bound,
    ensures
        forall|i: int|
            0 <= i < sort_by_height(s).len() ==> #[trigger] sort_by_height(s)[i].height <= u32::MAX - bound,
    decreases s.len(),
{
    if s.len() > 0 {
        let init = s.drop_last();
        assert forall|i: int| 0 <= i < init.len() implies #[trigger] init[i].height <= u32::MAX - bound by {
            assert(init[i] == s[i]);
        }
        lemma_sort_keeps_heights(init, bound);
        assert(s.last() == s[s.len() - 1]);
        lemma_insert_keeps_heights(sort_by_height(init), s.last(), bound);
    }
}


/// The glyph `g` placed at `p` lies inside a `width` by `height` texture.
pub open spec fn placed_within(g: GlyphInfo, p: (u32, Coord, Coord), width: int, height: int) -> bool {
    p.1 + g.width <= width && p.2 + g.height <= height
}

/// Two placed glyphs do not overlap.
pub open spec fn placed_apart(g1: GlyphInfo, p1: (u32, Coord, Coord), g2: GlyphInfo, p2: (u32, Coord, Coord)) -> bool {
    ||| p1.1 + g1.width <= p2.1
    ||| p2.1 + g2.width <= p1.1
    ||| p1.2 + g1.height <= p2.2
    ||| p2.2 + g2.height <= p1.2
}

/// What holds of the packing state after each glyph.
pub open spec fn pack_inv(glyphs: Seq<GlyphInfo>, st: PackState, width: int, height: int) -> bool {
    &&& st.3.len() == glyphs.len()
    &&& 0 <= st.0 <= width
    &&& 0 <= st.1 <= st.2 <= height
    &&& forall|i: int| 0 <= i < glyphs.len() ==> (#[trigger] st.3[i]).0 == glyphs[i].id
    &&& forall|i: int|
        0 <= i < glyphs.len() ==> (#[trigger] st.3[i]).1 + glyphs[i].width <= width && st.3[i].2
            + glyphs[i].height <= st.2
    &&& forall|i: int|
        0 <= i < glyphs.len() ==> (#[trigger] st.3[i]).2 + glyphs[i].height <= st.1 || (st.3[i].2 >= st.1
            && st.3[i].1 + glyphs[i].width <= st.0)
    &&& forall|i: int, j: int|
        0 <= i < glyphs.len() && 0 <= j < glyphs.len() && i != j ==> placed_apart(
            glyphs[i],
            #[trigger] st.3[i],
            glyphs[j],
            #[trigger] st.3[j],
        )
}

proof fn lemma_pack_inv(glyphs: Seq<GlyphInfo>, width: int, height: int)
    requires
        0 <= width <= u32::MAX,
        0 <= height <= u32::MAX,
        !pack(glyphs, width, height).4,
    ensures
        pack_inv(glyphs, pack(glyphs, width, height), width, height),
    decreases glyphs.len(),
{
    if glyphs.len() > 0 {
        let init = glyphs.drop_last();
        let st = pack(init, width, height);
        let g = glyphs.last();
        assert(!st.4);
        lemma_pack_inv(init, width, height);
        let n = pack(glyphs, width, height);
        let (rw, rs) = if st.0 + g.width > width {
            (0int, st.2)
        } else {
            (st.0, st.1)
        };
        let last = glyphs.len() - 1;
        assert(glyphs[last] == g);
        assert(n.3 == st.3.push((g.id, rw as Coord, rs as Coord)));
        assert forall|i: int| 0 <= i < glyphs.len() implies (#[trigger] n.3[i]).0 == glyphs[i].id && n.3[i].1
            + glyphs[i].width <= width && n.3[i].2 + glyphs[i].height <= n.2 && (n.3[i].2 + glyphs[i].height
            <= n.1 || (n.3[i].2 >= n.1 && n.3[i].1 + glyphs[i].width <= n.0)) by {
            if i < last {
                assert(n.3[i] == st.3[i]);
                assert(glyphs[i] == init[i]);
            }
        }
        assert forall|i: int, j: int|
            0 <= i < glyphs.len() && 0 <= j < glyphs.len() && i != j implies placed_apart(
            glyphs[i],
            #[trigger] n.3[i],
            glyphs[j],
            #[trigger] n.3[j],
        ) by {
            if i < last {
                assert(n.3[i] == st.3[i]);
                assert(glyphs[i] == init[i]);
            }
            if j < last {
                assert(n.3[j] == st.3[j]);
                assert(glyphs[j] == init[j]);
            }
            if i < last && j < last {
                assert(placed_apart(init[i], st.3[i], init[j], st.3[j]));
            }
        }
    }
}

/// A packing that succeeds places every glyph, in order, inside the texture,
/// and no two glyphs overlap.
pub proof fn lemma_packing_is_valid(glyphs: Seq<GlyphInfo>, width: int, height: int)
    requires
        0 <= width <= u32::MAX,
        0 <= height <= u32::MAX,
        !pack(glyphs, width, height).4,
    ensures
        pack(glyphs, width, height).3.len() == glyphs.len(),
        forall|i: int|
            0 <= i < glyphs.len() ==> (#[trigger] pack(glyphs, width, height).3[i]).0 == glyphs[i].id
                && placed_within(glyphs[i], pack(glyphs, width, height).3[i], width, height),
        forall|i: int, j: int|
            0 <= i < glyphs.len() && 0 <= j < glyphs.len() && i != j ==> placed_apart(
                glyphs[i],
                #[trigger] pack(glyphs, width, height).3[i],
                glyphs[j],
                #[trigger] pack(glyphs, width, height).3[j],
            ),
{
    lemma_pack_inv(glyphs, width, height);
}

proof fn lemma_search_is_pack_at(glyphs: Seq<GlyphInfo>, min: nat, max: nat)
    requires
        search(glyphs, min, max) is Some,
    ensures
        exists|log: nat|
            min <= log <= (if max <= min { min } else { max }) && #[trigger] pack_at(glyphs, log) == search(
                glyphs,
                min,
                max,
            ),
    decreases max - min,
{
    if max <= min {
        assert(pack_at(glyphs, min) == search(glyphs, min, max));
    } else {
        let log = ((min + max + 1) / 2) as nat;
        match pack_at(glyphs, log) {
            Some(p) => {
                let lower = if log - 1 > min {
                    (log - 1) as nat
                } else {
                    min
                };
                match search(glyphs, min, lower) {
                    Some(smaller) => {
                        lemma_search_is_pack_at(glyphs, min, lower);
                        let l = choose|l: nat| min <= l <= (if lower <= min { min } else { lower }) && #[trigger] pack_at(glyphs, l) == search(glyphs, min, lower);
                        assert(pack_at(glyphs, l) == search(glyphs, min, max));
                    },
                    None => {
                        assert(pack_at(glyphs, log) == search(glyphs, min, max));
                    },
                }
            },
            None => {
                let upper = if log + 1 < max {
                    (log + 1) as nat
                } else {
                    max
                };
                lemma_search_is_pack_at(glyphs, upper, max);
                let l = choose|l: nat| upper <= l <= (if max <= upper { upper } else { max }) && #[trigger] pack_at(glyphs, l) == search(glyphs, upper, max);
                assert(pack_at(glyphs, l) == search(glyphs, min, max));
            },
        }
    }
}

/// A packing that the search finds, between sides `2^min` and `2^max` no
/// larger than `2^30`, places every glyph, in order, inside its square
/// texture, and no two glyphs overlap.
pub proof fn lemma_search_is_valid(glyphs: Seq<GlyphInfo>, min: nat, max: nat)
    requires
        min <= max <= 30,
        search(glyphs, min, max) is Some,
    ensures
        ({
            let found = search(glyphs, min, max)->0;
            let size = found.0 as int;
            let placed = found.1;
            &&& placed.len() == glyphs.len()
            &&& forall|i: int|
                0 <= i < glyphs.len() ==> (#[trigger] placed[i]).0 == glyphs[i].id && placed_within(
                    glyphs[i],
                    placed[i],
                    size,
                    size,
                )
            &&& forall|i: int, j: int|
                0 <= i < glyphs.len() && 0 <= j < glyphs.len() && i != j ==> placed_apart(
                    glyphs[i],
                    #[trigger] placed[i],
                    glyphs[j],
                    #[trigger] placed[j],
                )
        }),
{
    lemma_search_is_pack_at(glyphs, min, max);
    let log = choose|log: nat| min <= log <= max && #[trigger] pack_at(glyphs, log) == search(glyphs, min, max);
    lemma_pow2_bound(log, 30);
    lemma_pow2_30();
    let size = pow2(log) as int;
    lemma_packing_is_valid(glyphs, size, size);
}

proof fn lemma_insert_keeps_glyphs(s: Seq<GlyphInfo>, g: GlyphInfo)
    ensures
        insert_by_height(s, g).to_multiset() == s.to_multiset().insert(g),
    decreases s.len(),
{
    broadcast use vstd::seq_lib::group_to_multiset_ensures;

    if s.len() == 0 {
        assert(seq![g] =~= Seq::<GlyphInfo>::empty().push(g));
        assert(Seq::<GlyphInfo>::empty().to_multiset() =~= vstd::multiset::Multiset::empty());
    } else if s.last().height >= g.height {
    } else {
        let init = s.drop_last();
        lemma_insert_keeps_glyphs(init, g);
        assert(init.push(s.last()) =~= s);
        assert(insert_by_height(init, g).push(s.last()).to_multiset() =~= s.to_multiset().insert(g));
    }
}

proof fn lemma_sort_keeps_glyphs(s: Seq<GlyphInfo>)
    ensures
        sort_by_height(s).to_multiset() == s.to_multiset(),
    decreases s.len(),
{
    broadcast use vstd::seq_lib::group_to_multiset_ensures;

    if s.len() == 0 {
        assert(sort_by_height(s).to_multiset() =~= s.to_multiset());
    } else {
        lemma_sort_keeps_glyphs(s.drop_last());
        lemma_insert_keeps_glyphs(sort_by_height(s.drop_last()), s.last());
        assert(s.drop_last().push(s.last()) =~= s);
    }
}

/// A packing that `do_font_packing` finds holds every glyph it was given,
/// each as often as given: the glyphs are packed tallest first, and that
/// order holds exactly the glyphs given. Every glyph given has a place
/// inside the square texture, under its own ID, and no two placed glyphs
/// overlap.
pub proof fn lemma_font_packing_places_every_glyph(glyphs: Seq<GlyphInfo>)
    requires
        search(sort_by_height(glyphs), 6, 14) is Some,
    ensures
        ({
            let sorted = sort_by_height(glyphs);
            let found = search(sorted, 6, 14)->0;
            let size = found.0 as int;
            let placed = found.1;
            &&& sorted.to_multiset() == glyphs.to_multiset()
            &&& placed.len() == glyphs.len()
            &&& forall|j: int|
                0 <= j < glyphs.len() ==> exists|i: int|
                    0 <= i < placed.len() && sorted[i] == #[trigger] glyphs[j] && placed[i].0 == glyphs[j].id
                        && placed_within(glyphs[j], placed[i], size, size)
            &&& forall|i: int, k: int|
                0 <= i < sorted.len() && 0 <= k < sorted.len() && i != k ==> placed_apart(
                    sorted[i],
                    #[trigger] placed[i],
                    sorted[k],
                    #[trigger] placed[k],
                )
        }),
{
    broadcast use vstd::seq_lib::group_to_multiset_ensures;

    let sorted = sort_by_height(glyphs);
    lemma_sort_keeps_glyphs(glyphs);
    lemma_search_is_valid(sorted, 6, 14);
    assert(sorted.len() == glyphs.len()) by {
        assert(sorted.to_multiset().len() == glyphs.to_multiset().len());
    }
    let found = search(sorted, 6, 14)->0;
    let placed = found.1;
    assert forall|j: int| 0 <= j < glyphs.len() implies exists|i: int|
        0 <= i < placed.len() && sorted[i] == #[trigger] glyphs[j] && placed[i].0 == glyphs[j].id && placed_within(
            glyphs[j],
            placed[i],
            found.0 as int,
            found.0 as int,
        ) by {
        assert(glyphs.contains(glyphs[j]));
        assert(glyphs.to_multiset().count(glyphs[j]) > 0);
        assert(sorted.to_multiset().count(glyphs[j]) > 0);
        assert(sorted.contains(glyphs[j]));
        let i = choose|i: int| 0 <= i < sorted.len() && sorted[i] == glyphs[j];
        assert(placed[i].0 == sorted[i].id);
    }
}

/// The glyphs come tallest first.
pub open spec fn tallest_first(s: Seq<GlyphInfo>) -> bool {
    forall|i: int, j: int| 0 <= i < j < s.len() ==> #[trigger] s[i].height >= #[trigger] s[j].height
}

proof fn lemma_insert_tallest_first(s: Seq<GlyphInfo>, g: GlyphInfo)
    requires
        tallest_first(s),
    ensures
        tallest_first(insert_by_height(s, g)),
    decreases s.len(),
{
    broadcast use vstd::seq_lib::group_to_multiset_ensures;

    if s.len() == 0 {
    } else if s.last().height >= g.height {
        let r = s.push(g);
        assert forall|i: int, j: int| 0 <= i < j < r.len() implies #[trigger] r[i].height >= #[trigger] r[j].height by {
            if j == r.len() - 1 {
                assert(s[i].height >= s[s.len() - 1].height || i == s.len() - 1);
            }
        }
    } else {
        let init = s.drop_last();
        let last = s.last();
        assert(tallest_first(init)) by {
            assert forall|i: int, j: int| 0 <= i < j < init.len() implies #[trigger] init[i].height >= #[trigger] init[j].height by {
                assert(init[i] == s[i] && init[j] == s[j]);
            }
        }
        lemma_insert_tallest_first(init, g);
        lemma_insert_keeps_glyphs(init, g);
        let mid = insert_by_height(init, g);
        let r = mid.push(last);
        assert forall|i: int, j: int| 0 <= i < j < r.len() implies #[trigger] r[i].height >= #[trigger] r[j].height by {
            if j == r.len() - 1 {
                let x = mid[i];
                assert(mid.contains(x));
                assert(mid.to_multiset().count(x) > 0);
                if x != g {
                    assert(init.to_multiset().count(x) > 0);
                    assert(init.contains(x));
                    let k = choose|k: int| 0 <= k < init.len() && init[k] == x;
                    assert(s[k] == x);
                    assert(s[k].height >= s[s.len() - 1].height);
                }
            }
        }
    }
}

proof fn lemma_sort_tallest_first(s: Seq<GlyphInfo>)
    ensures
        tallest_first(sort_by_height(s)),
    decreases s.len(),
{
    if s.len() > 0 {
        lemma_sort_tallest_first(s.drop_last());
        lemma_insert_tallest_first(sort_by_height(s.drop_last()), s.last());
    }
}

/// The packing state `b` (in a texture at least as wide) is no further down
/// than `a`: its rows reach no lower, and either its current row starts no
/// lower and is no fuller, or its rows end above `a`'s current row.
spec fn pack_dominated(a: PackState, b: PackState) -> bool {
    &&& b.2 <= a.2
    &&& (b.1 <= a.1 && b.0 <= a.0) || b.2 <= a.1
    &&& 0 <= a.0 && 0 <= a.1 <= a.2
    &&& 0 <= b.0 && 0 <= b.1 <= b.2
}

proof fn lemma_pack_dominated(glyphs: Seq<GlyphInfo>, w1: int, h1: int, w2: int, h2: int)
    requires
        tallest_first(glyphs),
        0 <= w1 <= w2,
        0 <= h1 <= h2,
        !pack(glyphs, w1, h1).4,
    ensures
        !pack(glyphs, w2, h2).4,
        pack_dominated(pack(glyphs, w1, h1), pack(glyphs, w2, h2)),
        glyphs.len() > 0 ==> pack(glyphs, w1, h1).2 - pack(glyphs, w1, h1).1 >= glyphs.last().height && pack(
            glyphs,
            w2,
            h2,
        ).2 - pack(glyphs, w2, h2).1 >= glyphs.last().height,
    decreases glyphs.len(),
{
    if glyphs.len() > 0 {
        let init = glyphs.drop_last();
        let g = glyphs.last();
        assert(tallest_first(init)) by {
            assert forall|i: int, j: int| 0 <= i < j < init.len() implies #[trigger] init[i].height >= #[trigger] init[j].height by {
                assert(init[i] == glyphs[i] && init[j] == glyphs[j]);
            }
        }
        let a = pack(init, w1, h1);
        let b = pack(init, w2, h2);
        assert(!a.4);
        lemma_pack_dominated(init, w1, h1, w2, h2);
        if init.len() > 0 {
            assert(glyphs[init.len() - 1] == init.last());
            assert(glyphs[init.len() - 1].height >= glyphs[glyphs.len() - 1].height);
            assert(g.height <= init.last().height);
        } else {
            assert(a.0 == 0 && b.0 == 0 && a.1 == 0 && b.1 == 0);
        }
    }
}

/// A packing that fits a texture fits any texture at least as wide and as
/// tall, when the glyphs come tallest first.
pub proof fn lemma_pack_monotone(glyphs: Seq<GlyphInfo>, w1: int, h1: int, w2: int, h2: int)
    requires
        tallest_first(glyphs),
        0 <= w1 <= w2,
        0 <= h1 <= h2,
        !pack(glyphs, w1, h1).4,
    ensures
        !pack(glyphs, w2, h2).4,
{
    lemma_pack_dominated(glyphs, w1, h1, w2, h2);
}

proof fn lemma_pack_at_monotone(glyphs: Seq<GlyphInfo>, a: nat, b: nat)
    requires
        tallest_first(glyphs),
        a <= b,
        pack_at(glyphs, a) is Some,
    ensures
        pack_at(glyphs, b) is Some,
{
    lemma_pow2_bound(a, b);
    lemma_pack_monotone(glyphs, pow2(a) as int, pow2(a) as int, pow2(b) as int, pow2(b) as int);
}

/// The search finds the smallest side that fits, when the glyphs come
/// tallest first: for every power of two in the range whose square the
/// glyphs fit in, the search finds a side, and the side it finds is no
/// larger.
pub proof fn lemma_search_finds_smallest(glyphs: Seq<GlyphInfo>, min: nat, max: nat, log: nat)
    requires
        tallest_first(glyphs),
        min <= log <= max,
        pack_at(glyphs, log) is Some,
    ensures
        search(glyphs, min, max) is Some,
        ({
            let found = search(glyphs, min, max)->0;
            found.0 <= pow2(log)
        }),
    decreases max - min,
{
    if max > min {
        let mid = ((min + max + 1) / 2) as nat;
        match pack_at(glyphs, mid) {
            Some(p) => {
                let lower = if mid - 1 > min {
                    (mid - 1) as nat
                } else {
                    min
                };
                if log <= lower {
                    lemma_search_finds_smallest(glyphs, min, lower, log);
                } else {
                    assert(log >= mid);
                    lemma_pow2_bound(mid, log);
                    match search(glyphs, min, lower) {
                        Some(smaller) => {
                            lemma_search_is_pack_at(glyphs, min, lower);
                            let l = choose|l: nat|
                                min <= l <= (if lower <= min { min } else { lower }) && #[trigger] pack_at(glyphs, l)
                                    == search(glyphs, min, lower);
                            lemma_pow2_bound(l, log);
                        },
                        None => {},
                    }
                }
            },
            None => {
                if log <= mid {
                    lemma_pack_at_monotone(glyphs, log, mid);
                }
                let upper = if mid + 1 < max {
                    (mid + 1) as nat
                } else {
                    max
                };
                lemma_search_finds_smallest(glyphs, upper, max, log);
            },
        }
    }
}

/// `do_font_packing` picks the smallest square that fits: for every side
/// from 64 to 16384 whose square the glyphs, tallest first, fit in, it
/// finds a packing, and the side of the packing it finds is no larger.
pub proof fn lemma_font_packing_is_smallest(glyphs: Seq<GlyphInfo>, log: nat)
    requires
        6 <= log <= 14,
        pack_at(sort_by_height(glyphs), log) is Some,
    ensures
        search(sort_by_height(glyphs), 6, 14) is Some,
        ({
            let found = search(sort_by_height(glyphs), 6, 14)->0;
            found.0 <= pow2(log)
        }),
{
    lemma_sort_tallest_first(glyphs);
    lemma_search_finds_smallest(sort_by_height(glyphs), 6, 14, log);
}

} // verus!
