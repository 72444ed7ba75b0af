//! Glyph renderer: turns a text string into a flat sequence of fixed-height
//! bitmap columns, using a caller-supplied glyph table. The glyph table is
//! an external collaborator; the library only reads plain bitmap data from
//! it.

use vstd::prelude::*;

verus! {

/// One glyph: a declared width and nine bit-rows, top to bottom. Bit `k`
/// of a row is the ink at horizontal position `k`, counted from the
/// right edge of the declared width; the rightmost column of the declared
/// width is reserved as inter-glyph spacing and never emitted.
#[derive(Clone, Copy, Debug)]
pub struct Glyph {
    pub width: u8,
    pub rows: [u16; 9],
}

impl Glyph {
    /// A glyph is usable when its declared width is at least 1 (so the
    /// column count `width - 1` cannot underflow) and small enough that
    /// every emitted column indexes a real bit of the rows.
    pub open spec fn wf(self) -> bool {
        1 <= self.width <= 16
    }
}

/// A lookup table from character code to glyph, with a fixed fallback
/// glyph for codes the table does not map.
pub struct GlyphTable {
    pub entries: Vec<(u32, Glyph)>,
    pub fallback: Glyph,
}

/// The glyph of `code`: the first entry carrying that code, or the
/// fallback when none does.
pub open spec fn lookup_spec(entries: Seq<(u32, Glyph)>, code: u32, fallback: Glyph) -> Glyph
    decreases entries.len(),
{
    if entries.len() == 0 {
        fallback
    } else if entries[0].0 == code {
        entries[0].1
    } else {
        lookup_spec(entries.skip(1), code, fallback)
    }
}

impl GlyphTable {
    pub open spec fn wf(self) -> bool {
        &&& self.fallback.wf()
        &&& forall|i: int| 0 <= i < self.entries@.len() ==> (#[trigger] self.entries@[i]).1.wf()
    }

    /// Find the glyph of a character code, falling back for unknown codes.
    pub fn lookup(&self, code: u32) -> (g: Glyph)
        ensures
            g == lookup_spec(self.entries@, code, self.fallback),
            self.wf() ==> g.wf(),
    {
        let n = self.entries.len();
        let mut i: usize = 0;
        proof {
            assert(self.entries@.skip(0) =~= self.entries@);
        }
        while i < n
            invariant
                0 <= i <= n,
                n == self.entries@.len(),
                lookup_spec(self.entries@, code, self.fallback) == lookup_spec(
                    self.entries@.skip(i as int),
                    code,
                    self.fallback,
                ),
            decreases n - i,
        {
            let e = self.entries[i];
            if e.0 == code {
                proof {
                    assert(self.entries@.skip(i as int)[0] == self.entries@[i as int]);
                }
                return e.1;
            }
            proof {
                assert(self.entries@.skip(i as int).skip(1) =~= self.entries@.skip(i as int + 1));
            }
            i = i + 1;
        }
        self.fallback
    }
}

/// The ink bit of glyph `g` at emitted column `c` (0-based from the left)
/// and row `y`: bit `width - c - 2` of row `y`.
pub open spec fn glyph_bit(g: Glyph, c: int, y: int) -> u8
    recommends
        g.wf(),
        0 <= c < g.width - 1,
        0 <= y < 9,
{
    ((g.rows[y] >> ((g.width - c - 2) as u16)) & 1) as u8
}

/// One emitted column of a glyph, top to bottom.
pub open spec fn glyph_col_spec(g: Glyph, c: int) -> Seq<u8> {
    Seq::new(9, |y: int| glyph_bit(g, c, y))
}

/// The columns one glyph emits: its `width - 1` leftmost columns, left to
/// right (the last column of the declared width is the built-in spacing).
pub open spec fn glyph_cols_spec(g: Glyph) -> Seq<Seq<u8>> {
    Seq::new((g.width - 1) as nat, |c: int| glyph_col_spec(g, c))
}

/// A fully blank spacer column.
pub open spec fn blank_col_spec() -> Seq<u8> {
    Seq::new(9, |y: int| 0u8)
}

/// All columns of a text, with one spacer column after every character
/// (including the last).
pub open spec fn render_padded_spec(text: Seq<char>, t: GlyphTable) -> Seq<Seq<u8>>
    decreases text.len(),
{
    if text.len() == 0 {
        Seq::empty()
    } else {
        glyph_cols_spec(lookup_spec(t.entries@, text[0] as u32, t.fallback)) + seq![
            blank_col_spec(),
        ] + render_padded_spec(text.skip(1), t)
    }
}

/// The rendered text: all glyph columns with inter-character spacers, the
/// trailing spacer removed. The length of this sequence is the pixel
/// width of the rendered text.
pub open spec fn render_spec(text: Seq<char>, t: GlyphTable) -> Seq<Seq<u8>> {
    let padded = render_padded_spec(text, t);
    if padded.len() == 0 {
        padded
    } else {
        padded.take(padded.len() - 1)
    }
}

/// A looked-up glyph is well formed whenever the table is.
pub proof fn lemma_lookup_wf(entries: Seq<(u32, Glyph)>, code: u32, fallback: Glyph)
    requires
        fallback.wf(),
        forall|i: int| 0 <= i < entries.len() ==> (#[trigger] entries[i]).1.wf(),
    ensures
        lookup_spec(entries, code, fallback).wf(),
    decreases entries.len(),
{
    if entries.len() > 0 && entries[0].0 != code {
        assert forall|i: int| 0 <= i < entries.skip(1).len() implies (#[trigger] entries.skip(
            1,
        )[i]).1.wf() by {
            assert(entries.skip(1)[i] == entries[i + 1]);
        }
        lemma_lookup_wf(entries.skip(1), code, fallback);
    }
}

/// The padded rendering is never empty for nonempty text, and is bounded
/// by 16 columns per character.
pub proof fn lemma_render_padded_len(text: Seq<char>, t: GlyphTable)
    requires
        t.wf(),
    ensures
        text.len() > 0 ==> render_padded_spec(text, t).len() >= 1,
        render_padded_spec(text, t).len() <= 16 * text.len(),
    decreases text.len(),
{
    if text.len() > 0 {
        lemma_lookup_wf(t.entries@, text[0] as u32, t.fallback);
        lemma_render_padded_len(text.skip(1), t);
    }
}

/// Every rendered column has exactly 9 rows.
pub proof fn lemma_render_padded_rows(text: Seq<char>, t: GlyphTable)
    ensures
        forall|i: int|
            0 <= i < render_padded_spec(text, t).len() ==> (#[trigger] render_padded_spec(
                text,
                t,
            )[i]).len() == 9,
    decreases text.len(),
{
    if text.len() > 0 {
        lemma_render_padded_rows(text.skip(1), t);
        let g = lookup_spec(t.entries@, text[0] as u32, t.fallback);
        let gc = glyph_cols_spec(g);
        let rest = render_padded_spec(text.skip(1), t);
        assert forall|i: int| 0 <= i < render_padded_spec(text, t).len() implies (
        #[trigger] render_padded_spec(text, t)[i]).len() == 9 by {
            if i < gc.len() {
                assert(render_padded_spec(text, t)[i] == gc[i]);
            } else if i == gc.len() {
                assert(render_padded_spec(text, t)[i] == blank_col_spec());
            } else {
                assert(render_padded_spec(text, t)[i] == rest[i - gc.len() - 1]);
            }
        }
    }
}

/// Render a text against a glyph table: one 9-row bit column per emitted
/// glyph column, a blank spacer between characters, no trailing spacer.
pub fn render(text: &str, table: &GlyphTable) -> (r: Vec<Vec<u8>>)
    requires
        table.wf(),
    ensures
        r@.len() == render_spec(text@, *table).len(),
        forall|i: int| 0 <= i < r@.len() ==> (#[trigger] r@[i])@ == render_spec(text@, *table)[i],
        forall|i: int| 0 <= i < r@.len() ==> (#[trigger] r@[i])@.len() == 9,
{
    let n = text.unicode_len();
    let mut out: Vec<Vec<u8>> = Vec::new();
    let mut i: usize = 0;
    proof {
        assert(text@.take(0) =~= Seq::<char>::empty());
    }
    while i < n
        invariant
            0 <= i <= n,
            n == text@.len(),
            table.wf(),
            out@.len() == render_padded_spec(text@.take(i as int), *table).len(),
            forall|k: int|
                0 <= k < out@.len() ==> (#[trigger] out@[k])@ == render_padded_spec(
                    text@.take(i as int),
                    *table,
                )[k],
        decreases n - i,
    {
        let c = text.get_char(i);
        let g = table.lookup(c as u32);
        let ghost pre = render_padded_spec(text@.take(i as int), *table);
        let ghost gcols = glyph_cols_spec(g);
        let mut col: usize = 0;
        while col + 1 < g.width as usize
            invariant
                table.wf(),
                g.wf(),
                g == lookup_spec(table.entries@, c as u32, table.fallback),
                gcols == glyph_cols_spec(g),
                col <= g.width - 1,
                out@.len() == pre.len() + col,
                forall|k: int|
                    0 <= k < pre.len() ==> (#[trigger] out@[k])@ == pre[k],
                forall|k: int|
                    0 <= k < col ==> (#[trigger] out@[pre.len() + k])@ == gcols[k],
            decreases g.width - col,
        {
            let real_col = g.width as usize - col - 2;
            let mut bits: Vec<u8> = Vec::new();
            let mut y: usize = 0;
            while y < 9
                invariant
                    0 <= y <= 9,
                    g.wf(),
                    col < g.width - 1,
                    real_col == g.width - col - 2,
                    bits@.len() == y,
                    forall|k: int| 0 <= k < y ==> bits@[k] == glyph_bit(g, col as int, k),
                decreases 9 - y,
            {
                let b = ((g.rows[y] >> (real_col as u16)) & 1) as u8;
                bits.push(b);
                y = y + 1;
            }
            proof {
                assert(0 <= col < gcols.len());
                assert(gcols[col as int] == glyph_col_spec(g, col as int));
                assert(bits@ =~= glyph_col_spec(g, col as int));
            }
            out.push(bits);
            col = col + 1;
        }
        let mut blank: Vec<u8> = Vec::new();
        let mut y: usize = 0;
        while y < 9
            invariant
                0 <= y <= 9,
                blank@.len() == y,
                forall|k: int| 0 <= k < y ==> blank@[k] == 0u8,
            decreases 9 - y,
        {
            blank.push(0u8);
            y = y + 1;
        }
        proof {
            assert(blank@ =~= blank_col_spec());
        }
        out.push(blank);
        proof {
            let post = render_padded_spec(text@.take(i as int + 1), *table);
            lemma_render_padded_append(text@, i as int, *table);
            assert(post =~= pre + gcols + seq![blank_col_spec()]);
            assert(out@.len() == post.len());
            assert forall|k: int| 0 <= k < out@.len() implies (#[trigger] out@[k])@ == post[k] by {
                if k < pre.len() {
                    assert(post[k] == pre[k]);
                } else if k < pre.len() + gcols.len() {
                    assert(out@[pre.len() + (k - pre.len())]@ == gcols[k - pre.len()]);
                    assert(post[k] == gcols[k - pre.len()]);
                } else {
                    assert(k == out@.len() - 1);
                    assert(post[k] == blank_col_spec());
                }
            }
        }
        i = i + 1;
    }
    proof {
        assert(text@.take(n as int) =~= text@);
    }
    let ghost padded = render_padded_spec(text@, *table);
    let ghost kept = out@;
    if out.len() > 0 {
        let _dropped = out.pop();
    }
    proof {
        lemma_render_padded_rows(text@, *table);
        if padded.len() > 0 {
            assert(out@ == kept.subrange(0, padded.len() - 1));
            assert forall|i: int| 0 <= i < out@.len() implies (#[trigger] out@[i])@ == render_spec(
                text@,
                *table,
            )[i] by {
                assert(out@[i] == kept[i]);
                assert(render_spec(text@, *table)[i] == padded[i]);
            }
        }
    }
    out
}

/// Rendering one more character appends that character's columns and a
/// spacer to the padded rendering.
proof fn lemma_render_padded_append(text: Seq<char>, i: int, t: GlyphTable)
    requires
        0 <= i < text.len(),
    ensures
        render_padded_spec(text.take(i + 1), t) == render_padded_spec(text.take(i), t)
            + glyph_cols_spec(lookup_spec(t.entries@, text[i] as u32, t.fallback)) + seq![
            blank_col_spec(),
        ],
    decreases i,
{
    let pre = text.take(i);
    let post = text.take(i + 1);
    if i == 0 {
        assert(post.len() == 1);
        assert(post[0] == text[0]);
        assert(post.skip(1) =~= Seq::<char>::empty());
        assert(render_padded_spec(pre, t) =~= Seq::<Seq<u8>>::empty());
        assert(render_padded_spec(post, t) == glyph_cols_spec(
            lookup_spec(t.entries@, post[0] as u32, t.fallback),
        ) + seq![blank_col_spec()] + render_padded_spec(post.skip(1), t));
        assert(render_padded_spec(post.skip(1), t) =~= Seq::<Seq<u8>>::empty());
        assert(render_padded_spec(post, t) =~= render_padded_spec(pre, t) + glyph_cols_spec(
            lookup_spec(t.entries@, text[0] as u32, t.fallback),
        ) + seq![blank_col_spec()]);
    } else {
        lemma_render_padded_append(text.skip(1), i - 1, t);
        assert(pre.skip(1) =~= text.skip(1).take(i - 1));
        assert(post.skip(1) =~= text.skip(1).take(i));
        assert(pre[0] == text[0]);
        assert(post[0] == text[0]);
        assert(text.skip(1)[i - 1] == text[i]);
        let g0 = glyph_cols_spec(lookup_spec(t.entries@, text[0] as u32, t.fallback)) + seq![
            blank_col_spec(),
        ];
        assert(render_padded_spec(pre, t) == g0 + render_padded_spec(text.skip(1).take(i - 1), t));
        assert(render_padded_spec(post, t) == g0 + render_padded_spec(text.skip(1).take(i), t));
        assert((g0 + (render_padded_spec(text.skip(1).take(i - 1), t) + glyph_cols_spec(
            lookup_spec(t.entries@, text[i] as u32, t.fallback),
        ) + seq![blank_col_spec()])) =~= (g0 + render_padded_spec(text.skip(1).take(i - 1), t))
            + glyph_cols_spec(lookup_spec(t.entries@, text[i] as u32, t.fallback)) + seq![
            blank_col_spec(),
        ]);
    }
}

} // verus!
