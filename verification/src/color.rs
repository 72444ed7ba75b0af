//! Color model: display-encoded sRGB bytes on the outside, linear-light
//! fixed-point channels on the inside, and the alpha-blending operator.
//!
//! Linear-light channel values are held in 1/65535 units of full intensity
//! (`CHANNEL_ONE`). Alpha is held in 1/12495 units of full opacity
//! (`ALPHA_ONE`); the denominator is 255 * 49 so that both an 8-bit alpha
//! byte (x/255) and an ellipse coverage fraction (n/49) scale a color's
//! alpha without any rounding loss.

use vstd::prelude::*;

verus! {

/// Display-encoded RGB color, 8 bits per channel.
#[derive(Clone, Copy, Debug, PartialEq, Eq, Structural)]
pub struct Color(pub u8, pub u8, pub u8);

/// Display-encoded RGBA color, 8 bits per channel, alpha not premultiplied.
#[derive(Clone, Copy, Debug, PartialEq, Eq, Structural)]
pub struct ColorA(pub u8, pub u8, pub u8, pub u8);

/// Linear-light channel value standing for full intensity (1.0).
pub const CHANNEL_ONE: u16 = 65535u16;

/// Alpha value standing for full opacity (1.0). Equal to 255 * 49.
pub const ALPHA_ONE: u32 = 12495u32;

/// The standard sRGB transfer function, tabulated: entry `b` is the
/// linear-light intensity of the display byte `b`, in 1/65535 units,
/// rounded to nearest. Below display value 0.04045 the curve is the linear
/// segment x/12.92; above it is ((x + 0.055)/1.055)^2.4. The table is
/// strictly increasing, with entry 0 equal to 0 and entry 255 equal to
/// `CHANNEL_ONE`.
pub const SRGB_DECODE: [u16; 256] = [
    0u16, 20u16, 40u16, 60u16, 80u16, 99u16, 119u16, 139u16,
    159u16, 179u16, 199u16, 219u16, 241u16, 264u16, 288u16, 313u16,
    340u16, 367u16, 396u16, 427u16, 458u16, 491u16, 526u16, 562u16,
    599u16, 637u16, 677u16, 718u16, 761u16, 805u16, 851u16, 898u16,
    947u16, 997u16, 1048u16, 1101u16, 1156u16, 1212u16, 1270u16, 1330u16,
    1391u16, 1453u16, 1517u16, 1583u16, 1651u16, 1720u16, 1790u16, 1863u16,
    1937u16, 2013u16, 2090u16, 2170u16, 2250u16, 2333u16, 2418u16, 2504u16,
    2592u16, 2681u16, 2773u16, 2866u16, 2961u16, 3058u16, 3157u16, 3258u16,
    3360u16, 3464u16, 3570u16, 3678u16, 3788u16, 3900u16, 4014u16, 4129u16,
    4247u16, 4366u16, 4488u16, 4611u16, 4736u16, 4864u16, 4993u16, 5124u16,
    5257u16, 5392u16, 5530u16, 5669u16, 5810u16, 5953u16, 6099u16, 6246u16,
    6395u16, 6547u16, 6700u16, 6856u16, 7014u16, 7174u16, 7335u16, 7500u16,
    7666u16, 7834u16, 8004u16, 8177u16, 8352u16, 8528u16, 8708u16, 8889u16,
    9072u16, 9258u16, 9445u16, 9635u16, 9828u16, 10022u16, 10219u16, 10417u16,
    10619u16, 10822u16, 11028u16, 11235u16, 11446u16, 11658u16, 11873u16, 12090u16,
    12309u16, 12530u16, 12754u16, 12980u16, 13209u16, 13440u16, 13673u16, 13909u16,
    14146u16, 14387u16, 14629u16, 14874u16, 15122u16, 15371u16, 15623u16, 15878u16,
    16135u16, 16394u16, 16656u16, 16920u16, 17187u16, 17456u16, 17727u16, 18001u16,
    18277u16, 18556u16, 18837u16, 19121u16, 19407u16, 19696u16, 19987u16, 20281u16,
    20577u16, 20876u16, 21177u16, 21481u16, 21787u16, 22096u16, 22407u16, 22721u16,
    23038u16, 23357u16, 23678u16, 24002u16, 24329u16, 24658u16, 24990u16, 25325u16,
    25662u16, 26001u16, 26344u16, 26688u16, 27036u16, 27386u16, 27739u16, 28094u16,
    28452u16, 28813u16, 29176u16, 29542u16, 29911u16, 30282u16, 30656u16, 31033u16,
    31412u16, 31794u16, 32179u16, 32567u16, 32957u16, 33350u16, 33745u16, 34143u16,
    34544u16, 34948u16, 35355u16, 35764u16, 36176u16, 36591u16, 37008u16, 37429u16,
    37852u16, 38278u16, 38706u16, 39138u16, 39572u16, 40009u16, 40449u16, 40891u16,
    41337u16, 41785u16, 42236u16, 42690u16, 43147u16, 43606u16, 44069u16, 44534u16,
    45002u16, 45473u16, 45947u16, 46423u16, 46903u16, 47385u16, 47871u16, 48359u16,
    48850u16, 49344u16, 49841u16, 50341u16, 50844u16, 51349u16, 51858u16, 52369u16,
    52884u16, 53401u16, 53921u16, 54445u16, 54971u16, 55500u16, 56032u16, 56567u16,
    57105u16, 57646u16, 58190u16, 58737u16, 59287u16, 59840u16, 60396u16, 60955u16,
    61517u16, 62082u16, 62650u16, 63221u16, 63795u16, 64372u16, 64952u16, 65535u16,
];

/// Linear-light intensity of a display byte.
pub open spec fn decode_spec(b: int) -> int
    recommends
        0 <= b < 256,
{
    SRGB_DECODE[b] as int
}

/// Largest byte no greater than `b` whose linear intensity is at most `v`
/// (0 if there is none). Walks the table downward.
pub open spec fn encode_from(v: int, b: int) -> int
    decreases b,
{
    if b <= 0 {
        0
    } else if decode_spec(b) <= v {
        b
    } else {
        encode_from(v, b - 1)
    }
}

/// Display byte of a linear-light intensity: the largest byte whose
/// tabulated intensity does not exceed `v`. This is the quantized inverse
/// of the transfer function; it truncates (never rounds up), so
/// intensities above full scale simply map to 255.
pub open spec fn encode_spec(v: int) -> int {
    encode_from(v, 255)
}

/// Blend one channel: the standard non-premultiplied "over" operator
/// `dst*(1-alpha) + src*alpha`, carried out in linear light with the
/// division truncating.
pub open spec fn blend_ch_spec(o: int, s: int, a: int) -> int {
    (o * (ALPHA_ONE - a) + s * a) / (ALPHA_ONE as int)
}

/// Alpha scaled by a coverage fraction `n`/49, truncating.
pub open spec fn scale_alpha_spec(a: int, n: int) -> int {
    (a * n) / 49
}

/// A linear-light color with straight (non-premultiplied) alpha.
#[derive(Clone, Copy, Debug, PartialEq, Eq, Structural)]
pub struct LinColor {
    pub r: u16,
    pub g: u16,
    pub b: u16,
    pub a: u32,
}

impl LinColor {
    /// Alpha never exceeds full opacity.
    pub open spec fn wf(self) -> bool {
        self.a <= ALPHA_ONE
    }
}

/// The linear-light color of four sRGB bytes: each color channel is decoded
/// through the transfer function, alpha is scaled linearly.
pub open spec fn from_srgb_spec(r: u8, g: u8, b: u8, a: u8) -> LinColor {
    LinColor {
        r: SRGB_DECODE[r as int],
        g: SRGB_DECODE[g as int],
        b: SRGB_DECODE[b as int],
        a: (a as int * 49) as u32,
    }
}

pub fn make_color(r: u8, g: u8, b: u8) -> (c: Color)
    ensures
        c == Color(r, g, b),
{
    Color(r, g, b)
}

pub fn make_colora(r: u8, g: u8, b: u8, a: u8) -> (c: ColorA)
    ensures
        c == ColorA(r, g, b, a),
{
    ColorA(r, g, b, a)
}

impl LinColor {
    /// Decode four sRGB bytes into a linear-light color.
    pub fn from_srgb(r: u8, g: u8, b: u8, a: u8) -> (c: LinColor)
        ensures
            c == from_srgb_spec(r, g, b, a),
            c.wf(),
    {
        LinColor {
            r: SRGB_DECODE[r as usize],
            g: SRGB_DECODE[g as usize],
            b: SRGB_DECODE[b as usize],
            a: (a as u32) * 49,
        }
    }

    /// Decode an RGBA byte color.
    pub fn from_colora(c: ColorA) -> (l: LinColor)
        ensures
            l == from_srgb_spec(c.0, c.1, c.2, c.3),
            l.wf(),
    {
        LinColor::from_srgb(c.0, c.1, c.2, c.3)
    }
}

/// Decode a display byte into its linear-light intensity.
pub fn srgb_decode(b: u8) -> (v: u16)
    ensures
        v as int == decode_spec(b as int),
{
    SRGB_DECODE[b as usize]
}

/// Encode a linear-light intensity as a display byte, truncating.
pub fn srgb_encode(v: u16) -> (b: u8)
    ensures
        b as int == encode_spec(v as int),
{
    let mut i: usize = 255;
    loop
        invariant
            i <= 255,
            encode_spec(v as int) == encode_from(v as int, i as int),
        decreases i,
    {
        if SRGB_DECODE[i] <= v {
            return i as u8;
        }
        assert(i > 0);
        i = i - 1;
    }
}

/// Blend one channel over an existing one.
pub fn blend_ch(o: u16, s: u16, a: u32) -> (r: u16)
    requires
        a <= ALPHA_ONE,
    ensures
        r as int == blend_ch_spec(o as int, s as int, a as int),
{
    proof {
        lemma_blend_ch_bounds(o as int, s as int, a as int);
    }
    let n: u64 = (o as u64) * ((ALPHA_ONE - a) as u64) + (s as u64) * (a as u64);
    (n / (ALPHA_ONE as u64)) as u16
}

/// Scale an alpha by a coverage fraction `n`/49.
pub fn scale_alpha(a: u32, n: u32) -> (r: u32)
    requires
        a <= ALPHA_ONE,
        n <= 49,
    ensures
        r as int == scale_alpha_spec(a as int, n as int),
        r <= ALPHA_ONE,
{
    proof {
        lemma_scale_alpha_bounds(a as int, n as int);
    }
    (a * n) / 49
}

/// Each step of the decode table is strictly upward.
pub proof fn lemma_decode_adjacent()
    ensures
        forall|k: int| 0 <= k < 255 ==> #[trigger] decode_spec(k) < decode_spec(k + 1),
{
    assert(forall|k: int| 0 <= k < 255 ==> #[trigger] decode_spec(k) < decode_spec(k + 1));
}

/// The decode table is strictly increasing.
pub proof fn lemma_decode_monotone(i: int, j: int)
    requires
        0 <= i < j < 256,
    ensures
        decode_spec(i) < decode_spec(j),
    decreases j - i,
{
    lemma_decode_adjacent();
    if j > i + 1 {
        lemma_decode_monotone(i, j - 1);
    }
}

/// `encode_from` finds the unique byte below which the table is within `v`
/// and above which it exceeds `v`.
proof fn lemma_encode_from_finds(v: int, b: int, hi: int)
    requires
        0 <= b <= hi < 256,
        decode_spec(b) <= v,
        forall|k: int| b < k <= hi ==> decode_spec(k) > v,
    ensures
        encode_from(v, hi) == b,
    decreases hi,
{
    if hi > b {
        lemma_encode_from_finds(v, b, hi - 1);
    }
}

/// Decoding a display byte and encoding the result gives the byte back,
/// exactly.
pub proof fn lemma_srgb_round_trip(b: int)
    requires
        0 <= b < 256,
    ensures
        encode_spec(decode_spec(b)) == b,
{
    let v = decode_spec(b);
    assert forall|k: int| b < k < 256 implies decode_spec(k) > v by {
        lemma_decode_monotone(b, k);
    }
    lemma_encode_from_finds(v, b, 255);
}

/// A blended channel stays within the channel range.
pub proof fn lemma_blend_ch_bounds(o: int, s: int, a: int)
    requires
        0 <= o <= CHANNEL_ONE,
        0 <= s <= CHANNEL_ONE,
        0 <= a <= ALPHA_ONE,
    ensures
        0 <= blend_ch_spec(o, s, a) <= CHANNEL_ONE,
{
    let al = ALPHA_ONE as int;
    let n = o * (al - a) + s * a;
    assert(0 <= o * (al - a) + s * a && o * (al - a) + s * a <= 65535 * al) by (nonlinear_arith)
        requires
            0 <= o <= 65535,
            0 <= s <= 65535,
            0 <= a <= al,
            al == 12495,
    ;
    vstd::arithmetic::div_mod::lemma_div_pos_is_pos(n, al);
    vstd::arithmetic::div_mod::lemma_div_is_ordered(n, 65535 * al, al);
    vstd::arithmetic::div_mod::lemma_div_multiples_vanish(65535, al);
}

/// A scaled alpha stays within the alpha range.
pub proof fn lemma_scale_alpha_bounds(a: int, n: int)
    requires
        0 <= a <= ALPHA_ONE,
        0 <= n <= 49,
    ensures
        0 <= scale_alpha_spec(a, n) <= ALPHA_ONE,
{
    let al = ALPHA_ONE as int;
    assert(0 <= a * n && a * n <= al * 49) by (nonlinear_arith)
        requires
            0 <= a <= al,
            0 <= n <= 49,
    ;
    vstd::arithmetic::div_mod::lemma_div_pos_is_pos(a * n, 49);
    vstd::arithmetic::div_mod::lemma_div_is_ordered(a * n, al * 49, 49);
    vstd::arithmetic::div_mod::lemma_div_multiples_vanish(al, 49);
}

/// Blending with alpha 0 leaves the destination channel unchanged.
pub proof fn lemma_blend_alpha_zero(o: int, s: int)
    requires
        0 <= o,
    ensures
        blend_ch_spec(o, s, 0) == o,
{
    let al = ALPHA_ONE as int;
    assert(o * (al - 0) + s * 0 == al * o) by (nonlinear_arith);
    vstd::arithmetic::div_mod::lemma_div_multiples_vanish(o, al);
}

/// Blending with full alpha replaces the destination channel exactly.
pub proof fn lemma_blend_alpha_one(o: int, s: int)
    requires
        0 <= s,
    ensures
        blend_ch_spec(o, s, ALPHA_ONE as int) == s,
{
    let al = ALPHA_ONE as int;
    assert(o * (al - al) + s * al == al * s) by (nonlinear_arith);
    vstd::arithmetic::div_mod::lemma_div_multiples_vanish(s, al);
}

} // verus!
