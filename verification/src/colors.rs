//! Colour parsing and the lightness-shifted colour of a worktree.

use vstd::prelude::*;
use vstd::string::*;
use vstd::utf8::{encode_utf8, is_ascii_chars, is_ascii_chars_encode_utf8};

use crate::text::push_char;

verus! {

/// An opaque RGB colour with one byte per channel.
#[derive(Clone, Copy, Debug, PartialEq, Eq)]
pub struct Rgb8 {
    pub r: u8,
    pub g: u8,
    pub b: u8,
}

/// The state of an instance, as far as its status dot shows it.
#[derive(Debug, Clone, Copy, PartialEq, Eq, Structural)]
pub enum InstanceStatus {
    Working,
    Waiting,
    Paused,
    Starting,
    Stopped,
}

/// The status dot colour: `#81C784` working, `#FFB74D` waiting, `#90A4AE`
/// paused, `#64B5F6` starting, `#666666` stopped.
pub open spec fn status_rgb(status: InstanceStatus) -> (int, int, int) {
    match status {
        InstanceStatus::Working => (0x81, 0xC7, 0x84),
        InstanceStatus::Waiting => (0xFF, 0xB7, 0x4D),
        InstanceStatus::Paused => (0x90, 0xA4, 0xAE),
        InstanceStatus::Starting => (0x64, 0xB5, 0xF6),
        InstanceStatus::Stopped => (0x66, 0x66, 0x66),
    }
}

/// The status dot colour of an instance.
pub fn status_color(status: InstanceStatus) -> (c: Rgb8)
    ensures
        rgb_of(c) == status_rgb(status),
{
    match status {
        InstanceStatus::Working => Rgb8 { r: 0x81, g: 0xC7, b: 0x84 },
        InstanceStatus::Waiting => Rgb8 { r: 0xFF, g: 0xB7, b: 0x4D },
        InstanceStatus::Paused => Rgb8 { r: 0x90, g: 0xA4, b: 0xAE },
        InstanceStatus::Starting => Rgb8 { r: 0x64, g: 0xB5, b: 0xF6 },
        InstanceStatus::Stopped => Rgb8 { r: 0x66, g: 0x66, b: 0x66 },
    }
}

/// The bytes of `b` after every leading `#` is removed.
pub open spec fn trim_hashes(b: Seq<u8>) -> Seq<u8>
    decreases b.len(),
{
    if b.len() > 0 && b[0] == 35u8 {
        trim_hashes(b.drop_first())
    } else {
        b
    }
}

/// The value of one ASCII hexadecimal digit.
pub open spec fn hex_digit_value(c: u8) -> Option<int> {
    if 48 <= c <= 57 {
        Some(c - 48)
    } else if 65 <= c <= 70 {
        Some(c - 55)
    } else if 97 <= c <= 102 {
        Some(c - 87)
    } else {
        None
    }
}

/// `u8::from_str_radix(.., 16)` on a one-byte string.
pub open spec fn radix16_one(a: u8) -> Option<int> {
    hex_digit_value(a)
}

/// `u8::from_str_radix(.., 16)` on a two-byte string: a leading `+` is
/// accepted before a single digit.
pub open spec fn radix16_two(a: u8, b: u8) -> Option<int> {
    if a == 43u8 {
        hex_digit_value(b)
    } else {
        match (hex_digit_value(a), hex_digit_value(b)) {
            (Some(x), Some(y)) => Some(16 * x + y),
            _ => None,
        }
    }
}

/// A UTF-8 continuation byte: slicing a `str` before it panics.
pub open spec fn is_continuation(b: u8) -> bool {
    128 <= b < 192
}

/// The inputs on which the colour parser slices a string only at
/// character boundaries.
pub open spec fn hex_slices_ok(bytes: Seq<u8>) -> bool {
    let t = trim_hashes(bytes);
    &&& t.len() == 6 ==> !is_continuation(t[2]) && !is_continuation(t[4])
    &&& t.len() == 3 ==> !is_continuation(t[1]) && !is_continuation(t[2])
}

/// One channel of the six-digit form; 128 where the digits do not parse.
pub open spec fn channel6(a: u8, b: u8) -> int {
    match radix16_two(a, b) {
        Some(v) => v,
        None => 128int,
    }
}

/// One channel of the three-digit form, widened by 17; 136 where the digit
/// does not parse.
pub open spec fn channel3(a: u8) -> int {
    match radix16_one(a) {
        Some(v) => v * 17,
        None => 136int,
    }
}

/// The colour that a CSS hex string (`#RRGGBB` or `#RGB`, any number of
/// leading `#`) denotes; mid grey for any other length.
pub open spec fn parsed_hex(bytes: Seq<u8>) -> (int, int, int) {
    let t = trim_hashes(bytes);
    if t.len() == 6 {
        (channel6(t[0], t[1]), channel6(t[2], t[3]), channel6(t[4], t[5]))
    } else if t.len() == 3 {
        (channel3(t[0]), channel3(t[1]), channel3(t[2]))
    } else {
        (128, 128, 128)
    }
}

pub open spec fn rgb_of(c: Rgb8) -> (int, int, int) {
    (c.r as int, c.g as int, c.b as int)
}

proof fn lemma_trim_hashes_skip(b: Seq<u8>, i: int)
    requires
        0 <= i <= b.len(),
        forall|j: int| 0 <= j < i ==> b[j] == 35u8,
    ensures
        trim_hashes(b) == trim_hashes(b.subrange(i, b.len() as int)),
    decreases i,
{
    if i > 0 {
        assert(b.subrange(1, b.len() as int) =~= b.drop_first());
        lemma_trim_hashes_skip(b.drop_first(), i - 1);
        assert(b.drop_first().subrange(i - 1, b.drop_first().len() as int) =~= b.subrange(
            i,
            b.len() as int,
        ));
    } else {
        assert(b.subrange(0, b.len() as int) =~= b);
    }
}

fn hex_digit(c: u8) -> (v: Option<u8>)
    ensures
        match hex_digit_value(c) {
            Some(x) => v == Some(x as u8),
            None => v is None,
        },
{
    if 48 <= c && c <= 57 {
        Some(c - 48)
    } else if 65 <= c && c <= 70 {
        Some(c - 55)
    } else if 97 <= c && c <= 102 {
        Some(c - 87)
    } else {
        None
    }
}

fn parse_channel6(a: u8, b: u8) -> (v: u8)
    ensures
        v as int == channel6(a, b),
{
    if a == 43u8 {
        match hex_digit(b) {
            Some(x) => x,
            None => 128,
        }
    } else {
        match (hex_digit(a), hex_digit(b)) {
            (Some(x), Some(y)) => 16 * x + y,
            _ => 128,
        }
    }
}

fn parse_channel3(a: u8) -> (v: u8)
    ensures
        v as int == channel3(a),
{
    match hex_digit(a) {
        Some(x) => x * 17,
        None => 136,
    }
}

/// Whether `parse_hex_color` may take `hex`: its channel digits are not
/// cut inside a multi-byte character.
pub fn hex_slices_ok_at(hex: &str) -> (ok: bool)
    ensures
        ok == hex_slices_ok(hex.spec_bytes()),
{
    let bytes = hex.as_bytes();
    let n = bytes.len();
    let mut i: usize = 0;
    while i < n && bytes[i] == 35u8
        invariant
            i <= n,
            n == bytes@.len(),
            forall|j: int| 0 <= j < i ==> bytes@[j] == 35u8,
        decreases n - i,
    {
        i = i + 1;
    }
    proof {
        lemma_trim_hashes_skip(bytes@, i as int);
        let t = bytes@.subrange(i as int, n as int);
        if t.len() > 0 {
            assert(t[0] == bytes@[i as int]);
        }
        assert(trim_hashes(t) == t);
    }
    let len = n - i;
    if len == 6 {
        !(128 <= bytes[i + 2] && bytes[i + 2] < 192) && !(128 <= bytes[i + 4] && bytes[i + 4] < 192)
    } else if len == 3 {
        !(128 <= bytes[i + 1] && bytes[i + 1] < 192) && !(128 <= bytes[i + 2] && bytes[i + 2] < 192)
    } else {
        true
    }
}

/// Parses a CSS hex colour (`#RRGGBB` or `#RGB`; the `#` may be absent or
/// repeated). A channel whose digits do not parse is 128 in the six-digit
/// form and 136 in the three-digit form; any other length gives grey 128.
pub fn parse_hex_color(hex: &str) -> (c: Rgb8)
    requires
        hex_slices_ok(hex.spec_bytes()),
    ensures
        rgb_of(c) == parsed_hex(hex.spec_bytes()),
{
    let bytes = hex.as_bytes();
    let n = bytes.len();
    let mut i: usize = 0;
    while i < n && bytes[i] == 35u8
        invariant
            i <= n,
            n == bytes@.len(),
            forall|j: int| 0 <= j < i ==> bytes@[j] == 35u8,
        decreases n - i,
    {
        i = i + 1;
    }
    proof {
        lemma_trim_hashes_skip(bytes@, i as int);
        let t = bytes@.subrange(i as int, n as int);
        if t.len() > 0 {
            assert(t[0] == bytes@[i as int]);
        }
        assert(trim_hashes(t) == t);
    }
    let len = n - i;
    if len == 6 {
        Rgb8 {
            r: parse_channel6(bytes[i], bytes[i + 1]),
            g: parse_channel6(bytes[i + 2], bytes[i + 3]),
            b: parse_channel6(bytes[i + 4], bytes[i + 5]),
        }
    } else if len == 3 {
        Rgb8 { r: parse_channel3(bytes[i]), g: parse_channel3(bytes[i + 1]), b: parse_channel3(bytes[i + 2]) }
    } else {
        Rgb8 { r: 128, g: 128, b: 128 }
    }
}


pub open spec fn max3(a: int, b: int, c: int) -> int {
    if a >= b && a >= c {
        a
    } else if b >= c {
        b
    } else {
        c
    }
}

pub open spec fn min3(a: int, b: int, c: int) -> int {
    if a <= b && a <= c {
        a
    } else if b <= c {
        b
    } else {
        c
    }
}

/// `num / den` rounded half up, then saturated to a byte (`(x * 255).round() as u8`).
pub open spec fn round_to_byte(num: int, den: int) -> int {
    if num < 0 {
        0
    } else if (2 * num + den) / (2 * den) > 255 {
        255
    } else {
        (2 * num + den) / (2 * den)
    }
}

/// The shifted lightness in 1020ths: lightness `sum / 510` moves by
/// `0.10 + 0.05 * index` towards the middle, staying within `[0.1, 0.9]`.
pub open spec fn shifted_lightness(sum: int, index: int) -> int {
    if sum < 255 {
        if 2 * sum + 51 * (2 + index) < 918 {
            2 * sum + 51 * (2 + index)
        } else {
            918
        }
    } else {
        if 2 * sum - 51 * (2 + index) > 102 {
            2 * sum - 51 * (2 + index)
        } else {
            102
        }
    }
}

/// The hue in sixths of a turn, scaled by the chroma `mx - mn`.
pub open spec fn hue_numerator(r: int, g: int, b: int) -> int {
    let mx = max3(r, g, b);
    let d = mx - min3(r, g, b);
    if mx == r {
        if g - b < 0 {
            g - b + 6 * d
        } else {
            g - b
        }
    } else if mx == g {
        b - r + 2 * d
    } else {
        r - g + 4 * d
    }
}

/// A hue position `tn / (6 d)` brought back into one turn.
pub open spec fn wrap_turn(tn: int, d: int) -> int {
    let t1 = if tn < 0 {
        tn + 6 * d
    } else {
        tn
    };
    if t1 > 6 * d {
        t1 - 6 * d
    } else {
        t1
    }
}

/// The standard HSL sector function, scaled: the channel is this value
/// over `den * d` where `p_n / den` and `q_n / den` are `p` and `q`.
pub open spec fn sector_value(p_n: int, q_n: int, tn: int, d: int) -> int {
    let t = wrap_turn(tn, d);
    if t < d {
        p_n * d + (q_n - p_n) * t
    } else if t < 3 * d {
        q_n * d
    } else if t < 4 * d {
        p_n * d + (q_n - p_n) * (4 * d - t)
    } else {
        p_n * d
    }
}

/// The worktree colour derived from a parent colour, per channel: the
/// parent's hue and saturation with its lightness shifted by `index` steps.
pub open spec fn variant_rgb(r: int, g: int, b: int, index: int) -> (int, int, int) {
    let mx = max3(r, g, b);
    let mn = min3(r, g, b);
    let d = mx - mn;
    let sum = mx + mn;
    let ln = shifted_lightness(sum, index);
    if d == 0 {
        let v = round_to_byte(255 * ln, 1020);
        (v, v, v)
    } else {
        chromatic_rgb(r, g, b, ln)
    }
}

/// The channels of a non-grey colour `(r, g, b)` at lightness `ln / 1020`.
pub open spec fn chromatic_rgb(r: int, g: int, b: int, ln: int) -> (int, int, int) {
    let mx = max3(r, g, b);
    let mn = min3(r, g, b);
    let d = mx - mn;
    let ds = chroma_den(mx + mn);
    let q_n = q_scaled(ln, ds, d);
    let p_n = 2 * ln * ds - q_n;
    let hn = hue_numerator(r, g, b);
    let den = 1020 * ds * d;
    (
        round_to_byte(255 * sector_value(p_n, q_n, hn + 2 * d, d), den),
        round_to_byte(255 * sector_value(p_n, q_n, hn, d), den),
        round_to_byte(255 * sector_value(p_n, q_n, hn - 2 * d, d), den),
    )
}

/// The denominator of the saturation `d / chroma_den(sum)`.
pub open spec fn chroma_den(sum: int) -> int {
    if sum < 255 {
        sum
    } else {
        510 - sum
    }
}

/// HSL's `q` for lightness `ln / 1020` and saturation `d / ds`, scaled by `1020 * ds`.
pub open spec fn q_scaled(ln: int, ds: int, d: int) -> int {
    if ln < 510 {
        ln * (ds + d)
    } else {
        ln * ds + 1020 * d - ln * d
    }
}

/// The upper-case hexadecimal digit of `n` (`0 <= n < 16`).
pub open spec fn hex_char(n: int) -> char {
    if n < 10 {
        (48 + n) as char
    } else {
        (55 + n) as char
    }
}

/// `#RRGGBB` in upper-case hexadecimal.
pub open spec fn hex_color_string(r: int, g: int, b: int) -> Seq<char> {
    seq![
        '#',
        hex_char(r / 16),
        hex_char(r % 16),
        hex_char(g / 16),
        hex_char(g % 16),
        hex_char(b / 16),
        hex_char(b % 16),
    ]
}

fn upper_hex_digit(n: u8) -> (c: char)
    requires
        n < 16,
    ensures
        c == hex_char(n as int),
{
    match n {
        0 => '0',
        1 => '1',
        2 => '2',
        3 => '3',
        4 => '4',
        5 => '5',
        6 => '6',
        7 => '7',
        8 => '8',
        9 => '9',
        10 => 'A',
        11 => 'B',
        12 => 'C',
        13 => 'D',
        14 => 'E',
        _ => 'F',
    }
}

fn round_byte(num: i64, den: i64) -> (v: u8)
    requires
        0 < den <= 1_000_000_000,
        -2_000_000_000_000 <= num <= 2_000_000_000_000,
    ensures
        v as int == round_to_byte(num as int, den as int),
{
    if num < 0 {
        0
    } else {
        let x = (2 * num + den) / (2 * den);
        if x > 255 {
            255
        } else {
            x as u8
        }
    }
}

fn sector(p_n: i64, q_n: i64, tn: i64, d: i64) -> (v: i64)
    requires
        1 <= d <= 255,
        -3 * d <= tn <= 8 * d,
        -1_000_000 <= p_n <= 1_000_000,
        -1_000_000 <= q_n <= 1_000_000,
    ensures
        v as int == sector_value(p_n as int, q_n as int, tn as int, d as int),
        -4_000_000_000 <= v <= 4_000_000_000,
{
    let t1 = if tn < 0 {
        tn + 6 * d
    } else {
        tn
    };
    let t = if t1 > 6 * d {
        t1 - 6 * d
    } else {
        t1
    };
    assert(0 <= t <= 6 * d);
    assert(-255_000_000 <= p_n * d <= 255_000_000) by (nonlinear_arith)
        requires
            1 <= d <= 255,
            -1_000_000 <= p_n <= 1_000_000,
    ;
    assert(-255_000_000 <= q_n * d <= 255_000_000) by (nonlinear_arith)
        requires
            1 <= d <= 255,
            -1_000_000 <= q_n <= 1_000_000,
    ;
    if t < d {
        assert(-2_000_000 * 1530 <= (q_n - p_n) * t <= 2_000_000 * 1530) by (nonlinear_arith)
            requires
                0 <= t <= 1530,
                -2_000_000 <= q_n - p_n <= 2_000_000,
        ;
        p_n * d + (q_n - p_n) * t
    } else if t < 3 * d {
        q_n * d
    } else if t < 4 * d {
        assert(-2_000_000 * 1530 <= (q_n - p_n) * (4 * d - t) <= 2_000_000 * 1530)
            by (nonlinear_arith)
            requires
                0 <= 4 * d - t <= 1530,
                -2_000_000 <= q_n - p_n <= 2_000_000,
        ;
        p_n * d + (q_n - p_n) * (4 * d - t)
    } else {
        p_n * d
    }
}

fn max3_u8(a: u8, b: u8, c: u8) -> (m: u8)
    ensures
        m as int == max3(a as int, b as int, c as int),
{
    if a >= b && a >= c {
        a
    } else if b >= c {
        b
    } else {
        c
    }
}

fn min3_u8(a: u8, b: u8, c: u8) -> (m: u8)
    ensures
        m as int == min3(a as int, b as int, c as int),
{
    if a <= b && a <= c {
        a
    } else if b <= c {
        b
    } else {
        c
    }
}

/// The channels of the worktree colour of `parent` at position `index`.
#[verifier::rlimit(50)]
pub fn variant_channels(parent: Rgb8, index: usize) -> (out: Rgb8)
    ensures
        rgb_of(out) == variant_rgb(parent.r as int, parent.g as int, parent.b as int, index as int),
{
    let r = parent.r as i64;
    let g = parent.g as i64;
    let b = parent.b as i64;
    let mx = max3_u8(parent.r, parent.g, parent.b) as i64;
    let mn = min3_u8(parent.r, parent.g, parent.b) as i64;
    assert(mx >= r && mx >= g && mx >= b && (mx == r || mx == g || mx == b));
    assert(mn <= r && mn <= g && mn <= b);
    let d = mx - mn;
    let sum = mx + mn;
    // Beyond twenty steps the shift always reaches the clamp.
    let k: i64 = if index > 20 {
        20
    } else {
        index as i64
    };
    let ln: i64 = if sum < 255 {
        if 2 * sum + 51 * (2 + k) < 918 {
            2 * sum + 51 * (2 + k)
        } else {
            918
        }
    } else {
        if 2 * sum - 51 * (2 + k) > 102 {
            2 * sum - 51 * (2 + k)
        } else {
            102
        }
    };
    assert(ln == shifted_lightness(sum as int, index as int));
    if d == 0 {
        let v = round_byte(255 * ln, 1020);
        return Rgb8 { r: v, g: v, b: v };
    }
    chromatic_channels(parent, ln)
}

#[verifier::rlimit(50)]
fn chromatic_channels(parent: Rgb8, ln: i64) -> (out: Rgb8)
    requires
        max3(parent.r as int, parent.g as int, parent.b as int) != min3(parent.r as int, parent.g as int, parent.b as int),
        102 <= ln <= 918,
    ensures
        rgb_of(out) == chromatic_rgb(parent.r as int, parent.g as int, parent.b as int, ln as int),
{
    let r = parent.r as i64;
    let g = parent.g as i64;
    let b = parent.b as i64;
    let mx = max3_u8(parent.r, parent.g, parent.b) as i64;
    let mn = min3_u8(parent.r, parent.g, parent.b) as i64;
    assert(mx >= r && mx >= g && mx >= b && (mx == r || mx == g || mx == b));
    assert(mn <= r && mn <= g && mn <= b);
    let d = mx - mn;
    let sum = mx + mn;
    let ds: i64 = if sum < 255 {
        sum
    } else {
        510 - sum
    };
    assert(1 <= ds <= 255);
    let den: i64 = 1020 * ds;
    assert(0 <= ln * (ds + d) <= 918 * 510) by (nonlinear_arith)
        requires
            0 <= ln <= 918,
            0 <= ds + d <= 510,
    ;
    assert(0 <= ln * ds <= 918 * 255 && 0 <= ln * d <= 918 * 255) by (nonlinear_arith)
        requires
            0 <= ln <= 918,
            0 <= ds <= 255,
            0 <= d <= 255,
    ;
    let q_n: i64 = if ln < 510 {
        ln * (ds + d)
    } else {
        ln * ds + 1020 * d - ln * d
    };
    assert(q_n == q_scaled(ln as int, ds as int, d as int));
    let p_n: i64 = 2 * (ln * ds) - q_n;
    assert(p_n == 2 * ln * ds - q_n) by (nonlinear_arith)
        requires
            p_n == 2 * (ln * ds) - q_n,
    ;
    let hn: i64 = if mx == r {
        if g - b < 0 {
            g - b + 6 * d
        } else {
            g - b
        }
    } else if mx == g {
        b - r + 2 * d
    } else {
        r - g + 4 * d
    };
    assert(hn == hue_numerator(r as int, g as int, b as int));
    assert(0 <= hn <= 6 * d);
    assert(1020 <= den * d <= 260100 * 255) by (nonlinear_arith)
        requires
            1020 <= den <= 260100,
            1 <= d <= 255,
    ;
    let dd = den * d;
    assert(dd == 1020 * ds * d) by (nonlinear_arith)
        requires
            den == 1020 * ds,
            dd == den * d,
    ;
    let vr = sector(p_n, q_n, hn + 2 * d, d);
    let vg = sector(p_n, q_n, hn, d);
    let vb = sector(p_n, q_n, hn - 2 * d, d);
    let out = Rgb8 { r: round_byte(255 * vr, dd), g: round_byte(255 * vg, dd), b: round_byte(255 * vb, dd) };
    assert(ds == chroma_den(sum as int));
    out
}

/// The colour of a worktree instance: the parent colour (CSS hex, parsed
/// as `parse_hex_color` does) with its HSL lightness moved towards the
/// middle by `0.10 + 0.05 * index`, clamped to `[0.1, 0.9]`, written as
/// `#RRGGBB` in upper case. The arithmetic is exact and channels round
/// half up.
pub fn worktree_color_variant(parent_hex: &str, index: usize) -> (out: String)
    requires
        hex_slices_ok(parent_hex.spec_bytes()),
    ensures
        ({
            let (pr, pg, pb) = parsed_hex(parent_hex.spec_bytes());
            let (r, g, b) = variant_rgb(pr, pg, pb, index as int);
            out@ == hex_color_string(r, g, b)
        }),
{
    let parent = parse_hex_color(parent_hex);
    let c = variant_channels(parent, index);
    hex_string_of(c)
}

/// A colour written as `#RRGGBB` in upper-case hexadecimal.
pub fn hex_string_of(c: Rgb8) -> (out: String)
    ensures
        out@ == hex_color_string(c.r as int, c.g as int, c.b as int),
{
    let mut out = String::new();
    push_char(&mut out, '#');
    push_char(&mut out, upper_hex_digit(c.r / 16));
    push_char(&mut out, upper_hex_digit(c.r % 16));
    push_char(&mut out, upper_hex_digit(c.g / 16));
    push_char(&mut out, upper_hex_digit(c.g % 16));
    push_char(&mut out, upper_hex_digit(c.b / 16));
    push_char(&mut out, upper_hex_digit(c.b % 16));
    assert(out@ =~= hex_color_string(c.r as int, c.g as int, c.b as int));
    out
}


proof fn lemma_hex_char(n: int)
    requires
        0 <= n < 16,
    ensures
        '\0' <= hex_char(n) <= '\u{7f}',
        hex_char(n) as u8 != 35u8,
        hex_char(n) as u8 != 43u8,
        hex_digit_value(hex_char(n) as u8) == Some(n),
{
    if n < 10 {
        assert(hex_char(n) as u8 == 48 + n);
    } else {
        assert(hex_char(n) as u8 == 55 + n);
    }
}

/// A colour written as `#RRGGBB` reads back as the same three channels.
pub proof fn law_hex_roundtrip(r: int, g: int, b: int)
    requires
        0 <= r < 256,
        0 <= g < 256,
        0 <= b < 256,
    ensures
        hex_slices_ok(encode_utf8(hex_color_string(r, g, b))),
        parsed_hex(encode_utf8(hex_color_string(r, g, b))) == (r, g, b),
{
    let s = hex_color_string(r, g, b);
    lemma_hex_char(r / 16);
    lemma_hex_char(r % 16);
    lemma_hex_char(g / 16);
    lemma_hex_char(g % 16);
    lemma_hex_char(b / 16);
    lemma_hex_char(b % 16);
    assert(is_ascii_chars(s));
    is_ascii_chars_encode_utf8(s);
    let bytes = encode_utf8(s);
    assert(bytes[0] == 35u8) by {
        assert(s[0] as u8 == bytes[0]);
    }
    let t = bytes.drop_first();
    assert(t.len() == 6);
    assert forall|i: int| 0 <= i < 6 implies #[trigger] t[i] == s[i + 1] as u8 by {
        assert(s[i + 1] as u8 == bytes[i + 1]);
    }
    assert(trim_hashes(t) == t) by {
        assert(t[0] == s[1] as u8);
    }
    assert(trim_hashes(bytes) == t);
    assert(t[0] != 43u8 && t[2] != 43u8 && t[4] != 43u8);
    assert(16 * (r / 16) + r % 16 == r);
    assert(16 * (g / 16) + g % 16 == g);
    assert(16 * (b / 16) + b % 16 == b);
}

/// The worktree colour of a grey is a grey moved towards the middle:
/// lighter than a dark grey, darker than a light one, and within
/// `26 ..= 230`.
pub proof fn law_grey_variant(v: int, index: int)
    requires
        0 <= v < 256,
        0 <= index,
    ensures
        ({
            let (r, g, b) = variant_rgb(v, v, v, index);
            &&& r == g && g == b
            &&& 26 <= r <= 230
            &&& v < 128 ==> r > v
            &&& v >= 128 ==> r < v
        }),
{
    let ln = shifted_lightness(2 * v, index);
    assert(102 <= ln <= 918);
    assert(round_to_byte(255 * ln, 1020) == (ln + 2) / 4) by {
        assert((2 * (255 * ln) + 1020) / 2040int == (ln + 2) / 4);
    }
}

/// Later positions move a grey no less far: lighter and lighter for a
/// dark grey, darker and darker for a light one (until the clamp).
pub proof fn law_grey_variant_monotone(v: int, i: int, j: int)
    requires
        0 <= v < 256,
        0 <= i <= j,
    ensures
        v < 128 ==> variant_rgb(v, v, v, i).0 <= variant_rgb(v, v, v, j).0,
        v >= 128 ==> variant_rgb(v, v, v, i).0 >= variant_rgb(v, v, v, j).0,
{
    let li = shifted_lightness(2 * v, i);
    let lj = shifted_lightness(2 * v, j);
    assert(round_to_byte(255 * li, 1020) == (li + 2) / 4) by {
        assert((2 * (255 * li) + 1020) / 2040int == (li + 2) / 4);
    }
    assert(round_to_byte(255 * lj, 1020) == (lj + 2) / 4) by {
        assert((2 * (255 * lj) + 1020) / 2040int == (lj + 2) / 4);
    }
    if v < 128 {
        assert(li <= lj);
    } else {
        assert(li >= lj);
    }
}

/// Rounding `num / den` to a byte lands within half a step of it.
proof fn lemma_round_within_half(num: int, den: int)
    requires
        den > 0,
        0 <= num <= 255 * den,
    ensures
        2 * num - den < 2 * den * round_to_byte(num, den),
        2 * den * round_to_byte(num, den) <= 2 * num + den,
{
    let x = 2 * num + den;
    let m = 2 * den;
    vstd::arithmetic::div_mod::lemma_fundamental_div_mod(x, m);
    vstd::arithmetic::div_mod::lemma_mod_pos_bound(x, m);
    let v = x / m;
    assert(m * v <= x);
    assert(x < 256 * m);
    assert(v <= 255) by (nonlinear_arith)
        requires
            m * v <= x,
            x < 256 * m,
            m > 0,
    ;
    assert(round_to_byte(num, den) == v);
}

/// Rounding to a byte keeps the order.
proof fn lemma_round_monotone(a: int, b: int, den: int)
    requires
        den > 0,
        0 <= a <= b <= 255 * den,
    ensures
        round_to_byte(a, den) <= round_to_byte(b, den),
{
    lemma_round_within_half(a, den);
    lemma_round_within_half(b, den);
    let ra = round_to_byte(a, den);
    let rb = round_to_byte(b, den);
    assert(ra <= rb) by (nonlinear_arith)
        requires
            2 * den * ra <= 2 * a + den,
            2 * b - den < 2 * den * rb,
            a <= b,
            den > 0,
    ;
}

/// HSL's `p` and `q`, scaled by `1020 * ds`, lie in order within one unit.
proof fn lemma_p_q_bounds(ln: int, ds: int, d: int)
    requires
        102 <= ln <= 918,
        0 < d <= ds,
    ensures
        0 <= 2 * ln * ds - q_scaled(ln, ds, d),
        2 * ln * ds - q_scaled(ln, ds, d) <= q_scaled(ln, ds, d),
        q_scaled(ln, ds, d) <= 1020 * ds,
{
    if ln < 510 {
        assert(0 <= 2 * ln * ds - ln * (ds + d) <= ln * (ds + d) <= 1020 * ds) by (nonlinear_arith)
            requires
                102 <= ln < 510,
                0 < d <= ds,
        ;
    } else {
        assert(0 <= 2 * ln * ds - (ln * ds + 1020 * d - ln * d) <= ln * ds + 1020 * d - ln * d <= 1020 * ds)
            by (nonlinear_arith)
            requires
                510 <= ln <= 918,
                0 < d <= ds,
        ;
    }
}

/// A channel of the HSL conversion lies between `p` and `q`.
proof fn lemma_sector_bounds(p: int, q: int, tn: int, d: int)
    requires
        0 <= p <= q,
        d > 0,
        -2 * d <= tn < 8 * d,
    ensures
        p * d <= sector_value(p, q, tn, d) <= q * d,
{
    let t = wrap_turn(tn, d);
    assert(0 <= t <= 6 * d);
    assert(p * d + (q - p) * d == q * d) by (nonlinear_arith);
    if t < d {
        assert(0 <= (q - p) * t <= (q - p) * d) by (nonlinear_arith)
            requires
                0 <= t < d,
                p <= q,
        ;
    } else if t < 3 * d {
    } else if t < 4 * d {
        assert(0 <= (q - p) * (4 * d - t) <= (q - p) * d) by (nonlinear_arith)
            requires
                3 * d <= t < 4 * d,
                p <= q,
        ;
    }
}

/// Of the three channels, spaced a third of a turn apart, one is at `q`
/// and one at `p`.
proof fn lemma_sector_hits(p: int, q: int, hn: int, d: int)
    requires
        d > 0,
        0 <= hn < 6 * d,
    ensures
        sector_value(p, q, hn + 2 * d, d) == q * d || sector_value(p, q, hn, d) == q * d
            || sector_value(p, q, hn - 2 * d, d) == q * d,
        sector_value(p, q, hn + 2 * d, d) == p * d || sector_value(p, q, hn, d) == p * d
            || sector_value(p, q, hn - 2 * d, d) == p * d,
{
}

/// The hue of a non-grey colour lies within one turn.
proof fn lemma_hue_range(r: int, g: int, b: int)
    requires
        max3(r, g, b) > min3(r, g, b),
    ensures
        0 <= hue_numerator(r, g, b) < 6 * (max3(r, g, b) - min3(r, g, b)),
{
}

/// The worktree colour of a colour that is not a grey keeps the lightness
/// it was shifted to: the mean of its largest and smallest channel, as a
/// lightness, lies within half a step (1/510) of
/// `shifted_lightness / 1020`.
pub proof fn law_variant_lightness(r: int, g: int, b: int, index: int)
    requires
        0 <= r < 256,
        0 <= g < 256,
        0 <= b < 256,
        0 <= index,
        max3(r, g, b) != min3(r, g, b),
    ensures
        ({
            let (vr, vg, vb) = variant_rgb(r, g, b, index);
            let target = shifted_lightness(max3(r, g, b) + min3(r, g, b), index);
            -2 <= 2 * (max3(vr, vg, vb) + min3(vr, vg, vb)) - target <= 2
        }),
{
    let mx = max3(r, g, b);
    let mn = min3(r, g, b);
    let d = mx - mn;
    let ln = shifted_lightness(mx + mn, index);
    let ds = chroma_den(mx + mn);
    let q = q_scaled(ln, ds, d);
    let p = 2 * ln * ds - q;
    let hn = hue_numerator(r, g, b);
    let k = ds * d;
    let den = 1020 * ds * d;
    assert(102 <= ln <= 918);
    assert(0 < d <= ds);
    lemma_p_q_bounds(ln, ds, d);
    lemma_hue_range(r, g, b);
    assert(k > 0 && den == 1020 * k) by (nonlinear_arith)
        requires
            0 < d <= ds,
            k == ds * d,
            den == 1020 * ds * d,
    ;
    let sr = sector_value(p, q, hn + 2 * d, d);
    let sg = sector_value(p, q, hn, d);
    let sb = sector_value(p, q, hn - 2 * d, d);
    lemma_sector_bounds(p, q, hn + 2 * d, d);
    lemma_sector_bounds(p, q, hn, d);
    lemma_sector_bounds(p, q, hn - 2 * d, d);
    lemma_sector_hits(p, q, hn, d);
    let lo = 255 * (p * d);
    let hi = 255 * (q * d);
    assert(0 <= lo && hi <= 255 * den) by (nonlinear_arith)
        requires
            0 <= p,
            q <= 1020 * ds,
            d > 0,
            den == 1020 * ds * d,
            lo == 255 * (p * d),
            hi == 255 * (q * d),
    ;
    let vr = round_to_byte(255 * sr, den);
    let vg = round_to_byte(255 * sg, den);
    let vb = round_to_byte(255 * sb, den);
    assert(variant_rgb(r, g, b, index) == (vr, vg, vb));
    let top = round_to_byte(hi, den);
    let bottom = round_to_byte(lo, den);
    lemma_round_monotone(lo, 255 * sr, den);
    lemma_round_monotone(lo, 255 * sg, den);
    lemma_round_monotone(lo, 255 * sb, den);
    lemma_round_monotone(255 * sr, hi, den);
    lemma_round_monotone(255 * sg, hi, den);
    lemma_round_monotone(255 * sb, hi, den);
    assert(max3(vr, vg, vb) == top);
    assert(min3(vr, vg, vb) == bottom);
    lemma_round_within_half(hi, den);
    lemma_round_within_half(lo, den);
    assert(hi + lo == 510 * ln * k) by (nonlinear_arith)
        requires
            hi == 255 * (q * d),
            lo == 255 * (p * d),
            p == 2 * ln * ds - q,
            k == ds * d,
    ;
    assert(-2 <= 2 * (top + bottom) - ln <= 2) by (nonlinear_arith)
        requires
            k > 0,
            den == 1020 * k,
            2 * hi - den < 2 * den * top,
            2 * den * top <= 2 * hi + den,
            2 * lo - den < 2 * den * bottom,
            2 * den * bottom <= 2 * lo + den,
            hi + lo == 510 * ln * k,
    ;
}

/// In the HSL conversion, a channel that was the parent's largest comes
/// out at `q` and one that was its smallest at `p`.
proof fn lemma_sector_extremes(r: int, g: int, b: int, p: int, q: int)
    requires
        max3(r, g, b) > min3(r, g, b),
    ensures
        ({
            let d = max3(r, g, b) - min3(r, g, b);
            let hn = hue_numerator(r, g, b);
            &&& r == max3(r, g, b) ==> sector_value(p, q, hn + 2 * d, d) == q * d
            &&& g == max3(r, g, b) ==> sector_value(p, q, hn, d) == q * d
            &&& b == max3(r, g, b) ==> sector_value(p, q, hn - 2 * d, d) == q * d
            &&& r == min3(r, g, b) ==> sector_value(p, q, hn + 2 * d, d) == p * d
            &&& g == min3(r, g, b) ==> sector_value(p, q, hn, d) == p * d
            &&& b == min3(r, g, b) ==> sector_value(p, q, hn - 2 * d, d) == p * d
        }),
{
    let d = max3(r, g, b) - min3(r, g, b);
    assert(p * d + (q - p) * d == q * d) by (nonlinear_arith);
    assert((q - p) * 0 == 0);
}

/// The worktree colour keeps the parent's hue: its channels keep the
/// parent's order, so a channel larger than another in the parent is at
/// least as large in the variant.
pub proof fn law_variant_keeps_channel_order(r: int, g: int, b: int, index: int)
    requires
        0 <= r < 256,
        0 <= g < 256,
        0 <= b < 256,
        0 <= index,
    ensures
        ({
            let (vr, vg, vb) = variant_rgb(r, g, b, index);
            &&& r > g ==> vr >= vg
            &&& g > r ==> vg >= vr
            &&& r > b ==> vr >= vb
            &&& b > r ==> vb >= vr
            &&& g > b ==> vg >= vb
            &&& b > g ==> vb >= vg
        }),
{
    let mx = max3(r, g, b);
    let mn = min3(r, g, b);
    if mx == mn {
        return;
    }
    let d = mx - mn;
    let ln = shifted_lightness(mx + mn, index);
    let ds = chroma_den(mx + mn);
    let q = q_scaled(ln, ds, d);
    let p = 2 * ln * ds - q;
    let hn = hue_numerator(r, g, b);
    let den = 1020 * ds * d;
    assert(102 <= ln <= 918);
    assert(0 < d <= ds);
    lemma_p_q_bounds(ln, ds, d);
    lemma_hue_range(r, g, b);
    assert(den > 0) by (nonlinear_arith)
        requires
            0 < d <= ds,
            den == 1020 * ds * d,
    ;
    let sr = sector_value(p, q, hn + 2 * d, d);
    let sg = sector_value(p, q, hn, d);
    let sb = sector_value(p, q, hn - 2 * d, d);
    lemma_sector_bounds(p, q, hn + 2 * d, d);
    lemma_sector_bounds(p, q, hn, d);
    lemma_sector_bounds(p, q, hn - 2 * d, d);
    lemma_sector_extremes(r, g, b, p, q);
    assert(0 <= 255 * (p * d) && 255 * (q * d) <= 255 * den) by (nonlinear_arith)
        requires
            0 <= p,
            q <= 1020 * ds,
            d > 0,
            den == 1020 * ds * d,
    ;
    assert(variant_rgb(r, g, b, index) == (
        round_to_byte(255 * sr, den),
        round_to_byte(255 * sg, den),
        round_to_byte(255 * sb, den),
    ));
    // A channel above another is not the smallest, the other not the
    // largest: one of the two sits at an end of `p ..= q`.
    if r > g {
        lemma_round_monotone(255 * sg, 255 * sr, den);
    }
    if g > r {
        lemma_round_monotone(255 * sr, 255 * sg, den);
    }
    if r > b {
        lemma_round_monotone(255 * sb, 255 * sr, den);
    }
    if b > r {
        lemma_round_monotone(255 * sr, 255 * sb, den);
    }
    if g > b {
        lemma_round_monotone(255 * sb, 255 * sg, den);
    }
    if b > g {
        lemma_round_monotone(255 * sg, 255 * sb, den);
    }
}

} // verus!
