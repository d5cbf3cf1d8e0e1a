use conescope::colors::{
    hex_string_of, parse_hex_color, status_color, variant_channels, worktree_color_variant, InstanceStatus, Rgb8,
};

/// The channels of a parsed colour as fractions of 255.
fn fractions(hex: &str) -> (f32, f32, f32, f32) {
    let c = parse_hex_color(hex);
    (f32::from(c.r) / 255.0, f32::from(c.g) / 255.0, f32::from(c.b) / 255.0, 1.0)
}

#[test]
fn hex_to_rgba_parses_6_digit() {
    let (r, g, b, a) = fractions("#FF0000");
    assert!((r - 1.0).abs() < 0.01);
    assert!(g.abs() < 0.01);
    assert!(b.abs() < 0.01);
    assert!((a - 1.0).abs() < 0.01);
}

#[test]
fn hex_to_rgba_parses_without_hash() {
    let (r, g, _, _) = fractions("00FF00");
    assert!(r.abs() < 0.01);
    assert!((g - 1.0).abs() < 0.01);
}

#[test]
fn hex_to_rgba_parses_3_digit() {
    let (r, g, _, _) = fractions("#F00");
    assert!((r - 1.0).abs() < 0.01);
    assert!(g.abs() < 0.01);
}

#[test]
fn status_color_returns_valid_colors() {
    let c = status_color(InstanceStatus::Working);
    assert!(f32::from(c.r) / 255.0 > 0.0);
}

#[test]
fn worktree_color_variant_returns_valid_hex() {
    let variant = worktree_color_variant("#4FC3F7", 0);
    assert!(variant.starts_with('#'));
    assert_eq!(variant.len(), 7);
    let (r, g, b, _) = fractions(&variant);
    assert!(r >= 0.0 && r <= 1.0);
    assert!(g >= 0.0 && g <= 1.0);
    assert!(b >= 0.0 && b <= 1.0);
}

#[test]
fn worktree_color_variant_differs_from_parent() {
    let parent = "#4FC3F7";
    let variant = worktree_color_variant(parent, 0);
    assert_ne!(variant.to_uppercase(), parent.to_uppercase());
}

#[test]
fn worktree_color_variant_differs_by_index() {
    let v0 = worktree_color_variant("#FF5722", 0);
    let v1 = worktree_color_variant("#FF5722", 1);
    let v2 = worktree_color_variant("#FF5722", 2);
    assert_ne!(v0, v1);
    assert_ne!(v1, v2);
}

#[test]
fn worktree_color_variant_handles_grayscale() {
    let variant = worktree_color_variant("#808080", 0);
    assert!(variant.starts_with('#'));
    assert_eq!(variant.len(), 7);
}

#[test]
fn status_colors_are_the_documented_ones() {
    let pairs = [
        (InstanceStatus::Working, (0x81, 0xC7, 0x84)),
        (InstanceStatus::Waiting, (0xFF, 0xB7, 0x4D)),
        (InstanceStatus::Paused, (0x90, 0xA4, 0xAE)),
        (InstanceStatus::Starting, (0x64, 0xB5, 0xF6)),
        (InstanceStatus::Stopped, (0x66, 0x66, 0x66)),
    ];
    for (s, (r, g, b)) in pairs {
        let c = status_color(s);
        assert_eq!((c.r, c.g, c.b), (r, g, b));
    }
}

#[test]
fn parse_hex_handles_bad_digits_and_lengths() {
    let c = parse_hex_color("#GG0011");
    assert_eq!((c.r, c.g, c.b), (128, 0, 17));
    let c = parse_hex_color("#G0A");
    assert_eq!((c.r, c.g, c.b), (136, 0, 170));
    let c = parse_hex_color("#12345");
    assert_eq!((c.r, c.g, c.b), (128, 128, 128));
    let c = parse_hex_color("");
    assert_eq!((c.r, c.g, c.b), (128, 128, 128));
    let c = parse_hex_color("##abcdef");
    assert_eq!((c.r, c.g, c.b), (0xAB, 0xCD, 0xEF));
    // A leading plus sign before one digit is what `from_str_radix` accepts.
    let c = parse_hex_color("+F0000");
    assert_eq!((c.r, c.g, c.b), (15, 0, 0));
}

#[test]
fn worktree_variants_have_exact_values() {
    assert_eq!(worktree_color_variant("#4FC3F7", 0), "#1EB2F5");
    assert_eq!(worktree_color_variant("#4FC3F7", 1), "#0BA8EF");
    assert_eq!(worktree_color_variant("#FF5722", 0), "#EE3900");
    assert_eq!(worktree_color_variant("#FF5722", 2), "#BB2D00");
    assert_eq!(worktree_color_variant("#FF0000", 0), "#CC0000");
}

#[test]
fn grey_variants_move_towards_the_middle() {
    assert_eq!(worktree_color_variant("#808080", 0), "#676767");
    assert_eq!(worktree_color_variant("#000000", 0), "#1A1A1A");
    assert_eq!(worktree_color_variant("#FFFFFF", 0), "#E6E6E6");
    // Far indices hit the lightness clamp at 0.9 and 0.1.
    assert_eq!(worktree_color_variant("#000000", 50), "#E6E6E6");
    assert_eq!(worktree_color_variant("#FFFFFF", 50), "#1A1A1A");
    let c = variant_channels(Rgb8 { r: 10, g: 10, b: 10 }, 0);
    assert!(c.r == c.g && c.g == c.b && c.r > 10);
    let c = variant_channels(Rgb8 { r: 200, g: 200, b: 200 }, 3);
    assert!(c.r == c.g && c.g == c.b && c.r < 200);
}

#[test]
fn hex_string_round_trips() {
    for &(r, g, b) in &[(0u8, 0u8, 0u8), (255, 255, 255), (0x4F, 0xC3, 0xF7), (1, 16, 254)] {
        let s = hex_string_of(Rgb8 { r, g, b });
        assert_eq!(s.len(), 7);
        let c = parse_hex_color(&s);
        assert_eq!((c.r, c.g, c.b), (r, g, b));
    }
    assert_eq!(hex_string_of(Rgb8 { r: 0x0A, g: 0xB0, b: 0xFF }), "#0AB0FF");
}

#[test]
fn variants_keep_the_shifted_lightness() {
    for &(r, g, b) in &[(0x4Fu8, 0xC3u8, 0xF7u8), (216, 141, 189), (0, 0, 0x8C), (255, 0, 0), (0x12, 0x34, 0x56), (250, 251, 1)] {
        for index in 0..12usize {
            let c = variant_channels(Rgb8 { r, g, b }, index);
            let hi = i64::from(c.r.max(c.g).max(c.b));
            let lo = i64::from(c.r.min(c.g).min(c.b));
            let sum = i64::from(r.max(g).max(b)) + i64::from(r.min(g).min(b));
            let step = 51 * (2 + index as i64);
            let target = if sum < 255 { (2 * sum + step).min(918) } else { (2 * sum - step).max(102) };
            let gap = 2 * (hi + lo) - target;
            assert!((-2..=2).contains(&gap), "{r} {g} {b} at {index}: {gap}");
        }
    }
}
