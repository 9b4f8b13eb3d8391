use fzk::order::{sort_by_command, text_less};
use fzk::theme::{color_choice, parse_rgb, parse_u8, shade_named, strip_0x, ColorChoice, Shade};
use fzk::{parse_listing, ListingFormat};

fn chars(s: &str) -> Vec<char> {
    s.chars().collect()
}

#[test]
fn named_colors_match_in_any_case() {
    assert_eq!(color_choice("LightBlue"), Some(ColorChoice::Named(Shade::LightBlue)));
    assert_eq!(color_choice("BLUE"), Some(ColorChoice::Named(Shade::Blue)));
    assert_eq!(color_choice("darkgray"), Some(ColorChoice::Named(Shade::DarkGray)));
    // The Kelvin sign lowers to an ASCII `k`.
    assert_eq!(color_choice("blac\u{212A}"), Some(ColorChoice::Named(Shade::Black)));
    assert_eq!(shade_named("yellow"), Some(Shade::Yellow));
    assert_eq!(shade_named("Yellow"), None);
    assert_eq!(shade_named("purple"), None);
}

#[test]
fn rgb_settings_read_decimal_and_hex() {
    assert_eq!(color_choice("0xff,0xff,0xff"), Some(ColorChoice::Rgb(255, 255, 255)));
    assert_eq!(color_choice("255,255,255"), Some(ColorChoice::Rgb(255, 255, 255)));
    assert_eq!(parse_rgb("0x12,18,0x1"), Some((18, 18, 1)));
    assert_eq!(parse_rgb("300,2,zz"), Some((0, 2, 0)));
    assert_eq!(parse_rgb("0x0x1f,+7,"), Some((31, 7, 0)));
    assert_eq!(parse_rgb("1,2"), None);
    assert_eq!(parse_rgb("1,2,3,4"), None);
    assert_eq!(color_choice(""), None);
    assert_eq!(color_choice("purple"), None);
}

#[test]
fn byte_parsing_follows_from_str_radix() {
    assert_eq!(parse_u8(&chars("ff"), 16), Some(255));
    assert_eq!(parse_u8(&chars("FF"), 16), Some(255));
    assert_eq!(parse_u8(&chars("100"), 16), None);
    assert_eq!(parse_u8(&chars("256"), 10), None);
    assert_eq!(parse_u8(&chars("+9"), 10), Some(9));
    assert_eq!(parse_u8(&chars("a"), 10), None);
    assert_eq!(parse_u8(&chars(""), 10), None);
    assert_eq!(strip_0x(&chars("0x0xab0x")), chars("ab"));
    assert_eq!(strip_0x(&chars("00xx")), chars("0x"));
}

#[test]
fn whole_snapshot_is_shown_by_command() {
    let text = "COMMAND PID %MEM %CPU\nzsh 1 0 0\nbash 2 0 0\nBash 3 0 0\nbash 4 0 0\nawk 5 0 0\n";
    let mut ps = parse_listing(ListingFormat::Posix, text);
    sort_by_command(&mut ps);
    let order: Vec<(String, u64)> = ps.iter().map(|p| (p.get_command().to_string(), p.get_pid())).collect();
    let mut expected: Vec<(String, u64)> = parse_listing(ListingFormat::Posix, text)
        .iter()
        .map(|p| (p.get_command().to_string(), p.get_pid()))
        .collect();
    expected.sort_by(|a, b| a.0.cmp(&b.0));
    assert_eq!(order, expected);
    assert_eq!(order[0].0, "Bash");
    assert_eq!(order[4].0, "zsh");
}

#[test]
fn text_order_is_lexicographic() {
    assert!(text_less(&chars("ab"), &chars("b")));
    assert!(text_less(&chars("a"), &chars("ab")));
    assert!(!text_less(&chars("ab"), &chars("ab")));
    assert!(!text_less(&chars("b"), &chars("ab")));
    assert!(text_less(&chars(""), &chars("a")));
    assert!(text_less(&chars("z"), &chars("é")));
}
