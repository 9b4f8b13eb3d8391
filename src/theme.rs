//! Colour settings: a setting names one of the terminal's sixteen colours
//! (in any case), or gives red, green and blue as three comma-separated
//! numbers, each decimal or, after `0x`, hexadecimal.
use vstd::prelude::*;
use crate::find::{first_index, lemma_first_index, lemma_first_index_at, text_is};
use crate::text::{chars_of, pieces, same_chars, split_pieces, unsigned_body};

verus! {

/// One of the terminal's sixteen named colours.
#[derive(Clone, Copy, Debug, PartialEq, Eq, Structural)]
pub enum Shade {
    Black,
    Blue,
    Cyan,
    DarkGray,
    Gray,
    Green,
    LightBlue,
    LightCyan,
    LightGreen,
    LightMagenta,
    LightRed,
    LightYellow,
    Magenta,
    Red,
    White,
    Yellow,
}

/// The colour that a setting chooses.
#[derive(Clone, Copy, Debug, PartialEq, Eq, Structural)]
pub enum ColorChoice {
    Named(Shade),
    Rgb(u8, u8, u8),
}

/// The name of a shade as the terminal library prints it, in lower case.
pub open spec fn shade_name(s: Shade) -> Seq<char> {
    match s {
        Shade::Black => seq!['b', 'l', 'a', 'c', 'k'],
        Shade::Blue => seq!['b', 'l', 'u', 'e'],
        Shade::Cyan => seq!['c', 'y', 'a', 'n'],
        Shade::DarkGray => seq!['d', 'a', 'r', 'k', 'g', 'r', 'a', 'y'],
        Shade::Gray => seq!['g', 'r', 'a', 'y'],
        Shade::Green => seq!['g', 'r', 'e', 'e', 'n'],
        Shade::LightBlue => seq!['l', 'i', 'g', 'h', 't', 'b', 'l', 'u', 'e'],
        Shade::LightCyan => seq!['l', 'i', 'g', 'h', 't', 'c', 'y', 'a', 'n'],
        Shade::LightGreen => seq!['l', 'i', 'g', 'h', 't', 'g', 'r', 'e', 'e', 'n'],
        Shade::LightMagenta => seq!['l', 'i', 'g', 'h', 't', 'm', 'a', 'g', 'e', 'n', 't', 'a'],
        Shade::LightRed => seq!['l', 'i', 'g', 'h', 't', 'r', 'e', 'd'],
        Shade::LightYellow => seq!['l', 'i', 'g', 'h', 't', 'y', 'e', 'l', 'l', 'o', 'w'],
        Shade::Magenta => seq!['m', 'a', 'g', 'e', 'n', 't', 'a'],
        Shade::Red => seq!['r', 'e', 'd'],
        Shade::White => seq!['w', 'h', 'i', 't', 'e'],
        Shade::Yellow => seq!['y', 'e', 'l', 'l', 'o', 'w'],
    }
}

/// The lower-case form that `str::to_lowercase` gives `s`.
pub uninterp spec fn lower_of(s: Seq<char>) -> Seq<char>;

/// Relies on `str::to_lowercase`: the lower-case form of `s`, which depends
/// on its characters alone.
#[verifier::external_body]
fn lowercase(s: &str) -> (r: String)
    ensures
        r@ == lower_of(s@),
{
    s.to_lowercase()
}

/// The value of `c` as a digit in base `radix` (at most 36), as
/// `char::to_digit` reads it.
pub open spec fn digit_in(c: char, radix: nat) -> Option<nat> {
    let v: int = if '0' <= c && c <= '9' {
        c as int - '0' as int
    } else if 'a' <= c && c <= 'z' {
        c as int - 'a' as int + 10
    } else if 'A' <= c && c <= 'Z' {
        c as int - 'A' as int + 10
    } else {
        36
    };
    if v < radix {
        Some(v as nat)
    } else {
        None
    }
}

pub open spec fn radix_value(s: Seq<char>, radix: nat) -> nat
    decreases s.len(),
{
    if s.len() == 0 {
        0
    } else {
        radix * radix_value(s.drop_last(), radix) + digit_in(s.last(), radix)->0
    }
}

/// The byte that `u8::from_str_radix(s, radix)` reads: an optional plus sign
/// and at least one digit of the base, of a value below 256.
pub open spec fn parse_u8_spec(s: Seq<char>, radix: nat) -> Option<u8> {
    let d = unsigned_body(s);
    if d.len() > 0 && (forall|i: int| 0 <= i < d.len() ==> (#[trigger] digit_in(d[i], radix)) is Some)
        && radix_value(d, radix) <= 255 {
        Some(radix_value(d, radix) as u8)
    } else {
        None
    }
}

/// `s` with every `0x` taken out, scanning from the left as `str::replace`
/// does.
pub open spec fn without_0x(s: Seq<char>) -> Seq<char>
    decreases s.len(),
{
    if s.len() >= 2 && s[0] == '0' && s[1] == 'x' {
        without_0x(s.skip(2))
    } else if s.len() == 0 {
        s
    } else {
        seq![s[0]] + without_0x(s.drop_first())
    }
}

/// One component of an RGB setting: hexadecimal after a leading `0x`,
/// decimal otherwise; 0 where it does not read.
pub open spec fn component(p: Seq<char>) -> u8 {
    let read = if p.len() >= 2 && p[0] == '0' && p[1] == 'x' {
        parse_u8_spec(without_0x(p), 16)
    } else {
        parse_u8_spec(p, 10)
    };
    match read {
        Some(v) => v,
        None => 0,
    }
}

/// The RGB colour of a setting made of exactly three comma-separated parts.
pub open spec fn rgb_spec(s: Seq<char>) -> Option<(u8, u8, u8)> {
    let ps = pieces(s, ',');
    if ps.len() == 3 {
        Some((component(ps[0]), component(ps[1]), component(ps[2])))
    } else {
        None
    }
}

/// The sixteen shades, in the order in which a setting is matched against
/// their names.
pub open spec fn palette() -> Seq<Shade> {
    seq![
        Shade::Black,
        Shade::Blue,
        Shade::Cyan,
        Shade::DarkGray,
        Shade::Gray,
        Shade::Green,
        Shade::LightBlue,
        Shade::LightCyan,
        Shade::LightGreen,
        Shade::LightMagenta,
        Shade::LightRed,
        Shade::LightYellow,
        Shade::Magenta,
        Shade::Red,
        Shade::White,
        Shade::Yellow,
    ]
}

pub open spec fn palette_names() -> Seq<Seq<char>> {
    palette().map_values(|s: Shade| shade_name(s))
}

/// The first shade of the palette whose name is `lowered`.
pub open spec fn shade_named_spec(lowered: Seq<char>) -> Option<Shade> {
    match first_index(palette_names(), text_is(lowered)) {
        Some(i) => Some(palette()[i]),
        None => None,
    }
}

/// The colour a setting chooses: the shade named by its lower-case form,
/// else the RGB colour it gives; `None` where it does neither.
pub open spec fn color_choice_spec(setting: Seq<char>) -> Option<ColorChoice> {
    match shade_named_spec(lower_of(setting)) {
        Some(s) => Some(ColorChoice::Named(s)),
        None => match rgb_spec(setting) {
            Some((r, g, b)) => Some(ColorChoice::Rgb(r, g, b)),
            None => None,
        },
    }
}

fn digit_of(c: char, radix: u32) -> (r: Option<u32>)
    requires
        radix <= 36,
    ensures
        match digit_in(c, radix as nat) {
            Some(v) => r == Some(v as u32),
            None => r is None,
        },
{
    let v: u32 = if '0' <= c && c <= '9' {
        c as u32 - '0' as u32
    } else if 'a' <= c && c <= 'z' {
        c as u32 - 'a' as u32 + 10
    } else if 'A' <= c && c <= 'Z' {
        c as u32 - 'A' as u32 + 10
    } else {
        36
    };
    if v < radix {
        Some(v)
    } else {
        None
    }
}

proof fn lemma_radix_value_grows(s: Seq<char>, radix: nat, i: int)
    requires
        0 <= i <= s.len(),
        radix >= 1,
    ensures
        radix_value(s.take(i), radix) <= radix_value(s, radix),
    decreases s.len() - i,
{
    if i < s.len() {
        lemma_radix_value_grows(s, radix, i + 1);
        assert(s.take(i + 1).drop_last() == s.take(i));
        let v = radix_value(s.take(i), radix);
        assert(v <= radix * v) by (nonlinear_arith)
            requires
                radix >= 1,
        ;
    } else {
        assert(s.take(i) == s);
    }
}

/// Reads a byte written in base `radix`, as `u8::from_str_radix` does.
pub fn parse_u8(s: &Vec<char>, radix: u32) -> (r: Option<u8>)
    requires
        2 <= radix <= 36,
    ensures
        r == parse_u8_spec(s@, radix as nat),
{
    let start: usize = if s.len() > 0 && s[0] == '+' { 1 } else { 0 };
    let ghost d = unsigned_body(s@);
    assert(d == s@.subrange(start as int, s@.len() as int));
    if start >= s.len() {
        return None;
    }
    let mut v: u32 = 0;
    let mut i: usize = start;
    while i < s.len()
        invariant
            2 <= radix <= 36,
            start <= i <= s.len(),
            d == unsigned_body(s@),
            d == s@.subrange(start as int, s@.len() as int),
            forall|j: int| 0 <= j < i - start ==> (#[trigger] digit_in(d[j], radix as nat)) is Some,
            v as nat == radix_value(d.take(i - start), radix as nat),
            v <= 255,
        decreases s.len() - i,
    {
        let ghost k = i - start;
        assert(d.take(k + 1).drop_last() == d.take(k));
        assert(d.take(k + 1).last() == d[k]);
        let c = s[i];
        assert(d[k] == c);
        let dv = match digit_of(c, radix) {
            Some(x) => x,
            None => {
                return None;
            },
        };
        assert(v * radix + dv <= 255 * 36 + 36) by (nonlinear_arith)
            requires
                v <= 255,
                radix <= 36,
                dv < radix,
        ;
        let next: u32 = v * radix + dv;
        assert(digit_in(d.take(k + 1).last(), radix as nat) == Some(dv as nat));
        assert((v * radix) as nat == (radix as nat) * (v as nat)) by (nonlinear_arith);
        assert(next as nat == radix_value(d.take(k + 1), radix as nat));
        if next > 255 {
            proof {
                lemma_radix_value_grows(d, radix as nat, k + 1);
            }
            return None;
        }
        v = next;
        i = i + 1;
    }
    assert(d.take(s.len() - start) == d);
    Some(v as u8)
}

/// Takes every `0x` out of `s`, scanning from the left.
pub fn strip_0x(s: &Vec<char>) -> (r: Vec<char>)
    ensures
        r@ == without_0x(s@),
{
    let mut out: Vec<char> = Vec::new();
    let mut i: usize = 0;
    assert(s@.skip(0) =~= s@);
    assert(out@ + without_0x(s@) =~= without_0x(s@));
    while i < s.len()
        invariant
            i <= s.len(),
            without_0x(s@) == out@ + without_0x(s@.skip(i as int)),
        decreases s.len() - i,
    {
        let ghost rest = s@.skip(i as int);
        if i + 1 < s.len() && s[i] == '0' && s[i + 1] == 'x' {
            assert(rest.skip(2) =~= s@.skip(i + 2));
            i = i + 2;
        } else {
            assert(rest.drop_first() =~= s@.skip(i + 1));
            let ghost before = out@;
            out.push(s[i]);
            assert(before + (seq![rest[0]] + without_0x(rest.drop_first())) =~= out@ + without_0x(
                s@.skip(i + 1),
            ));
            i = i + 1;
        }
    }
    assert(s@.skip(i as int) =~= Seq::<char>::empty());
    assert(out@ + Seq::<char>::empty() =~= out@);
    out
}

fn component_of(p: &Vec<char>) -> (r: u8)
    ensures
        r == component(p@),
{
    let read = if p.len() >= 2 && p[0] == '0' && p[1] == 'x' {
        parse_u8(&strip_0x(p), 16)
    } else {
        parse_u8(p, 10)
    };
    match read {
        Some(v) => v,
        None => 0,
    }
}

/// Reads an RGB setting: three comma-separated components.
pub fn parse_rgb(setting: &str) -> (r: Option<(u8, u8, u8)>)
    ensures
        r == rgb_spec(setting@),
{
    let ps = split_pieces(&chars_of(setting), ',');
    let ghost pv = ps@.map_values(|p: Vec<char>| p@);
    if ps.len() == 3 {
        assert(pv[0] == ps@[0]@ && pv[1] == ps@[1]@ && pv[2] == ps@[2]@);
        Some((component_of(&ps[0]), component_of(&ps[1]), component_of(&ps[2])))
    } else {
        None
    }
}


fn name_chars(s: Shade) -> (r: Vec<char>)
    ensures
        r@ == shade_name(s),
{
    let r = match s {
        Shade::Black => vec!['b', 'l', 'a', 'c', 'k'],
        Shade::Blue => vec!['b', 'l', 'u', 'e'],
        Shade::Cyan => vec!['c', 'y', 'a', 'n'],
        Shade::DarkGray => vec!['d', 'a', 'r', 'k', 'g', 'r', 'a', 'y'],
        Shade::Gray => vec!['g', 'r', 'a', 'y'],
        Shade::Green => vec!['g', 'r', 'e', 'e', 'n'],
        Shade::LightBlue => vec!['l', 'i', 'g', 'h', 't', 'b', 'l', 'u', 'e'],
        Shade::LightCyan => vec!['l', 'i', 'g', 'h', 't', 'c', 'y', 'a', 'n'],
        Shade::LightGreen => vec!['l', 'i', 'g', 'h', 't', 'g', 'r', 'e', 'e', 'n'],
        Shade::LightMagenta => vec!['l', 'i', 'g', 'h', 't', 'm', 'a', 'g', 'e', 'n', 't', 'a'],
        Shade::LightRed => vec!['l', 'i', 'g', 'h', 't', 'r', 'e', 'd'],
        Shade::LightYellow => vec!['l', 'i', 'g', 'h', 't', 'y', 'e', 'l', 'l', 'o', 'w'],
        Shade::Magenta => vec!['m', 'a', 'g', 'e', 'n', 't', 'a'],
        Shade::Red => vec!['r', 'e', 'd'],
        Shade::White => vec!['w', 'h', 'i', 't', 'e'],
        Shade::Yellow => vec!['y', 'e', 'l', 'l', 'o', 'w'],
    };
    assert(r@ =~= shade_name(s));
    r
}

/// The shade whose lower-case name is `lowered`.
pub fn shade_named(lowered: &str) -> (r: Option<Shade>)
    ensures
        r == shade_named_spec(lowered@),
{
    let all = [
        Shade::Black,
        Shade::Blue,
        Shade::Cyan,
        Shade::DarkGray,
        Shade::Gray,
        Shade::Green,
        Shade::LightBlue,
        Shade::LightCyan,
        Shade::LightGreen,
        Shade::LightMagenta,
        Shade::LightRed,
        Shade::LightYellow,
        Shade::Magenta,
        Shade::Red,
        Shade::White,
        Shade::Yellow,
    ];
    assert(all@ =~= palette());
    let ghost names = palette_names();
    let l = chars_of(lowered);
    let mut i: usize = 0;
    while i < 16
        invariant
            all@ == palette(),
            names == palette_names(),
            l@ == lowered@,
            i <= 16,
            forall|q: int| 0 <= q < i ==> !text_is(lowered@)(#[trigger] names[q]),
        decreases 16 - i,
    {
        let shade = all[i];
        if same_chars(&l, &name_chars(shade)) {
            proof {
                lemma_first_index_at(names, text_is(lowered@), i as int);
            }
            return Some(shade);
        }
        i = i + 1;
    }
    proof {
        lemma_first_index(names, text_is(lowered@));
    }
    None
}

/// The colour that `setting` chooses: the shade its lower-case form names,
/// else the RGB colour it gives; `None` where it does neither.
pub fn color_choice(setting: &str) -> (r: Option<ColorChoice>)
    ensures
        r == color_choice_spec(setting@),
{
    let lowered = lowercase(setting);
    match shade_named(lowered.as_str()) {
        Some(s) => Some(ColorChoice::Named(s)),
        None => match parse_rgb(setting) {
            Some((r, g, b)) => Some(ColorChoice::Rgb(r, g, b)),
            None => None,
        },
    }
}

} // verus!
