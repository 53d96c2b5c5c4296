//! The version, the fonts and the logo of the manuals.

use vstd::prelude::*;

use crate::docs::options::{theme_of, Manual, Opts};
use crate::lines::{lines, split_lines};
use crate::numbers::{hex, hex_digit};
use crate::paths::{join_path, path_join};
use crate::text::{
    begins, behind, char_pos, chars_of, cut, cut_at, cut_prefix, law_a_text_is_cut_at_the_first,
    law_prefix_and_suffix_come_off, position, swap, swapped, text_of, texts, Class,
};

verus! {

// ---------------------------------------------------------------------------
// Version
// ---------------------------------------------------------------------------

/// What stands between the first two quotes, or from a single quote to the end.
pub open spec fn quoted(s: Seq<char>) -> Option<Seq<char>> {
    match cut(s, '"') {
        Some((_, rest)) => Some(rest.take(position(rest, '"'))),
        None => None,
    }
}

/// The version that a line of a manifest gives.
pub open spec fn version_in(line: Seq<char>) -> Option<Seq<char>> {
    match behind(line, "version"@) {
        Some(v) => quoted(v),
        None => None,
    }
}

/// The version that the first such line gives.
pub open spec fn version_of(ls: Seq<Seq<char>>) -> Seq<char>
    decreases ls.len(),
{
    if ls.len() == 0 {
        "0.0.0"@
    } else {
        match version_in(ls[0]) {
            Some(v) => v,
            None => version_of(ls.drop_first()),
        }
    }
}

/// Reads the version from a manifest.
pub fn cargo_version(toml: &str) -> (r: String)
    ensures
        r@ == version_of(lines(toml@)),
{
    let ls = split_lines(toml);
    let ghost all = lines(toml@);
    let mut i: usize = 0;
    assert(all.skip(0) =~= all);
    while i < ls.len()
        invariant
            i <= ls.len(),
            all == texts(ls@),
            all == lines(toml@),
            version_of(all.skip(i as int)) == version_of(all),
        decreases ls.len() - i,
    {
        assert(all.skip(i as int)[0] == ls@[i as int]@);
        assert(all.skip(i as int).drop_first() =~= all.skip(i + 1));
        match cut_prefix(ls[i].as_str(), "version") {
            Some(v) => match cut_at(v.as_str(), '"') {
                Some(halves) => {
                    let rest = chars_of(halves.1.as_str());
                    let end: usize = char_pos(&rest, 0, '"');
                    assert(rest@.skip(0) =~= rest@);
                    let q = text_of(&rest, 0, end);
                    assert(q@ =~= rest@.take(end as int));
                    return q;
                },
                None => {},
            },
            None => {},
        }
        i = i + 1;
    }
    "0.0.0".to_owned()
}

// ---------------------------------------------------------------------------
// Fonts
// ---------------------------------------------------------------------------

/// Where the font families lie.
pub const FONT_BASE: &'static str = "https://raw.githubusercontent.com/google/fonts/main/ofl/";

/// The file of a style of a font.
pub open spec fn font_file(family: Seq<char>, style: Seq<char>) -> Seq<char> {
    family + "-"@ + style + ".ttf"@
}

/// The address of a file of a family.
pub open spec fn font_url(subdir: Seq<char>, file: Seq<char>) -> Seq<char> {
    FONT_BASE@ + subdir + "/"@ + file
}

/// Names the file of a style of a font.
fn write_font_file(family: &str, style: &str) -> (r: String)
    ensures
        r@ == font_file(family@, style@),
{
    let mut r = family.to_owned();
    r.append("-");
    r.append(style);
    r.append(".ttf");
    r
}

/// Gives the address of a file of a family.
fn write_font_url(subdir: &str, file: &str) -> (r: String)
    ensures
        r@ == font_url(subdir@, file@),
{
    let mut r = FONT_BASE.to_owned();
    r.append(subdir);
    r.append("/");
    r.append(file);
    r
}

/// A file of a family with its address.
pub open spec fn font_of(family: Seq<char>, subdir: Seq<char>, style: Seq<char>) -> (
    Seq<char>,
    Seq<char>,
) {
    (font_file(family, style), font_url(subdir, font_file(family, style)))
}

/// The files of a family, each with the address it is fetched from.
pub fn fonts(family: &str, subdir: &str) -> (r: Vec<(String, String)>)
    ensures
        crate::text::pairs(r@) == seq![
            font_of(family@, subdir@, "Regular"@),
            font_of(family@, subdir@, "Bold"@),
            font_of(family@, subdir@, "Italic"@),
        ],
{
    let a = write_font_file(family, "Regular");
    let b = write_font_file(family, "Bold");
    let c = write_font_file(family, "Italic");
    let ua = write_font_url(subdir, a.as_str());
    let ub = write_font_url(subdir, b.as_str());
    let uc = write_font_url(subdir, c.as_str());
    let mut out: Vec<(String, String)> = Vec::new();
    out.push((a, ua));
    out.push((b, ub));
    out.push((c, uc));
    assert(crate::text::pairs(out@) =~= seq![
        font_of(family@, subdir@, "Regular"@),
        font_of(family@, subdir@, "Bold"@),
        font_of(family@, subdir@, "Italic"@),
    ]);
    out
}

/// A family that a manual is set in.
pub struct Family {
    pub name: &'static str,
    /// Where it lies.
    pub subdir: &'static str,
    /// Whether the manual cannot do without it.
    pub needed: bool,
}

/// A family over views.
pub struct FamilyView {
    pub name: Seq<char>,
    pub subdir: Seq<char>,
    pub needed: bool,
}

impl View for Family {
    type V = FamilyView;

    open spec fn view(&self) -> FamilyView {
        FamilyView { name: self.name@, subdir: self.subdir@, needed: self.needed }
    }
}

/// The families of a manual: its own, one to fall back on, and one for code.
pub open spec fn families_of(o: Opts) -> Seq<FamilyView> {
    seq![
        FamilyView {
            name: theme_of(o).font,
            subdir: if o.manual == Manual::User {
                "lato"@
            } else {
                "cardo"@
            },
            needed: true,
        },
        FamilyView { name: "Lato"@, subdir: "lato"@, needed: false },
        FamilyView { name: "IBMPlexMono"@, subdir: "ibmplexmono"@, needed: false },
    ]
}

/// Lists the families of a manual.
pub fn font_families(o: &Opts) -> (r: Vec<Family>)
    ensures
        r@.map_values(|f: Family| f@) == families_of(*o),
{
    let subdir: &'static str = if o.manual == Manual::User {
        "lato"
    } else {
        "cardo"
    };
    let mut v: Vec<Family> = Vec::new();
    v.push(Family { name: o.theme().font, subdir, needed: true });
    v.push(Family { name: "Lato", subdir: "lato", needed: false });
    v.push(Family { name: "IBMPlexMono", subdir: "ibmplexmono", needed: false });
    assert(v@.map_values(|f: Family| f@) =~= families_of(*o));
    v
}

// ---------------------------------------------------------------------------
// Logo
// ---------------------------------------------------------------------------

/// The path of the logo in a colour, below the root of the repository.
pub open spec fn logo_path(hex: Seq<char>) -> Seq<char> {
    swap(join_path("build/docs"@, "cover-logo-"@ + hex + ".png"@), Class::One('\\'), '/')
}

/// Names the logo in a colour.
pub fn cover_logo(hex: &str) -> (r: String)
    ensures
        r@ == logo_path(hex@),
{
    let mut name = "cover-logo-".to_owned();
    name.append(hex);
    name.append(".png");
    let p = path_join("build/docs", name.as_str());
    swapped(p.as_str(), Class::One('\\'), '/')
}

/// The value of a hexadecimal digit.
pub open spec fn nibble(c: char) -> Option<int> {
    if '0' <= c <= '9' {
        Some(c as int - 48)
    } else if 'a' <= c <= 'f' {
        Some(c as int - 87)
    } else if 'A' <= c <= 'F' {
        Some(c as int - 55)
    } else {
        None
    }
}

/// The value of two hexadecimal digits, the first of which may be a plus sign.
pub open spec fn octet(a: char, b: char) -> Option<int> {
    match nibble(b) {
        Some(y) => if a == '+' {
            Some(y)
        } else {
            match nibble(a) {
                Some(x) => Some(16 * x + y),
                None => None,
            }
        },
        None => None,
    }
}

fn read_nibble(c: char) -> (r: Option<u8>)
    ensures
        match r {
            Some(n) => nibble(c) == Some(n as int) && n < 16,
            None => nibble(c) is None,
        },
{
    let n: u32 = c as u32;
    if 48 <= n && n <= 57 {
        Some((n - 48) as u8)
    } else if 97 <= n && n <= 102 {
        Some((n - 87) as u8)
    } else if 65 <= n && n <= 70 {
        Some((n - 55) as u8)
    } else {
        None
    }
}

fn read_octet(a: char, b: char) -> (r: Option<u8>)
    ensures
        match r {
            Some(n) => octet(a, b) == Some(n as int),
            None => octet(a, b) is None,
        },
{
    match read_nibble(b) {
        Some(y) => if a == '+' {
            Some(y)
        } else {
            match read_nibble(a) {
                Some(x) => Some(16 * x + y),
                None => None,
            }
        },
        None => None,
    }
}

/// Reads a colour of six hexadecimal digits; what follows them does not matter.
/// There is none where the text is shorter or a pair of them is no number.
pub fn parse_color(hex: &str) -> (r: Option<(u8, u8, u8)>)
    ensures
        match r {
            Some(c) => hex@.len() >= 6 && octet(hex@[0], hex@[1]) == Some(c.0 as int) && octet(
                hex@[2],
                hex@[3],
            ) == Some(c.1 as int) && octet(hex@[4], hex@[5]) == Some(c.2 as int),
            None => hex@.len() < 6 || octet(hex@[0], hex@[1]) is None || octet(hex@[2], hex@[3])
                is None || octet(hex@[4], hex@[5]) is None,
        },
{
    let v = chars_of(hex);
    if v.len() < 6 {
        return None;
    }
    match (read_octet(v[0], v[1]), read_octet(v[2], v[3]), read_octet(v[4], v[5])) {
        (Some(r), Some(g), Some(b)) => Some((r, g, b)),
        _ => None,
    }
}

/// How bright a pixel is.
pub open spec fn luminance(r: u8, g: u8, b: u8) -> int {
    (r * 299 + g * 587 + b * 114) / 1000
}

/// A pixel of the logo in a colour: it is as opaque as the pixel was bright.
pub open spec fn recoloured(px: (u8, u8, u8, u8), color: (u8, u8, u8)) -> (u8, u8, u8, u8) {
    (color.0, color.1, color.2, (luminance(px.0, px.1, px.2) * px.3 / 255) as u8)
}

/// Recolours one pixel.
fn recolour_pixel(px: (u8, u8, u8, u8), color: (u8, u8, u8)) -> (r: (u8, u8, u8, u8))
    ensures
        r == recoloured(px, color),
        luminance(px.0, px.1, px.2) * px.3 / 255 <= 255,
{
    let lum: u32 = (px.0 as u32 * 299 + px.1 as u32 * 587 + px.2 as u32 * 114) / 1000;
    let a: u32 = px.3 as u32;
    assert(lum <= 255);
    assert(lum * a <= 255 * 255) by (nonlinear_arith)
        requires
            lum <= 255,
            a <= 255,
    ;
    let alpha: u32 = lum * a / 255;
    (color.0, color.1, color.2, alpha as u8)
}

/// Recolours the pixels of the logo.
pub fn recolour(pixels: &Vec<(u8, u8, u8, u8)>, color: (u8, u8, u8)) -> (r: Vec<
    (u8, u8, u8, u8),
>)
    ensures
        r@ == pixels@.map_values(|px: (u8, u8, u8, u8)| recoloured(px, color)),
{
    let mut out: Vec<(u8, u8, u8, u8)> = Vec::new();
    let mut i: usize = 0;
    let ghost want = pixels@.map_values(|px: (u8, u8, u8, u8)| recoloured(px, color));
    while i < pixels.len()
        invariant
            i <= pixels.len(),
            want == pixels@.map_values(|px: (u8, u8, u8, u8)| recoloured(px, color)),
            out@ == want.take(i as int),
        decreases pixels.len() - i,
    {
        out.push(recolour_pixel(pixels[i], color));
        i = i + 1;
        assert(out@ =~= want.take(i as int));
    }
    assert(out@ =~= want);
    out
}

/// Recolouring makes no pixel more opaque than it was.
pub proof fn law_recolouring_adds_no_opacity(px: (u8, u8, u8, u8), color: (u8, u8, u8))
    ensures
        recoloured(px, color).3 <= px.3,
{
    let lum = luminance(px.0, px.1, px.2);
    let a = px.3 as int;
    assert(lum <= 255);
    assert(0 <= lum * a <= 255 * a) by (nonlinear_arith)
        requires
            0 <= lum <= 255,
            0 <= a,
    ;
    assert(lum * px.3 == lum * a);
}

/// The version of a manifest is what stands between the quotes of the first line
/// that begins with its key; without such a line it is `0.0.0`.
pub proof fn law_the_first_version_counts(
    before: Seq<Seq<char>>,
    gap: Seq<char>,
    version: Seq<char>,
    tail: Seq<char>,
    rest: Seq<Seq<char>>,
)
    requires
        forall|i: int| 0 <= i < before.len() ==> !begins(#[trigger] before[i], "version"@),
        !gap.contains('"'),
        !version.contains('"'),
    ensures
        version_of(
            before + seq!["version"@ + (gap.push('"') + (version.push('"') + tail))] + rest,
        ) == version,
        version_of(before) == "0.0.0"@,
    decreases before.len(),
{
    let line = "version"@ + (gap.push('"') + (version.push('"') + tail));
    let all = before + seq![line] + rest;
    if before.len() == 0 {
        assert(all[0] == line);
        let v = gap.push('"') + (version.push('"') + tail);
        law_prefix_and_suffix_come_off("version"@, v);
        law_a_text_is_cut_at_the_first(gap, '"', version.push('"') + tail);
        law_a_text_is_cut_at_the_first(version, '"', tail);
        let q = version.push('"') + tail;
        assert(cut(q, '"') == Some((version, tail)));
        assert(q.take(position(q, '"')) == version);
    } else {
        assert(all[0] == before[0]);
        let fewer = before.drop_first();
        assert forall|i: int| 0 <= i < fewer.len() implies !begins(
            #[trigger] fewer[i],
            "version"@,
        ) by {
            assert(fewer[i] == before[i + 1]);
        }
        assert(all.drop_first() =~= fewer + seq![line] + rest);
        law_the_first_version_counts(fewer, gap, version, tail, rest);
    }
}

/// The brightness of a pixel, of which green has most and blue least.
pub open spec fn is_brightness(p: (u8, u8, u8, u8), lum: int) -> bool {
    1000 * lum <= 299 * p.0 + 587 * p.1 + 114 * p.2 < 1000 * (lum + 1)
}

/// A logo takes the colour that is asked for, and its brightness becomes its
/// opacity: black is clear, white as opaque as it was, and what is brighter in
/// every channel, or was more opaque, is at least as opaque.
pub proof fn law_brightness_becomes_opacity(
    p: (u8, u8, u8, u8),
    q: (u8, u8, u8, u8),
    color: (u8, u8, u8),
)
    ensures
        ({
            let r = recoloured(p, color);
            &&& (r.0, r.1, r.2) == color
            &&& p.0 == 0 && p.1 == 0 && p.2 == 0 ==> r.3 == 0
            &&& p.0 == 255 && p.1 == 255 && p.2 == 255 ==> r.3 == p.3
            &&& exists|lum: int| #[trigger] is_brightness(p, lum) && lum * p.3 / 255 == r.3
            &&& p.0 <= q.0 && p.1 <= q.1 && p.2 <= q.2 && p.3 <= q.3 ==> r.3 <= recoloured(
                q,
                color,
            ).3
        }),
{
    let a = luminance(p.0, p.1, p.2);
    let b = luminance(q.0, q.1, q.2);
    assert(0 <= a <= 255 && 0 <= b <= 255);
    assert(0 <= a * p.3 <= 255 * 255) by (nonlinear_arith)
        requires
            0 <= a <= 255,
            0 <= p.3 <= 255,
    ;
    assert(0 <= b * q.3 <= 255 * 255) by (nonlinear_arith)
        requires
            0 <= b <= 255,
            0 <= q.3 <= 255,
    ;
    if p.0 <= q.0 && p.1 <= q.1 && p.2 <= q.2 && p.3 <= q.3 {
        assert(a <= b);
        assert(a * p.3 <= b * q.3) by (nonlinear_arith)
            requires
                0 <= a <= b,
                0 <= p.3 <= q.3,
        ;
    }
    if p.0 == 255 && p.1 == 255 && p.2 == 255 {
        assert(a == 255);
        assert((255 * p.3) / 255 == p.3);
    }
    if p.0 == 0 && p.1 == 0 && p.2 == 0 {
        assert(a * p.3 == 0) by (nonlinear_arith)
            requires
                a == 0,
        ;
    }
    assert(is_brightness(p, a));
    assert(a * p.3 / 255 == recoloured(p, color).3);
}

/// Two hexadecimal digits are read as they are written, in either case.
pub proof fn law_colours_are_read_as_written(n: nat)
    requires
        n < 256,
    ensures
        octet(hex(n, 2)[0], hex(n, 2)[1]) == Some(n as int),
        forall|c: char| 'A' <= c <= 'F' ==> #[trigger] nibble(c) == Some(c as int - 'A' as int + 10),
        forall|c: char| 'g' <= c ==> #[trigger] nibble(c) is None,
        forall|c: char| c < '0' ==> #[trigger] nibble(c) is None,
        forall|c: char| '9' < c < 'A' || 'F' < c < 'a' ==> #[trigger] nibble(c) is None,
{
    reveal_with_fuel(hex, 3);
    let s = hex(n, 2);
    assert(s[1] == hex_digit(n % 16));
    assert(s[0] == hex_digit((n / 16) % 16));
}

/// Each style of a font is one file, fetched by its name from the directory of
/// the family.
pub proof fn law_fonts_are_fetched_by_name(
    family: Seq<char>,
    subdir: Seq<char>,
    style: Seq<char>,
)
    ensures
        ({
            let (file, url) = font_of(family, subdir, style);
            &&& file == family + "-"@ + style + ".ttf"@
            &&& url == FONT_BASE@ + subdir + "/"@ + file
        }),
{
}

/// The logo of a colour lies in the build directory and names its colour.
pub proof fn law_logos_are_named_by_their_colour(hex: Seq<char>)
    requires
        !hex.contains('\\'),
    ensures
        logo_path(hex) == "build/docs/"@ + ("cover-logo-"@ + hex + ".png"@),
{
    reveal_strlit("build/docs");
    reveal_strlit("build/docs/");
    reveal_strlit("cover-logo-");
    reveal_strlit(".png");
    let name = "cover-logo-"@ + hex + ".png"@;
    assert(name[0] == 'c');
    assert("build/docs"@.push('/') =~= "build/docs/"@);
    let p = "build/docs/"@ + name;
    assert(join_path("build/docs"@, name) == p);
    assert forall|i: int| 0 <= i < p.len() implies p[i] != '\\' by {
        if 11 <= i < 22 {
            assert(p[i] == "cover-logo-"@[i - 11]);
        } else if 22 <= i < 22 + hex.len() {
            assert(p[i] == hex[i - 22]);
            assert(hex.contains(hex[i - 22]));
        } else if i >= 22 + hex.len() {
            assert(p[i] == ".png"@[i - 22 - hex.len()]);
        } else {
            assert(p[i] == "build/docs/"@[i]);
        }
    }
    assert(logo_path(hex) =~= p);
}

/// A manual needs the font of its theme; a font to fall back on and one for code
/// are had where they can be.
pub proof fn law_a_manual_needs_its_own_font(o: Opts)
    ensures
        families_of(o).len() == 3,
        families_of(o)[0].needed && families_of(o)[0].name == theme_of(o).font,
        o.manual == Manual::User ==> families_of(o)[0].subdir == "lato"@,
        o.manual == Manual::Developer ==> families_of(o)[0].subdir == "cardo"@,
        families_of(o)[1] == (FamilyView { name: "Lato"@, subdir: "lato"@, needed: false }),
        families_of(o)[2] == (FamilyView {
            name: "IBMPlexMono"@,
            subdir: "ibmplexmono"@,
            needed: false,
        }),
{
}

} // verus!
