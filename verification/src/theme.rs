//! Omarchy theme colours.
//!
//! The active theme is a directory whose `colors.toml` holds the palette.
//! Theme key sets are *not* uniform — some themes omit `orange`/`brown`, and
//! some add Hyprland-specific entries whose values are `rgba(798186ee)`,
//! which is not valid CSS. So the palette is a map with fallbacks rather than
//! a fixed struct, and a colour is read in every form the themes use.
use vstd::prelude::*;
use crate::text::{
    char_from_ascii, chars_of, is_ws, seq_eq, strip_prefix, strip_prefix_vec, trim, trim_end,
    trim_start, trim_start_char, trim_start_char_vec, trim_vec,
};

verus! {

#[derive(Debug, Clone, Copy, PartialEq, Eq, Structural)]
pub enum Mode {
    Dark,
    Light,
}

#[derive(Debug, Clone, Copy, PartialEq, Eq, Structural)]
pub struct Rgb {
    pub r: u8,
    pub g: u8,
    pub b: u8,
}

pub open spec fn is_hex(c: char) -> bool {
    ('0' <= c && c <= '9') || ('a' <= c && c <= 'f') || ('A' <= c && c <= 'F')
}

pub open spec fn hex_value(c: char) -> nat {
    if '0' <= c && c <= '9' {
        (c as nat - 48) as nat
    } else if 'a' <= c && c <= 'f' {
        (c as nat - 87) as nat
    } else {
        (c as nat - 55) as nat
    }
}

/// The byte written by two hex digits.
pub open spec fn hex_byte(hi: char, lo: char) -> u8 {
    (16 * hex_value(hi) + hex_value(lo)) as u8
}

/// What is inside `rgba(…)` or `rgb(…)`, or the whole text otherwise;
/// `None` when the parenthesis is not closed.
pub open spec fn colour_body(t: Seq<char>) -> Option<Seq<char>> {
    match strip_prefix(t, "rgba("@) {
        Some(rest) => if rest.len() > 0 && rest.last() == ')' {
            Some(rest.drop_last())
        } else {
            None
        },
        None => match strip_prefix(t, "rgb("@) {
            Some(rest) => if rest.len() > 0 && rest.last() == ')' {
                Some(rest.drop_last())
            } else {
                None
            },
            None => Some(t),
        },
    }
}

/// The colour `s` writes: `#rrggbb`, bare `rrggbb`, or Hyprland's
/// `rgb(rrggbb)` / `rgba(rrggbbaa)`, whose alpha is dropped. At least six
/// hex digits and nothing else; the first six are the colour.
pub open spec fn rgb_of(s: Seq<char>) -> Option<Rgb> {
    match colour_body(trim(s)) {
        Some(body) => {
            let hex = trim_start_char(trim(body), '#');
            if hex.len() >= 6 && forall|i: int| 0 <= i < hex.len() ==> is_hex(#[trigger] hex[i]) {
                Some(
                    Rgb {
                        r: hex_byte(hex[0], hex[1]),
                        g: hex_byte(hex[2], hex[3]),
                        b: hex_byte(hex[4], hex[5]),
                    },
                )
            } else {
                None
            }
        },
        None => None,
    }
}

/// The lower-case hex digit for `d`.
pub open spec fn hex_digit(d: nat) -> char {
    if d < 10 {
        ((d + 48) as u32) as char
    } else {
        ((d + 87) as u32) as char
    }
}

pub open spec fn hex_pair(b: u8) -> Seq<char> {
    seq![hex_digit((b / 16) as nat), hex_digit((b % 16) as nat)]
}

pub open spec fn css_of(c: Rgb) -> Seq<char> {
    seq!['#'] + hex_pair(c.r) + hex_pair(c.g) + hex_pair(c.b)
}

proof fn lemma_hex_digit(d: nat)
    requires
        d < 16,
    ensures
        is_hex(hex_digit(d)),
        hex_value(hex_digit(d)) == d,
        !is_ws(hex_digit(d)),
        hex_digit(d) != '#',
{
}

/// What `to_css` writes, `parse` reads back: the CSS form of a colour
/// names that very colour.
pub proof fn lemma_css_round_trip(c: Rgb)
    ensures
        rgb_of(css_of(c)) == Some(c),
{
    let x = css_of(c);
    let (r1, r2, g1, g2, b1, b2) = (
        (c.r / 16) as nat,
        (c.r % 16) as nat,
        (c.g / 16) as nat,
        (c.g % 16) as nat,
        (c.b / 16) as nat,
        (c.b % 16) as nat,
    );
    lemma_hex_digit(r1);
    lemma_hex_digit(r2);
    lemma_hex_digit(g1);
    lemma_hex_digit(g2);
    lemma_hex_digit(b1);
    lemma_hex_digit(b2);
    let hex = seq![
        hex_digit(r1),
        hex_digit(r2),
        hex_digit(g1),
        hex_digit(g2),
        hex_digit(b1),
        hex_digit(b2),
    ];
    assert(x =~= seq!['#'] + hex);
    assert(!is_ws(x[0]));
    assert(!is_ws(x.last()));
    assert(trim_start(x) == x);
    assert(trim_end(x) == x);
    assert(trim(x) == x);
    reveal_strlit("rgba(");
    reveal_strlit("rgb(");
    assert(x.subrange(0, 5)[0] != "rgba("@[0]);
    assert(x.subrange(0, 4)[0] != "rgb("@[0]);
    assert(colour_body(x) == Some(x));
    assert(x.drop_first() =~= hex);
    assert(trim_start_char(hex, '#') == hex);
    assert(trim_start_char(x, '#') == hex);
    assert(forall|i: int| 0 <= i < hex.len() ==> is_hex(#[trigger] hex[i]));
    assert(hex_byte(hex[0], hex[1]) == c.r);
    assert(hex_byte(hex[2], hex[3]) == c.g);
    assert(hex_byte(hex[4], hex[5]) == c.b);
}

/// Hyprland's `rgba(rrggbbaa)` form of a colour, with any alpha, reads as
/// that colour: the alpha is dropped.
pub proof fn lemma_rgba_drops_alpha(c: Rgb, alpha: u8)
    ensures
        rgb_of("rgba("@ + css_of(c).drop_first() + hex_pair(alpha) + ")"@) == Some(c),
{
    let (r1, r2, g1, g2, b1, b2, a1, a2) = (
        (c.r / 16) as nat,
        (c.r % 16) as nat,
        (c.g / 16) as nat,
        (c.g % 16) as nat,
        (c.b / 16) as nat,
        (c.b % 16) as nat,
        (alpha / 16) as nat,
        (alpha % 16) as nat,
    );
    lemma_hex_digit(r1);
    lemma_hex_digit(r2);
    lemma_hex_digit(g1);
    lemma_hex_digit(g2);
    lemma_hex_digit(b1);
    lemma_hex_digit(b2);
    lemma_hex_digit(a1);
    lemma_hex_digit(a2);
    let hex = seq![
        hex_digit(r1),
        hex_digit(r2),
        hex_digit(g1),
        hex_digit(g2),
        hex_digit(b1),
        hex_digit(b2),
        hex_digit(a1),
        hex_digit(a2),
    ];
    reveal_strlit("rgba(");
    reveal_strlit(")");
    let x = "rgba("@ + css_of(c).drop_first() + hex_pair(alpha) + ")"@;
    assert(x =~= "rgba("@ + hex + ")"@);
    assert(x[0] == 'r');
    assert(!is_ws(x[0]));
    assert(!is_ws(x.last()));
    assert(trim_start(x) == x);
    assert(trim_end(x) == x);
    assert(trim(x) == x);
    assert(x.subrange(0, 5) =~= "rgba("@);
    let rest = x.subrange(5, x.len() as int);
    assert(rest =~= hex + ")"@);
    assert(rest.drop_last() =~= hex);
    assert(colour_body(x) == Some(hex));
    assert(!is_ws(hex[0]) && !is_ws(hex.last()));
    assert(trim_start(hex) == hex);
    assert(trim_end(hex) == hex);
    assert(trim_start_char(hex, '#') == hex);
    assert(forall|i: int| 0 <= i < hex.len() ==> is_hex(#[trigger] hex[i]));
    assert(hex_byte(hex[0], hex[1]) == c.r);
    assert(hex_byte(hex[2], hex[3]) == c.g);
    assert(hex_byte(hex[4], hex[5]) == c.b);
}

fn is_hex_exec(c: char) -> (r: bool)
    ensures
        r == is_hex(c),
{
    ('0' <= c && c <= '9') || ('a' <= c && c <= 'f') || ('A' <= c && c <= 'F')
}

fn hex_value_exec(c: char) -> (r: u8)
    requires
        is_hex(c),
    ensures
        r == hex_value(c),
        r < 16,
{
    let v = c as u32;
    if '0' <= c && c <= '9' {
        (v - 48) as u8
    } else if 'a' <= c && c <= 'f' {
        (v - 87) as u8
    } else {
        (v - 55) as u8
    }
}

fn hex_byte_exec(hi: char, lo: char) -> (r: u8)
    requires
        is_hex(hi),
        is_hex(lo),
    ensures
        r == hex_byte(hi, lo),
{
    let h = hex_value_exec(hi);
    let l = hex_value_exec(lo);
    16 * h + l
}

fn hex_digit_exec(d: u8) -> (c: char)
    requires
        d < 16,
    ensures
        c == hex_digit(d as nat),
{
    if d < 10 {
        char_from_ascii(d + 48)
    } else {
        char_from_ascii(d + 87)
    }
}

fn strip_paren(rest: Vec<char>) -> (r: Option<Vec<char>>)
    ensures
        match r {
            Some(b) => rest@.len() > 0 && rest@.last() == ')' && b@ == rest@.drop_last(),
            None => !(rest@.len() > 0 && rest@.last() == ')'),
        },
{
    if rest.len() > 0 && rest[rest.len() - 1] == ')' {
        let mut b = rest;
        b.pop();
        Some(b)
    } else {
        None
    }
}

impl Rgb {
    /// Parse the colour forms that appear in `colors.toml`.
    ///
    /// Accepts `#rrggbb`, bare `rrggbb`, and Hyprland's `rgb(rrggbb)` /
    /// `rgba(rrggbbaa)`. The alpha of the latter is dropped: the dock controls
    /// its own opacity, and blending is the compositor's job.
    pub fn parse(s: &str) -> (r: Option<Rgb>)
        ensures
            r == rgb_of(s@),
    {
        let t = trim_vec(&chars_of(s));
        let body = match strip_prefix_vec(&t, &chars_of("rgba(")) {
            Some(rest) => match strip_paren(rest) {
                Some(b) => b,
                None => return None,
            },
            None => match strip_prefix_vec(&t, &chars_of("rgb(")) {
                Some(rest) => match strip_paren(rest) {
                    Some(b) => b,
                    None => return None,
                },
                None => t,
            },
        };
        let hex = trim_start_char_vec(&trim_vec(&body), '#');
        if hex.len() < 6 {
            return None;
        }
        let mut i: usize = 0;
        while i < hex.len()
            invariant
                i <= hex@.len(),
                colour_body(trim(s@)) == Some(body@),
                hex@ == trim_start_char(trim(body@), '#'),
                forall|j: int| 0 <= j < i ==> is_hex(#[trigger] hex@[j]),
            decreases hex.len() - i,
        {
            if !is_hex_exec(hex[i]) {
                return None;
            }
            i = i + 1;
        }
        Some(
            Rgb {
                r: hex_byte_exec(hex[0], hex[1]),
                g: hex_byte_exec(hex[2], hex[3]),
                b: hex_byte_exec(hex[4], hex[5]),
            },
        )
    }

    /// `#rrggbb`, lower-case.
    pub fn to_css(self) -> (r: String)
        ensures
            r@ == css_of(self),
    {
        let mut out = String::new();
        crate::text::push_char(&mut out, '#');
        crate::text::push_char(&mut out, hex_digit_exec(self.r / 16));
        crate::text::push_char(&mut out, hex_digit_exec(self.r % 16));
        crate::text::push_char(&mut out, hex_digit_exec(self.g / 16));
        crate::text::push_char(&mut out, hex_digit_exec(self.g % 16));
        crate::text::push_char(&mut out, hex_digit_exec(self.b / 16));
        crate::text::push_char(&mut out, hex_digit_exec(self.b % 16));
        assert(out@ =~= css_of(self));
        out
    }
}


// ── the palette ─────────────────────────────────────────────────────────────

/// The colours a list of named colours defines: a later name overrides an
/// earlier one.
pub open spec fn pairs_map(s: Seq<(String, Rgb)>) -> Map<Seq<char>, Rgb>
    decreases s.len(),
{
    if s.len() == 0 {
        Map::empty()
    } else {
        pairs_map(s.drop_last()).insert(s.last().0@, s.last().1)
    }
}

pub open spec fn keys_distinct(s: Seq<(String, Rgb)>) -> bool {
    forall|i: int, j: int| 0 <= i < j < s.len() ==> s[i].0@ != s[j].0@
}

proof fn lemma_pairs_map_get(s: Seq<(String, Rgb)>, i: int)
    requires
        keys_distinct(s),
        0 <= i < s.len(),
    ensures
        pairs_map(s).contains_key(s[i].0@),
        pairs_map(s)[s[i].0@] == s[i].1,
    decreases s.len(),
{
    if i < s.len() - 1 {
        let d = s.drop_last();
        assert(d[i] == s[i]);
        assert(s.last().0@ != s[i].0@);
        lemma_pairs_map_get(d, i);
    }
}

proof fn lemma_pairs_map_absent(s: Seq<(String, Rgb)>, k: Seq<char>)
    requires
        forall|i: int| 0 <= i < s.len() ==> s[i].0@ != k,
    ensures
        !pairs_map(s).contains_key(k),
    decreases s.len(),
{
    if s.len() > 0 {
        let d = s.drop_last();
        assert forall|i: int| 0 <= i < d.len() implies d[i].0@ != k by {
            assert(d[i] == s[i]);
        }
        lemma_pairs_map_absent(d, k);
    }
}

proof fn lemma_pairs_map_update(s: Seq<(String, Rgb)>, i: int, x: (String, Rgb))
    requires
        keys_distinct(s),
        0 <= i < s.len(),
        x.0@ == s[i].0@,
    ensures
        pairs_map(s.update(i, x)) == pairs_map(s).insert(x.0@, x.1),
    decreases s.len(),
{
    let u = s.update(i, x);
    let d = s.drop_last();
    if i == s.len() - 1 {
        assert(u.drop_last() =~= d);
        assert(pairs_map(u) =~= pairs_map(s).insert(x.0@, x.1));
    } else {
        assert(u.drop_last() =~= d.update(i, x));
        assert(keys_distinct(d));
        lemma_pairs_map_update(d, i, x);
        assert(s.last().0@ != s[i].0@);
        assert(pairs_map(u) =~= pairs_map(s).insert(x.0@, x.1));
    }
}

/// The position of `k` among the names, if present.
fn position_of_name(v: &Vec<(String, Rgb)>, k: &Vec<char>) -> (r: Option<usize>)
    ensures
        match r {
            Some(i) => i < v@.len() && v@[i as int].0@ == k@,
            None => forall|i: int| 0 <= i < v@.len() ==> v@[i].0@ != k@,
        },
{
    let mut i: usize = 0;
    while i < v.len()
        invariant
            i <= v@.len(),
            forall|j: int| 0 <= j < i ==> v@[j].0@ != k@,
        decreases v.len() - i,
    {
        if seq_eq(&chars_of(v[i].0.as_str()), k) {
            return Some(i);
        }
        i = i + 1;
    }
    None
}

/// Set colour `k` to `c`, replacing an earlier one of that name.
fn put_colour(v: &mut Vec<(String, Rgb)>, k: String, c: Rgb)
    requires
        keys_distinct(old(v)@),
    ensures
        keys_distinct(final(v)@),
        pairs_map(final(v)@) == pairs_map(old(v)@).insert(k@, c),
{
    match position_of_name(v, &chars_of(k.as_str())) {
        Some(i) => {
            proof {
                lemma_pairs_map_update(v@, i as int, (k, c));
            }
            v.set(i, (k, c));
        },
        None => {
            let ghost before = v@;
            v.push((k, c));
            assert(v@.drop_last() =~= before);
        },
    }
}

pub struct Palette {
    pub name: String,
    pub mode: Mode,
    colors: Vec<(String, Rgb)>,
}

/// The first of `names` that `colors` defines, or `fallback`.
pub open spec fn first_defined(colors: Map<Seq<char>, Rgb>, names: Seq<Seq<char>>, fallback: Rgb) -> Rgb
    decreases names.len(),
{
    if names.len() == 0 {
        fallback
    } else if colors.contains_key(names[0]) {
        colors[names[0]]
    } else {
        first_defined(colors, names.drop_first(), fallback)
    }
}

pub open spec fn rgb(r: u8, g: u8, b: u8) -> Rgb {
    Rgb { r, g, b }
}

/// The neutral dark palette used when no Omarchy theme can be resolved.
pub open spec fn fallback_colors() -> Map<Seq<char>, Rgb> {
    Map::empty().insert("background"@, rgb(0x14, 0x15, 0x1e)).insert(
        "foreground"@,
        rgb(0xc8, 0xcc, 0xd4),
    ).insert("accent"@, rgb(0x7a, 0xa2, 0xf7))
}

/// A `colors.toml` key with its value, when the value is a string.
pub open spec fn entry_views(es: Seq<(String, Option<String>)>) -> Seq<(Seq<char>, Option<Seq<char>>)> {
    es.map_values(
        |e: (String, Option<String>)|
            (
                e.0@,
                match e.1 {
                    Some(v) => Some(v@),
                    None => None,
                },
            ),
    )
}

/// The theme's mode: light only when `mode = "light"`.
pub open spec fn mode_from(es: Seq<(Seq<char>, Option<Seq<char>>)>) -> Mode
    decreases es.len(),
{
    if es.len() == 0 {
        Mode::Dark
    } else if es.last().0 == "mode"@ {
        if es.last().1 == Some("light"@) {
            Mode::Light
        } else {
            Mode::Dark
        }
    } else {
        mode_from(es.drop_last())
    }
}

/// Every colour the entries define; anything that is not a parseable
/// colour is skipped, which drops Hyprland's two-value border entries.
pub open spec fn colors_from(es: Seq<(Seq<char>, Option<Seq<char>>)>) -> Map<Seq<char>, Rgb>
    decreases es.len(),
{
    if es.len() == 0 {
        Map::empty()
    } else {
        let m = colors_from(es.drop_last());
        let (k, v) = es.last();
        if k != "mode"@ && v is Some && rgb_of(v->0) is Some {
            m.insert(k, rgb_of(v->0)->0)
        } else {
            m
        }
    }
}

/// Every top-level key of `text` read as a TOML table, in key order, with
/// its value when that value is a string; `None` when `text` is not TOML.
pub uninterp spec fn toml_strings(text: Seq<char>) -> Option<Seq<(Seq<char>, Option<Seq<char>>)>>;

/// Parses `text` with `toml::Table`'s `FromStr` and lists each entry of the
/// table with `Value::as_str` of its value. Claimed: the result is the value
/// of `toml_strings` at `text`, which names what the parser computes from the
/// text alone; nothing more is stated of it.
#[verifier::external_body]
fn table_strings(text: &str) -> (r: Option<Vec<(String, Option<String>)>>)
    ensures
        match r {
            Some(v) => toml_strings(text@) == Some(entry_views(v@)),
            None => toml_strings(text@) is None,
        },
{
    let table: toml::Table = text.parse().ok()?;
    Some(table.iter().map(|(k, v)| (k.clone(), v.as_str().map(str::to_owned))).collect())
}

impl Palette {
    pub closed spec fn colors_map(self) -> Map<Seq<char>, Rgb> {
        pairs_map(self.colors@)
    }

    pub closed spec fn theme_name(self) -> Seq<char> {
        self.name@
    }

    pub closed spec fn theme_mode(self) -> Mode {
        self.mode
    }

    #[verifier::type_invariant]
    spec fn names_distinct(self) -> bool {
        keys_distinct(self.colors@)
    }

    /// The colour named `name`, if the palette has one.
    fn lookup(&self, name: &str) -> (r: Option<Rgb>)
        ensures
            match r {
                Some(c) => self.colors_map().contains_key(name@) && self.colors_map()[name@] == c,
                None => !self.colors_map().contains_key(name@),
            },
    {
        proof {
            use_type_invariant(self);
        }
        match position_of_name(&self.colors, &chars_of(name)) {
            Some(i) => {
                proof {
                    lemma_pairs_map_get(self.colors@, i as int);
                }
                Some(self.colors[i].1)
            },
            None => {
                proof {
                    lemma_pairs_map_absent(self.colors@, name@);
                }
                None
            },
        }
    }

    /// Look up a colour, trying each name in turn before falling back.
    pub fn get(&self, names: &[&str], fallback: Rgb) -> (r: Rgb)
        ensures
            r == first_defined(self.colors_map(), names@.map_values(|n: &str| n@), fallback),
    {
        let ghost nv = names@.map_values(|n: &str| n@);
        let mut i: usize = 0;
        assert(nv.skip(0) =~= nv);
        while i < names.len()
            invariant
                i <= names@.len(),
                nv == names@.map_values(|n: &str| n@),
                first_defined(self.colors_map(), nv, fallback) == first_defined(
                    self.colors_map(),
                    nv.skip(i as int),
                    fallback,
                ),
            decreases names.len() - i,
        {
            assert(nv.skip(i as int)[0] == names@[i as int]@);
            assert(nv.skip(i as int).drop_first() =~= nv.skip(i + 1));
            match self.lookup(names[i]) {
                Some(c) => {
                    return c;
                },
                None => {},
            }
            i = i + 1;
        }
        assert(nv.skip(i as int) =~= Seq::<Seq<char>>::empty());
        fallback
    }

    pub fn background(&self) -> (r: Rgb)
        ensures
            r == first_defined(self.colors_map(), seq!["background"@], rgb(0x14, 0x15, 0x1e)),
    {
        let names: [&str; 1] = ["background"];
        let r = self.get(&names, Rgb { r: 0x14, g: 0x15, b: 0x1e });
        assert(names@.map_values(|n: &str| n@) =~= seq!["background"@]);
        r
    }

    pub fn foreground(&self) -> (r: Rgb)
        ensures
            r == first_defined(self.colors_map(), seq!["foreground"@], rgb(0xc8, 0xcc, 0xd4)),
    {
        let names: [&str; 1] = ["foreground"];
        let r = self.get(&names, Rgb { r: 0xc8, g: 0xcc, b: 0xd4 });
        assert(names@.map_values(|n: &str| n@) =~= seq!["foreground"@]);
        r
    }

    pub fn accent(&self) -> (r: Rgb)
        ensures
            r == first_defined(
                self.colors_map(),
                seq!["accent"@, "blue"@],
                first_defined(self.colors_map(), seq!["foreground"@], rgb(0xc8, 0xcc, 0xd4)),
            ),
    {
        let names: [&str; 2] = ["accent", "blue"];
        let r = self.get(&names, self.foreground());
        assert(names@.map_values(|n: &str| n@) =~= seq!["accent"@, "blue"@]);
        r
    }

    /// Colour for urgency and attention states. Themes may omit `orange`.
    pub fn urgent(&self) -> (r: Rgb)
        ensures
            r == first_defined(
                self.colors_map(),
                seq!["bright_red"@, "red"@, "orange"@],
                first_defined(
                    self.colors_map(),
                    seq!["accent"@, "blue"@],
                    first_defined(self.colors_map(), seq!["foreground"@], rgb(0xc8, 0xcc, 0xd4)),
                ),
            ),
    {
        let names: [&str; 3] = ["bright_red", "red", "orange"];
        let r = self.get(&names, self.accent());
        assert(names@.map_values(|n: &str| n@) =~= seq!["bright_red"@, "red"@, "orange"@]);
        r
    }

    pub fn is_dark(&self) -> (r: bool)
        ensures
            r == (self.theme_mode() == Mode::Dark),
    {
        self.mode == Mode::Dark
    }

    /// Every colour, each name once, for emitting `@define-color` variables.
    pub fn iter(&self) -> (r: Vec<(String, Rgb)>)
        ensures
            keys_distinct(r@),
            pairs_map(r@) == self.colors_map(),
    {
        proof {
            use_type_invariant(self);
        }
        let mut out: Vec<(String, Rgb)> = Vec::new();
        let mut i: usize = 0;
        while i < self.colors.len()
            invariant
                i <= self.colors@.len(),
                keys_distinct(self.colors@),
                out@.len() == i,
                forall|j: int| 0 <= j < i ==> out@[j].0@ == self.colors@[j].0@ && out@[j].1
                    == self.colors@[j].1,
            decreases self.colors.len() - i,
        {
            let name = self.colors[i].0.clone();
            out.push((name, self.colors[i].1));
            i = i + 1;
        }
        proof {
            lemma_pairs_map_views(out@, self.colors@);
        }
        out
    }

    /// A palette from `colors.toml`'s entries, each key with its value when
    /// that value is a string, under the theme name `name`.
    pub fn from_entries(name: String, entries: &Vec<(String, Option<String>)>) -> (r: Palette)
        ensures
            r.theme_name() == name@,
            r.theme_mode() == mode_from(entry_views(entries@)),
            r.colors_map() == colors_from(entry_views(entries@)),
    {
        let ghost ev = entry_views(entries@);
        let mut colors: Vec<(String, Rgb)> = Vec::new();
        let mut mode = Mode::Dark;
        let mut i: usize = 0;
        assert(ev.take(0) =~= Seq::<(Seq<char>, Option<Seq<char>>)>::empty());
        while i < entries.len()
            invariant
                i <= entries@.len(),
                ev == entry_views(entries@),
                keys_distinct(colors@),
                pairs_map(colors@) == colors_from(ev.take(i as int)),
                mode == mode_from(ev.take(i as int)),
            decreases entries.len() - i,
        {
            assert(ev.take(i + 1).drop_last() =~= ev.take(i as int));
            let (k, v) = (&entries[i].0, &entries[i].1);
            let is_mode = seq_eq(&chars_of(k.as_str()), &chars_of("mode"));
            if is_mode {
                mode = match v {
                    Some(m) => if seq_eq(&chars_of(m.as_str()), &chars_of("light")) {
                        Mode::Light
                    } else {
                        Mode::Dark
                    },
                    None => Mode::Dark,
                };
            } else {
                match v {
                    Some(text) => match Rgb::parse(text.as_str()) {
                        Some(c) => put_colour(&mut colors, k.clone(), c),
                        None => {},
                    },
                    None => {},
                }
            }
            i = i + 1;
        }
        assert(ev.take(entries.len() as int) =~= ev);
        Palette { name, mode, colors }
    }

    /// The palette in a `colors.toml` text, named `name`; `None` when the
    /// text is not TOML.
    pub fn parse(name: String, text: &str) -> (r: Option<Palette>)
        ensures
            match toml_strings(text@) {
                Some(es) => r matches Some(p) && p.theme_name() == name@ && p.theme_mode() == mode_from(es)
                    && p.colors_map() == colors_from(es),
                None => r is None,
            },
    {
        match table_strings(text) {
            Some(entries) => Some(Palette::from_entries(name, &entries)),
            None => None,
        }
    }
}

proof fn lemma_pairs_map_views(a: Seq<(String, Rgb)>, b: Seq<(String, Rgb)>)
    requires
        a.len() == b.len(),
        keys_distinct(b),
        forall|j: int| 0 <= j < a.len() ==> a[j].0@ == b[j].0@ && a[j].1 == b[j].1,
    ensures
        keys_distinct(a),
        pairs_map(a) == pairs_map(b),
    decreases a.len(),
{
    if a.len() > 0 {
        lemma_pairs_map_views(a.drop_last(), b.drop_last());
    }
}

impl Default for Palette {
    /// A neutral dark palette, used when no Omarchy theme can be resolved.
    fn default() -> (r: Palette)
        ensures
            r.theme_name() == "fallback"@,
            r.theme_mode() == Mode::Dark,
            r.colors_map() == fallback_colors(),
    {
        let mut colors: Vec<(String, Rgb)> = Vec::new();
        put_colour(&mut colors, crate::text::string_of(&chars_of("background")), Rgb { r: 0x14, g: 0x15, b: 0x1e });
        put_colour(&mut colors, crate::text::string_of(&chars_of("foreground")), Rgb { r: 0xc8, g: 0xcc, b: 0xd4 });
        put_colour(&mut colors, crate::text::string_of(&chars_of("accent")), Rgb { r: 0x7a, g: 0xa2, b: 0xf7 });
        Palette { name: crate::text::string_of(&chars_of("fallback")), mode: Mode::Dark, colors }
    }
}

impl Palette {
    /// The palette of the active Omarchy theme when one could be read, or
    /// else the fallback palette.
    pub fn current(found: Option<Palette>) -> (r: Palette)
        ensures
            match found {
                Some(p) => r == p,
                None => r.theme_name() == "fallback"@ && r.theme_mode() == Mode::Dark
                    && r.colors_map() == fallback_colors(),
            },
    {
        match found {
            Some(p) => p,
            None => Palette::default(),
        }
    }
}

/// The icon theme named in a theme's `icons.theme`, if it names one.
pub fn icon_theme_name(contents: &str) -> (r: Option<String>)
    ensures
        match r {
            Some(n) => trim(contents@).len() > 0 && n@ == trim(contents@),
            None => trim(contents@).len() == 0,
        },
{
    let t = trim_vec(&chars_of(contents));
    if t.len() == 0 {
        None
    } else {
        Some(crate::text::string_of(&t))
    }
}

} // verus!
