//! Colour and gradient handling.
//!
//! A gradient string is either a single colour (`#rgb`, `#rrggbb`,
//! `rgb(r, g, b)`) or a CSS `linear-gradient(...)` whose `%`-positioned stops
//! are interpolated into a palette of a requested size.  Stop positions are
//! held in integer units of one hundred-thousandth of the span (a percent
//! value with three decimal places), so palettes are reproducible exactly.

use vstd::prelude::*;

verus! {

use vstd::math::min;

/// One sRGB colour, 8 bits per channel.
#[derive(PartialEq, Eq, Structural, Clone, Copy, Debug)]
pub struct Rgb {
    pub r: u8,
    pub g: u8,
    pub b: u8,
}

/// One gradient stop: a colour at a position measured in units of
/// 1/100000 of the gradient span (percent with three decimals).
#[derive(PartialEq, Eq, Structural, Clone, Copy, Debug)]
pub struct ColorStop {
    pub position: u32,
    pub color: Rgb,
}

/// Position units corresponding to 100%.
pub const POS_FULL: u32 = 100000;

/// Ceiling on a parsed stop position, a shade over 1000%.
pub const POS_CAP: u32 = 1000999;

pub open spec fn spec_is_digit(c: char) -> bool {
    '0' <= c && c <= '9'
}

pub open spec fn spec_digit_val(c: char) -> int {
    c as int - '0' as int
}

pub open spec fn spec_is_hex_digit(c: char) -> bool {
    spec_is_digit(c) || ('a' <= c && c <= 'f') || ('A' <= c && c <= 'F')
}

pub open spec fn spec_hex_val(c: char) -> int {
    if spec_is_digit(c) {
        spec_digit_val(c)
    } else if 'a' <= c && c <= 'f' {
        c as int - 'a' as int + 10
    } else {
        c as int - 'A' as int + 10
    }
}

pub open spec fn spec_is_space(c: char) -> bool {
    c == ' ' || c == '\t'
}

fn is_digit(c: char) -> (r: bool)
    ensures
        r == spec_is_digit(c),
{
    '0' <= c && c <= '9'
}

fn digit_val(c: char) -> (r: u32)
    requires
        spec_is_digit(c),
    ensures
        r == spec_digit_val(c),
        r <= 9,
{
    c as u32 - '0' as u32
}

fn is_hex_digit(c: char) -> (r: bool)
    ensures
        r == spec_is_hex_digit(c),
{
    ('0' <= c && c <= '9') || ('a' <= c && c <= 'f') || ('A' <= c && c <= 'F')
}

fn hex_val(c: char) -> (r: u32)
    requires
        spec_is_hex_digit(c),
    ensures
        r == spec_hex_val(c),
        r <= 15,
{
    if '0' <= c && c <= '9' {
        c as u32 - '0' as u32
    } else if 'a' <= c && c <= 'f' {
        c as u32 - 'a' as u32 + 10
    } else {
        c as u32 - 'A' as u32 + 10
    }
}

fn is_space(c: char) -> (r: bool)
    ensures
        r == spec_is_space(c),
{
    c == ' ' || c == '\t'
}

/// The characters of `s`, one per element.
pub fn chars_of(s: &str) -> (v: Vec<char>)
    ensures
        v@ == s@,
{
    let n = s.unicode_len();
    let mut v: Vec<char> = Vec::new();
    let mut i: usize = 0;
    while i < n
        invariant
            n == s@.len(),
            i <= n,
            v@ == s@.subrange(0, i as int),
        decreases n - i,
    {
        v.push(s.get_char(i));
        proof {
            assert(v@ =~= s@.subrange(0, i + 1));
        }
        i += 1;
    }
    proof {
        assert(v@ =~= s@);
    }
    v
}

/// Index of the first non-blank character of `s` at or after `i`.
pub open spec fn spec_skip_spaces(s: Seq<char>, i: int) -> int
    decreases s.len() - i,
{
    if 0 <= i < s.len() && spec_is_space(s[i]) {
        spec_skip_spaces(s, i + 1)
    } else {
        i
    }
}

proof fn lemma_skip_spaces_range(s: Seq<char>, i: int)
    requires
        0 <= i <= s.len(),
    ensures
        i <= spec_skip_spaces(s, i) <= s.len(),
    decreases s.len() - i,
{
    if i < s.len() && spec_is_space(s[i]) {
        lemma_skip_spaces_range(s, i + 1);
    }
}

fn skip_spaces(v: &Vec<char>, i: usize) -> (j: usize)
    requires
        i <= v.len(),
    ensures
        j == spec_skip_spaces(v@, i as int),
        i <= j <= v@.len(),
    decreases v@.len() - i,
{
    proof {
        lemma_skip_spaces_range(v@, i as int);
    }
    if i < v.len() && is_space(v[i]) {
        skip_spaces(v, i + 1)
    } else {
        i
    }
}

/// Index just past the trailing blanks of `s` before `i`.
pub open spec fn spec_trim_end(s: Seq<char>, i: int) -> int
    decreases i,
{
    if 0 < i <= s.len() && spec_is_space(s[i - 1]) {
        spec_trim_end(s, i - 1)
    } else {
        i
    }
}

proof fn lemma_trim_end_range(s: Seq<char>, i: int)
    requires
        0 <= i <= s.len(),
    ensures
        0 <= spec_trim_end(s, i) <= i,
    decreases i,
{
    if 0 < i && spec_is_space(s[i - 1]) {
        lemma_trim_end_range(s, i - 1);
    }
}

fn trim_end(v: &Vec<char>, i: usize) -> (j: usize)
    requires
        i <= v.len(),
    ensures
        j == spec_trim_end(v@, i as int),
        j <= i,
    decreases i,
{
    proof {
        lemma_trim_end_range(v@, i as int);
    }
    if 0 < i && is_space(v[i - 1]) {
        trim_end(v, i - 1)
    } else {
        i
    }
}

/// The colour written by six hex digits starting at `i` (no `#`).
pub open spec fn spec_hex6_color(s: Seq<char>, i: int) -> Rgb {
    Rgb {
        r: (spec_hex_val(s[i]) * 16 + spec_hex_val(s[i + 1])) as u8,
        g: (spec_hex_val(s[i + 2]) * 16 + spec_hex_val(s[i + 3])) as u8,
        b: (spec_hex_val(s[i + 4]) * 16 + spec_hex_val(s[i + 5])) as u8,
    }
}

/// The colour written by three hex digits starting at `i`: each digit is
/// doubled, so `#fff` is white.
pub open spec fn spec_hex3_color(s: Seq<char>, i: int) -> Rgb {
    Rgb {
        r: (spec_hex_val(s[i]) * 17) as u8,
        g: (spec_hex_val(s[i + 1]) * 17) as u8,
        b: (spec_hex_val(s[i + 2]) * 17) as u8,
    }
}

pub open spec fn spec_all_hex(s: Seq<char>, i: int, n: int) -> bool {
    forall|k: int| i <= k < i + n ==> spec_is_hex_digit(#[trigger] s[k])
}

fn all_hex(v: &Vec<char>, i: usize, n: usize) -> (r: bool)
    requires
        i + n <= v.len(),
    ensures
        r == spec_all_hex(v@, i as int, n as int),
{
    let mut k: usize = 0;
    while k < n
        invariant
            i + n <= v.len(),
            k <= n,
            forall|t: int| i <= t < i + k ==> spec_is_hex_digit(#[trigger] v@[t]),
        decreases n - k,
    {
        if !is_hex_digit(v[i + k]) {
            return false;
        }
        k += 1;
    }
    true
}

fn hex6_color(v: &Vec<char>, i: usize) -> (c: Rgb)
    requires
        i + 6 <= v.len(),
        spec_all_hex(v@, i as int, 6),
    ensures
        c == spec_hex6_color(v@, i as int),
{
    Rgb {
        r: (hex_val(v[i]) * 16 + hex_val(v[i + 1])) as u8,
        g: (hex_val(v[i + 2]) * 16 + hex_val(v[i + 3])) as u8,
        b: (hex_val(v[i + 4]) * 16 + hex_val(v[i + 5])) as u8,
    }
}

fn hex3_color(v: &Vec<char>, i: usize) -> (c: Rgb)
    requires
        i + 3 <= v.len(),
        spec_all_hex(v@, i as int, 3),
    ensures
        c == spec_hex3_color(v@, i as int),
{
    Rgb { r: (hex_val(v[i]) * 17) as u8, g: (hex_val(v[i + 1]) * 17) as u8, b: (hex_val(v[i + 2])
        * 17) as u8 }
}

/// Accumulates decimal digits from `i`, clamping the value at `cap`.
/// Returns the value and the index of the first non-digit.
pub open spec fn spec_take_int(s: Seq<char>, i: int, acc: int, cap: int) -> (int, int)
    decreases s.len() - i,
{
    if 0 <= i < s.len() && spec_is_digit(s[i]) {
        spec_take_int(s, i + 1, min(acc * 10 + spec_digit_val(s[i]), cap), cap)
    } else {
        (acc, i)
    }
}

proof fn lemma_take_int_range(s: Seq<char>, i: int, acc: int, cap: int)
    requires
        0 <= i <= s.len(),
        0 <= acc <= cap,
    ensures
        ({
            let (v, j) = spec_take_int(s, i, acc, cap);
            0 <= v <= cap && i <= j <= s.len()
        }),
    decreases s.len() - i,
{
    if i < s.len() && spec_is_digit(s[i]) {
        lemma_take_int_range(s, i + 1, min(acc * 10 + spec_digit_val(s[i]), cap), cap);
    }
}

fn take_int(v: &Vec<char>, i: usize, acc: u32, cap: u32) -> (r: (u32, usize))
    requires
        i <= v.len(),
        acc <= cap,
        cap <= 100000000,
    ensures
        (r.0 as int, r.1 as int) == spec_take_int(v@, i as int, acc as int, cap as int),
        r.0 <= cap,
        i <= r.1 <= v@.len(),
    decreases v@.len() - i,
{
    proof {
        lemma_take_int_range(v@, i as int, acc as int, cap as int);
    }
    if i < v.len() && is_digit(v[i]) {
        let d = digit_val(v[i]);
        let grown = acc * 10 + d;
        let next = if grown > cap {
            cap
        } else {
            grown
        };
        take_int(v, i + 1, next, cap)
    } else {
        (acc, i)
    }
}

/// The fractional digits after a decimal point, read most-significant first
/// with weights 100, 10, 1; digits beyond the third are read and discarded.
/// Returns the fraction in thousandths and the index of the first non-digit.
pub open spec fn spec_take_frac(s: Seq<char>, i: int, mult: int) -> (int, int)
    decreases s.len() - i,
{
    if 0 <= i < s.len() && spec_is_digit(s[i]) {
        let rest = spec_take_frac(s, i + 1, mult / 10);
        (spec_digit_val(s[i]) * mult + rest.0, rest.1)
    } else {
        (0, i)
    }
}

proof fn lemma_take_frac_range(s: Seq<char>, i: int, mult: int)
    requires
        0 <= i <= s.len(),
        mult == 100 || mult == 10 || mult == 1 || mult == 0,
    ensures
        ({
            let (f, j) = spec_take_frac(s, i, mult);
            0 <= f <= mult * 10 - (if mult > 0 { 1int } else { 0int }) && i <= j <= s.len()
        }),
    decreases s.len() - i,
{
    if i < s.len() && spec_is_digit(s[i]) {
        lemma_take_frac_range(s, i + 1, mult / 10);
    }
}

fn take_frac(v: &Vec<char>, i: usize, mult: u32) -> (r: (u32, usize))
    requires
        i <= v.len(),
        mult == 100 || mult == 10 || mult == 1 || mult == 0,
    ensures
        (r.0 as int, r.1 as int) == spec_take_frac(v@, i as int, mult as int),
        r.0 <= 999,
        i <= r.1 <= v@.len(),
    decreases v@.len() - i,
{
    proof {
        lemma_take_frac_range(v@, i as int, mult as int);
    }
    if i < v.len() && is_digit(v[i]) {
        let d = digit_val(v[i]);
        let rest = take_frac(v, i + 1, mult / 10);
        (d * mult + rest.0, rest.1)
    } else {
        (0, i)
    }
}

/// A percent number at `i`: digits, an optional dot with more digits, then
/// `%`.  Yields the position in units of 1/100000 of the span (clamped at
/// 1000%) and the index just past the `%`.
pub open spec fn spec_percent_at(s: Seq<char>, i: int) -> Option<(u32, int)> {
    let (ip, j) = spec_take_int(s, i, 0, 1000);
    if j < s.len() && s[j] == '.' {
        let (frac, e) = spec_take_frac(s, j + 1, 100);
        if (j > i || e > j + 1) && e < s.len() && s[e] == '%' {
            Some((((ip * 1000 + frac)) as u32, e + 1))
        } else {
            None
        }
    } else {
        if j > i && j < s.len() && s[j] == '%' {
            Some(((ip * 1000) as u32, j + 1))
        } else {
            None
        }
    }
}

fn percent_at(v: &Vec<char>, i: usize) -> (r: Option<(u32, usize)>)
    requires
        i <= v.len(),
    ensures
        match r {
            Some((val, e)) => spec_percent_at(v@, i as int) == Some((val, e as int)) && i < e
                <= v@.len() && val <= POS_CAP,
            None => spec_percent_at(v@, i as int) is None,
        },
{
    proof {
        lemma_take_int_range(v@, i as int, 0, 1000);
    }
    let (ip, j) = take_int(v, i, 0, 1000);
    if j < v.len() && v[j] == '.' {
        let (frac, e) = take_frac(v, j + 1, 100);
        if (j > i || e > j + 1) && e < v.len() && v[e] == '%' {
            Some((ip * 1000 + frac, e + 1))
        } else {
            None
        }
    } else {
        if j > i && j < v.len() && v[j] == '%' {
            Some((ip * 1000, j + 1))
        } else {
            None
        }
    }
}

/// An `rgb(r, g, b)` colour written at `i`: each component is decimal and at
/// most 255.  Yields the colour and the index just past the `)`.
pub open spec fn spec_rgb_at(s: Seq<char>, i: int) -> Option<(Rgb, int)> {
    if i + 4 <= s.len() && s[i] == 'r' && s[i + 1] == 'g' && s[i + 2] == 'b' && s[i + 3] == '(' {
        let p0 = spec_skip_spaces(s, i + 4);
        let (rv, r1) = spec_take_int(s, p0, 0, 256);
        let c1 = spec_skip_spaces(s, r1);
        let p1 = spec_skip_spaces(s, c1 + 1);
        let (gv, g1) = spec_take_int(s, p1, 0, 256);
        let c2 = spec_skip_spaces(s, g1);
        let p2 = spec_skip_spaces(s, c2 + 1);
        let (bv, b1) = spec_take_int(s, p2, 0, 256);
        let c3 = spec_skip_spaces(s, b1);
        if r1 > p0 && rv <= 255 && c1 < s.len() && s[c1] == ',' && g1 > p1 && gv <= 255 && c2
            < s.len() && s[c2] == ',' && b1 > p2 && bv <= 255 && c3 < s.len() && s[c3] == ')' {
            Some((Rgb { r: rv as u8, g: gv as u8, b: bv as u8 }, c3 + 1))
        } else {
            None
        }
    } else {
        None
    }
}

fn rgb_at(v: &Vec<char>, i: usize) -> (r: Option<(Rgb, usize)>)
    requires
        i <= v.len(),
    ensures
        match r {
            Some((c, e)) => spec_rgb_at(v@, i as int) == Some((c, e as int)) && i < e <= v@.len(),
            None => spec_rgb_at(v@, i as int) is None,
        },
{
    if i < v.len() && v.len() - i >= 4 && v[i] == 'r' && v[i + 1] == 'g' && v[i + 2] == 'b' && v[i + 3] == '(' {
        let p0 = skip_spaces(v, i + 4);
        let (rv, r1) = take_int(v, p0, 0, 256);
        let c1 = skip_spaces(v, r1);
        if !(c1 < v.len() && v[c1] == ',' && r1 > p0 && rv <= 255) {
            return None;
        }
        let p1 = skip_spaces(v, c1 + 1);
        let (gv, g1) = take_int(v, p1, 0, 256);
        let c2 = skip_spaces(v, g1);
        if !(c2 < v.len() && v[c2] == ',' && g1 > p1 && gv <= 255) {
            return None;
        }
        let p2 = skip_spaces(v, c2 + 1);
        let (bv, b1) = take_int(v, p2, 0, 256);
        let c3 = skip_spaces(v, b1);
        if !(c3 < v.len() && v[c3] == ')' && b1 > p2 && bv <= 255) {
            return None;
        }
        Some((Rgb { r: rv as u8, g: gv as u8, b: bv as u8 }, c3 + 1))
    } else {
        None
    }
}

/// A colour stop at `i`: a hex or `rgb(...)` colour, one or more blanks, then
/// a percent position.  Yields the stop and the index just past the `%`.
pub open spec fn spec_stop_at(s: Seq<char>, i: int) -> Option<(ColorStop, int)> {
    if i < s.len() && s[i] == '#' {
        if i + 7 <= s.len() && spec_all_hex(s, i + 1, 6) && spec_skip_spaces(s, i + 7) > i + 7 {
            match spec_percent_at(s, spec_skip_spaces(s, i + 7)) {
                Some((pos, e)) => Some(
                    (ColorStop { position: pos, color: spec_hex6_color(s, i + 1) }, e),
                ),
                None => None,
            }
        } else if i + 4 <= s.len() && spec_all_hex(s, i + 1, 3) && spec_skip_spaces(s, i + 4) > i
            + 4 {
            match spec_percent_at(s, spec_skip_spaces(s, i + 4)) {
                Some((pos, e)) => Some(
                    (ColorStop { position: pos, color: spec_hex3_color(s, i + 1) }, e),
                ),
                None => None,
            }
        } else {
            None
        }
    } else {
        match spec_rgb_at(s, i) {
            Some((c, ce)) => {
                if spec_skip_spaces(s, ce) > ce {
                    match spec_percent_at(s, spec_skip_spaces(s, ce)) {
                        Some((pos, e)) => Some((ColorStop { position: pos, color: c }, e)),
                        None => None,
                    }
                } else {
                    None
                }
            },
            None => None,
        }
    }
}

fn stop_at(v: &Vec<char>, i: usize) -> (r: Option<(ColorStop, usize)>)
    requires
        i <= v.len(),
    ensures
        match r {
            Some((st, e)) => spec_stop_at(v@, i as int) == Some((st, e as int)) && i < e
                <= v@.len(),
            None => spec_stop_at(v@, i as int) is None,
        },
{
    if i < v.len() && v[i] == '#' {
        if v.len() - i >= 7 && all_hex(v, i + 1, 6) {
            let w = skip_spaces(v, i + 7);
            if w > i + 7 {
                match percent_at(v, w) {
                    Some((pos, e)) => {
                        return Some((ColorStop { position: pos, color: hex6_color(v, i + 1) }, e));
                    },
                    None => {
                        return None;
                    },
                }
            }
        }
        if v.len() - i >= 4 && all_hex(v, i + 1, 3) {
            let w = skip_spaces(v, i + 4);
            if w > i + 4 {
                match percent_at(v, w) {
                    Some((pos, e)) => {
                        return Some((ColorStop { position: pos, color: hex3_color(v, i + 1) }, e));
                    },
                    None => {
                        return None;
                    },
                }
            }
        }
        None
    } else {
        match rgb_at(v, i) {
            Some((c, ce)) => {
                let w = skip_spaces(v, ce);
                if w > ce {
                    match percent_at(v, w) {
                        Some((pos, e)) => Some((ColorStop { position: pos, color: c }, e)),
                        None => None,
                    }
                } else {
                    None
                }
            },
            None => None,
        }
    }
}

/// Every `%`-positioned colour stop found in `s` from position `i` on, in
/// text order.
pub open spec fn spec_scan_from(s: Seq<char>, i: int) -> Seq<ColorStop>
    decreases s.len() - i,
{
    if i < 0 || i >= s.len() {
        Seq::empty()
    } else {
        match spec_stop_at(s, i) {
            Some((st, e)) => {
                if i < e <= s.len() {
                    seq![st] + spec_scan_from(s, e)
                } else {
                    spec_scan_from(s, i + 1)
                }
            },
            None => spec_scan_from(s, i + 1),
        }
    }
}

fn scan_stops(v: &Vec<char>) -> (r: Vec<ColorStop>)
    ensures
        r@ == spec_scan_from(v@, 0),
{
    let mut r: Vec<ColorStop> = Vec::new();
    let mut i: usize = 0;
    while i < v.len()
        invariant
            i <= v@.len(),
            spec_scan_from(v@, 0) == r@ + spec_scan_from(v@, i as int),
        decreases v@.len() - i,
    {
        match stop_at(v, i) {
            Some((st, e)) => {
                r.push(st);
                i = e;
            },
            None => {
                i += 1;
            },
        }
    }
    proof {
        assert(spec_scan_from(v@, i as int) =~= Seq::<ColorStop>::empty());
        assert(r@ + spec_scan_from(v@, i as int) =~= r@);
    }
    r
}


/// Orders stops by position; a stop whose position ties an earlier one stays
/// behind it.  Written as insertion from the right.
pub open spec fn spec_insert_stop(x: ColorStop, s: Seq<ColorStop>) -> Seq<ColorStop>
    decreases s.len(),
{
    if s.len() == 0 {
        seq![x]
    } else if x.position < s.last().position {
        spec_insert_stop(x, s.drop_last()) + seq![s.last()]
    } else {
        s + seq![x]
    }
}

/// The stops of `s` ordered by position, keeping text order among ties.
pub open spec fn spec_sort_stops(s: Seq<ColorStop>) -> Seq<ColorStop>
    decreases s.len(),
{
    if s.len() == 0 {
        Seq::empty()
    } else {
        spec_insert_stop(s.last(), spec_sort_stops(s.drop_last()))
    }
}

/// Adjacent stops are ordered by position.
pub open spec fn spec_sorted_stops(s: Seq<ColorStop>) -> bool {
    forall|i: int| 0 <= i < s.len() - 1 ==> (#[trigger] s[i]).position <= s[i + 1].position
}

proof fn lemma_insert_stop_len(x: ColorStop, s: Seq<ColorStop>)
    ensures
        spec_insert_stop(x, s).len() == s.len() + 1,
    decreases s.len(),
{
    if s.len() > 0 && x.position < s.last().position {
        lemma_insert_stop_len(x, s.drop_last());
    }
}

proof fn lemma_insert_stop_sorted(x: ColorStop, s: Seq<ColorStop>)
    requires
        spec_sorted_stops(s),
    ensures
        spec_sorted_stops(spec_insert_stop(x, s)),
    decreases s.len(),
{
    lemma_insert_stop_len(x, s);
    if s.len() == 0 {
    } else if x.position < s.last().position {
        lemma_insert_stop_len(x, s.drop_last());
        assert(spec_sorted_stops(s.drop_last()));
        lemma_insert_stop_sorted(x, s.drop_last());
        let r = spec_insert_stop(x, s.drop_last()) + seq![s.last()];
        let inner = spec_insert_stop(x, s.drop_last());
        assert(inner.last().position <= s.last().position) by {
            lemma_insert_stop_last(x, s.drop_last());
            if s.len() >= 2 {
                assert(s.drop_last().last() == s[s.len() - 2]);
                assert(s[s.len() - 2].position <= s.last().position);
            }
        }
        assert forall|i: int| 0 <= i < r.len() - 1 implies (#[trigger] r[i]).position <= r[i
            + 1].position by {
            if i < inner.len() - 1 {
                assert(inner[i].position <= inner[i + 1].position);
            }
        }
    } else {
        let r = s + seq![x];
        assert forall|i: int| 0 <= i < r.len() - 1 implies (#[trigger] r[i]).position <= r[i
            + 1].position by {
            if i < s.len() - 1 {
                assert(s[i].position <= s[i + 1].position);
            }
        }
    }
}

/// The last element of an insertion is the larger of the inserted stop and
/// the old last stop.
proof fn lemma_insert_stop_last(x: ColorStop, s: Seq<ColorStop>)
    ensures
        spec_insert_stop(x, s).last() == x || (s.len() > 0 && spec_insert_stop(x, s).last()
            == s.last()),
        spec_insert_stop(x, s).last().position >= x.position,
    decreases s.len(),
{
    lemma_insert_stop_len(x, s);
    if s.len() > 0 && x.position < s.last().position {
        lemma_insert_stop_len(x, s.drop_last());
    }
}

/// Sorting keeps a list that is already ordered exactly as it is.
pub proof fn lemma_sort_sorted_identity(s: Seq<ColorStop>)
    requires
        spec_sorted_stops(s),
    ensures
        spec_sort_stops(s) == s,
    decreases s.len(),
{
    if s.len() > 0 {
        assert(spec_sorted_stops(s.drop_last()));
        lemma_sort_sorted_identity(s.drop_last());
        if s.len() >= 2 {
            assert(s.drop_last().last() == s[s.len() - 2]);
            assert(s[s.len() - 2].position <= s.last().position);
        }
        assert(spec_insert_stop(s.last(), s.drop_last()) =~= s);
    } else {
        assert(spec_sort_stops(s) =~= s);
    }
}

proof fn lemma_sort_stops_sorted(s: Seq<ColorStop>)
    ensures
        spec_sorted_stops(spec_sort_stops(s)),
    decreases s.len(),
{
    if s.len() > 0 {
        lemma_sort_stops_sorted(s.drop_last());
        lemma_insert_stop_sorted(s.last(), spec_sort_stops(s.drop_last()));
    }
}

/// Inserts `x` into the ordered list `out`, scanning from the right.
fn insert_stop(out: &mut Vec<ColorStop>, x: ColorStop)
    ensures
        (final(out))@ == spec_insert_stop(x, (old(out))@),
{
    let mut j: usize = out.len();
    proof {
        assert(out@.take(out@.len() as int) =~= out@);
        assert(spec_insert_stop(x, out@.take(out@.len() as int)) + out@.skip(out@.len() as int)
            =~= spec_insert_stop(x, out@));
    }
    while j > 0 && out[j - 1].position > x.position
        invariant
            j <= out@.len(),
            out@ == old(out)@,
            spec_insert_stop(x, out@) == spec_insert_stop(x, out@.take(j as int)) + out@.skip(j as int),
        decreases j,
    {
        proof {
            let t = out@.take(j as int);
            assert(t.last() == out@[j - 1]);
            assert(t.drop_last() =~= out@.take(j - 1));
            assert(spec_insert_stop(x, out@.take(j - 1)) + seq![out@[j - 1]] + out@.skip(j as int)
                =~= spec_insert_stop(x, out@.take(j - 1)) + out@.skip(j - 1));
        }
        j -= 1;
    }
    proof {
        let t = out@.take(j as int);
        if j > 0 {
            assert(t.last() == out@[j - 1]);
            assert(!(x.position < t.last().position));
            assert(spec_insert_stop(x, t) == t + seq![x]);
        } else {
            assert(t =~= Seq::<ColorStop>::empty());
        }
        assert(spec_insert_stop(x, out@) =~= out@.take(j as int) + seq![x] + out@.skip(j as int));
        assert(out@.insert(j as int, x) =~= out@.take(j as int) + seq![x] + out@.skip(j as int));
    }
    out.insert(j, x);
}


pub fn order_stops(stops: &Vec<ColorStop>) -> (out: Vec<ColorStop>)
    ensures
        out@ == spec_sort_stops(stops@),
        spec_sorted_stops(out@),
{
    proof {
        lemma_sort_stops_sorted(stops@);
    }
    let mut out: Vec<ColorStop> = Vec::new();
    let mut i: usize = 0;
    while i < stops.len()
        invariant
            i <= stops@.len(),
            out@ == spec_sort_stops(stops@.take(i as int)),
        decreases stops@.len() - i,
    {
        insert_stop(&mut out, stops[i]);
        proof {
            let t = stops@.take(i + 1);
            assert(t.drop_last() =~= stops@.take(i as int));
            assert(t.last() == stops@[i as int]);
        }
        i += 1;
    }
    proof {
        assert(stops@.take(stops@.len() as int) =~= stops@);
    }
    out
}


/// Index of the first stop at or past `pos`, starting the search at `j`;
/// the last stop when none qualifies.
pub open spec fn spec_find_stop_from(s: Seq<ColorStop>, pos: int, j: int) -> int
    decreases s.len() - j,
{
    if j < 0 || j >= s.len() {
        s.len() - 1
    } else if s[j].position >= pos {
        j
    } else {
        spec_find_stop_from(s, pos, j + 1)
    }
}

/// One channel interpolated between stop values `sc` and `ec`, at offset `t`
/// of a span `d`; past the span the line is extended and clamped to 0..=255.
pub open spec fn spec_interp_channel(sc: int, ec: int, t: int, d: int) -> u8 {
    if t <= d {
        ((sc * (d - t) + ec * t) / d) as u8
    } else if ec * t >= sc * (t - d) {
        let v = (ec * t - sc * (t - d)) / d;
        if v > 255 {
            255u8
        } else {
            v as u8
        }
    } else {
        0u8
    }
}

/// The palette colour at output index `i` of `size`, interpolated between
/// the two stops that bracket the index's position.
pub open spec fn spec_palette_color(stops: Seq<ColorStop>, size: int, i: int) -> Rgb {
    let denom = if size - 1 > 0 {
        size - 1
    } else {
        1
    };
    let pos = i * (POS_FULL as int) / denom;
    let e = spec_find_stop_from(stops, pos, 0);
    let st = if e > 0 {
        e - 1
    } else {
        0
    };
    let sp = stops[st];
    let ep = stops[e];
    if ep.position == sp.position {
        sp.color
    } else {
        let t = pos - sp.position;
        let d = ep.position - sp.position;
        Rgb {
            r: spec_interp_channel(sp.color.r as int, ep.color.r as int, t, d),
            g: spec_interp_channel(sp.color.g as int, ep.color.g as int, t, d),
            b: spec_interp_channel(sp.color.b as int, ep.color.b as int, t, d),
        }
    }
}

/// The palette generated from ordered stops: empty input gives an empty
/// palette, a single stop a solid one, several stops an interpolation.
pub open spec fn spec_generate_palette(stops: Seq<ColorStop>, size: int) -> Seq<Rgb> {
    if stops.len() == 0 || size <= 0 {
        Seq::empty()
    } else if stops.len() == 1 {
        Seq::new(size as nat, |i: int| stops[0].color)
    } else {
        Seq::new(size as nat, |i: int| spec_palette_color(stops, size, i))
    }
}

/// A palette of `size` copies of one colour.
pub open spec fn spec_solid(c: Rgb, size: int) -> Seq<Rgb> {
    Seq::new(if size >= 0 {
        size as nat
    } else {
        0
    }, |i: int| c)
}

fn solid(c: Rgb, size: usize) -> (out: Vec<Rgb>)
    ensures
        out@ == spec_solid(c, size as int),
{
    let mut out: Vec<Rgb> = Vec::new();
    let mut i: usize = 0;
    while i < size
        invariant
            i <= size,
            out@.len() == i,
            forall|k: int| 0 <= k < i ==> out@[k] == c,
        decreases size - i,
    {
        out.push(c);
        i += 1;
    }
    proof {
        assert(out@ =~= spec_solid(c, size as int));
    }
    out
}

fn interp_channel(sc: u8, ec: u8, t: u32, d: u32) -> (r: u8)
    requires
        1 <= d <= POS_CAP,
        t <= POS_CAP,
    ensures
        r == spec_interp_channel(sc as int, ec as int, t as int, d as int),
{
    let scl = sc as u64;
    let ecl = ec as u64;
    let tl = t as u64;
    let dl = d as u64;
    if tl <= dl {
        proof {
            assert(scl * (dl - tl) <= 255 * (dl - tl)) by (nonlinear_arith)
                requires
                    scl <= 255,
                    tl <= dl,
            ;
            assert(ecl * tl <= 255 * tl) by (nonlinear_arith)
                requires
                    ecl <= 255,
            ;
        }
        let num = scl * (dl - tl) + ecl * tl;
        proof {
            assert(num <= 255 * dl);
            crate::fixp::lemma_div_le_const(num as int, 255, dl as int);
        }
        (num / dl) as u8
    } else {
        proof {
            assert(ecl * tl <= 255 * tl) by (nonlinear_arith)
                requires
                    ecl <= 255,
            ;
            assert(scl * (tl - dl) <= 255 * tl) by (nonlinear_arith)
                requires
                    scl <= 255,
                    dl >= 0,
            ;
        }
        let hi = ecl * tl;
        let lo = scl * (tl - dl);
        if hi >= lo {
            let v = (hi - lo) / dl;
            if v > 255 {
                255u8
            } else {
                v as u8
            }
        } else {
            0u8
        }
    }
}

/// The palette interpolated from stops ordered by position.
fn generate_palette(stops: &Vec<ColorStop>, size: usize) -> (out: Vec<Rgb>)
    requires
        spec_sorted_stops(stops@),
        forall|k: int| 0 <= k < stops@.len() ==> (#[trigger] stops@[k]).position <= POS_CAP,
    ensures
        out@ == spec_generate_palette(stops@, size as int),
{
    if stops.len() == 0 || size == 0 {
        let out: Vec<Rgb> = Vec::new();
        proof {
            assert(out@ =~= spec_generate_palette(stops@, size as int));
        }
        return out;
    }
    if stops.len() == 1 {
        let out = solid(stops[0].color, size);
        proof {
            assert(out@ =~= spec_generate_palette(stops@, size as int));
        }
        return out;
    }
    let denom: usize = if size > 1 {
        size - 1
    } else {
        1
    };
    let mut out: Vec<Rgb> = Vec::new();
    let mut i: usize = 0;
    while i < size
        invariant
            i <= size,
            size >= 1,
            denom as int == (if size - 1 > 0 {
                size - 1
            } else {
                1
            }),
            stops@.len() >= 2,
            spec_sorted_stops(stops@),
            forall|k: int| 0 <= k < stops@.len() ==> (#[trigger] stops@[k]).position <= POS_CAP,
            out@.len() == i,
            forall|k: int|
                0 <= k < i ==> out@[k] == spec_palette_color(stops@, size as int, k),
        decreases size - i,
    {
        let pos128 = (i as u128) * (POS_FULL as u128) / (denom as u128);
        proof {
            crate::fixp::lemma_div_le_const(
                (i as int) * (POS_FULL as int),
                POS_FULL as int,
                denom as int,
            );
            assert((i as int) * (POS_FULL as int) <= (denom as int) * (POS_FULL as int))
                by (nonlinear_arith)
                requires i as int <= denom as int && POS_FULL as int >= 0;
        }
        let pos = pos128 as u32;
        let mut j: usize = 0;
        while j < stops.len() && stops[j].position < pos
            invariant
                j <= stops@.len(),
                spec_find_stop_from(stops@, pos as int, 0) == spec_find_stop_from(
                    stops@,
                    pos as int,
                    j as int,
                ),
                forall|k: int| 0 <= k < j ==> (#[trigger] stops@[k]).position < pos,
            decreases stops@.len() - j,
        {
            j += 1;
        }
        let e: usize = if j < stops.len() {
            j
        } else {
            stops.len() - 1
        };
        let st: usize = if e > 0 {
            e - 1
        } else {
            0
        };
        let sp = stops[st];
        let ep = stops[e];
        let c: Rgb = if ep.position == sp.position {
            sp.color
        } else {
            proof {
                assert(sp.position <= ep.position);
                if e > 0 {
                    assert(stops@[e - 1].position < pos);
                }
            }
            let t = pos - sp.position;
            let d = ep.position - sp.position;
            Rgb {
                r: interp_channel(sp.color.r, ep.color.r, t, d),
                g: interp_channel(sp.color.g, ep.color.g, t, d),
                b: interp_channel(sp.color.b, ep.color.b, t, d),
            }
        };
        out.push(c);
        i += 1;
    }
    proof {
        assert(out@ =~= spec_generate_palette(stops@, size as int));
    }
    out
}


/// Whether `s` opens with the text `linear-gradient`.
pub open spec fn spec_is_gradient(s: Seq<char>) -> bool {
    s.len() >= 15 && s[0] == 'l' && s[1] == 'i' && s[2] == 'n' && s[3] == 'e' && s[4] == 'a'
        && s[5] == 'r' && s[6] == '-' && s[7] == 'g' && s[8] == 'r' && s[9] == 'a' && s[10] == 'd'
        && s[11] == 'i' && s[12] == 'e' && s[13] == 'n' && s[14] == 't'
}

fn is_gradient(v: &Vec<char>) -> (r: bool)
    ensures
        r == spec_is_gradient(v@),
{
    v.len() >= 15 && v[0] == 'l' && v[1] == 'i' && v[2] == 'n' && v[3] == 'e' && v[4] == 'a'
        && v[5] == 'r' && v[6] == '-' && v[7] == 'g' && v[8] == 'r' && v[9] == 'a' && v[10] == 'd'
        && v[11] == 'i' && v[12] == 'e' && v[13] == 'n' && v[14] == 't'
}

/// The colour named by a single-colour token after outer blanks are dropped:
/// `#` with six hex digits, `#` with three (doubled) hex digits, or
/// `rgb(r, g, b)` with anything after the closing parenthesis ignored.
pub open spec fn spec_parse_single_color(s: Seq<char>) -> Option<Rgb> {
    let b = spec_skip_spaces(s, 0);
    let e = spec_trim_end(s, s.len() as int);
    if b >= e {
        None
    } else if s[b] == '#' {
        if e - b == 7 && spec_all_hex(s, b + 1, 6) {
            Some(spec_hex6_color(s, b + 1))
        } else if e - b == 4 && spec_all_hex(s, b + 1, 3) {
            Some(spec_hex3_color(s, b + 1))
        } else {
            None
        }
    } else {
        match spec_rgb_at(s, b) {
            Some((c, ce)) => Some(c),
            None => None,
        }
    }
}

fn single_color_of(v: &Vec<char>) -> (r: Option<Rgb>)
    ensures
        r == spec_parse_single_color(v@),
{
    let b = skip_spaces(v, 0);
    let e = trim_end(v, v.len());
    if b >= e {
        None
    } else if v[b] == '#' {
        if e - b == 7 && all_hex(v, b + 1, 6) {
            Some(hex6_color(v, b + 1))
        } else if e - b == 4 && all_hex(v, b + 1, 3) {
            Some(hex3_color(v, b + 1))
        } else {
            None
        }
    } else {
        match rgb_at(v, b) {
            Some((c, _ce)) => Some(c),
            None => None,
        }
    }
}

/// Parses a single colour token: `#rgb`, `#rrggbb` or `rgb(r, g, b)`,
/// with blanks around it allowed.
pub fn parse_single_color(color_str: &str) -> (r: Option<Rgb>)
    ensures
        r == spec_parse_single_color(color_str@),
{
    let v = chars_of(color_str);
    single_color_of(&v)
}

/// The palette a gradient string denotes at a given size: a solid palette
/// for a single colour token (black when it does not parse), black when a
/// `linear-gradient` has no readable stops, and otherwise the interpolation
/// of its stops, ordered by position.
pub open spec fn spec_parse_gradient(s: Seq<char>, size: int) -> Seq<Rgb> {
    if !spec_is_gradient(s) {
        match spec_parse_single_color(s) {
            Some(c) => spec_solid(c, size),
            None => spec_solid(Rgb { r: 0, g: 0, b: 0 }, size),
        }
    } else {
        let stops = spec_sort_stops(spec_scan_from(s, 0));
        if stops.len() == 0 {
            spec_solid(Rgb { r: 0, g: 0, b: 0 }, size)
        } else {
            spec_generate_palette(stops, size)
        }
    }
}

proof fn lemma_scan_positions_bounded(s: Seq<char>, i: int)
    ensures
        forall|k: int|
            0 <= k < spec_scan_from(s, i).len() ==> (#[trigger] spec_scan_from(s, i)[k]).position
                <= POS_CAP,
    decreases s.len() - i,
{
    if i < 0 || i >= s.len() {
        assert(spec_scan_from(s, i) == Seq::<ColorStop>::empty());
    } else {
        match spec_stop_at(s, i) {
            Some((st, e)) => {
                if i < e <= s.len() {
                    lemma_scan_positions_bounded(s, e);
                    lemma_stop_at_position_bounded(s, i);
                    let whole = spec_scan_from(s, i);
                    let tail = spec_scan_from(s, e);
                    assert forall|k: int| 0 <= k < whole.len() implies (#[trigger] whole[k]).position
                        <= POS_CAP by {
                        if k > 0 {
                            assert(whole[k] == tail[k - 1]);
                        } else {
                            assert(whole[k] == st);
                        }
                    }
                } else {
                    lemma_scan_positions_bounded(s, i + 1);
                    assert(spec_scan_from(s, i) == spec_scan_from(s, i + 1));
                }
            },
            None => {
                lemma_scan_positions_bounded(s, i + 1);
                assert(spec_scan_from(s, i) == spec_scan_from(s, i + 1));
            },
        }
    }
}

proof fn lemma_stop_at_position_bounded(s: Seq<char>, i: int)
    ensures
        match spec_stop_at(s, i) {
            Some((st, e)) => st.position <= POS_CAP,
            None => true,
        },
{
    if i < s.len() {
        lemma_percent_bounded(s, spec_skip_spaces(s, i + 7));
        lemma_percent_bounded(s, spec_skip_spaces(s, i + 4));
        match spec_rgb_at(s, i) {
            Some((c, ce)) => {
                lemma_percent_bounded(s, spec_skip_spaces(s, ce));
            },
            None => {},
        }
    }
}

proof fn lemma_percent_bounded(s: Seq<char>, i: int)
    ensures
        match spec_percent_at(s, i) {
            Some((val, e)) => val <= POS_CAP,
            None => true,
        },
{
    let (ip, j) = spec_take_int(s, i, 0, 1000);
    if 0 <= i <= s.len() {
        lemma_take_int_range(s, i, 0, 1000);
    } else {
        assert((ip, j) == (0int, i));
    }
    if 0 <= j + 1 <= s.len() {
        lemma_take_frac_range(s, j + 1, 100);
    } else {
        assert(spec_take_frac(s, j + 1, 100) == (0int, j + 1));
    }
}

proof fn lemma_insert_stop_positions_bounded(x: ColorStop, s: Seq<ColorStop>)
    requires
        x.position <= POS_CAP,
        forall|k: int| 0 <= k < s.len() ==> (#[trigger] s[k]).position <= POS_CAP,
    ensures
        forall|k: int|
            0 <= k < spec_insert_stop(x, s).len() ==> (#[trigger] spec_insert_stop(x, s)[k]).position
                <= POS_CAP,
    decreases s.len(),
{
    let out = spec_insert_stop(x, s);
    if s.len() == 0 {
        assert(out[0] == x);
    } else if x.position < s.last().position {
        assert(forall|k: int|
            0 <= k < s.drop_last().len() ==> (#[trigger] s.drop_last()[k]).position <= POS_CAP);
        lemma_insert_stop_positions_bounded(x, s.drop_last());
        let inner = spec_insert_stop(x, s.drop_last());
        assert forall|k: int| 0 <= k < out.len() implies (#[trigger] out[k]).position
            <= POS_CAP by {
            if k < inner.len() {
                assert(out[k] == inner[k]);
            } else {
                assert(out[k] == s.last());
                assert(s[s.len() - 1].position <= POS_CAP);
            }
        }
    } else {
        assert forall|k: int| 0 <= k < out.len() implies (#[trigger] out[k]).position
            <= POS_CAP by {
            if k < s.len() {
                assert(out[k] == s[k]);
            } else {
                assert(out[k] == x);
            }
        }
    }
}

proof fn lemma_sort_positions_bounded(s: Seq<ColorStop>)
    requires
        forall|k: int| 0 <= k < s.len() ==> (#[trigger] s[k]).position <= POS_CAP,
    ensures
        forall|k: int|
            0 <= k < spec_sort_stops(s).len() ==> (#[trigger] spec_sort_stops(s)[k]).position
                <= POS_CAP,
    decreases s.len(),
{
    if s.len() > 0 {
        assert(forall|k: int|
            0 <= k < s.drop_last().len() ==> (#[trigger] s.drop_last()[k]).position <= POS_CAP);
        lemma_sort_positions_bounded(s.drop_last());
        lemma_insert_stop_positions_bounded(s.last(), spec_sort_stops(s.drop_last()));
    }
}

/// Parses a gradient string into a palette of exactly `size` colours.
pub fn parse_gradient(gradient_str: &str, size: usize) -> (out: Vec<Rgb>)
    ensures
        out@ == spec_parse_gradient(gradient_str@, size as int),
        out@.len() == size,
{
    let v = chars_of(gradient_str);
    let out: Vec<Rgb> = if !is_gradient(&v) {
        match single_color_of(&v) {
            Some(c) => solid(c, size),
            None => solid(Rgb { r: 0, g: 0, b: 0 }, size),
        }
    } else {
        let found = scan_stops(&v);
        let stops = order_stops(&found);
        if stops.len() == 0 {
            solid(Rgb { r: 0, g: 0, b: 0 }, size)
        } else {
            proof {
                lemma_scan_positions_bounded(v@, 0);
                lemma_sort_positions_bounded(found@);
            }
            generate_palette(&stops, size)
        }
    };
    out
}


/// The source index that output index `i` of a resample maps to: the old
/// span scaled by `i / (new_len - 1)`, rounded to the nearest index (half
/// rounds up).
pub open spec fn spec_resample_idx(old_len: int, new_len: int, i: int) -> int {
    let den = if new_len - 1 > 0 {
        new_len - 1
    } else {
        1
    };
    let q = i * (old_len - 1) / den;
    if 2 * (i * (old_len - 1) % den) >= den {
        q + 1
    } else {
        q
    }
}

/// A palette stretched or squeezed to `new_len` colours by nearest-index
/// sampling.
pub open spec fn spec_resample_palette(p: Seq<Rgb>, new_len: int) -> Seq<Rgb> {
    if p.len() == 0 || new_len <= 0 {
        Seq::empty()
    } else {
        Seq::new(new_len as nat, |i: int| p[spec_resample_idx(p.len() as int, new_len, i)])
    }
}

/// Resamples a palette to a new length by nearest-index sampling.
pub fn resample_palette(palette: &Vec<Rgb>, new_len: usize) -> (out: Vec<Rgb>)
    ensures
        out@ == spec_resample_palette(palette@, new_len as int),
{
    if palette.len() == 0 || new_len == 0 {
        let out: Vec<Rgb> = Vec::new();
        proof {
            assert(out@ =~= spec_resample_palette(palette@, new_len as int));
        }
        return out;
    }
    let old_len = palette.len();
    let den: usize = if new_len > 1 {
        new_len - 1
    } else {
        1
    };
    let mut out: Vec<Rgb> = Vec::new();
    let mut i: usize = 0;
    while i < new_len
        invariant
            i <= new_len,
            old_len == palette@.len(),
            old_len >= 1,
            den as int == (if new_len - 1 > 0 {
                new_len - 1
            } else {
                1
            }),
            out@.len() == i,
            forall|k: int|
                0 <= k < i ==> out@[k] == palette@[spec_resample_idx(
                    old_len as int,
                    new_len as int,
                    k,
                )],
        decreases new_len - i,
    {
        proof {
            vstd::arithmetic::mul::lemma_mul_upper_bound(
                i as int,
                u64::MAX as int,
                (old_len - 1) as int,
                u64::MAX as int,
            );
        }
        let a: u128 = (i as u128) * ((old_len - 1) as u128);
        let q128 = a / (den as u128);
        let rem = a % (den as u128);
        proof {
            let ai = a as int;
            let di = den as int;
            let oi = old_len as int;
            assert(i as int <= di);
            assert(ai <= di * (oi - 1)) by (nonlinear_arith)
                requires
                    (i as int) <= di,
                    oi >= 1,
                    ai == (i as int) * (oi - 1),
            ;
            vstd::arithmetic::div_mod::lemma_fundamental_div_mod(ai, di);
            vstd::arithmetic::div_mod::lemma_mod_bound(ai, di);
            vstd::arithmetic::div_mod::lemma_div_is_ordered(ai, di * (oi - 1), di);
            vstd::arithmetic::div_mod::lemma_div_multiples_vanish(oi - 1, di);
            assert(ai / di <= oi - 1);
            if ai / di == oi - 1 {
                assert(ai % di == ai - di * (oi - 1));
                assert(ai % di == 0);
            }
        }
        let idx128: u128 = if 2 * rem >= den as u128 {
            q128 + 1
        } else {
            q128
        };
        let idx = idx128 as usize;
        out.push(palette[idx]);
        i += 1;
    }
    proof {
        assert(out@ =~= spec_resample_palette(palette@, new_len as int));
    }
    out
}

/// One colour of the HSV cylinder, in fixed point: hue in thousandths of a
/// degree (wrapped at 360 degrees), saturation and value in thousandths
/// (clamped at one).  Channels come out in 0..=255.
pub open spec fn spec_hsv_to_rgb(h: int, s: int, v: int) -> Rgb {
    let hh = h % 360000;
    let sc = if s > 1000 {
        1000
    } else {
        s
    };
    let vc = if v > 1000 {
        1000
    } else {
        v
    };
    let c = vc * sc / 1000;
    let u = (hh % 120000) / 60;
    let x = c * (1000 - (if u >= 1000 {
        u - 1000
    } else {
        1000 - u
    })) / 1000;
    let m = vc - c;
    let sector = hh / 60000;
    let rp = if sector == 0 || sector == 5 {
        c
    } else if sector == 1 || sector == 4 {
        x
    } else {
        0
    };
    let gp = if sector == 1 || sector == 2 {
        c
    } else if sector == 0 || sector == 3 {
        x
    } else {
        0
    };
    let bp = if sector == 3 || sector == 4 {
        c
    } else if sector == 2 || sector == 5 {
        x
    } else {
        0
    };
    Rgb {
        r: ((rp + m) * 255 / 1000) as u8,
        g: ((gp + m) * 255 / 1000) as u8,
        b: ((bp + m) * 255 / 1000) as u8,
    }
}

fn hsv_channel(p: u32, m: u32) -> (r: u8)
    requires
        p + m <= 1000,
    ensures
        r as int == (p + m) as int * 255 / 1000,
{
    proof {
        crate::fixp::lemma_mul_div_le(255, (p + m) as int, 1000);
        assert((p + m) as int * 255 == 255 * ((p + m) as int)) by (nonlinear_arith);
    }
    ((p + m) * 255 / 1000) as u8
}

/// Converts a fixed-point HSV colour to RGB.
pub fn hsv_to_rgb(h: u32, s: u32, v: u32) -> (out: Rgb)
    ensures
        out == spec_hsv_to_rgb(h as int, s as int, v as int),
{
    let hh = h % 360000;
    let sc = if s > 1000 {
        1000
    } else {
        s
    };
    let vc = if v > 1000 {
        1000
    } else {
        v
    };
    proof {
        crate::fixp::lemma_mul_div_le(vc as int, sc as int, 1000);
    }
    let c = vc * sc / 1000;
    let u = (hh % 120000) / 60;
    proof {
        assert(u <= 2000) by {
            crate::fixp::lemma_div_le_const((hh % 120000) as int, 2000, 60);
        }
    }
    let a: u32 = if u >= 1000 {
        u - 1000
    } else {
        1000 - u
    };
    proof {
        crate::fixp::lemma_mul_div_le(c as int, (1000 - a) as int, 1000);
    }
    let x = c * (1000 - a) / 1000;
    let m = vc - c;
    let sector = hh / 60000;
    let rp = if sector == 0 || sector == 5 {
        c
    } else if sector == 1 || sector == 4 {
        x
    } else {
        0
    };
    let gp = if sector == 1 || sector == 2 {
        c
    } else if sector == 0 || sector == 3 {
        x
    } else {
        0
    };
    let bp = if sector == 3 || sector == 4 {
        c
    } else if sector == 2 || sector == 5 {
        x
    } else {
        0
    };
    Rgb { r: hsv_channel(rp, m), g: hsv_channel(gp, m), b: hsv_channel(bp, m) }
}


/// The canonical stops of a palette: colour `j` at position
/// `j / (n - 1)` of the span.
pub open spec fn spec_canonical_stops(palette: Seq<Rgb>) -> Seq<ColorStop> {
    Seq::new(palette.len(), |j: int| ColorStop {
        position: (j * (POS_FULL as int) / (palette.len() - 1)) as u32,
        color: palette[j],
    })
}

proof fn lemma_canonical_strict(palette: Seq<Rgb>, a: int, b: int)
    requires
        2 <= palette.len(),
        palette.len() - 1 <= POS_FULL,
        0 <= a < b < palette.len(),
    ensures
        spec_canonical_stops(palette)[a].position < spec_canonical_stops(palette)[b].position,
{
    let d = palette.len() - 1;
    let ka = a * (POS_FULL as int);
    let kb = b * (POS_FULL as int);
    assert(ka + POS_FULL <= kb) by (nonlinear_arith)
        requires
            a + 1 <= b,
            ka == a * (POS_FULL as int),
            kb == b * (POS_FULL as int),
    ;
    vstd::arithmetic::div_mod::lemma_fundamental_div_mod(ka, d);
    vstd::arithmetic::div_mod::lemma_mod_bound(ka, d);
    assert((ka / d + 1) * d == (ka / d) * d + d) by (nonlinear_arith);
    assert(d * (ka / d) == (ka / d) * d) by (nonlinear_arith);
    vstd::arithmetic::div_mod::lemma_fundamental_div_mod_converse(
        ka + d,
        d,
        ka / d + 1,
        ka % d,
    );
    vstd::arithmetic::div_mod::lemma_div_is_ordered(ka + d, kb, d);
    assert(ka / d + 1 <= kb / d);
    lemma_canonical_bounds(palette, a);
    lemma_canonical_bounds(palette, b);
}

proof fn lemma_canonical_bounds(palette: Seq<Rgb>, j: int)
    requires
        2 <= palette.len(),
        0 <= j < palette.len(),
    ensures
        0 <= j * (POS_FULL as int) / (palette.len() - 1) <= POS_FULL,
        spec_canonical_stops(palette)[j].position == j * (POS_FULL as int) / (palette.len() - 1),
{
    let d = palette.len() - 1;
    assert(j * (POS_FULL as int) <= (POS_FULL as int) * d) by (nonlinear_arith)
        requires
            0 <= j <= d,
    ;
    crate::fixp::lemma_div_le_const(j * (POS_FULL as int), POS_FULL as int, d);
    vstd::arithmetic::div_mod::lemma_div_is_ordered(0, j * (POS_FULL as int), d);
}

proof fn lemma_find_canonical(palette: Seq<Rgb>, pos: int, i: int, j0: int)
    requires
        2 <= palette.len(),
        palette.len() - 1 <= POS_FULL,
        0 <= j0 <= i < palette.len(),
        spec_canonical_stops(palette)[i].position >= pos,
        forall|t: int|
            j0 <= t < i ==> (#[trigger] spec_canonical_stops(palette)[t]).position < pos,
    ensures
        spec_find_stop_from(spec_canonical_stops(palette), pos, j0) == i,
    decreases i - j0,
{
    if j0 < i {
        lemma_find_canonical(palette, pos, i, j0 + 1);
    }
}

/// Parsing the canonical stops of a palette back at the palette's own size
/// returns the palette: the positions are strictly ordered and each output
/// index lands exactly on its own stop.
pub proof fn lemma_palette_round_trip(palette: Seq<Rgb>)
    requires
        2 <= palette.len(),
        palette.len() - 1 <= POS_FULL,
    ensures
        spec_generate_palette(spec_canonical_stops(palette), palette.len() as int) == palette,
{
    let n = palette.len() as int;
    let d = n - 1;
    let stops = spec_canonical_stops(palette);
    let out = spec_generate_palette(stops, n);
    assert forall|i: int| 0 <= i < n implies out[i] == palette[i] by {
        lemma_canonical_bounds(palette, i);
        let pos = i * (POS_FULL as int) / d;
        assert(stops[i].position == pos);
        assert forall|t: int| 0 <= t < i implies (#[trigger] stops[t]).position < pos by {
            lemma_canonical_strict(palette, t, i);
        }
        lemma_find_canonical(palette, pos, i, 0);
        assert(spec_find_stop_from(stops, pos, 0) == i);
        if i == 0 {
            assert(out[0] == spec_palette_color(stops, n, 0));
            assert(spec_palette_color(stops, n, 0) == stops[0].color);
        } else {
            lemma_canonical_bounds(palette, i - 1);
            lemma_canonical_strict(palette, i - 1, i);
            let sp = stops[i - 1].position as int;
            let ep = stops[i].position as int;
            let t = pos - sp;
            let dd = ep - sp;
            assert(t == dd);
            assert(spec_interp_channel(stops[i - 1].color.r as int, stops[i].color.r as int, t, dd)
                == stops[i].color.r) by {
                lemma_interp_at_end(stops[i - 1].color.r as int, stops[i].color.r as int, dd);
            }
            assert(spec_interp_channel(stops[i - 1].color.g as int, stops[i].color.g as int, t, dd)
                == stops[i].color.g) by {
                lemma_interp_at_end(stops[i - 1].color.g as int, stops[i].color.g as int, dd);
            }
            assert(spec_interp_channel(stops[i - 1].color.b as int, stops[i].color.b as int, t, dd)
                == stops[i].color.b) by {
                lemma_interp_at_end(stops[i - 1].color.b as int, stops[i].color.b as int, dd);
            }
        }
    }
    assert(out =~= palette);
}

/// At the far end of a span the interpolation returns the end colour.
proof fn lemma_interp_at_end(sc: int, ec: int, d: int)
    requires
        0 <= sc <= 255,
        0 <= ec <= 255,
        d >= 1,
    ensures
        spec_interp_channel(sc, ec, d, d) == ec,
{
    assert(sc * (d - d) == 0) by (nonlinear_arith);
    vstd::arithmetic::mul::lemma_mul_is_commutative(ec, d);
    vstd::arithmetic::div_mod::lemma_div_multiples_vanish(ec, d);
}

/// The decimal digits of `v`, most significant first.
pub open spec fn spec_digits(v: int) -> Seq<char>
    decreases v,
{
    if v < 10 {
        seq![spec_digit_char(if v < 0 { 0 } else { v })]
    } else {
        spec_digits(v / 10) + seq![spec_digit_char(v % 10)]
    }
}

/// The character of one decimal digit.
pub open spec fn spec_digit_char(d: int) -> char {
    if d == 0 { '0' } else if d == 1 { '1' } else if d == 2 { '2' } else if d == 3 { '3' }
    else if d == 4 { '4' } else if d == 5 { '5' } else if d == 6 { '6' } else if d == 7 { '7' }
    else if d == 8 { '8' } else { '9' }
}

/// The character of one hex digit (lower case).
pub open spec fn spec_hex_char(d: int) -> char {
    if d < 10 { spec_digit_char(d) }
    else if d == 10 { 'a' } else if d == 11 { 'b' } else if d == 12 { 'c' }
    else if d == 13 { 'd' } else if d == 14 { 'e' } else { 'f' }
}

/// The text of one percent position given in span units: the whole percent,
/// then three decimals when the fraction is not zero.
pub open spec fn spec_percent_text(units: int) -> Seq<char> {
    if units % 1000 == 0 {
        spec_digits(units / 1000)
    } else {
        let f = units % 1000;
        spec_digits(units / 1000) + seq!['.'] + seq![
            spec_digit_char(f / 100),
            spec_digit_char((f / 10) % 10),
            spec_digit_char(f % 10),
        ]
    }
}

/// The text of one canonical colour stop: `#rrggbb` and its position.
pub open spec fn spec_stop_text(c: Rgb, units: int) -> Seq<char> {
    seq!['#', spec_hex_char(c.r as int / 16), spec_hex_char(c.r as int % 16),
        spec_hex_char(c.g as int / 16), spec_hex_char(c.g as int % 16),
        spec_hex_char(c.b as int / 16), spec_hex_char(c.b as int % 16), ' ']
        + spec_percent_text(units) + seq!['%']
}

/// The canonical gradient text of a palette from stop `j` on.
pub open spec fn spec_stops_text(palette: Seq<Rgb>, j: int) -> Seq<char>
    decreases palette.len() - j,
{
    if j < 0 || j >= palette.len() {
        Seq::empty()
    } else {
        let units = j * (POS_FULL as int) / (palette.len() - 1);
        let rest = if j + 1 < palette.len() {
            seq![',', ' '] + spec_stops_text(palette, j + 1)
        } else {
            Seq::empty()
        };
        spec_stop_text(palette[j], units) + rest
    }
}

/// The canonical gradient string of a palette.
pub open spec fn spec_gradient_text(palette: Seq<Rgb>) -> Seq<char> {
    "linear-gradient(90deg, "@ + spec_stops_text(palette, 0) + seq![')']
}

fn push_digit_char(out: &mut Vec<char>, d: u32)
    requires
        d <= 9,
    ensures
        final(out)@ == old(out)@ + seq![spec_digit_char(d as int)],
{
    let c: char = if d == 0 { '0' } else if d == 1 { '1' } else if d == 2 { '2' }
    else if d == 3 { '3' } else if d == 4 { '4' } else if d == 5 { '5' } else if d == 6 { '6' }
    else if d == 7 { '7' } else if d == 8 { '8' } else { '9' };
    out.push(c);
    proof {
        assert(out@ =~= old(out)@ + seq![spec_digit_char(d as int)]);
    }
}

fn push_hex_char(out: &mut Vec<char>, d: u32)
    requires
        d <= 15,
    ensures
        final(out)@ == old(out)@ + seq![spec_hex_char(d as int)],
{
    if d < 10 {
        push_digit_char(out, d);
    } else {
        let c: char = if d == 10 { 'a' } else if d == 11 { 'b' } else if d == 12 { 'c' }
        else if d == 13 { 'd' } else if d == 14 { 'e' } else { 'f' };
        out.push(c);
        proof {
            assert(out@ =~= old(out)@ + seq![spec_hex_char(d as int)]);
        }
    }
}

fn push_digits(out: &mut Vec<char>, v: u32)
    ensures
        final(out)@ == old(out)@ + spec_digits(v as int),
    decreases v,
{
    if v < 10 {
        push_digit_char(out, v);
    } else {
        push_digits(out, v / 10);
        push_digit_char(out, v % 10);
        proof {
            assert(out@ =~= old(out)@ + spec_digits(v as int));
        }
    }
}

fn push_literal(out: &mut Vec<char>, c: char)
    ensures
        final(out)@ == old(out)@ + seq![c],
{
    out.push(c);
    proof {
        assert(out@ =~= old(out)@ + seq![c]);
    }
}

/// Writes a palette as its canonical gradient string: `#rrggbb` stops at
/// percent positions `0%` through `100%`, three decimals where a position
/// is not whole.
#[verifier::rlimit(60)]
pub fn gradient_of_palette(palette: &Vec<Rgb>) -> (out: String)
    requires
        palette@.len() >= 2,
    ensures
        out@ == spec_gradient_text(palette@),
{
    let n = palette.len();
    let mut v: Vec<char> = Vec::new();
    let header = chars_of("linear-gradient(90deg, ");
    let mut h: usize = 0;
    while h < header.len()
        invariant
            header@ == "linear-gradient(90deg, "@,
            h <= header@.len(),
            v@ == header@.subrange(0, h as int),
        decreases header@.len() - h,
    {
        v.push(header[h]);
        proof {
            assert(v@ =~= header@.subrange(0, h + 1));
        }
        h += 1;
    }
    proof {
        assert(v@ =~= "linear-gradient(90deg, "@);
    }
    let ghost base = v@;
    let mut j: usize = 0;
    while j < n
        invariant
            n == palette@.len(),
            n >= 2,
            j <= n,
            base == "linear-gradient(90deg, "@,
            v@.len() >= base.len(),
            v@.subrange(0, base.len() as int) == base,
            spec_stops_text(palette@, 0) == v@.skip(base.len() as int) + spec_stops_text(
                palette@,
                j as int,
            ),
        decreases n - j,
    {
        let c = palette[j];
        let mut piece: Vec<char> = Vec::new();
        push_literal(&mut piece, '#');
        push_hex_char(&mut piece, c.r as u32 / 16);
        push_hex_char(&mut piece, c.r as u32 % 16);
        push_hex_char(&mut piece, c.g as u32 / 16);
        push_hex_char(&mut piece, c.g as u32 % 16);
        push_hex_char(&mut piece, c.b as u32 / 16);
        push_hex_char(&mut piece, c.b as u32 % 16);
        push_literal(&mut piece, ' ');
        proof {
            crate::fixp::lemma_div_le_const(
                (j as int) * (POS_FULL as int),
                POS_FULL as int,
                n as int - 1,
            );
            assert((j as int) * (POS_FULL as int) <= (POS_FULL as int) * (n as int - 1))
                by (nonlinear_arith)
                requires
                    0 <= j as int <= n as int - 1,
            ;
        }
        proof {
            vstd::arithmetic::mul::lemma_mul_upper_bound(
                j as int,
                u64::MAX as int,
                POS_FULL as int,
                POS_FULL as int,
            );
        }
        let units = (((j as u128) * (POS_FULL as u128)) / ((n - 1) as u128)) as u32;
        push_digits(&mut piece, units / 1000);
        if units % 1000 != 0 {
            let f = units % 1000;
            push_literal(&mut piece, '.');
            push_digit_char(&mut piece, f / 100);
            push_digit_char(&mut piece, (f / 10) % 10);
            push_digit_char(&mut piece, f % 10);
        }
        push_literal(&mut piece, '%');
        if j + 1 < n {
            push_literal(&mut piece, ',');
            push_literal(&mut piece, ' ');
        }
        proof {
            let units_g = (j as int) * (POS_FULL as int) / (n as int - 1);
            assert(units as int == units_g);
            if units % 1000 == 0 {
                assert(spec_percent_text(units_g) == spec_digits(units_g / 1000));
            }
            if j + 1 < n {
                assert(piece@ =~= spec_stop_text(palette@[j as int], units_g) + seq![',', ' ']);
            } else {
                assert(piece@ =~= spec_stop_text(palette@[j as int], units_g));
            }
        }
        let ghost vpre = v@;
        let ghost piecev = piece@;
        let mut tail = piece;
        v.append(&mut tail);
        proof {
            assert(v@.skip(base.len() as int) =~= vpre.skip(base.len() as int) + piecev);
            assert(v@.subrange(0, base.len() as int) =~= base);
            if j + 1 < n {
                assert(spec_stops_text(palette@, j as int) == spec_stop_text(
                    palette@[j as int],
                    (j as int) * (POS_FULL as int) / (n as int - 1),
                ) + (seq![',', ' '] + spec_stops_text(palette@, j + 1)));
                assert(vpre.skip(base.len() as int) + piecev + spec_stops_text(palette@, j + 1)
                    =~= vpre.skip(base.len() as int) + spec_stops_text(palette@, j as int));
            } else {
                assert(spec_stops_text(palette@, j as int) == spec_stop_text(
                    palette@[j as int],
                    (j as int) * (POS_FULL as int) / (n as int - 1),
                ) + Seq::<char>::empty());
                assert(spec_stops_text(palette@, j + 1) =~= Seq::<char>::empty());
                assert(vpre.skip(base.len() as int) + piecev + spec_stops_text(palette@, j + 1)
                    =~= vpre.skip(base.len() as int) + spec_stops_text(palette@, j as int));
            }
        }
        j += 1;
    }
    push_literal(&mut v, ')');
    proof {
        assert(spec_stops_text(palette@, n as int) =~= Seq::<char>::empty());
        assert(v@ =~= spec_gradient_text(palette@));
    }
    string_of_chars(&v)
}

/// Builds a string from its characters.
fn string_of_chars(v: &Vec<char>) -> (out: String)
    ensures
        out@ == v@,
{
    let mut out = String::new();
    let mut i: usize = 0;
    while i < v.len()
        invariant
            i <= v@.len(),
            out@ == v@.subrange(0, i as int),
        decreases v@.len() - i,
    {
        push_char(&mut out, v[i]);
        proof {
            assert(out@ =~= v@.subrange(0, i + 1));
        }
        i += 1;
    }
    proof {
        assert(out@ =~= v@);
    }
    out
}

/// Relies on `String::push`: the pushed character lands at the end.
#[verifier::external_body]
fn push_char(s: &mut String, c: char)
    ensures
        final(s)@ == old(s)@ + seq![c],
{
    s.push(c);
}


proof fn lemma_digit_char_val(d: int)
    requires
        0 <= d <= 9,
    ensures
        spec_is_digit(spec_digit_char(d)),
        spec_digit_val(spec_digit_char(d)) == d,
        !spec_is_space(spec_digit_char(d)),
        spec_digit_char(d) != '%' && spec_digit_char(d) != '.' && spec_digit_char(d) != '#',
{
}

proof fn lemma_hex_char_val(d: int)
    requires
        0 <= d <= 15,
    ensures
        spec_is_hex_digit(spec_hex_char(d)),
        spec_hex_val(spec_hex_char(d)) == d,
        spec_hex_char(d) != '#' && spec_hex_char(d) != ' ',
{
    if d <= 9 {
        lemma_digit_char_val(d);
    }
}

/// Every character of a number's decimal text is a digit.
proof fn lemma_digits_are_digits(v: int, k: int)
    requires
        v >= 0,
        0 <= k < spec_digits(v).len(),
    ensures
        spec_is_digit(spec_digits(v)[k]),
    decreases v,
{
    if v < 10 {
        lemma_digit_char_val(v);
    } else {
        if k < spec_digits(v / 10).len() {
            lemma_digits_are_digits(v / 10, k);
        } else {
            lemma_digit_char_val(v % 10);
        }
    }
}

/// Reading the decimal text of `v` with an empty accumulator yields `v`
/// and stops right past it.  Canonical percent values keep `v` at or
/// under one hundred.
proof fn lemma_take_int_digits(s: Seq<char>, i: int, v: int)
    requires
        0 <= v <= 100,
        0 <= i,
        i + spec_digits(v).len() <= s.len(),
        s.subrange(i, i + spec_digits(v).len() as int) == spec_digits(v),
        i + spec_digits(v).len() == s.len() || !spec_is_digit(s[i + spec_digits(v).len() as int]),
    ensures
        spec_take_int(s, i, 0, 1000) == (v, i + spec_digits(v).len() as int),
{
    let text = spec_digits(v);
    let sub = s.subrange(i, i + text.len() as int);
    if v < 10 {
        assert(sub[0] == s[i]);
        assert(s[i] == spec_digit_char(v));
        lemma_digit_char_val(v);
        assert(spec_take_int(s, i + 1, v, 1000) == (v, i + 1));
        assert(spec_take_int(s, i, 0, 1000) == spec_take_int(s, i + 1, v, 1000));
    } else if v < 100 {
        let d1 = v / 10;
        let d2 = v % 10;
        assert(spec_digits(v) == spec_digits(d1) + seq![spec_digit_char(d2)]);
        assert(sub[0] == s[i] && sub[1] == s[i + 1]);
        assert(s[i] == spec_digit_char(d1));
        assert(s[i + 1] == spec_digit_char(d2));
        lemma_digit_char_val(d1);
        lemma_digit_char_val(d2);
        assert(spec_take_int(s, i + 2, v, 1000) == (v, i + 2));
        assert(spec_take_int(s, i + 1, d1, 1000) == spec_take_int(s, i + 2, d1 * 10 + d2, 1000));
        assert(d1 * 10 + d2 == v);
        assert(spec_take_int(s, i, 0, 1000) == spec_take_int(s, i + 1, d1, 1000));
    } else {
        assert(v == 100);
        assert(spec_digits(10) == spec_digits(1) + seq![spec_digit_char(0)]);
        assert(spec_digits(100) == spec_digits(10) + seq![spec_digit_char(0)]);
        assert(sub[0] == s[i] && sub[1] == s[i + 1] && sub[2] == s[i + 2]);
        assert(s[i] == '1');
        assert(s[i + 1] == '0');
        assert(s[i + 2] == '0');
        lemma_digit_char_val(1);
        lemma_digit_char_val(0);
        assert(spec_take_int(s, i + 3, 100, 1000) == (100int, i + 3));
        assert(spec_take_int(s, i + 2, 10, 1000) == spec_take_int(s, i + 3, 100, 1000));
        assert(spec_take_int(s, i + 1, 1, 1000) == spec_take_int(s, i + 2, 10, 1000));
        assert(spec_take_int(s, i, 0, 1000) == spec_take_int(s, i + 1, 1, 1000));
    }
}



/// Reading three fractional digits yields the fraction and stops at the
/// character after them.
proof fn lemma_take_frac3(s: Seq<char>, i: int, f: int)
    requires
        0 <= f <= 999,
        0 <= i,
        i + 3 <= s.len(),
        s[i] == spec_digit_char(f / 100),
        s[i + 1] == spec_digit_char((f / 10) % 10),
        s[i + 2] == spec_digit_char(f % 10),
        i + 3 == s.len() || !spec_is_digit(s[i + 3]),
    ensures
        spec_take_frac(s, i, 100) == (f, i + 3),
{
    lemma_digit_char_val(f / 100);
    lemma_digit_char_val((f / 10) % 10);
    lemma_digit_char_val(f % 10);
    assert(spec_take_frac(s, i + 3, 0) == (0int, i + 3));
    assert(spec_take_frac(s, i + 2, 1) == ((f % 10) * 1 + 0, i + 3));
    assert(spec_take_frac(s, i + 1, 10) == (((f / 10) % 10) * 10 + (f % 10), i + 3));
    assert(spec_take_frac(s, i, 100) == ((f / 100) * 100 + (((f / 10) % 10) * 10 + (f % 10)), i
        + 3));
    assert((f / 100) * 100 + ((f / 10) % 10) * 10 + (f % 10) == f) by (nonlinear_arith)
        requires
            0 <= f <= 999,
    ;
}

/// Reading a canonical percent text yields its span units and stops past
/// the percent sign.
proof fn lemma_percent_text(s: Seq<char>, i: int, units: int)
    requires
        0 <= units <= 100000,
        0 <= i,
        i + spec_percent_text(units).len() + 1 <= s.len(),
        s.subrange(i, i + spec_percent_text(units).len() as int) == spec_percent_text(units),
        s[i + spec_percent_text(units).len() as int] == '%',
    ensures
        spec_percent_at(s, i) == Some(
            (units as u32, i + spec_percent_text(units).len() as int + 1),
        ),
{
    let text = spec_percent_text(units);
    let tl = text.len() as int;
    let sub = s.subrange(i, i + tl);
    let ip = units / 1000;
    let itext = spec_digits(ip);
    let il = itext.len() as int;
    crate::fixp::lemma_div_le_const(units, 100, 1000);
    if units % 1000 == 0 {
        assert(text == itext);
        assert(s.subrange(i, i + il) == itext);
        lemma_take_int_digits(s, i, ip);
        assert(spec_take_int(s, i, 0, 1000) == (ip, i + il));
        assert(s[i + il] == '%');
        assert(!spec_is_digit('%'));
        assert(il >= 1);
        assert(ip * 1000 == units) by {
            vstd::arithmetic::div_mod::lemma_fundamental_div_mod(units, 1000);
        }
    } else {
        let f = units % 1000;
        let ftail = seq!['.', spec_digit_char(f / 100), spec_digit_char((f / 10) % 10),
            spec_digit_char(f % 10)];
        assert(text =~= itext + ftail);
        assert(tl == il + 4);
        assert(s.subrange(i, i + il) =~= itext) by {
            assert forall|k: int| 0 <= k < il implies s.subrange(i, i + il)[k] == itext[k] by {
                assert(s.subrange(i, i + il)[k] == s[i + k]);
                assert(sub[k] == s[i + k]);
                assert(sub[k] == text[k]);
                assert(text[k] == itext[k]);
            }
        }
        assert(sub[il] == s[i + il] && text[il] == '.');
        assert(sub[il + 1] == s[i + il + 1] && text[il + 1] == spec_digit_char(f / 100));
        assert(sub[il + 2] == s[i + il + 2] && text[il + 2] == spec_digit_char((f / 10) % 10));
        assert(sub[il + 3] == s[i + il + 3] && text[il + 3] == spec_digit_char(f % 10));
        assert(!spec_is_digit('.'));
        lemma_take_int_digits(s, i, ip);
        assert(s[i + tl] == '%');
        assert(!spec_is_digit('%'));
        lemma_take_frac3(s, i + il + 1, f);
        vstd::arithmetic::div_mod::lemma_fundamental_div_mod(units, 1000);
        vstd::arithmetic::div_mod::lemma_mod_bound(units, 1000);
        assert(spec_take_int(s, i, 0, 1000) == (ip, i + il));
        assert(spec_take_frac(s, i + il + 1, 100) == (f, i + il + 4));
        assert(spec_percent_at(s, i) == Some(((ip * 1000 + f) as u32, i + il + 5)));
        assert(ip * 1000 + f == units);
    }
}

/// A canonical stop text parses as its stop.
proof fn lemma_stop_text(s: Seq<char>, p: int, c: Rgb, units: int)
    requires
        0 <= units <= 100000,
        0 <= p,
        p + spec_stop_text(c, units).len() <= s.len(),
        s.subrange(p, p + spec_stop_text(c, units).len() as int) == spec_stop_text(c, units),
        p + spec_stop_text(c, units).len() == s.len() || !spec_is_digit(
            s[p + spec_stop_text(c, units).len() as int],
        ),
    ensures
        spec_stop_at(s, p) == Some(
            (
                ColorStop { position: units as u32, color: c },
                p + spec_stop_text(c, units).len() as int,
            ),
        ),
{
    let text = spec_stop_text(c, units);
    let tl = text.len() as int;
    let sub = s.subrange(p, p + tl);
    let head = seq!['#', spec_hex_char(c.r as int / 16), spec_hex_char(c.r as int % 16),
        spec_hex_char(c.g as int / 16), spec_hex_char(c.g as int % 16),
        spec_hex_char(c.b as int / 16), spec_hex_char(c.b as int % 16), ' '];
    let ptext = spec_percent_text(units);
    let pl = ptext.len() as int;
    assert(text =~= head + ptext + seq!['%']);
    assert(tl == 8 + pl + 1);
    assert(sub[0] == s[p] && text[0] == '#');
    assert(sub[1] == s[p + 1] && text[1] == spec_hex_char(c.r as int / 16));
    assert(sub[2] == s[p + 2] && text[2] == spec_hex_char(c.r as int % 16));
    assert(sub[3] == s[p + 3] && text[3] == spec_hex_char(c.g as int / 16));
    assert(sub[4] == s[p + 4] && text[4] == spec_hex_char(c.g as int % 16));
    assert(sub[5] == s[p + 5] && text[5] == spec_hex_char(c.b as int / 16));
    assert(sub[6] == s[p + 6] && text[6] == spec_hex_char(c.b as int % 16));
    assert(sub[7] == s[p + 7] && text[7] == ' ');
    lemma_hex_char_val(c.r as int / 16);
    lemma_hex_char_val(c.r as int % 16);
    lemma_hex_char_val(c.g as int / 16);
    lemma_hex_char_val(c.g as int % 16);
    lemma_hex_char_val(c.b as int / 16);
    lemma_hex_char_val(c.b as int % 16);
    assert(spec_all_hex(s, p + 1, 6)) by {
        assert(spec_is_hex_digit(s[p + 1]) && spec_is_hex_digit(s[p + 2]) && spec_is_hex_digit(
            s[p + 3],
        ) && spec_is_hex_digit(s[p + 4]) && spec_is_hex_digit(s[p + 5]) && spec_is_hex_digit(
            s[p + 6],
        ));
    }
    assert(s.subrange(p + 8, p + 8 + pl) =~= ptext) by {
        assert forall|k: int| 0 <= k < pl implies s.subrange(p + 8, p + 8 + pl)[k] == ptext[k] by {
            assert(s.subrange(p + 8, p + 8 + pl)[k] == s[p + 8 + k]);
            assert(sub[8 + k] == s[p + 8 + k]);
            assert(sub[8 + k] == text[8 + k]);
            assert(text[8 + k] == ptext[k]);
        }
    }
    assert(sub[8 + pl] == s[p + 8 + pl] && text[8 + pl] == '%');
    assert(ptext[0] == spec_digits(units / 1000)[0]) by {
        if units % 1000 != 0 {
            assert(ptext =~= spec_digits(units / 1000) + seq!['.', spec_digit_char((units % 1000)
                / 100), spec_digit_char(((units % 1000) / 10) % 10), spec_digit_char(
                (units % 1000) % 10,
            )]);
        }
    }
    lemma_digits_are_digits(units / 1000, 0);
    assert(sub[8] == s[p + 8] && text[8] == ptext[0]);
    assert(spec_is_digit(s[p + 8]));
    assert(!spec_is_space(s[p + 8])) by {
        lemma_digit_char_val(spec_digit_val(s[p + 8]));
        assert(spec_digit_char(spec_digit_val(s[p + 8])) == s[p + 8]) by {
            lemma_digit_roundtrip(s[p + 8]);
        }
    }
    assert(spec_skip_spaces(s, p + 7) == p + 8) by {
        assert(spec_is_space(s[p + 7]));
        assert(spec_skip_spaces(s, p + 8) == p + 8);
    }
    lemma_percent_text(s, p + 8, units);
    assert(spec_percent_at(s, p + 8) == Some((units as u32, p + 8 + pl + 1)));
    assert(spec_hex6_color(s, p + 1) == c) by {
        assert((c.r as int / 16) * 16 + c.r as int % 16 == c.r as int);
        assert((c.g as int / 16) * 16 + c.g as int % 16 == c.g as int);
        assert((c.b as int / 16) * 16 + c.b as int % 16 == c.b as int);
    }
}

/// A digit character is the character of its value.
proof fn lemma_digit_roundtrip(ch: char)
    requires
        spec_is_digit(ch),
    ensures
        spec_digit_char(spec_digit_val(ch)) == ch,
        !spec_is_space(ch),
        ch != '#',
{
}


/// A stretch of text with no `#` and no `rgb(` opening is scanned over
/// without finding a stop.
proof fn lemma_scan_skip_range(s: Seq<char>, a: int, b: int)
    requires
        0 <= a <= b <= s.len(),
        forall|i: int|
            a <= i < b ==> (#[trigger] s[i]) != '#' && (s[i] == 'r' ==> i + 1 < s.len() && s[i
                + 1] != 'g'),
    ensures
        spec_scan_from(s, a) == spec_scan_from(s, b),
    decreases b - a,
{
    if a < b {
        assert(spec_stop_at(s, a) is None) by {
            assert(s[a] != '#');
            if a + 4 <= s.len() && s[a] == 'r' {
                assert(s[a + 1] != 'g');
            }
        }
        assert(spec_scan_from(s, a) == spec_scan_from(s, a + 1));
        lemma_scan_skip_range(s, a + 1, b);
    }
}

/// Scanning the canonical text of stops `j` onward yields exactly those
/// stops.
proof fn lemma_scan_stops_text(palette: Seq<Rgb>, j: int, s: Seq<char>, p: int)
    requires
        2 <= palette.len(),
        palette.len() - 1 <= POS_FULL,
        0 <= j < palette.len(),
        0 <= p <= s.len(),
        s.skip(p) == spec_stops_text(palette, j) + seq![')'],
    ensures
        spec_scan_from(s, p) =~= spec_canonical_stops(palette).skip(j),
    decreases palette.len() - j,
{
    let n = palette.len() as int;
    let units = j * (POS_FULL as int) / (n - 1);
    lemma_canonical_bounds(palette, j);
    let stext = spec_stop_text(palette[j], units);
    let sl = stext.len() as int;
    let tail = s.skip(p);
    let whole = spec_stops_text(palette, j);
    assert(tail.len() == s.len() - p);
    assert(tail.len() == whole.len() + 1);
    if j + 1 < n {
        assert(whole == stext + (seq![',', ' '] + spec_stops_text(palette, j + 1)));
        assert(whole.len() == sl + 2 + spec_stops_text(palette, j + 1).len());
    } else {
        assert(whole == stext + Seq::<char>::empty());
        assert(whole =~= stext);
        assert(whole.len() == sl);
    }
    assert(p + sl <= s.len());
    assert forall|k: int| 0 <= k < whole.len() + 1 implies #[trigger] tail[k] == s[p + k] by {
        assert(tail[k] == s[p + k]);
    }
    assert(s.subrange(p, p + sl) =~= stext) by {
        assert forall|k: int| 0 <= k < sl implies s.subrange(p, p + sl)[k] == stext[k] by {
            assert(s.subrange(p, p + sl)[k] == s[p + k]);
            assert(tail[k] == s[p + k]);
            assert(tail[k] == whole[k]);
            assert(whole[k] == stext[k]);
        }
    }
    let end = p + sl;
    if j + 1 < n {
        assert(tail[sl] == s[end] && whole[sl] == ',');
        assert(!spec_is_digit(','));
        lemma_stop_text(s, p, palette[j], units);
        assert(tail[sl + 1] == s[end + 1] && whole[sl + 1] == ' ');
        assert(spec_scan_from(s, p) == seq![
            ColorStop { position: units as u32, color: palette[j] },
        ] + spec_scan_from(s, end));
        lemma_scan_skip_range(s, end, end + 2);
        assert(s.skip(end + 2) =~= spec_stops_text(palette, j + 1) + seq![')']) by {
            assert forall|k: int|
                0 <= k < s.len() - end - 2 implies #[trigger] s.skip(end + 2)[k] == (
            spec_stops_text(palette, j + 1) + seq![')'])[k] by {
                assert(s.skip(end + 2)[k] == s[end + 2 + k]);
                assert(tail[sl + 2 + k] == s[end + 2 + k]);
            }
        }
        lemma_scan_stops_text(palette, j + 1, s, end + 2);
        assert(spec_canonical_stops(palette).skip(j) =~= seq![
            ColorStop { position: units as u32, color: palette[j] },
        ] + spec_canonical_stops(palette).skip(j + 1));
    } else {
        assert(tail[sl] == s[end] && (whole + seq![')'])[sl] == ')');
        assert(s[end] == ')');
        assert(!spec_is_digit(')'));
        lemma_stop_text(s, p, palette[j], units);
        assert(s.len() == end + 1);
        assert(spec_scan_from(s, p) == seq![
            ColorStop { position: units as u32, color: palette[j] },
        ] + spec_scan_from(s, end));
        lemma_scan_skip_range(s, end, end + 1);
        assert(spec_scan_from(s, end + 1) =~= Seq::<ColorStop>::empty());
        assert(spec_canonical_stops(palette).skip(j) =~= seq![
            ColorStop { position: units as u32, color: palette[j] },
        ]);
    }
}

/// Parsing a palette's canonical gradient string at the palette's own size
/// returns the palette: the scanner reads back exactly the canonical
/// stops, already ordered, and the interpolation lands each output index
/// on its own stop.
pub proof fn lemma_gradient_round_trip(palette: Seq<Rgb>)
    requires
        2 <= palette.len(),
        palette.len() - 1 <= POS_FULL,
    ensures
        spec_parse_gradient(spec_gradient_text(palette), palette.len() as int) == palette,
{
    let pre = "linear-gradient(90deg, "@;
    let s = spec_gradient_text(palette);
    proof_prefix_chars(pre);
    assert(s == pre + (spec_stops_text(palette, 0) + seq![')']));
    assert(pre.len() == 23);
    assert forall|i: int| 0 <= i < 23 implies s[i] == pre[i] by {
        assert((pre + (spec_stops_text(palette, 0) + seq![')']))[i] == pre[i]);
    }
    assert(spec_is_gradient(s));
    assert forall|i: int|
        0 <= i < 23 implies (#[trigger] s[i]) != '#' && (s[i] == 'r' ==> i + 1 < s.len() && s[i
            + 1] != 'g') by {
        if i == 5 {
            assert(s[6] == pre[6]);
        } else if i == 8 {
            assert(s[9] == pre[9]);
        }
    }
    lemma_scan_skip_range(s, 0, 23);
    assert(s.skip(23) =~= spec_stops_text(palette, 0) + seq![')']);
    lemma_scan_stops_text(palette, 0, s, 23);
    let stops = spec_canonical_stops(palette);
    assert(spec_scan_from(s, 0) =~= stops.skip(0));
    assert(stops.skip(0) =~= stops);
    assert(spec_sorted_stops(stops)) by {
        assert forall|k: int|
            0 <= k < stops.len() - 1 implies (#[trigger] stops[k]).position <= stops[k
            + 1].position by {
            lemma_canonical_strict(palette, k, k + 1);
        }
    }
    lemma_sort_sorted_identity(stops);
    assert(spec_sort_stops(spec_scan_from(s, 0)) == stops);
    lemma_palette_round_trip(palette);
    assert(stops.len() == palette.len());
}

/// The characters of the gradient header.
proof fn proof_prefix_chars(pre: Seq<char>)
    requires
        pre == "linear-gradient(90deg, "@,
    ensures
        pre.len() == 23,
        pre[0] == 'l' && pre[1] == 'i' && pre[2] == 'n' && pre[3] == 'e' && pre[4] == 'a'
            && pre[5] == 'r' && pre[6] == '-' && pre[7] == 'g' && pre[8] == 'r' && pre[9] == 'a'
            && pre[10] == 'd' && pre[11] == 'i' && pre[12] == 'e' && pre[13] == 'n' && pre[14]
            == 't' && pre[15] == '(' && pre[16] == '9' && pre[17] == '0' && pre[18] == 'd'
            && pre[19] == 'e' && pre[20] == 'g' && pre[21] == ',' && pre[22] == ' ',
        forall|i: int| 0 <= i < 23 ==> (#[trigger] pre[i]) != '#',
        forall|i: int| 0 <= i < 23 && i != 5 && i != 8 ==> (#[trigger] pre[i]) != 'r',
{
    reveal_strlit("linear-gradient(90deg, ");
    assert forall|i: int| 0 <= i < 23 implies (#[trigger] pre[i]) != '#' by {
        lemma_prefix_char_case(pre, i);
    }
    assert forall|i: int| 0 <= i < 23 && i != 5 && i != 8 implies (#[trigger] pre[i]) != 'r' by {
        lemma_prefix_char_case(pre, i);
    }
}

/// One header character, by position.
proof fn lemma_prefix_char_case(pre: Seq<char>, i: int)
    requires
        pre == "linear-gradient(90deg, "@,
        0 <= i < 23,
    ensures
        pre[i] == "linear-gradient(90deg, "@[i],
{
}


/// A total order on stops: by position, ties broken by colour channels.
pub open spec fn stop_le(a: ColorStop, b: ColorStop) -> bool {
    ||| a.position < b.position
    ||| (a.position == b.position && (a.color.r < b.color.r || (a.color.r == b.color.r && (
    a.color.g < b.color.g || (a.color.g == b.color.g && a.color.b <= b.color.b)))))
}

/// No two stops share a position.
pub open spec fn spec_positions_distinct(s: Seq<ColorStop>) -> bool {
    forall|i: int, j: int|
        0 <= i < j < s.len() ==> (#[trigger] s[i]).position != (#[trigger] s[j]).position
}

proof fn lemma_stop_le_total()
    ensures
        vstd::relations::total_ordering(|a: ColorStop, b: ColorStop| stop_le(a, b)),
{
    let leq = |a: ColorStop, b: ColorStop| stop_le(a, b);
    assert forall|a: ColorStop, b: ColorStop| #[trigger] leq(a, b) && leq(b, a) implies a == b by {
        assert(a.position == b.position && a.color.r == b.color.r && a.color.g == b.color.g
            && a.color.b == b.color.b);
        assert(a.color == b.color);
    }
    assert forall|a: ColorStop, b: ColorStop, c: ColorStop|
        #[trigger] leq(a, b) && #[trigger] leq(b, c) implies leq(a, c) by {}
    assert forall|a: ColorStop, b: ColorStop| !(#[trigger] leq(a, b)) implies leq(b, a) by {}
}

/// Inserting a stop adds exactly it to the stops held.
proof fn lemma_insert_stop_multiset(x: ColorStop, s: Seq<ColorStop>)
    ensures
        spec_insert_stop(x, s).to_multiset() == s.to_multiset().insert(x),
    decreases s.len(),
{
    broadcast use vstd::seq_lib::group_to_multiset_ensures;
    broadcast use vstd::multiset::group_multiset_axioms;

    if s.len() == 0 {
        assert(spec_insert_stop(x, s) =~= seq![x]);
        assert(seq![x] =~= Seq::<ColorStop>::empty().push(x));
        assert(Seq::<ColorStop>::empty().to_multiset() =~= vstd::multiset::Multiset::empty());
        assert(spec_insert_stop(x, s).to_multiset() =~= s.to_multiset().insert(x));
    } else if x.position < s.last().position {
        lemma_insert_stop_multiset(x, s.drop_last());
        let inner = spec_insert_stop(x, s.drop_last());
        assert(spec_insert_stop(x, s) == inner + seq![s.last()]);
        assert(inner + seq![s.last()] =~= inner.push(s.last()));
        assert(s =~= s.drop_last().push(s.last()));
        assert(spec_insert_stop(x, s).to_multiset() =~= s.to_multiset().insert(x));
    } else {
        assert(spec_insert_stop(x, s) == s + seq![x]);
        assert(s + seq![x] =~= s.push(x));
    }
}

/// Ordering the stops keeps exactly the stops held.
pub proof fn lemma_sort_stops_multiset(s: Seq<ColorStop>)
    ensures
        spec_sort_stops(s).to_multiset() == s.to_multiset(),
    decreases s.len(),
{
    broadcast use vstd::seq_lib::group_to_multiset_ensures;

    if s.len() > 0 {
        lemma_sort_stops_multiset(s.drop_last());
        lemma_insert_stop_multiset(s.last(), spec_sort_stops(s.drop_last()));
        assert(s =~= s.drop_last().push(s.last()));
    }
}

/// An ordered list of stops with pairwise distinct positions is sorted
/// under the tie-breaking total order.
proof fn lemma_strict_sorted_by(s: Seq<ColorStop>)
    requires
        spec_sorted_stops(s),
        spec_positions_distinct(s),
    ensures
        vstd::relations::sorted_by(s, |a: ColorStop, b: ColorStop| stop_le(a, b)),
{
    let leq = |a: ColorStop, b: ColorStop| stop_le(a, b);
    assert forall|i: int, j: int| 0 <= i <= j < s.len() implies (#[trigger] s[i]).position <= (
    #[trigger] s[j]).position by {
        lemma_positions_monotone(s, i, j);
    }
    assert forall|i: int, j: int| 0 <= i < j < s.len() implies leq(s[i], s[j]) by {
        assert(s[i].position <= s[j].position);
        assert(s[i].position != s[j].position);
    }
}

proof fn lemma_positions_monotone(s: Seq<ColorStop>, i: int, j: int)
    requires
        spec_sorted_stops(s),
        0 <= i <= j < s.len(),
    ensures
        s[i].position <= s[j].position,
    decreases j - i,
{
    if i < j {
        lemma_positions_monotone(s, i + 1, j);
    }
}

/// The positions of ordered stops keep their distinctness.
proof fn lemma_sorted_distinct(s: Seq<ColorStop>)
    requires
        spec_positions_distinct(s),
    ensures
        spec_positions_distinct(spec_sort_stops(s)),
    decreases s.len(),
{
    broadcast use vstd::seq_lib::group_to_multiset_ensures;

    if s.len() > 0 {
        assert(spec_positions_distinct(s.drop_last()));
        lemma_sorted_distinct(s.drop_last());
        lemma_sort_stops_multiset(s.drop_last());
        let inner = spec_sort_stops(s.drop_last());
        assert forall|t: int| 0 <= t < inner.len() implies (#[trigger] inner[t]).position != s.last().position by {
            assert(inner.to_multiset().contains(inner[t]));
            assert(s.drop_last().to_multiset().contains(inner[t]));
            assert(s.drop_last().contains(inner[t]));
            let w = choose|w: int| 0 <= w < s.drop_last().len() && s.drop_last()[w] == inner[t];
            assert(s[w] == inner[t]);
            assert(s[w].position != s[s.len() - 1].position);
        }
        lemma_insert_distinct(s.last(), inner);
    }
}

proof fn lemma_insert_distinct(x: ColorStop, s: Seq<ColorStop>)
    requires
        spec_positions_distinct(s),
        forall|t: int| 0 <= t < s.len() ==> (#[trigger] s[t]).position != x.position,
    ensures
        spec_positions_distinct(spec_insert_stop(x, s)),
    decreases s.len(),
{
    lemma_insert_stop_len(x, s);
    let out = spec_insert_stop(x, s);
    if s.len() == 0 {
    } else if x.position < s.last().position {
        assert(spec_positions_distinct(s.drop_last()));
        lemma_insert_distinct(x, s.drop_last());
        let inner = spec_insert_stop(x, s.drop_last());
        lemma_insert_stop_len(x, s.drop_last());
        assert forall|i: int, j: int| 0 <= i < j < out.len() implies (#[trigger] out[i]).position
            != (#[trigger] out[j]).position by {
            if j < inner.len() {
                assert(out[i] == inner[i] && out[j] == inner[j]);
            } else {
                assert(out[j] == s.last());
                assert(out[i] == inner[i]);
                lemma_insert_member(x, s.drop_last(), i);
            }
        }
    } else {
        assert forall|i: int, j: int| 0 <= i < j < out.len() implies (#[trigger] out[i]).position
            != (#[trigger] out[j]).position by {
            if j == s.len() {
                assert(out[j] == x && out[i] == s[i]);
            } else {
                assert(out[i] == s[i] && out[j] == s[j]);
            }
        }
    }
}

/// Every entry of an insertion is the inserted stop or one of the old ones.
proof fn lemma_insert_member(x: ColorStop, s: Seq<ColorStop>, i: int)
    requires
        0 <= i < spec_insert_stop(x, s).len(),
    ensures
        spec_insert_stop(x, s)[i] == x || exists|w: int|
            0 <= w < s.len() && s[w] == #[trigger] spec_insert_stop(x, s)[i],
    decreases s.len(),
{
    lemma_insert_stop_len(x, s);
    if s.len() > 0 && x.position < s.last().position {
        lemma_insert_stop_len(x, s.drop_last());
        let inner = spec_insert_stop(x, s.drop_last());
        if i < inner.len() {
            lemma_insert_member(x, s.drop_last(), i);
            if inner[i] != x {
                let w = choose|w: int| 0 <= w < s.drop_last().len() && s.drop_last()[w]
                    == inner[i];
                assert(s[w] == spec_insert_stop(x, s)[i]);
            }
        } else {
            assert(spec_insert_stop(x, s)[i] == s.last());
            assert(s[s.len() - 1] == spec_insert_stop(x, s)[i]);
        }
    } else if s.len() > 0 {
        if i < s.len() {
            assert(s[i] == spec_insert_stop(x, s)[i]);
        }
    }
}

/// The order stops stand in does not matter: two stop lists holding the
/// same stops, with pairwise distinct positions, order to the same list,
/// so the palettes they produce are equal.
pub proof fn lemma_stop_order_irrelevant(s1: Seq<ColorStop>, s2: Seq<ColorStop>)
    requires
        s1.to_multiset() == s2.to_multiset(),
        spec_positions_distinct(s1),
        spec_positions_distinct(s2),
    ensures
        spec_sort_stops(s1) == spec_sort_stops(s2),
{
    let leq = |a: ColorStop, b: ColorStop| stop_le(a, b);
    lemma_stop_le_total();
    lemma_sort_stops_sorted(s1);
    lemma_sort_stops_sorted(s2);
    lemma_sorted_distinct(s1);
    lemma_sorted_distinct(s2);
    lemma_strict_sorted_by(spec_sort_stops(s1));
    lemma_strict_sorted_by(spec_sort_stops(s2));
    lemma_sort_stops_multiset(s1);
    lemma_sort_stops_multiset(s2);
    vstd::seq_lib::lemma_sorted_unique(spec_sort_stops(s1), spec_sort_stops(s2), leq);
}

} // verus!
