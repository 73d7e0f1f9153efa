use vstd::prelude::*;
use vstd::string::{StrSliceExecFns, StringExecFns};
use crate::raster::{Rgb, BLACK};

verus! {

/// The color that `hex_color` reads from `s` in `#RGB` or `#RRGGBB` form, if any.
pub uninterp spec fn hex_rgb_of(s: Seq<char>) -> Option<Rgb>;

/// A hexadecimal digit, in either case.
pub open spec fn is_hex_digit(c: char) -> bool {
    ('0' <= c && c <= '9') || ('a' <= c && c <= 'f') || ('A' <= c && c <= 'F')
}

/// The value of a hexadecimal digit.
pub open spec fn hex_value(c: char) -> int {
    if '0' <= c && c <= '9' {
        c as int - '0' as int
    } else if 'a' <= c && c <= 'f' {
        c as int - 'a' as int + 10
    } else {
        c as int - 'A' as int + 10
    }
}

/// `s` is `#` followed by `n` hexadecimal digits.
pub open spec fn is_hex_code(s: Seq<char>, n: int) -> bool {
    s.len() == n + 1 && s[0] == '#' && forall|i: int| 1 <= i <= n ==> is_hex_digit(#[trigger] s[i])
}

/// The color of `#RRGGBB` (each pair of digits a byte) or `#RGB` (each digit repeated),
/// for hexadecimal digits; `None` for anything else.
pub open spec fn hex_code_color(s: Seq<char>) -> Option<Rgb> {
    if is_hex_code(s, 6) {
        Some(
            (
                (16 * hex_value(s[1]) + hex_value(s[2])) as u8,
                (16 * hex_value(s[3]) + hex_value(s[4])) as u8,
                (16 * hex_value(s[5]) + hex_value(s[6])) as u8,
            ),
        )
    } else if is_hex_code(s, 3) {
        Some(((17 * hex_value(s[1])) as u8, (17 * hex_value(s[2])) as u8, (17 * hex_value(s[3])) as u8))
    } else {
        None
    }
}

/// Relies on `hex_color::HexColor::parse_rgb`: the color it reads, which depends on the
/// characters alone. An empty string or one that does not start with `#` gives none;
/// `#RRGGBB` gives each pair of digits as a byte, and `#RGB` each digit repeated.
#[verifier::external_body]
fn parse_hex_rgb(s: &str) -> (r: Option<Rgb>)
    ensures
        r == hex_rgb_of(s@),
        s@.len() == 0 ==> r is None,
        s@.len() > 0 && s@[0] != '#' ==> r is None,
        hex_code_color(s@) matches Some(c) ==> r == Some(c),
{
    match hex_color::HexColor::parse_rgb(s) {
        Ok(c) => Some((c.r, c.g, c.b)),
        Err(_) => None,
    }
}

/// What a wallpaper argument names.
#[derive(Debug, Clone, Copy, PartialEq, Eq)]
pub enum Token {
    /// A solid color; black leaves the display unpainted.
    Color(Rgb),
    /// Anything else, to be opened as an image file.
    Path,
}

/// The meaning of `s` once its color, if any, is known: the empty argument is black,
/// a color is that color, anything else is a path.
pub open spec fn token_spec(s: Seq<char>, color: Option<Rgb>) -> Token {
    if s.len() == 0 {
        Token::Color(BLACK)
    } else {
        match color {
            Some(c) => Token::Color(c),
            None => Token::Path,
        }
    }
}

/// What the wallpaper argument `s` names.
pub fn classify_argument(s: &str) -> (r: Token)
    ensures
        r == token_spec(s@, hex_rgb_of(s@)),
        hex_code_color(s@) matches Some(c) ==> r == Token::Color(c),
{
    if s.unicode_len() == 0 {
        return Token::Color(BLACK);
    }
    match parse_hex_rgb(s) {
        Some(c) => Token::Color(c),
        None => Token::Path,
    }
}

/// The lower-case form of `s`, as `str::to_lowercase` gives it.
pub uninterp spec fn lowercase_of(s: Seq<char>) -> Seq<char>;

/// Relies on `str::to_lowercase`: the result depends on the characters alone.
#[verifier::external_body]
fn to_lowercase(s: &str) -> (r: String)
    ensures
        r@ == lowercase_of(s@),
{
    s.to_lowercase()
}

/// `s` ends with `suffix`.
pub open spec fn ends_with_spec(s: Seq<char>, suffix: Seq<char>) -> bool {
    s.len() >= suffix.len() && s.subrange(s.len() - suffix.len(), s.len() as int) == suffix
}

/// `lower` ends in a JPEG extension.
pub open spec fn has_jpeg_extension(lower: Seq<char>) -> bool {
    ends_with_spec(lower, ".jpeg"@) || ends_with_spec(lower, ".jpg"@)
}

/// The output name for `name`, whose lower-case form is `lower`: `name` itself where it
/// has a JPEG extension, else `name` followed by `.jpg`.
pub open spec fn output_name_spec(name: Seq<char>, lower: Seq<char>) -> Seq<char> {
    if has_jpeg_extension(lower) {
        name
    } else {
        name + ".jpg"@
    }
}

fn ends_with(s: &str, suffix: &str) -> (r: bool)
    ensures
        r == ends_with_spec(s@, suffix@),
{
    let n = s.unicode_len();
    let m = suffix.unicode_len();
    if n < m {
        return false;
    }
    let mut i: usize = 0;
    while i < m
        invariant
            n == s@.len(),
            m == suffix@.len(),
            m <= n,
            i <= m,
            forall|k: int| 0 <= k < i ==> s@[n - m + k] == suffix@[k],
        decreases m - i,
    {
        if s.get_char(n - m + i) != suffix.get_char(i) {
            assert(s@.subrange(n - m, n as int)[i as int] != suffix@[i as int]);
            return false;
        }
        i = i + 1;
    }
    assert(s@.subrange(n - m, n as int) =~= suffix@);
    true
}

/// The output name for `name` given its lower-case form `lower`.
pub fn output_name_with_lowercase(name: &str, lower: &str) -> (r: String)
    ensures
        r@ == output_name_spec(name@, lower@),
{
    proof {
        reveal_strlit(".jpeg");
        reveal_strlit(".jpg");
    }
    if ends_with(lower, ".jpeg") || ends_with(lower, ".jpg") {
        String::from_str(name)
    } else {
        String::from_str(name).concat(".jpg")
    }
}

/// The output file name for `name`: `.jpg` is appended unless it already ends in
/// `.jpg` or `.jpeg`, in any case.
pub fn output_parser(name: &str) -> (r: Result<String, String>)
    ensures
        r matches Ok(s) && s@ == output_name_spec(name@, lowercase_of(name@)),
{
    let lower = to_lowercase(name);
    Ok(output_name_with_lowercase(name, lower.as_str()))
}

} // verus!
