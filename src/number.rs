use vstd::prelude::*;
use crate::ident::Span;
use crate::syntax::Number;

verus! {

/// What `char::is_alphanumeric` returns for `c`.
pub uninterp spec fn alphanumeric(c: char) -> bool;

/// Relies on `char::is_alphanumeric`: whether `c` is alphabetic or numeric
/// in Unicode's sense; ASCII letters and digits are, other ASCII characters
/// are not.
#[verifier::external_body]
fn is_alphanumeric(c: char) -> (r: bool)
    ensures
        r == alphanumeric(c),
        ('0' <= c <= '9' || 'a' <= c <= 'z' || 'A' <= c <= 'Z') ==> r,
        (c as u32) < 128 && !('0' <= c <= '9' || 'a' <= c <= 'z' || 'A' <= c <= 'Z') ==> !r,
{
    c.is_alphanumeric()
}

/// An ASCII character that is neither a letter nor a digit.
pub open spec fn ascii_other(c: char) -> bool {
    (c as u32) < 128 && !('0' <= c <= '9' || 'a' <= c <= 'z' || 'A' <= c <= 'Z')
}

pub open spec fn is_sign(c: char) -> bool {
    c == '+' || c == '-'
}

pub open spec fn is_hex_digit(c: char) -> bool {
    ('0' <= c <= '9') || ('a' <= c <= 'f') || ('A' <= c <= 'F')
}

/// Whether `c` is a digit under the base prefix letter `base`
/// (`x`, `b` or `o`; none for decimal). Octal admits `0` to `8`.
pub open spec fn is_digit_of(c: char, base: Option<char>) -> bool {
    match base {
        Some(b) => if b == 'x' {
            is_hex_digit(c)
        } else if b == 'b' {
            '0' <= c <= '1'
        } else {
            '0' <= c <= '8'
        },
        None => '0' <= c <= '9',
    }
}

/// The end of the run of sign characters starting at `i`.
pub open spec fn sign_end(s: Seq<char>, i: int) -> int
    decreases s.len() - i,
{
    if 0 <= i < s.len() && is_sign(s[i]) {
        sign_end(s, i + 1)
    } else {
        i
    }
}

/// The end of the run of digits and underscores starting at `i`.
pub open spec fn digits_end(s: Seq<char>, i: int, base: Option<char>) -> int
    decreases s.len() - i,
{
    if 0 <= i < s.len() && (is_digit_of(s[i], base) || s[i] == '_') {
        digits_end(s, i + 1, base)
    } else {
        i
    }
}

/// The end of the run of `u` and `i` letters starting at `i`.
pub open spec fn ui_end(s: Seq<char>, i: int) -> int
    decreases s.len() - i,
{
    if 0 <= i < s.len() && (s[i] == 'u' || s[i] == 'i') {
        ui_end(s, i + 1)
    } else {
        i
    }
}

/// The base prefix letter at `p`, where `0x`, `0b` or `0o` stands there.
pub open spec fn base_at(s: Seq<char>, p: int) -> Option<char> {
    if 0 <= p && p + 1 < s.len() && s[p] == '0' && (s[p + 1] == 'x' || s[p + 1] == 'b' || s[p + 1] == 'o') {
        Some(s[p + 1])
    } else {
        None
    }
}

/// The end of a width `8`, `16`, `32` or `64` starting at `u`.
pub open spec fn width_end(s: Seq<char>, u: int) -> Option<int> {
    if 0 <= u < s.len() && s[u] == '8' {
        Some(u + 1)
    } else if 0 <= u && u + 1 < s.len() && ((s[u] == '1' && s[u + 1] == '6') || (s[u] == '3' && s[u + 1] == '2') || (
    s[u] == '6' && s[u + 1] == '4')) {
        Some(u + 2)
    } else {
        None
    }
}

pub open spec fn span_of(a: int, b: int) -> Span {
    Span { start: a as usize, end: b as usize }
}

/// The integer literal at `start`: signs, an optional base prefix, at least
/// one digit of that base followed by digits and underscores, and an
/// optional suffix of `u`/`i` letters and a width. `None` where no digit
/// follows the prefix. The first span covers the whole literal.
pub open spec fn lex_integer(s: Seq<char>, start: int) -> Option<(Span, Number)> {
    let p1 = sign_end(s, start);
    let b = base_at(s, p1);
    let p2 = if b is Some {
        p1 + 2
    } else {
        p1
    };
    if p2 < s.len() && is_digit_of(s[p2], b) {
        let p3 = digits_end(s, p2 + 1, b);
        let u = ui_end(s, p3);
        let we = if u > p3 {
            width_end(s, u)
        } else {
            None
        };
        let p4 = match we {
            Some(e) => e,
            None => p3,
        };
        Some(
            (
                span_of(start, p4),
                Number {
                    sign: if p1 > start {
                        Some(span_of(start, p1))
                    } else {
                        None
                    },
                    number: span_of(p2, p3),
                    suffix: match we {
                        Some(e) => Some(span_of(p3, e)),
                        None => None,
                    },
                    base: if b is Some {
                        Some(span_of(p1, p1 + 2))
                    } else {
                        None
                    },
                },
            ),
        )
    } else {
        None
    }
}

/// An integer literal that no letter or digit follows.
pub open spec fn integer_token(s: Seq<char>, start: int) -> Option<(Span, Number)> {
    match lex_integer(s, start) {
        Some((sp, n)) => if (sp.end as int) < s.len() && alphanumeric(s[sp.end as int]) {
            None
        } else {
            Some((sp, n))
        },
        None => None,
    }
}

fn digit_of(c: char, base: Option<char>) -> (r: bool)
    ensures
        r == is_digit_of(c, base),
{
    match base {
        Some(b) => if b == 'x' {
            ('0' <= c && c <= '9') || ('a' <= c && c <= 'f') || ('A' <= c && c <= 'F')
        } else if b == 'b' {
            '0' <= c && c <= '1'
        } else {
            '0' <= c && c <= '8'
        },
        None => '0' <= c && c <= '9',
    }
}

/// Reads the integer literal at `start` of `text`, without looking at what follows it.
pub fn parse_integer_inner(text: &Vec<char>, start: usize) -> (r: Option<(Span, Number)>)
    requires
        start <= text@.len(),
    ensures
        r == lex_integer(text@, start as int),
{
    let ghost s = text@;
    let n = text.len();
    let mut p1 = start;
    while p1 < n && (text[p1] == '+' || text[p1] == '-')
        invariant
            start <= p1 <= n,
            n == s.len(),
            s == text@,
            sign_end(s, start as int) == sign_end(s, p1 as int),
        decreases n - p1,
    {
        p1 = p1 + 1;
    }
    let base: Option<char> = if n - p1 >= 2 && text[p1] == '0' && (text[p1 + 1] == 'x' || text[p1 + 1] == 'b'
        || text[p1 + 1] == 'o') {
        Some(text[p1 + 1])
    } else {
        None
    };
    let p2 = if base.is_some() {
        p1 + 2
    } else {
        p1
    };
    if !(p2 < n && digit_of(text[p2], base)) {
        return None;
    }
    let mut p3 = p2 + 1;
    while p3 < n && (digit_of(text[p3], base) || text[p3] == '_')
        invariant
            p2 < p3 <= n,
            n == s.len(),
            s == text@,
            digits_end(s, p2 + 1, base) == digits_end(s, p3 as int, base),
        decreases n - p3,
    {
        p3 = p3 + 1;
    }
    let mut u = p3;
    while u < n && (text[u] == 'u' || text[u] == 'i')
        invariant
            p3 <= u <= n,
            n == s.len(),
            s == text@,
            ui_end(s, p3 as int) == ui_end(s, u as int),
        decreases n - u,
    {
        u = u + 1;
    }
    let we: Option<usize> = if u > p3 {
        if u < n && text[u] == '8' {
            Some(u + 1)
        } else if n - u >= 2 && ((text[u] == '1' && text[u + 1] == '6') || (text[u] == '3' && text[u + 1] == '2') || (
        text[u] == '6' && text[u + 1] == '4')) {
            Some(u + 2)
        } else {
            None
        }
    } else {
        None
    };
    let p4 = match we {
        Some(e) => e,
        None => p3,
    };
    let sign = if p1 > start {
        Some(Span { start, end: p1 })
    } else {
        None
    };
    let suffix = match we {
        Some(e) => Some(Span { start: p3, end: e }),
        None => None,
    };
    let base_span = if base.is_some() {
        Some(Span { start: p1, end: p1 + 2 })
    } else {
        None
    };
    Some((Span { start, end: p4 }, Number { sign, number: Span { start: p2, end: p3 }, suffix, base: base_span }))
}

/// Reads the integer literal at `start` of `text`; fails where a letter or
/// digit follows it.
pub fn parse_integer(text: &Vec<char>, start: usize) -> (r: Option<(Span, Number)>)
    requires
        start <= text@.len(),
    ensures
        r == integer_token(text@, start as int),
        lex_integer(text@, start as int) matches Some((sp, _)) && ((sp.end as int) == text@.len() || (
        ascii_other(text@[sp.end as int]))) ==> r == lex_integer(text@, start as int),
{
    match parse_integer_inner(text, start) {
        Some((sp, num)) => {
            if sp.end < text.len() && is_alphanumeric(text[sp.end]) {
                None
            } else {
                Some((sp, num))
            }
        },
        None => None,
    }
}

} // verus!
