//! Building text: decimal numerals, padding and character-level helpers.

use vstd::prelude::*;
use vstd::std_specs::iter::IteratorSpec;

verus! {

/// The views of a sequence of strings.
pub open spec fn views(v: Seq<String>) -> Seq<Seq<char>> {
    v.map_values(|s: String| s@)
}

/// The view of an optional string.
pub open spec fn opt_view(o: Option<String>) -> Option<Seq<char>> {
    match o {
        Some(s) => Some(s@),
        None => None,
    }
}

/// The character of a single decimal digit.
pub open spec fn digit_char(d: nat) -> char
    recommends
        d < 10,
{
    ((d + 48) as u8) as char
}

/// The decimal numeral of `n`: its digits, most significant first, `"0"` for zero.
pub open spec fn decimal(n: nat) -> Seq<char>
    decreases n,
{
    if n < 10 {
        seq![digit_char(n)]
    } else {
        decimal(n / 10).push(digit_char(n % 10))
    }
}

/// `n` copies of `c`.
pub open spec fn repeat(c: char, n: nat) -> Seq<char> {
    Seq::new(n, |i: int| c)
}

/// Relies on `String::push`: the character is appended at the end.
#[verifier::external_body]
pub(crate) fn push_char(s: &mut String, c: char)
    ensures
        final(s)@ == old(s)@.push(c),
{
    s.push(c);
}

/// The decimal numeral of `n`.
pub fn decimal_text(n: u128) -> (r: String)
    ensures
        r@ == decimal(n as nat),
{
    let mut digits: Vec<char> = Vec::new();
    let mut rest: u128 = n;
    loop
        invariant_except_break
            decimal(n as nat) == decimal(rest as nat) + digits@.reverse(),
        ensures
            decimal(n as nat) == digits@.reverse(),
        decreases rest,
    {
        let d: u8 = (rest % 10) as u8;
        let ghost before = digits@;
        digits.push((d + 48) as char);
        assert(digits@.reverse() =~= seq![digit_char(d as nat)] + before.reverse());
        if rest < 10 {
            assert(decimal(n as nat) =~= digits@.reverse());
            break;
        }
        assert(decimal(rest as nat) == decimal((rest / 10) as nat).push(digit_char(d as nat)));
        assert(decimal(n as nat) =~= decimal((rest / 10) as nat) + digits@.reverse());
        rest = rest / 10;
    }
    let mut r = String::new();
    let mut i: usize = digits.len();
    while i > 0
        invariant
            i <= digits.len(),
            r@ == digits@.subrange(i as int, digits.len() as int).reverse(),
        decreases i,
    {
        i = i - 1;
        push_char(&mut r, digits[i]);
        assert(r@ =~= digits@.subrange(i as int, digits.len() as int).reverse());
    }
    assert(r@ =~= digits@.reverse());
    r
}

/// The characters of `s`, in order.
pub fn chars_of(s: &str) -> (r: Vec<char>)
    ensures
        r@ == s@,
{
    broadcast use vstd::string::group_string_axioms;

    let mut it = s.chars();
    let mut r: Vec<char> = Vec::new();
    loop
        invariant
            r@ + it.remaining() == s@,
            it.decrease() is Some,
        ensures
            r@ == s@,
        decreases it.decrease()->0,
    {
        match it.next() {
            Some(c) => {
                let ghost rest = it.remaining();
                r.push(c);
                assert(r@ + rest =~= s@);
            },
            None => {
                assert(r@ =~= s@);
                break ;
            },
        }
    }
    r
}

/// The Unicode `White_Space` property, as `char::is_whitespace` reports it.
pub uninterp spec fn whitespace(c: char) -> bool;

/// The Unicode general category `Cc`, as `char::is_control` reports it.
pub uninterp spec fn control(c: char) -> bool;

/// The Unicode `Alphabetic` property or a numeric category, as `char::is_alphanumeric`
/// reports it.
pub uninterp spec fn alphanumeric(c: char) -> bool;

/// What `str::to_lowercase` makes of a string.
pub uninterp spec fn lowercase(s: Seq<char>) -> Seq<char>;

/// Relies on `char::is_whitespace`: whether the character has the `White_Space` property.
#[verifier::external_body]
pub(crate) fn is_whitespace_char(c: char) -> (r: bool)
    ensures
        r == whitespace(c),
{
    c.is_whitespace()
}

/// Relies on `char::is_control`: whether the character is in the `Cc` category.
#[verifier::external_body]
pub(crate) fn is_control_char(c: char) -> (r: bool)
    ensures
        r == control(c),
{
    c.is_control()
}

/// Relies on `char::is_alphanumeric`: whether the character is alphabetic or numeric.
#[verifier::external_body]
pub(crate) fn is_alphanumeric_char(c: char) -> (r: bool)
    ensures
        r == alphanumeric(c),
{
    c.is_alphanumeric()
}

/// Relies on `str::to_lowercase`: the lowercase mapping of the string, which
/// depends on its characters alone.
#[verifier::external_body]
pub(crate) fn to_lowercase(s: &str) -> (r: String)
    ensures
        r@ == lowercase(s@),
{
    s.to_lowercase()
}

/// `s` without its trailing whitespace.
pub open spec fn trimmed_end(s: Seq<char>) -> Seq<char>
    decreases s.len(),
{
    if s.len() > 0 && whitespace(s.last()) {
        trimmed_end(s.drop_last())
    } else {
        s
    }
}

/// `s` without its trailing whitespace.
pub fn trim_end(s: &String) -> (r: String)
    ensures
        r@ == trimmed_end(s@),
{
    let cs = chars_of(s.as_str());
    let mut end: usize = cs.len();
    assert(cs@.subrange(0, end as int) =~= cs@);
    while end > 0 && is_whitespace_char(cs[end - 1])
        invariant
            end <= cs.len(),
            trimmed_end(cs@) == trimmed_end(cs@.subrange(0, end as int)),
        decreases end,
    {
        assert(cs@.subrange(0, end - 1) =~= cs@.subrange(0, end as int).drop_last());
        end = end - 1;
    }
    assert(trimmed_end(cs@.subrange(0, end as int)) == cs@.subrange(0, end as int));
    let mut r = String::new();
    let mut i: usize = 0;
    while i < end
        invariant
            i <= end <= cs.len(),
            r@ == cs@.subrange(0, i as int),
        decreases end - i,
    {
        push_char(&mut r, cs[i]);
        i = i + 1;
        assert(r@ =~= cs@.subrange(0, i as int));
    }
    r
}

/// Appends `n` spaces to `s`.
pub fn push_spaces(s: &mut String, n: u128)
    ensures
        final(s)@ == old(s)@ + repeat(' ', n as nat),
{
    let mut k: u128 = 0;
    while k < n
        invariant
            k <= n,
            s@ == old(s)@ + repeat(' ', k as nat),
        decreases n - k,
    {
        push_char(s, ' ');
        k = k + 1;
        assert(s@ =~= old(s)@ + repeat(' ', k as nat));
    }
}

/// `s` padded on the left with spaces to `w` characters.
pub open spec fn pad_left(s: Seq<char>, w: int) -> Seq<char> {
    if s.len() < w {
        repeat(' ', (w - s.len()) as nat) + s
    } else {
        s
    }
}

/// `s` padded on the right with spaces to `w` characters.
pub open spec fn pad_right(s: Seq<char>, w: int) -> Seq<char> {
    if s.len() < w {
        s + repeat(' ', (w - s.len()) as nat)
    } else {
        s
    }
}

/// Appends `t` to `s`, padded on the left with spaces to `w` characters.
pub fn push_padded_left(s: &mut String, t: &str, w: u128)
    ensures
        final(s)@ == old(s)@ + pad_left(t@, w as int),
{
    let n = t.unicode_len();
    if (n as u128) < w {
        push_spaces(s, w - n as u128);
    }
    s.append(t);
}

/// Appends `t` to `s`, padded on the right with spaces to `w` characters.
pub fn push_padded_right(s: &mut String, t: &str, w: u128)
    ensures
        final(s)@ == old(s)@ + pad_right(t@, w as int),
{
    let n = t.unicode_len();
    s.append(t);
    if (n as u128) < w {
        push_spaces(s, w - n as u128);
    }
}

} // verus!
