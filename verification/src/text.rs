//! Text building blocks: characters, digits, case folding and message parts.

use vstd::prelude::*;
use vstd::utf8::*;

verus! {

/// `String::push` of std: appends one character.
pub assume_specification[ String::push ](s: &mut String, c: char)
    ensures
        final(s)@ == old(s)@.push(c),
;

/// `==` of std on string slices: equal exactly when the characters are equal.
pub assume_specification[ <str as PartialEq<str>>::eq ](a: &str, b: &str) -> (r: bool)
    ensures
        r == (a@ == b@),
;

/// What std's `Debug` writes for a character: quoted and escaped.
pub uninterp spec fn char_debug(c: char) -> Seq<char>;

/// What std's `Debug` writes for a string: quoted and escaped.
pub uninterp spec fn str_debug(s: Seq<char>) -> Seq<char>;

/// The `Debug` text of std for one character, under the name `char_debug`.
#[verifier::external_body]
pub(crate) fn debug_char(c: char) -> (r: String)
    ensures
        r@ == char_debug(c),
{
    format!("{c:?}")
}

/// The `Debug` text of std for a string, under the name `str_debug`.
#[verifier::external_body]
pub(crate) fn debug_str(s: &str) -> (r: String)
    ensures
        r@ == str_debug(s@),
{
    format!("{s:?}")
}

/// `std::str::from_utf8`: the text of bytes that are UTF-8; of others, the length of the longest
/// prefix that is UTF-8 (`Utf8Error::valid_up_to`).
#[verifier::external_body]
pub(crate) fn from_utf8(bytes: &[u8]) -> (r: Result<&str, usize>)
    ensures
        match r {
            Ok(s) => valid_utf8(bytes@) && s@ == decode_utf8(bytes@),
            Err(n) => {
                &&& !valid_utf8(bytes@)
                &&& partial_valid_utf8(bytes@, n as int)
                &&& forall|m: int| n < m <= bytes@.len() ==> !partial_valid_utf8(bytes@, m)
            },
        },
{
    match std::str::from_utf8(bytes) {
        Ok(s) => Ok(s),
        Err(e) => Err(e.valid_up_to()),
    }
}

/// The characters of a string, one by one.
pub(crate) fn chars_of(s: &str) -> (r: Vec<char>)
    ensures
        r@ == s@,
{
    let mut out: Vec<char> = Vec::new();
    for c in it: s.chars()
        invariant
            out@ == s@.take(it.index() as int),
            it.seq() == s@,
    {
        out.push(c);
    }
    out
}

/// The decimal digit of a number below ten.
pub open spec fn digit(n: nat) -> char {
    (n + 48) as char
}

/// A number in decimal, without leading zeros.
pub open spec fn decimal(n: nat) -> Seq<char>
    decreases n,
{
    if n < 10 {
        seq![digit(n)]
    } else {
        decimal(n / 10).push(digit(n % 10))
    }
}

/// Writes a number in decimal.
pub(crate) fn decimal_text(n: u64) -> (r: String)
    ensures
        r@ == decimal(n as nat),
    decreases n,
{
    let d: u8 = (n % 10) as u8;
    let mut out = if n < 10 {
        String::new()
    } else {
        decimal_text(n / 10)
    };
    out.push((d + 48) as char);
    out
}

/// Whether two strings hold the same characters.
pub(crate) fn same(a: &str, b: &str) -> (r: bool)
    ensures
        r == (a@ == b@),
{
    *a == *b
}

/// The ASCII lower-case form of a character; other characters stand for themselves.
pub open spec fn lower_char(c: char) -> char {
    if 'A' <= c <= 'Z' {
        (c as u32 + 32) as char
    } else {
        c
    }
}

/// A string with its ASCII letters in lower case.
pub open spec fn lower(s: Seq<char>) -> Seq<char> {
    s.map_values(|c: char| lower_char(c))
}

/// Folds ASCII letters to lower case.
pub(crate) fn ascii_lower(s: &str) -> (r: String)
    ensures
        r@ == lower(s@),
{
    let mut out = String::new();
    for c in it: s.chars()
        invariant
            out@ == lower(s@.take(it.index() as int)),
            it.seq() == s@,
    {
        let folded = if 'A' <= c && c <= 'Z' {
            ((c as u8) + 32) as char
        } else {
            c
        };
        out.push(folded);
        assert(out@ == lower(s@.take(it.index() as int + 1)));
    }
    assert(s@.take(s@.len() as int) == s@);
    out
}

/// A control character: Unicode general category Cc.
pub open spec fn is_control(c: char) -> bool {
    c as u32 <= 0x1F || 0x7F <= c as u32 <= 0x9F
}

/// Tests for a control character.
pub(crate) fn control(c: char) -> (r: bool)
    ensures
        r == is_control(c),
{
    let v: u32 = c as u32;
    v <= 0x1F || (0x7F <= v && v <= 0x9F)
}

/// A character with the Unicode property White_Space.
pub open spec fn is_space(c: char) -> bool {
    let v = c as u32;
    ||| 0x09 <= v <= 0x0D
    ||| v == 0x20
    ||| v == 0x85
    ||| v == 0xA0
    ||| v == 0x1680
    ||| 0x2000 <= v <= 0x200A
    ||| v == 0x2028
    ||| v == 0x2029
    ||| v == 0x202F
    ||| v == 0x205F
    ||| v == 0x3000
}

/// A string without any character but white space.
pub open spec fn is_blank(s: Seq<char>) -> bool {
    forall|i: int| 0 <= i < s.len() ==> #[trigger] is_space(s[i])
}

/// Tests whether a string is empty or holds white space only.
pub(crate) fn blank(s: &str) -> (r: bool)
    ensures
        r == is_blank(s@),
{
    for c in it: s.chars()
        invariant
            it.seq() == s@,
            forall|i: int| 0 <= i < it.index() ==> #[trigger] is_space(s@[i]),
    {
        let v: u32 = c as u32;
        let space = (0x09 <= v && v <= 0x0D) || v == 0x20 || v == 0x85 || v == 0xA0 || v == 0x1680
            || (0x2000 <= v && v <= 0x200A) || v == 0x2028 || v == 0x2029 || v == 0x202F || v
            == 0x205F || v == 0x3000;
        assert(space == is_space(c));
        if !space {
            assert(!is_space(s@[it.index() as int]));
            return false;
        }
    }
    true
}

/// The value of a hexadecimal digit, upper or lower case.
pub open spec fn nibble(c: char) -> Option<u8> {
    if '0' <= c <= '9' {
        Some((c as u32 - 48) as u8)
    } else if 'A' <= c <= 'F' {
        Some((c as u32 - 55) as u8)
    } else if 'a' <= c <= 'f' {
        Some((c as u32 - 87) as u8)
    } else {
        None
    }
}

/// The upper-case hexadecimal digit of a value below sixteen.
pub open spec fn upper_digit(v: u8) -> char {
    if v < 10 {
        (v + 48) as char
    } else {
        (v + 55) as char
    }
}

/// The upper-case hexadecimal digit of a value below sixteen.
pub(crate) fn hex_digit(v: u8) -> (r: char)
    requires
        v < 16,
    ensures
        r == upper_digit(v),
{
    if v < 10 {
        (v + 48) as char
    } else {
        (v + 55) as char
    }
}

/// Four lower-case hexadecimal digits of a 16-bit number.
pub open spec fn hex4(v: u16) -> Seq<char> {
    seq![
        lower_char(upper_digit((v / 4096) as u8)),
        lower_char(upper_digit((v / 256 % 16) as u8)),
        lower_char(upper_digit((v / 16 % 16) as u8)),
        lower_char(upper_digit((v % 16) as u8)),
    ]
}

/// Writes a 16-bit number as four lower-case hexadecimal digits.
pub(crate) fn hex4_text(v: u16) -> (r: String)
    ensures
        r@ == hex4(v),
{
    let mut upper = String::new();
    upper.push(hex_digit((v / 4096) as u8));
    upper.push(hex_digit((v / 256 % 16) as u8));
    upper.push(hex_digit((v / 16 % 16) as u8));
    upper.push(hex_digit((v % 16) as u8));
    let out = ascii_lower(upper.as_str());
    assert(out@ == hex4(v));
    out
}

/// A number below ten has one digit; another digit behind a number makes it ten times as large, and
/// adds the digit.
pub proof fn law_decimal_reads_as_the_number(n: nat, d: nat)
    requires
        d < 10,
    ensures
        decimal(d).len() == 1,
        decimal(d)[0] as u32 == 0x30 + d,
        n > 0 ==> decimal(10 * n + d).len() == decimal(n).len() + 1,
        n > 0 ==> decimal(10 * n + d).last() as u32 == 0x30 + d,
        n > 0 ==> decimal(10 * n + d).drop_last() == decimal(n),
{
    if n > 0 {
        assert((10 * n + d) / 10 == n && (10 * n + d) % 10 == d);
        assert(decimal(n).push(digit(d)).drop_last() =~= decimal(n));
    }
}

/// Folding to lower case turns the letters `A` to `Z` into `a` to `z`, in place, and leaves every
/// other character.
pub proof fn law_lower_folds_ascii_only(s: Seq<char>, i: int)
    requires
        0 <= i < s.len(),
    ensures
        lower(s).len() == s.len(),
        0x41 <= s[i] as u32 <= 0x5A ==> lower(s)[i] as u32 == s[i] as u32 + 0x20,
        !(0x41 <= s[i] as u32 <= 0x5A) ==> lower(s)[i] == s[i],
        lower(lower(s)) == lower(s),
{
    assert(lower(lower(s)) =~= lower(s));
}

/// The control characters are those below the blank, DEL, and the C1 controls.
pub proof fn law_controls(c: char)
    ensures
        is_control(c) == ((c as u32) < 0x20 || c as u32 == 0x7F || 0x80 <= c as u32 <= 0x9F),
{
}

/// White space is the ASCII white space, and the characters of that kind beyond ASCII.
pub proof fn law_white_space(c: char)
    ensures
        (c as u32) < 0x80 ==> is_space(c) == (c == ' ' || 0x09 <= c as u32 <= 0x0D),
        (c as u32) >= 0x80 ==> is_space(c) == (c as u32 == 0x85 || c as u32 == 0xA0 || c as u32
            == 0x1680 || 0x2000 <= c as u32 <= 0x200A || c as u32 == 0x2028 || c as u32 == 0x2029
            || c as u32 == 0x202F || c as u32 == 0x205F || c as u32 == 0x3000),
{
}

/// A string is blank unless some character of it is not white space.
pub proof fn law_blank(s: Seq<char>, i: int)
    ensures
        is_blank(seq![]),
        0 <= i < s.len() && !is_space(s[i]) ==> !is_blank(s),
        (forall|k: int| 0 <= k < s.len() ==> #[trigger] is_space(s[k])) ==> is_blank(s),
{
}

/// The value of a lower-case hexadecimal digit.
pub open spec fn lower_hex_value(c: char) -> int {
    if 0x30 <= c as u32 <= 0x39 {
        c as u32 - 0x30
    } else if 0x61 <= c as u32 <= 0x66 {
        c as u32 - 0x61 + 10
    } else {
        -1
    }
}

/// Four lower-case hexadecimal digits read as the number.
pub proof fn law_hex4_reads_as_the_number(v: u16)
    ensures
        hex4(v).len() == 4,
        0 <= lower_hex_value(hex4(v)[0]) < 16,
        0 <= lower_hex_value(hex4(v)[1]) < 16,
        0 <= lower_hex_value(hex4(v)[2]) < 16,
        0 <= lower_hex_value(hex4(v)[3]) < 16,
        lower_hex_value(hex4(v)[0]) * 4096 + lower_hex_value(hex4(v)[1]) * 256 + lower_hex_value(
            hex4(v)[2],
        ) * 16 + lower_hex_value(hex4(v)[3]) == v,
{
    lemma_lower_hex_digit((v / 4096) as u8);
    lemma_lower_hex_digit((v / 256 % 16) as u8);
    lemma_lower_hex_digit((v / 16 % 16) as u8);
    lemma_lower_hex_digit((v % 16) as u8);
}

proof fn lemma_lower_hex_digit(x: u8)
    requires
        x < 16,
    ensures
        lower_hex_value(lower_char(upper_digit(x))) == x,
{
}

/// A hexadecimal digit, upper or lower case, has its value; any other character has none. The digit
/// that is written for a value is the upper-case one.
pub proof fn law_hex_digits(c: char, v: u8)
    ensures
        0x30 <= c as u32 <= 0x39 ==> nibble(c) == Some((c as u32 - 0x30) as u8),
        0x41 <= c as u32 <= 0x46 ==> nibble(c) == Some((c as u32 - 0x41 + 10) as u8),
        0x61 <= c as u32 <= 0x66 ==> nibble(c) == Some((c as u32 - 0x61 + 10) as u8),
        !(0x30 <= c as u32 <= 0x39 || 0x41 <= c as u32 <= 0x46 || 0x61 <= c as u32 <= 0x66)
            ==> nibble(c) is None,
        v < 10 ==> upper_digit(v) as u32 == 0x30 + v,
        10 <= v < 16 ==> upper_digit(v) as u32 == 0x41 + (v - 10),
{
}

}
