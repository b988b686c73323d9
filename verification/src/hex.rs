//! Binary data as text: spaced hexadecimal, and readable text with escapes.
//!
//! The tool channel carries text only, so serial bytes travel as hexadecimal
//! (`"41 54 0D 0A"`), as plain text where they are text, or as text in which the
//! bytes that cannot be shown are written `\xNN`.

use vstd::prelude::*;
use vstd::slice::slice_subrange;
use vstd::string::StringExecFns;
use vstd::utf8::*;

use crate::text;

verus! {

/// Spaced upper-case hexadecimal: two digits for each byte, one space between bytes.
pub open spec fn hex_text(bytes: Seq<u8>) -> Seq<char> {
    Seq::new(
        if bytes.len() == 0 {
            0
        } else {
            (3 * bytes.len() - 1) as nat
        },
        |i: int|
            if i % 3 == 0 {
                text::upper_digit(bytes[i / 3] / 16)
            } else if i % 3 == 1 {
                text::upper_digit(bytes[i / 3] % 16)
            } else {
                ' '
            },
    )
}

/// Encodes bytes as upper-case hexadecimal, separated by spaces.
pub fn encode(bytes: &[u8]) -> (r: String)
    ensures
        r@ == hex_text(bytes@),
{
    let mut out = String::new();
    let mut i: usize = 0;
    while i < bytes.len()
        invariant
            i <= bytes.len(),
            out@ == hex_text(bytes@.take(i as int)),
        decreases bytes.len() - i,
    {
        let ghost before = out@;
        if i > 0 {
            out.push(' ');
        }
        out.push(text::hex_digit(bytes[i] / 16));
        out.push(text::hex_digit(bytes[i] % 16));
        i += 1;
        assert(out@ =~= hex_text(bytes@.take(i as int)));
    }
    assert(bytes@.take(bytes@.len() as int) == bytes@);
    out
}

/// A character that separates groups of digits.
pub open spec fn is_separator(c: char) -> bool {
    c == ' ' || c == '\t' || c == '\r' || c == '\n' || c == ',' || c == ';'
}

/// A `0x` or `0X` prefix at the start of a text.
pub open spec fn has_prefix(s: Seq<char>) -> bool {
    s.len() >= 2 && s[0] == '0' && (s[1] == 'x' || s[1] == 'X')
}

/// The digit values of a text, separators and `0x` prefixes left out; or the first character
/// that is none of these.
pub open spec fn digits(s: Seq<char>) -> Result<Seq<u8>, char>
    decreases s.len(),
{
    if s.len() == 0 {
        Ok(seq![])
    } else if is_separator(s[0]) {
        digits(s.skip(1))
    } else if has_prefix(s) {
        digits(s.skip(2))
    } else {
        match text::nibble(s[0]) {
            Some(v) => match digits(s.skip(1)) {
                Ok(rest) => Ok(seq![v] + rest),
                Err(c) => Err(c),
            },
            None => Err(s[0]),
        }
    }
}

/// Pairs of digits as bytes.
pub open spec fn pair_up(d: Seq<u8>) -> Seq<u8> {
    Seq::new(d.len() / 2, |i: int| (d[2 * i] * 16 + d[2 * i + 1]) as u8)
}

/// The message for a character that is no hexadecimal digit.
pub open spec fn bad_char_message(c: char) -> Seq<char> {
    "非法 hex 字符: "@ + text::char_debug(c) + "（仅允许 0-9 A-F a-f 及分隔符）"@
}

/// The message for an odd number of digits.
pub open spec fn odd_length_message(n: nat) -> Seq<char> {
    "hex 字符串长度必须为偶数（当前有效字符数 "@ + text::decimal(n) + "）"@
}

/// What decoding a hexadecimal text gives: the bytes, or the message of the error.
pub open spec fn decoded(s: Seq<char>) -> Result<Seq<u8>, Seq<char>> {
    match digits(s) {
        Err(c) => Err(bad_char_message(c)),
        Ok(d) => if d.len() % 2 != 0 {
            Err(odd_length_message(d.len()))
        } else {
            Ok(pair_up(d))
        },
    }
}

/// Tests for a separator.
fn separator(c: char) -> (r: bool)
    ensures
        r == is_separator(c),
{
    c == ' ' || c == '\t' || c == '\r' || c == '\n' || c == ',' || c == ';'
}

/// The value of a hexadecimal digit.
fn hex_val(c: char) -> (r: Option<u8>)
    ensures
        r == text::nibble(c),
{
    if '0' <= c && c <= '9' {
        Some((c as u8) - 48)
    } else if 'A' <= c && c <= 'F' {
        Some((c as u8) - 55)
    } else if 'a' <= c && c <= 'f' {
        Some((c as u8) - 87)
    } else {
        None
    }
}

/// Decodes a hexadecimal text, leniently: bytes may be separated by blanks, commas, semicolons
/// or line breaks, or run together, and may carry a `0x` prefix.
pub fn decode(s: &str) -> (r: Result<Vec<u8>, String>)
    ensures
        match r {
            Ok(bytes) => decoded(s@) == Ok::<Seq<u8>, Seq<char>>(bytes@),
            Err(message) => decoded(s@) == Err::<Seq<u8>, Seq<char>>(message@),
        },
{
    let cs = text::chars_of(s);
    let mut cleaned: Vec<u8> = Vec::new();
    let mut i: usize = 0;
    proof {
        assert(s@.skip(0) == s@);
        if let Ok(rest) = digits(s@) {
            assert(cleaned@ + rest == rest);
        }
    }
    while i < cs.len()
        invariant
            cs@ == s@,
            i <= cs.len(),
            match digits(s@.skip(i as int)) {
                Ok(rest) => digits(s@) == Ok::<Seq<u8>, char>(cleaned@ + rest),
                Err(c) => digits(s@) == Err::<Seq<u8>, char>(c),
            },
            forall|k: int| 0 <= k < cleaned.len() ==> cleaned[k] < 16,
        decreases cs.len() - i,
    {
        let c = cs[i];
        let ghost tail = s@.skip(i as int);
        assert(tail.skip(1) == s@.skip(i + 1));
        if separator(c) {
            i += 1;
        } else if c == '0' && i + 1 < cs.len() && (cs[i + 1] == 'x' || cs[i + 1] == 'X') {
            assert(tail[1] == cs@[i + 1]);
            assert(tail.skip(2) == s@.skip(i + 2));
            i += 2;
        } else {
            match hex_val(c) {
                Some(v) => {
                    let ghost before = cleaned@;
                    cleaned.push(v);
                    proof {
                        if let Ok(rest) = digits(s@.skip(i + 1)) {
                            assert(before + (seq![v] + rest) == cleaned@ + rest);
                        }
                    }
                    i += 1;
                },
                None => {
                    let mut message = String::new();
                    message.append("非法 hex 字符: ");
                    message.append(text::debug_char(c).as_str());
                    message.append("（仅允许 0-9 A-F a-f 及分隔符）");
                    assert(message@ == bad_char_message(c));
                    return Err(message);
                },
            }
        }
    }
    assert(s@.skip(i as int) == Seq::<char>::empty());
    assert(cleaned@ + Seq::<u8>::empty() == cleaned@);
    if cleaned.len() % 2 != 0 {
        let mut message = String::new();
        message.append("hex 字符串长度必须为偶数（当前有效字符数 ");
        message.append(text::decimal_text(cleaned.len() as u64).as_str());
        message.append("）");
        assert(message@ == odd_length_message(cleaned@.len()));
        return Err(message);
    }
    let mut out: Vec<u8> = Vec::new();
    let mut k: usize = 0;
    while k < cleaned.len()
        invariant
            k <= cleaned.len(),
            k % 2 == 0,
            cleaned.len() % 2 == 0,
            out.len() == k / 2,
            forall|j: int| 0 <= j < cleaned.len() ==> cleaned[j] < 16,
            forall|j: int|
                0 <= j < out.len() ==> out[j] == cleaned[2 * j] * 16 + cleaned[2 * j + 1],
        decreases cleaned.len() - k,
    {
        out.push(cleaned[k] * 16 + cleaned[k + 1]);
        k += 2;
    }
    assert(out@ == pair_up(cleaned@));
    Ok(out)
}

/// A character of readable text: no control character but line breaks and tabs.
pub open spec fn is_text_char(c: char) -> bool {
    !text::is_control(c) || c == '\n' || c == '\r' || c == '\t'
}

/// Bytes that are readable text: UTF-8 of readable characters.
pub open spec fn is_text_bytes(bytes: Seq<u8>) -> bool {
    &&& valid_utf8(bytes)
    &&& forall|i: int|
        0 <= i < decode_utf8(bytes).len() ==> #[trigger] is_text_char(decode_utf8(bytes)[i])
}

/// Whether bytes are readable text.
pub fn is_text(bytes: &[u8]) -> (r: bool)
    ensures
        r == is_text_bytes(bytes@),
{
    match text::from_utf8(bytes) {
        Ok(s) => {
            for c in it: s.chars()
                invariant
                    it.seq() == s@,
                    s@ == decode_utf8(bytes@),
                    forall|i: int| 0 <= i < it.index() ==> #[trigger] is_text_char(s@[i]),
            {
                let ok = !text::control(c) || c == '\n' || c == '\r' || c == '\t';
                assert(ok == is_text_char(s@[it.index() as int]));
                if !ok {
                    return false;
                }
            }
            true
        },
        Err(_) => false,
    }
}

/// The escape of one byte: `\xNN` in upper-case hexadecimal.
pub open spec fn escape_byte(b: u8) -> Seq<char> {
    seq!['\\', 'x', text::upper_digit(b / 16), text::upper_digit(b % 16)]
}

/// The escapes of several bytes, one after the other.
pub open spec fn escape_bytes(bytes: Seq<u8>) -> Seq<char>
    decreases bytes.len(),
{
    if bytes.len() == 0 {
        seq![]
    } else {
        escape_byte(bytes[0]) + escape_bytes(bytes.skip(1))
    }
}

/// A character in escaped text: a backslash is doubled, a control character other than a line
/// break or a tab has the bytes of its UTF-8 form escaped, any other stands for itself.
pub open spec fn escape_char(c: char) -> Seq<char> {
    if c == '\\' {
        seq!['\\', '\\']
    } else if is_text_char(c) {
        seq![c]
    } else {
        escape_bytes(encode_scalar(c as u32))
    }
}

/// Characters in escaped text, one after the other.
pub open spec fn escape_chars(s: Seq<char>) -> Seq<char>
    decreases s.len(),
{
    if s.len() == 0 {
        seq![]
    } else {
        escape_char(s[0]) + escape_chars(s.skip(1))
    }
}

/// Bytes as escaped text: each UTF-8 character as `escape_char` gives it, each byte that starts
/// no such character as its escape.
pub open spec fn escaped(bytes: Seq<u8>) -> Seq<char>
    decreases bytes.len(),
{
    if bytes.len() == 0 {
        seq![]
    } else if valid_first_scalar(bytes) {
        escape_char(decode_first_scalar(bytes) as char) + escaped(pop_first_scalar(bytes))
    } else {
        escape_byte(bytes[0]) + escaped(bytes.skip(1))
    }
}

/// Appends the escape of one byte.
fn push_hex_escape(out: &mut String, b: u8)
    ensures
        final(out)@ == old(out)@ + escape_byte(b),
{
    out.push('\\');
    out.push('x');
    out.push(text::hex_digit(b / 16));
    out.push(text::hex_digit(b % 16));
    assert(out@ == old(out)@ + escape_byte(b));
}

/// Appends one character in escaped form.
fn push_escaped_char(out: &mut String, c: char)
    ensures
        final(out)@ == old(out)@ + escape_char(c),
{
    if c == '\\' {
        out.push('\\');
        out.push('\\');
    } else if !text::control(c) || c == '\n' || c == '\r' || c == '\t' {
        out.push(c);
    } else {
        let v: u32 = c as u32;
        proof {
            reveal_with_fuel(escape_bytes, 3);
        }
        if v < 0x80 {
            proof {
                assert(v < 0x80u32 ==> (v & 0x7F) as u8 == v as u8 && v as u8 == v) by (bit_vector);
                assert(encode_scalar(v) == seq![v as u8]);
                assert(encode_scalar(v).skip(1) == Seq::<u8>::empty());
            }
            push_hex_escape(out, v as u8);
        } else {
            proof {
                assert(0x80u32 <= v <= 0x9Fu32 ==> 0xC0u8 | ((v >> 6) & 0x1F) as u8 == 0xC2u8
                    && 0x80u8 | (v & 0x3F) as u8 == v as u8) by (bit_vector);
                assert(encode_scalar(v) == seq![0xC2u8, v as u8]);
                assert(encode_scalar(v).skip(1) == seq![v as u8]);
                assert(seq![v as u8].skip(1) == Seq::<u8>::empty());
            }
            push_hex_escape(out, 0xC2);
            push_hex_escape(out, v as u8);
        }
    }
    assert(out@ =~= old(out)@ + escape_char(c));
}

/// A valid prefix is escaped character by character; what follows it is escaped on its own.
proof fn lemma_escaped_prefix(bytes: Seq<u8>, n: int)
    requires
        partial_valid_utf8(bytes, n),
    ensures
        escaped(bytes) == escape_chars(decode_utf8(bytes.subrange(0, n))) + escaped(bytes.skip(n)),
    decreases n,
{
    let prefix = bytes.subrange(0, n);
    if n == 0 {
        assert(bytes.skip(0) == bytes);
        assert(escape_chars(decode_utf8(prefix)) + escaped(bytes) == escaped(bytes));
    } else {
        let k = length_of_first_scalar(prefix);
        assert(valid_first_scalar(prefix));
        assert(forall|i: int| 0 <= i < k ==> prefix[i] == bytes[i]);
        assert(valid_first_scalar(bytes));
        assert(decode_first_scalar(bytes) == decode_first_scalar(prefix));
        assert(length_of_first_scalar(bytes) == k);
        let rest = pop_first_scalar(bytes);
        assert(pop_first_scalar(prefix) == rest.subrange(0, n - k));
        lemma_escaped_prefix(rest, n - k);
        assert(rest.skip(n - k) == bytes.skip(n));
        let c = decode_first_scalar(prefix) as char;
        let tail = decode_utf8(pop_first_scalar(prefix));
        assert(decode_utf8(prefix) == seq![c] + tail);
        assert((seq![c] + tail).skip(1) == tail);
        assert(escape_char(c) + (escape_chars(tail) + escaped(bytes.skip(n))) == (escape_char(c)
            + escape_chars(tail)) + escaped(bytes.skip(n)));
    }
}

/// Where the longest valid prefix ends, no character starts.
proof fn lemma_longest_prefix(bytes: Seq<u8>, n: int)
    requires
        !valid_utf8(bytes),
        partial_valid_utf8(bytes, n),
        forall|m: int| n < m <= bytes.len() ==> !partial_valid_utf8(bytes, m),
    ensures
        n < bytes.len(),
        !valid_first_scalar(bytes.skip(n)),
{
    if n == bytes.len() {
        assert(bytes.subrange(0, n) == bytes);
    }
    assert(bytes.skip(n) == bytes.subrange(n, bytes.len() as int));
    if valid_first_scalar(bytes.skip(n)) {
        partial_valid_utf8_extend(bytes, n);
    }
}

/// Appends characters in escaped form.
fn push_escaped_str(out: &mut String, s: &str)
    ensures
        final(out)@ == old(out)@ + escape_chars(s@),
{
    let ghost start = out@;
    proof {
        assert(s@.skip(0) == s@);
    }
    let cs = text::chars_of(s);
    let mut i: usize = 0;
    while i < cs.len()
        invariant
            i <= cs.len(),
            cs@ == s@,
            out@ + escape_chars(s@.skip(i as int)) == start + escape_chars(s@),
        decreases cs.len() - i,
    {
        let ghost before = out@;
        push_escaped_char(out, cs[i]);
        proof {
            let tail = s@.skip(i as int);
            assert(tail.skip(1) == s@.skip(i + 1));
            assert(before + (escape_char(cs@[i as int]) + escape_chars(tail.skip(1))) == out@
                + escape_chars(tail.skip(1)));
        }
        i += 1;
    }
    assert(out@ + escape_chars(s@.skip(i as int)) == out@);
}

/// Encodes bytes as readable text in which only what cannot be shown is escaped: UTF-8
/// characters, line breaks and tabs stay, a backslash is doubled, every other control character
/// and every byte outside UTF-8 becomes `\xNN`.
pub fn encode_escaped(bytes: &[u8]) -> (r: String)
    ensures
        r@ == escaped(bytes@),
{
    let mut out = String::new();
    let mut i: usize = 0;
    proof {
        assert(bytes@.skip(0) == bytes@);
        assert(out@ + escaped(bytes@) == escaped(bytes@));
    }
    while i < bytes.len()
        invariant
            i <= bytes.len(),
            out@ + escaped(bytes@.skip(i as int)) == escaped(bytes@),
        decreases bytes.len() - i,
    {
        let rest = slice_subrange(bytes, i, bytes.len());
        let ghost before = out@;
        assert(rest@ == bytes@.skip(i as int));
        match text::from_utf8(rest) {
            Ok(s) => {
                push_escaped_str(&mut out, s);
                proof {
                    let n = rest@.len() as int;
                    assert(rest@.subrange(0, n) == rest@);
                    lemma_escaped_prefix(rest@, n);
                    assert(rest@.skip(n) == Seq::<u8>::empty());
                    assert(bytes@.skip(bytes@.len() as int) == Seq::<u8>::empty());
                    assert(before + (escape_chars(s@) + escaped(Seq::empty())) == out@ + escaped(
                        Seq::empty(),
                    ));
                }
                i = bytes.len();
            },
            Err(n) => {
                proof {
                    lemma_longest_prefix(rest@, n as int);
                    lemma_escaped_prefix(rest@, n as int);
                }
                let prefix = slice_subrange(rest, 0, n);
                match text::from_utf8(prefix) {
                    Ok(s) => {
                        push_escaped_str(&mut out, s);
                        let b = rest[n];
                        let ghost middle = out@;
                        push_hex_escape(&mut out, b);
                        proof {
                            let tail = rest@.skip(n as int);
                            assert(tail.skip(1) == bytes@.skip(i + n + 1));
                            assert(before + (escape_chars(s@) + (escape_byte(b) + escaped(
                                tail.skip(1),
                            ))) == out@ + escaped(tail.skip(1)));
                        }
                    },
                    Err(_) => {},
                }
                i = i + n + 1;
            },
        }
    }
    assert(bytes@.skip(bytes@.len() as int) == Seq::<u8>::empty());
    assert(out@ + escaped(Seq::empty()) == out@);
    out
}

proof fn lemma_hex_text_digits(bytes: Seq<u8>)
    ensures
        digits(hex_text(bytes)) == Ok::<Seq<u8>, char>(
            Seq::new(
                2 * bytes.len(),
                |i: int|
                    if i % 2 == 0 {
                        bytes[i / 2] / 16
                    } else {
                        bytes[i / 2] % 16
                    },
            ),
        ),
    decreases bytes.len(),
{
    let nibbles = |b: Seq<u8>|
        Seq::new(
            2 * b.len(),
            |i: int|
                if i % 2 == 0 {
                    b[i / 2] / 16
                } else {
                    b[i / 2] % 16
                },
        );
    let s = hex_text(bytes);
    if bytes.len() == 0 {
        assert(nibbles(bytes) =~= Seq::<u8>::empty());
    } else {
        let rest = bytes.skip(1);
        lemma_hex_text_digits(rest);
        let hi = bytes[0] / 16;
        let lo = bytes[0] % 16;
        let s1 = s.skip(1);
        let s2 = s.skip(2);
        assert(s1.skip(1) == s2);
        assert(s[0] == text::upper_digit(hi));
        assert(s1[0] == text::upper_digit(lo));
        assert(text::nibble(s[0]) == Some(hi));
        assert(text::nibble(s1[0]) == Some(lo));
        if bytes.len() == 1 {
            assert(s2 == Seq::<char>::empty());
            assert(rest == Seq::<u8>::empty());
            assert(digits(s2) == Ok::<Seq<u8>, char>(seq![]));
        } else {
            assert(s2[0] == ' ');
            assert(s2.skip(1) =~= hex_text(rest));
        }
        let tail = nibbles(rest);
        assert(digits(s2) == Ok::<Seq<u8>, char>(tail));
        assert(!has_prefix(s1)) by {
            if s1.len() >= 2 {
                assert(s1[1] == ' ');
            }
        }
        assert(s[1] == text::upper_digit(lo));
        assert(digits(s1) == Ok::<Seq<u8>, char>(seq![lo] + tail));
        assert(seq![hi] + (seq![lo] + tail) =~= nibbles(bytes));
    }
}

/// Decoding what `encode` gives returns the bytes that were encoded.
pub proof fn law_hex_round_trip(bytes: Seq<u8>)
    ensures
        decoded(hex_text(bytes)) == Ok::<Seq<u8>, Seq<char>>(bytes),
{
    lemma_hex_text_digits(bytes);
    let d = digits(hex_text(bytes))->Ok_0;
    assert(pair_up(d) =~= bytes);
}

/// Upper-case and lower-case digits, and `0x` and `0X`, decode alike.
pub proof fn law_hex_ignores_case(s: Seq<char>)
    requires
        decoded(s) is Ok,
    ensures
        decoded(text::lower(s)) == decoded(s),
{
    lemma_digits_lower(s);
}

proof fn lemma_digits_lower(s: Seq<char>)
    requires
        digits(s) is Ok,
    ensures
        digits(text::lower(s)) == digits(s),
    decreases s.len(),
{
    let t = text::lower(s);
    if s.len() > 0 {
        assert(t[0] == text::lower_char(s[0]));
        assert(t.skip(1) == text::lower(s.skip(1)));
        if is_separator(s[0]) {
            lemma_digits_lower(s.skip(1));
        } else if has_prefix(s) {
            assert(t[1] == text::lower_char(s[1]));
            assert(t.skip(2) == text::lower(s.skip(2)));
            lemma_digits_lower(s.skip(2));
        } else {
            if s.len() >= 2 {
                assert(t[1] == text::lower_char(s[1]));
            }
            lemma_digits_lower(s.skip(1));
        }
    } else {
        assert(t == s);
    }
}

/// Reads escaped text back: `\\` is a backslash, `\xNN` the byte `NN`, any other character its
/// UTF-8 form.
pub open spec fn unescaped(s: Seq<char>) -> Seq<u8>
    decreases s.len(),
{
    if s.len() == 0 {
        seq![]
    } else if s[0] != '\\' {
        encode_scalar(s[0] as u32) + unescaped(s.skip(1))
    } else if s.len() >= 4 && s[1] == 'x' {
        match (text::nibble(s[2]), text::nibble(s[3])) {
            (Some(hi), Some(lo)) => seq![(hi * 16 + lo) as u8] + unescaped(s.skip(4)),
            _ => seq![],
        }
    } else if s.len() >= 2 {
        seq!['\\' as u8] + unescaped(s.skip(2))
    } else {
        seq![]
    }
}

proof fn lemma_unescape_byte(b: u8, t: Seq<char>)
    ensures
        unescaped(escape_byte(b) + t) == seq![b] + unescaped(t),
{
    let s = escape_byte(b) + t;
    assert(s.skip(4) == t);
    assert(s[2] == text::upper_digit(b / 16));
    assert(s[3] == text::upper_digit(b % 16));
}

proof fn lemma_unescape_bytes(bytes: Seq<u8>, t: Seq<char>)
    ensures
        unescaped(escape_bytes(bytes) + t) == bytes + unescaped(t),
    decreases bytes.len(),
{
    if bytes.len() == 0 {
        assert(escape_bytes(bytes) + t == t);
        assert(bytes + unescaped(t) == unescaped(t));
    } else {
        let rest = bytes.skip(1);
        lemma_unescape_bytes(rest, t);
        lemma_unescape_byte(bytes[0], escape_bytes(rest) + t);
        assert(escape_bytes(bytes) + t == escape_byte(bytes[0]) + (escape_bytes(rest) + t));
        assert(seq![bytes[0]] + (rest + unescaped(t)) == bytes + unescaped(t));
    }
}

proof fn lemma_unescape_char(c: char, t: Seq<char>)
    ensures
        unescaped(escape_char(c) + t) == encode_scalar(c as u32) + unescaped(t),
{
    let s = escape_char(c) + t;
    if c == '\\' {
        assert(s.skip(2) == t);
        assert(s[1] == '\\');
        assert(0x5Cu32 & 0x7F == 0x5C) by (bit_vector);
        assert(encode_scalar(c as u32) == seq!['\\' as u8]);
    } else if is_text_char(c) {
        assert(s.skip(1) == t);
        assert(s[0] == c);
    } else {
        lemma_unescape_bytes(encode_scalar(c as u32), t);
    }
}

/// Escaped text is unambiguous: reading it back gives the bytes, so no two inputs share a text.
pub proof fn law_escape_reversible(bytes: Seq<u8>)
    ensures
        unescaped(escaped(bytes)) == bytes,
    decreases bytes.len(),
{
    if bytes.len() == 0 {
        assert(unescaped(escaped(bytes)) == bytes);
    } else if valid_first_scalar(bytes) {
        let c = decode_first_scalar(bytes) as char;
        let rest = pop_first_scalar(bytes);
        law_escape_reversible(rest);
        lemma_unescape_char(c, escaped(rest));
        let first = take_first_scalar(bytes);
        lemma_first_scalar_alone(bytes);
        decode_utf8_first_scalar(first);
        assert(take_first_scalar(first) == first);
        assert(first + rest == bytes);
    } else {
        let rest = bytes.skip(1);
        law_escape_reversible(rest);
        lemma_unescape_byte(bytes[0], escaped(rest));
        assert(seq![bytes[0]] + rest == bytes);
    }
}

proof fn lemma_first_scalar_alone(bytes: Seq<u8>)
    requires
        valid_first_scalar(bytes),
    ensures
        valid_utf8(take_first_scalar(bytes)),
        take_first_scalar(bytes).len() == length_of_first_scalar(bytes) > 0,
        decode_first_scalar(take_first_scalar(bytes)) == decode_first_scalar(bytes),
        length_of_first_scalar(take_first_scalar(bytes)) == length_of_first_scalar(bytes),
{
    reveal_with_fuel(valid_utf8, 2);
    let first = take_first_scalar(bytes);
    assert(valid_first_scalar(first));
    assert(pop_first_scalar(first) == Seq::<u8>::empty());
}

proof fn lemma_escape_bytes_text(bytes: Seq<u8>)
    ensures
        forall|i: int|
            0 <= i < escape_bytes(bytes).len() ==> #[trigger] is_text_char(escape_bytes(bytes)[i]),
    decreases bytes.len(),
{
    if bytes.len() > 0 {
        lemma_escape_bytes_text(bytes.skip(1));
        let head = escape_byte(bytes[0]);
        let rest = escape_bytes(bytes.skip(1));
        assert forall|i: int| 0 <= i < escape_bytes(bytes).len() implies #[trigger] is_text_char(
            escape_bytes(bytes)[i],
        ) by {
            if i >= 4 {
                assert(escape_bytes(bytes)[i] == rest[i - 4]);
                assert(is_text_char(rest[i - 4]));
            }
        }
    }
}

/// Escaped text is always readable: it holds no control character but line breaks and tabs.
pub proof fn law_escaped_is_readable(bytes: Seq<u8>)
    ensures
        forall|i: int| 0 <= i < escaped(bytes).len() ==> #[trigger] is_text_char(escaped(bytes)[i]),
    decreases bytes.len(),
{
    if bytes.len() > 0 {
        let (head, rest) = if valid_first_scalar(bytes) {
            let c = decode_first_scalar(bytes) as char;
            law_escaped_is_readable(pop_first_scalar(bytes));
            lemma_escape_bytes_text(encode_scalar(c as u32));
            (escape_char(c), escaped(pop_first_scalar(bytes)))
        } else {
            law_escaped_is_readable(bytes.skip(1));
            (escape_byte(bytes[0]), escaped(bytes.skip(1)))
        };
        assert(forall|i: int| 0 <= i < head.len() ==> #[trigger] is_text_char(head[i]));
        assert forall|i: int| 0 <= i < escaped(bytes).len() implies #[trigger] is_text_char(
            escaped(bytes)[i],
        ) by {
            if i >= head.len() {
                assert(escaped(bytes)[i] == rest[i - head.len()]);
                assert(is_text_char(rest[i - head.len()]));
            } else {
                assert(escaped(bytes)[i] == head[i]);
                assert(is_text_char(head[i]));
            }
        }
    }
}

/// Readable text without backslashes is its own escaped form.
pub proof fn law_plain_text_unchanged(bytes: Seq<u8>)
    requires
        is_text_bytes(bytes),
        !decode_utf8(bytes).contains('\\'),
    ensures
        escaped(bytes) == decode_utf8(bytes),
{
    let n = bytes.len() as int;
    assert(bytes.subrange(0, n) == bytes);
    lemma_escaped_prefix(bytes, n);
    assert(bytes.skip(n) == Seq::<u8>::empty());
    let s = decode_utf8(bytes);
    assert forall|i: int| 0 <= i < s.len() implies #[trigger] escape_char(s[i]) == seq![s[i]] by {
        assert(is_text_char(s[i]));
        assert(s.contains(s[i]));
    }
    lemma_escape_chars_plain(s);
    assert(escape_chars(s) + escaped(Seq::empty()) == s);
}

proof fn lemma_escape_chars_plain(s: Seq<char>)
    requires
        forall|i: int| 0 <= i < s.len() ==> #[trigger] escape_char(s[i]) == seq![s[i]],
    ensures
        escape_chars(s) == s,
    decreases s.len(),
{
    if s.len() > 0 {
        let rest = s.skip(1);
        assert forall|i: int| 0 <= i < rest.len() implies #[trigger] escape_char(rest[i])
            == seq![rest[i]] by {
            assert(rest[i] == s[i + 1]);
        }
        lemma_escape_chars_plain(rest);
        assert(seq![s[0]] + rest == s);
    }
}

/// A character is the upper-case hexadecimal digit of a value.
pub open spec fn is_digit_of(c: char, v: int) -> bool {
    if v < 10 {
        c as u32 == 0x30 + v
    } else {
        c as u32 == 0x41 + (v - 10)
    }
}

/// Hexadecimal text spells each byte with two upper-case digits, the higher one first, and holds one
/// blank between bytes, but none at its ends.
pub proof fn law_hex_spells_each_byte(bytes: Seq<u8>, i: int)
    requires
        0 <= i < bytes.len(),
    ensures
        hex_text(bytes).len() == 3 * bytes.len() - 1,
        is_digit_of(hex_text(bytes)[3 * i], (bytes[i] / 16) as int),
        is_digit_of(hex_text(bytes)[3 * i + 1], (bytes[i] % 16) as int),
        i + 1 < bytes.len() ==> hex_text(bytes)[3 * i + 2] == ' ',
        hex_text(seq![]).len() == 0,
{
    assert((3 * i) / 3 == i && (3 * i) % 3 == 0);
    assert((3 * i + 1) / 3 == i && (3 * i + 1) % 3 == 1);
    assert((3 * i + 2) % 3 == 2);
}

/// Blanks, tabs, line breaks, commas and semicolons are passed over wherever a byte could begin, and
/// so is a `0x`.
pub proof fn law_separators_are_passed_over(c: char, x: char, s: Seq<char>)
    requires
        c == ' ' || c == '\t' || c == '\r' || c == '\n' || c == ',' || c == ';',
        x == 'x' || x == 'X',
    ensures
        digits(seq![c] + s) == digits(s),
        decoded(seq![c] + s) == decoded(s),
        digits(seq!['0', x] + s) == digits(s),
        decoded(seq!['0', x] + s) == decoded(s),
        decoded(seq![]) == Ok::<Seq<u8>, Seq<char>>(seq![]),
{
    assert((seq![c] + s).skip(1) =~= s);
    assert((seq!['0', x] + s).skip(2) =~= s);
    assert(pair_up(seq![]) =~= seq![]);
}

/// A digit, upper or lower case, counts with its value, and goes before those that follow; any
/// other character is an error, and the first one is reported.
pub proof fn law_digits_count(c: char, s: Seq<char>)
    requires
        !(c == ' ' || c == '\t' || c == '\r' || c == '\n' || c == ',' || c == ';'),
        c == '0' ==> s.len() == 0 || s[0] != 'x' && s[0] != 'X',
    ensures
        ({
            let v: int = if 0x30 <= c as u32 <= 0x39 {
                c as u32 - 0x30
            } else if 0x41 <= c as u32 <= 0x46 {
                c as u32 - 0x41 + 10
            } else if 0x61 <= c as u32 <= 0x66 {
                c as u32 - 0x61 + 10
            } else {
                -1
            };
            &&& v < 0 ==> digits(seq![c] + s) == Err::<Seq<u8>, char>(c)
            &&& v >= 0 ==> match digits(s) {
                Ok(rest) => digits(seq![c] + s) == Ok::<Seq<u8>, char>(seq![v as u8] + rest),
                Err(e) => digits(seq![c] + s) == Err::<Seq<u8>, char>(e),
            }
        }),
{
    let whole = seq![c] + s;
    assert(whole.skip(1) =~= s);
    assert(whole[0] == c);
    if whole.len() >= 2 {
        assert(whole[1] == s[0]);
    }
}

/// Two digits make a byte, the first one the higher half. Digits that do not pair up are an error
/// that tells how many there are; a character that is no digit is an error that shows it.
pub proof fn law_digits_pair_up(s: Seq<char>, i: int)
    ensures
        digits(s) matches Err(c) ==> decoded(s) == Err::<Seq<u8>, Seq<char>>(
            "非法 hex 字符: "@ + text::char_debug(c) + "（仅允许 0-9 A-F a-f 及分隔符）"@,
        ),
        digits(s) matches Ok(d) ==> {
            &&& d.len() % 2 == 1 ==> decoded(s) == Err::<Seq<u8>, Seq<char>>(
                "hex 字符串长度必须为偶数（当前有效字符数 "@ + text::decimal(d.len()) + "）"@,
            )
            &&& d.len() % 2 == 0 ==> (decoded(s) matches Ok(bytes) && bytes.len() * 2 == d.len() && (0
                <= i < bytes.len() && d[2 * i] < 16 && d[2 * i + 1] < 16 ==> bytes[i] == 16 * d[2 * i]
                + d[2 * i + 1]))
        },
{
}

/// Readable characters are all but the control characters, of which line feed, carriage return and
/// tab are readable. Bytes are readable text exactly if they are UTF-8 of such characters.
pub proof fn law_readable(c: char, bytes: Seq<u8>, i: int)
    ensures
        is_text_char(c) == (c == '\n' || c == '\r' || c == '\t' || 0x20 <= c as u32 <= 0x7E || c
            as u32 >= 0xA0),
        !valid_utf8(bytes) ==> !is_text_bytes(bytes),
        is_text_bytes(bytes) && 0 <= i < decode_utf8(bytes).len() ==> is_text_char(
            decode_utf8(bytes)[i],
        ),
        valid_utf8(bytes) && (forall|k: int|
            0 <= k < decode_utf8(bytes).len() ==> #[trigger] is_text_char(decode_utf8(bytes)[k]))
            ==> is_text_bytes(bytes),
{
}

/// In escaped text a readable character stands for itself, but a backslash is doubled; a control
/// character is written as the bytes of its UTF-8 form, each as a backslash, `x` and two digits.
pub proof fn law_escape_of_a_character(c: char)
    ensures
        c == '\\' ==> escape_char(c) == seq!['\\', '\\'],
        c != '\\' && (c == '\n' || c == '\r' || c == '\t' || 0x20 <= c as u32 <= 0x7E || c as u32
            >= 0xA0) ==> escape_char(c) == seq![c],
        (c as u32) < 0x20 && c != '\n' && c != '\r' && c != '\t' || c as u32 == 0x7F ==> {
            let e = escape_char(c);
            &&& e.len() == 4
            &&& e[0] == '\\' && e[1] == 'x'
            &&& is_digit_of(e[2], c as int / 16)
            &&& is_digit_of(e[3], c as int % 16)
        },
        0x80 <= c as u32 <= 0x9F ==> {
            let e = escape_char(c);
            &&& e.len() == 8
            &&& e.take(4) == seq!['\\', 'x', 'C', '2']
            &&& e[4] == '\\' && e[5] == 'x'
            &&& is_digit_of(e[6], c as int / 16)
            &&& is_digit_of(e[7], c as int % 16)
        },
{
    let v = c as u32;
    reveal_with_fuel(escape_bytes, 3);
    if v < 0x80 {
        assert(v < 0x80u32 ==> (v & 0x7F) as u8 == v as u8 && v as u8 == v) by (bit_vector);
        assert(encode_scalar(v) == seq![v as u8]);
        assert(encode_scalar(v).skip(1) =~= Seq::<u8>::empty());
    } else if v <= 0x9F {
        assert(0x80u32 <= v <= 0x9Fu32 ==> 0xC0u8 | ((v >> 6) & 0x1F) as u8 == 0xC2u8 && 0x80u8 | (v
            & 0x3F) as u8 == v as u8) by (bit_vector);
        assert(encode_scalar(v) == seq![0xC2u8, v as u8]);
        assert(encode_scalar(v).skip(1) =~= seq![v as u8]);
        assert(seq![v as u8].skip(1) =~= Seq::<u8>::empty());
        assert(escape_char(c).take(4) =~= seq!['\\', 'x', 'C', '2']);
    }
}

/// Bytes are escaped one character after the other; a byte that begins no character of UTF-8 is
/// written on its own, as a backslash, `x` and two digits.
pub proof fn law_escape_goes_on(bytes: Seq<u8>)
    requires
        bytes.len() > 0,
    ensures
        escaped(seq![]).len() == 0,
        valid_first_scalar(bytes) ==> escaped(bytes) == escape_char(
            decode_first_scalar(bytes) as char,
        ) + escaped(pop_first_scalar(bytes)),
        !valid_first_scalar(bytes) ==> {
            let e = escaped(bytes);
            &&& e.len() == 4 + escaped(bytes.skip(1)).len()
            &&& e[0] == '\\' && e[1] == 'x'
            &&& is_digit_of(e[2], (bytes[0] / 16) as int)
            &&& is_digit_of(e[3], (bytes[0] % 16) as int)
            &&& e.skip(4) == escaped(bytes.skip(1))
        },
{
    if !valid_first_scalar(bytes) {
        assert(escaped(bytes).skip(4) =~= escaped(bytes.skip(1)));
    }
}

}
