//! Standard base64 with padding.

use vstd::prelude::*;

verus! {

/// The symbol of a 6-bit value.
pub open spec fn symbol(v: int) -> u8 {
    if v < 26 {
        (65 + v) as u8
    } else if v < 52 {
        (71 + v) as u8
    } else if v < 62 {
        (v - 4) as u8
    } else if v == 62 {
        43
    } else {
        47
    }
}

/// The 6-bit value of a symbol; padding counts as zero.
pub open spec fn value(s: u8) -> int {
    if 65 <= s <= 90 {
        s - 65
    } else if 97 <= s <= 122 {
        s - 71
    } else if 48 <= s <= 57 {
        s + 4
    } else if s == 43 {
        62
    } else if s == 47 {
        63
    } else {
        0
    }
}

/// A byte, or zero behind the last one.
pub open spec fn byte_or_zero(bytes: Seq<u8>, i: int) -> int {
    if i < bytes.len() {
        bytes[i] as int
    } else {
        0
    }
}

/// The 6-bit value number `k`: three bytes make four of them.
pub open spec fn sextet(bytes: Seq<u8>, k: int) -> int {
    let g = k / 4 * 3;
    let (x, y, z) = (byte_or_zero(bytes, g), byte_or_zero(bytes, g + 1), byte_or_zero(bytes, g + 2));
    if k % 4 == 0 {
        x / 4
    } else if k % 4 == 1 {
        x % 4 * 16 + y / 16
    } else if k % 4 == 2 {
        y % 16 * 4 + z / 64
    } else {
        z % 64
    }
}

/// The base64 text of bytes: four symbols for three bytes; where bytes are missing at the end, `=`
/// stands in place of the symbols that no byte reaches.
pub open spec fn encoded(bytes: Seq<u8>) -> Seq<u8> {
    Seq::new(
        (bytes.len() + 2) / 3 * 4,
        |k: int|
            if k / 4 * 3 + k % 4 > bytes.len() {
                61u8
            } else {
                symbol(sextet(bytes, k))
            },
    )
}

/// How many `=` end a base64 text.
pub open spec fn padding(s: Seq<u8>) -> int {
    if s.len() < 2 || s[s.len() - 1] != 61 {
        0
    } else if s[s.len() - 2] != 61 {
        1
    } else {
        2
    }
}

/// The bytes that a base64 text stands for.
pub open spec fn decoded(s: Seq<u8>) -> Seq<u8> {
    Seq::new(
        (s.len() / 4 * 3 - padding(s)) as nat,
        |i: int|
            {
                let g = i / 3 * 4;
                if i % 3 == 0 {
                    (value(s[g]) * 4 + value(s[g + 1]) / 16) as u8
                } else if i % 3 == 1 {
                    (value(s[g + 1]) % 16 * 16 + value(s[g + 2]) / 4) as u8
                } else {
                    (value(s[g + 2]) % 4 * 64 + value(s[g + 3])) as u8
                }
            },
    )
}

/// `Engine::encode` of the base64 crate, with the engine `STANDARD`: the padded base64 text, in
/// the alphabet of letters, digits, `+` and `/`. Longer inputs, whose text no allocation can hold,
/// make it panic.
#[verifier::external_body]
pub(crate) fn encode(bytes: &[u8]) -> (r: Vec<u8>)
    requires
        (bytes@.len() + 2) / 3 * 4 <= isize::MAX,
    ensures
        r@ == encoded(bytes@),
{
    base64::Engine::encode(&base64::engine::general_purpose::STANDARD, bytes).into_bytes()
}

/// Whole groups of three bytes can be encoded apart from what follows.
pub proof fn law_encoded_in_pieces(a: Seq<u8>, b: Seq<u8>)
    requires
        a.len() % 3 == 0,
    ensures
        encoded(a + b) == encoded(a) + encoded(b),
{
    let whole = encoded(a + b);
    let parts = encoded(a) + encoded(b);
    let n = encoded(a).len() as int;
    assert(n == a.len() / 3 * 4);
    assert forall|k: int| 0 <= k < whole.len() implies whole[k] == parts[k] by {
        if k < n {
            assert(k / 4 * 3 + 3 <= a.len());
            assert(sextet(a + b, k) == sextet(a, k));
        } else {
            assert((k - n) / 4 * 3 + a.len() == k / 4 * 3);
            assert((k - n) % 4 == k % 4);
            assert(sextet(a + b, k) == sextet(b, k - n));
        }
    }
    assert(whole =~= parts);
}

proof fn lemma_sextet_range(bytes: Seq<u8>, k: int)
    ensures
        0 <= sextet(bytes, k) < 64,
{
}

proof fn lemma_value_of_symbol(v: int)
    requires
        0 <= v < 64,
    ensures
        value(symbol(v)) == v,
        symbol(v) != 61,
        symbol(v) != 10,
{
}

/// A base64 text holds no line break, and `=` at most in its last two places.
pub proof fn law_encoded_alphabet(bytes: Seq<u8>)
    ensures
        forall|k: int| 0 <= k < encoded(bytes).len() ==> #[trigger] encoded(bytes)[k] != 10,
        forall|k: int| 0 <= k < encoded(bytes).len() - 2 ==> #[trigger] encoded(bytes)[k] != 61,
{
    assert forall|k: int| 0 <= k < encoded(bytes).len() implies #[trigger] encoded(bytes)[k] != 10
        && (k < encoded(bytes).len() - 2 ==> encoded(bytes)[k] != 61) by {
        lemma_sextet_range(bytes, k);
        lemma_value_of_symbol(sextet(bytes, k));
    }
}

/// A symbol that is not padding stands for its 6-bit value; padding stands for zero.
proof fn lemma_symbol_value(bytes: Seq<u8>, k: int)
    requires
        0 <= k < encoded(bytes).len(),
    ensures
        k / 4 * 3 + k % 4 <= bytes.len() ==> value(encoded(bytes)[k]) == sextet(bytes, k)
            && encoded(bytes)[k] != 61,
        k / 4 * 3 + k % 4 > bytes.len() ==> encoded(bytes)[k] == 61,
{
    lemma_sextet_range(bytes, k);
    lemma_value_of_symbol(sextet(bytes, k));
}

/// The padding says how many bytes the last group lacks.
proof fn lemma_padding(bytes: Seq<u8>)
    ensures
        padding(encoded(bytes)) == (3 - bytes.len() as int % 3) % 3,
{
    let m = encoded(bytes).len() as int;
    if m > 0 {
        lemma_symbol_value(bytes, m - 1);
        lemma_symbol_value(bytes, m - 2);
    }
}

/// Three bytes come back from four 6-bit values.
proof fn lemma_three_bytes(x: int, y: int, z: int)
    requires
        0 <= x < 256,
        0 <= y < 256,
        0 <= z < 256,
    ensures
        x / 4 * 4 + (x % 4 * 16 + y / 16) / 16 == x,
        (x % 4 * 16 + y / 16) % 16 * 16 + (y % 16 * 4 + z / 64) / 4 == y,
        (y % 16 * 4 + z / 64) % 4 * 64 + z % 64 == z,
{
}

/// A byte comes back from its group.
proof fn lemma_byte_back(bytes: Seq<u8>, i: int)
    requires
        0 <= i < bytes.len(),
    ensures
        ({
            let s = encoded(bytes);
            let g = i / 3 * 4;
            &&& g + 3 < s.len()
            &&& i % 3 == 0 ==> value(s[g]) * 4 + value(s[g + 1]) / 16 == bytes[i]
            &&& i % 3 == 1 ==> value(s[g + 1]) % 16 * 16 + value(s[g + 2]) / 4 == bytes[i]
            &&& i % 3 == 2 ==> value(s[g + 2]) % 4 * 64 + value(s[g + 3]) == bytes[i]
        }),
{
    let q = i / 3;
    let g = q * 4;
    let h = q * 3;
    assert(g / 4 == q && (g + 1) / 4 == q && (g + 2) / 4 == q && (g + 3) / 4 == q);
    assert(g % 4 == 0 && (g + 1) % 4 == 1 && (g + 2) % 4 == 2 && (g + 3) % 4 == 3);
    lemma_symbol_value(bytes, g);
    lemma_symbol_value(bytes, g + 1);
    lemma_symbol_value(bytes, g + 2);
    lemma_symbol_value(bytes, g + 3);
    lemma_three_bytes(
        byte_or_zero(bytes, h),
        byte_or_zero(bytes, h + 1),
        byte_or_zero(bytes, h + 2),
    );
}

/// Decoding gives back what was encoded.
pub proof fn law_decoded_encoded(bytes: Seq<u8>)
    ensures
        decoded(encoded(bytes)) == bytes,
{
    let back = decoded(encoded(bytes));
    lemma_padding(bytes);
    assert(back.len() == bytes.len());
    assert forall|i: int| 0 <= i < bytes.len() implies back[i] == bytes[i] by {
        lemma_byte_back(bytes, i);
    }
    assert(back =~= bytes);
}

/// The place of a symbol in the alphabet: `A` to `Z`, `a` to `z`, `0` to `9`, `+` and `/`. No other
/// byte has one.
pub open spec fn place_of(s: u8) -> int {
    if 0x41 <= s <= 0x5A {
        s - 0x41
    } else if 0x61 <= s <= 0x7A {
        s - 0x61 + 26
    } else if 0x30 <= s <= 0x39 {
        s - 0x30 + 52
    } else if s == 0x2B {
        62
    } else if s == 0x2F {
        63
    } else {
        -1
    }
}

proof fn lemma_place(bytes: Seq<u8>, k: int)
    requires
        0 <= k < encoded(bytes).len(),
        k / 4 * 3 + k % 4 <= bytes.len(),
    ensures
        place_of(encoded(bytes)[k]) == sextet(bytes, k),
{
    lemma_sextet_range(bytes, k);
}

/// Four symbols read as the number that three bytes make, the first one the highest. At the end, two
/// symbols and `==` stand for one byte, three symbols and `=` for two.
pub proof fn law_symbols_read_as_bytes(bytes: Seq<u8>, i: int)
    requires
        0 <= i,
        3 * i < bytes.len(),
    ensures
        ({
            let s = encoded(bytes);
            let (a, b) = (place_of(s[4 * i]), place_of(s[4 * i + 1]));
            let (c, d) = (place_of(s[4 * i + 2]), place_of(s[4 * i + 3]));
            let x = bytes[3 * i] as int;
            &&& 4 * i + 4 <= s.len()
            &&& s.len() == (bytes.len() + 2) / 3 * 4
            &&& 0 <= a < 64 && 0 <= b < 64
            &&& 3 * i + 3 <= bytes.len() ==> {
                &&& 0 <= c < 64 && 0 <= d < 64
                &&& a * 262144 + b * 4096 + c * 64 + d == x * 65536 + bytes[3 * i + 1] * 256
                    + bytes[3 * i + 2]
            }
            &&& bytes.len() == 3 * i + 2 ==> {
                &&& 0 <= c < 64
                &&& a * 4096 + b * 64 + c == (x * 256 + bytes[3 * i + 1]) * 4
                &&& s[4 * i + 3] == 0x3D
            }
            &&& bytes.len() == 3 * i + 1 ==> {
                &&& a * 64 + b == x * 16
                &&& s[4 * i + 2] == 0x3D && s[4 * i + 3] == 0x3D
            }
        }),
{
    let g = 4 * i;
    assert(g / 4 == i && (g + 1) / 4 == i && (g + 2) / 4 == i && (g + 3) / 4 == i);
    assert(g % 4 == 0 && (g + 1) % 4 == 1 && (g + 2) % 4 == 2 && (g + 3) % 4 == 3);
    assert(4 * i + 4 <= encoded(bytes).len());
    lemma_sextet_range(bytes, g);
    lemma_sextet_range(bytes, g + 1);
    lemma_sextet_range(bytes, g + 2);
    lemma_sextet_range(bytes, g + 3);
    lemma_place(bytes, g);
    lemma_place(bytes, g + 1);
    if 3 * i + 2 <= bytes.len() {
        lemma_place(bytes, g + 2);
    }
    if 3 * i + 3 <= bytes.len() {
        lemma_place(bytes, g + 3);
    }
}

}
