use vstd::prelude::*;

verus! {

/// The lower-case hexadecimal digit for a nibble `n` (`0 <= n < 16`).
pub open spec fn hex_digit(n: int) -> char {
    if n < 10 {
        (n + 48) as char
    } else {
        (n + 87) as char
    }
}

/// Lower-case hex encoding: each byte becomes its high nibble's digit
/// followed by its low nibble's digit.
pub open spec fn hex_encode_spec(bytes: Seq<u8>) -> Seq<char> {
    Seq::new(
        2 * bytes.len(),
        |i: int|
            if i % 2 == 0 {
                hex_digit(bytes[i / 2] as int / 16)
            } else {
                hex_digit(bytes[i / 2] as int % 16)
            },
    )
}

/// `String::push`: appends one character at the end of the string.
#[verifier::external_body]
fn push_char(s: &mut String, c: char)
    ensures
        final(s)@ == old(s)@.push(c),
{
    s.push(c);
}

fn nibble_digit(n: u8) -> (c: char)
    requires
        n < 16,
    ensures
        c == hex_digit(n as int),
{
    if n < 10 {
        (n + 48) as char
    } else {
        (n + 87) as char
    }
}

/// Encodes `bytes` as a lower-case hexadecimal string, two digits per byte,
/// most significant nibble first.
pub fn encode(bytes: &[u8]) -> (s: String)
    ensures
        s@ == hex_encode_spec(bytes@),
{
    let mut s = String::new();
    let n = bytes.len();
    for i in 0..n
        invariant
            n == bytes@.len(),
            s@ == hex_encode_spec(bytes@.take(i as int)),
    {
        let byte = bytes[i];
        assert((byte >> 4) == byte / 16 && (byte & 0x0f) == byte % 16) by (bit_vector);
        let hi = byte >> 4;
        let lo = byte & 0x0f;
        push_char(&mut s, nibble_digit(hi));
        push_char(&mut s, nibble_digit(lo));
        assert(s@ =~= hex_encode_spec(bytes@.take(i + 1)));
    }
    assert(bytes@.take(n as int) =~= bytes@);
    s
}

/// Two byte strings with the same hex encoding are equal: the encoding
/// loses no information.
pub proof fn lemma_hex_encode_injective(a: Seq<u8>, b: Seq<u8>)
    requires
        hex_encode_spec(a) == hex_encode_spec(b),
    ensures
        a == b,
{
    assert(hex_encode_spec(a).len() == 2 * a.len());
    assert(a.len() == b.len());
    assert forall|k: int| 0 <= k < a.len() implies a[k] == b[k] by {
        assert((2 * k) / 2 == k && (2 * k) % 2 == 0);
        assert((2 * k + 1) / 2 == k && (2 * k + 1) % 2 == 1);
        assert(hex_encode_spec(a)[2 * k] == hex_digit(a[k] as int / 16));
        assert(hex_encode_spec(b)[2 * k] == hex_digit(b[k] as int / 16));
        assert(hex_encode_spec(a)[2 * k + 1] == hex_digit(a[k] as int % 16));
        assert(hex_encode_spec(b)[2 * k + 1] == hex_digit(b[k] as int % 16));
        lemma_hex_digit_injective(a[k] as int / 16, b[k] as int / 16);
        lemma_hex_digit_injective(a[k] as int % 16, b[k] as int % 16);
        let x = a[k];
        let y = b[k];
        assert(x == 16 * (x / 16) + x % 16);
        assert(y == 16 * (y / 16) + y % 16);
    }
    assert(a =~= b);
}

proof fn lemma_hex_digit_injective(m: int, n: int)
    requires
        0 <= m < 16,
        0 <= n < 16,
        hex_digit(m) == hex_digit(n),
    ensures
        m == n,
{
    let cm = if m < 10 { m + 48 } else { m + 87 };
    let cn = if n < 10 { n + 48 } else { n + 87 };
    assert(hex_digit(m) as int == cm);
    assert(hex_digit(n) as int == cn);
}

} // verus!
