//! SHA-256 digests in hexadecimal.
use sha2::Digest;
use vstd::prelude::*;

verus! {

/// The 32 bytes of the SHA-256 digest of some bytes.
pub uninterp spec fn sha256(data: Seq<u8>) -> Seq<u8>;

/// The digit of a number below sixteen.
pub open spec fn hex_digit(n: int) -> char {
    if n < 10 {
        (n + '0' as int) as char
    } else {
        (n - 10 + 'a' as int) as char
    }
}

/// Bytes in hexadecimal: two lower-case digits for each, the high half first.
pub open spec fn hex_text(bytes: Seq<u8>) -> Seq<char> {
    Seq::new(
        2 * bytes.len(),
        |i: int|
            if i % 2 == 0 {
                hex_digit(bytes[i / 2] as int / 16)
            } else {
                hex_digit(bytes[i / 2] as int % 16)
            },
    )
}

/// Calls `sha2::Sha256` (`new`, `update`, `finalize`): a digest of 32 bytes, a function of the
/// data alone.
#[verifier::external_body]
fn sha256_of(data: &[u8]) -> (r: Vec<u8>)
    ensures
        r@ == sha256(data@),
        r@.len() == 32,
{
    let mut hasher = sha2::Sha256::new();
    hasher.update(data);
    hasher.finalize().to_vec()
}

/// Calls `hex::encode`: two lower-case digits for each byte.
#[verifier::external_body]
fn hex_encode(bytes: Vec<u8>) -> (r: String)
    ensures
        r@ == hex_text(bytes@),
{
    hex::encode(bytes)
}

/// The SHA-256 digest of a text, in hexadecimal.
pub open spec fn text_digest(text: Seq<char>) -> Seq<char> {
    hex_text(sha256(vstd::utf8::encode_utf8(text)))
}

/// The SHA-256 digest of a text, in hexadecimal: 64 characters.
pub fn digest(text: &str) -> (r: String)
    ensures
        r@ == text_digest(text@),
        r@.len() == 64,
{
    hex_encode(sha256_of(text.as_bytes()))
}

/// A digest has two digits for each byte, all of them decimal digits or small letters up to
/// `f`.
pub proof fn law_hex_digits(bytes: Seq<u8>)
    ensures
        hex_text(bytes).len() == 2 * bytes.len(),
        forall|i: int|
            0 <= i < hex_text(bytes).len() ==> ('0' <= #[trigger] hex_text(bytes)[i] <= '9' || 'a'
                <= hex_text(bytes)[i] <= 'f'),
{
}

/// Different numbers have different digits.
proof fn lemma_hex_digit(m: int, n: int)
    requires
        0 <= m < 16,
        0 <= n < 16,
        hex_digit(m) == hex_digit(n),
    ensures
        m == n,
{
    assert(hex_digit(m) as int == if m < 10 { m + 48 } else { m + 87 });
    assert(hex_digit(n) as int == if n < 10 { n + 48 } else { n + 87 });
}

/// Different bytes have different texts.
pub proof fn law_hex_injective(a: Seq<u8>, b: Seq<u8>)
    requires
        hex_text(a) == hex_text(b),
    ensures
        a == b,
{
    assert(hex_text(a).len() == 2 * a.len() && hex_text(b).len() == 2 * b.len());
    assert(a.len() == b.len());
    assert forall|i: int| 0 <= i < a.len() implies a[i] == b[i] by {
        let even = 2 * i;
        let odd = 2 * i + 1;
        assert(even / 2 == i && even % 2 == 0 && odd / 2 == i && odd % 2 == 1);
        assert(hex_text(a)[even] == hex_digit(a[i] as int / 16));
        assert(hex_text(b)[even] == hex_digit(b[i] as int / 16));
        assert(hex_text(a)[odd] == hex_digit(a[i] as int % 16));
        assert(hex_text(b)[odd] == hex_digit(b[i] as int % 16));
        lemma_hex_digit(a[i] as int / 16, b[i] as int / 16);
        lemma_hex_digit(a[i] as int % 16, b[i] as int % 16);
    }
    assert(a =~= b);
}

/// The value of a hexadecimal digit.
pub open spec fn digit_value(digit: char) -> int {
    if digit <= '9' {
        digit as int - '0' as int
    } else {
        digit as int - 'a' as int + 10
    }
}

/// Bytes can be read back from their text: two digits for each, the first counting sixteen
/// times.
pub proof fn law_hex_reads_back(bytes: Seq<u8>, i: int)
    requires
        0 <= i < bytes.len(),
    ensures
        hex_text(bytes).len() == 2 * bytes.len(),
        16 * digit_value(hex_text(bytes)[2 * i]) + digit_value(hex_text(bytes)[2 * i + 1])
            == bytes[i],
{
    let even = 2 * i;
    let odd = 2 * i + 1;
    assert(even / 2 == i && even % 2 == 0 && odd / 2 == i && odd % 2 == 1);
    assert(hex_text(bytes)[even] == hex_digit(bytes[i] as int / 16));
    assert(hex_text(bytes)[odd] == hex_digit(bytes[i] as int % 16));
}

/// The digest of a text is made of all its characters: it is that of the very bytes that
/// encode them.
pub proof fn law_digest_of_all_bytes(text: Seq<char>, bytes: Seq<u8>)
    requires
        vstd::utf8::valid_utf8(bytes),
        vstd::utf8::decode_utf8(bytes) == text,
    ensures
        text_digest(text) == hex_text(sha256(bytes)),
{
    vstd::utf8::decode_utf8_encode_utf8(bytes);
}

/// Texts have the same digest exactly where the bytes that encode them have the same SHA-256.
pub proof fn law_digests_differ_with_sha256(text: Seq<char>, other: Seq<char>)
    ensures
        text_digest(text) == text_digest(other) <==> sha256(vstd::utf8::encode_utf8(text))
            == sha256(vstd::utf8::encode_utf8(other)),
{
    if text_digest(text) == text_digest(other) {
        law_hex_injective(
            sha256(vstd::utf8::encode_utf8(text)),
            sha256(vstd::utf8::encode_utf8(other)),
        );
    }
}

}
