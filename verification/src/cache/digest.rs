use vstd::prelude::*;

verus! {

/// The SHA-256 digest of `data`, as OpenSSL computes it for `crypto_hash`.
pub uninterp spec fn sha256_digest(data: Seq<u8>) -> Seq<u8>;

/// The lowercase hexadecimal digit for a value below sixteen.
pub open spec fn hex_char(v: int) -> char {
    if v == 0 { '0' }
    else if v == 1 { '1' }
    else if v == 2 { '2' }
    else if v == 3 { '3' }
    else if v == 4 { '4' }
    else if v == 5 { '5' }
    else if v == 6 { '6' }
    else if v == 7 { '7' }
    else if v == 8 { '8' }
    else if v == 9 { '9' }
    else if v == 10 { 'a' }
    else if v == 11 { 'b' }
    else if v == 12 { 'c' }
    else if v == 13 { 'd' }
    else if v == 14 { 'e' }
    else { 'f' }
}

/// Bytes written as lowercase hexadecimal, two digits per byte, high half first.
pub open spec fn hex_lower(bytes: Seq<u8>) -> Seq<char>
    decreases bytes.len(),
{
    if bytes.len() == 0 {
        Seq::<char>::empty()
    } else {
        seq![hex_char((bytes[0] / 16) as int), hex_char((bytes[0] % 16) as int)] + hex_lower(bytes.drop_first())
    }
}

/// The hexadecimal text has two characters per byte.
pub proof fn lemma_hex_lower_len(bytes: Seq<u8>)
    ensures
        hex_lower(bytes).len() == 2 * bytes.len(),
    decreases bytes.len(),
{
    if bytes.len() > 0 {
        lemma_hex_lower_len(bytes.drop_first());
    }
}

proof fn lemma_hex_char_injective(v1: int, v2: int)
    requires
        0 <= v1 < 16,
        0 <= v2 < 16,
        hex_char(v1) == hex_char(v2),
    ensures
        v1 == v2,
{
}

/// Different byte strings have different hexadecimal texts.
pub proof fn lemma_hex_lower_injective(a: Seq<u8>, b: Seq<u8>)
    ensures
        hex_lower(a) == hex_lower(b) ==> a == b,
    decreases a.len(),
{
    lemma_hex_lower_len(a);
    lemma_hex_lower_len(b);
    if hex_lower(a) == hex_lower(b) && a.len() > 0 {
        let ha = hex_lower(a);
        let hb = hex_lower(b);
        assert(ha[0] == hb[0]);
        assert(ha[1] == hb[1]);
        lemma_hex_char_injective((a[0] / 16) as int, (b[0] / 16) as int);
        lemma_hex_char_injective((a[0] % 16) as int, (b[0] % 16) as int);
        vstd::arithmetic::div_mod::lemma_fundamental_div_mod(a[0] as int, 16);
        vstd::arithmetic::div_mod::lemma_fundamental_div_mod(b[0] as int, 16);
        assert(a[0] == b[0]);
        assert(hex_lower(a.drop_first()) =~= ha.skip(2));
        assert(hex_lower(b.drop_first()) =~= hb.skip(2));
        lemma_hex_lower_injective(a.drop_first(), b.drop_first());
        assert(a =~= b) by {
            assert forall|i: int| 0 <= i < a.len() implies a[i] == b[i] by {
                if i > 0 {
                    assert(a[i] == a.drop_first()[i - 1]);
                    assert(b[i] == b.drop_first()[i - 1]);
                }
            }
        }
    }
}

/// Calls `crypto_hash::hex_digest` with `Algorithm::SHA256`.
///
/// Trusted: the text returned is the SHA-256 digest of `data` written by
/// `hex::encode`, lowercase, two characters per byte; a SHA-256 digest has
/// 32 bytes, so the text has 64 characters. The digest itself is named,
/// not stated.
#[verifier::external_body]
pub(crate) fn sha256_hex(data: &[u8]) -> (hex: String)
    ensures
        hex@ == hex_lower(sha256_digest(data@)),
        hex@.len() == 64,
{
    crypto_hash::hex_digest(crypto_hash::Algorithm::SHA256, data)
}

} // verus!
