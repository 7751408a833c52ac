//! The fixed group shared by prover and verifier, written down as hex text.

use crate::bignum::{be_value, pow_mod, BigNat};
use crate::zkp::ZKP;
use vstd::prelude::*;

verus! {

pub open spec fn is_hex_digit(ch: char) -> bool {
    ('0' <= ch && ch <= '9') || ('a' <= ch && ch <= 'f') || ('A' <= ch && ch <= 'F')
}

pub open spec fn hex_digit_value(ch: char) -> nat {
    if '0' <= ch && ch <= '9' {
        (ch as int - '0' as int) as nat
    } else if 'a' <= ch && ch <= 'f' {
        (ch as int - 'a' as int + 10) as nat
    } else {
        (ch as int - 'A' as int + 10) as nat
    }
}

/// Text that decodes as hex: an even number of hex digits of either case.
pub open spec fn is_hex(s: Seq<char>) -> bool {
    &&& s.len() % 2 == 0
    &&& forall|i: int| 0 <= i < s.len() ==> is_hex_digit(#[trigger] s[i])
}

/// The bytes that hex text spells, two digits per byte, high digit first.
pub open spec fn hex_bytes(s: Seq<char>) -> Seq<u8> {
    Seq::new(
        s.len() / 2,
        |i: int| (hex_digit_value(s[2 * i]) * 16 + hex_digit_value(s[2 * i + 1])) as u8,
    )
}

pub open spec fn modulus_hex() -> Seq<char> {
    "B10B8F96A080E01DDE92DE5EAE5D54EC52C99FBCFB06A3C69A6A9DCA52D23B616073E28675A23D189838EF1E2EE652C013ECB4AEA906112324975C3CD49B83BFACCBDD7D90C4BD7098488E9C219A73724EFFD6FAE5644738FAA31A4FF55BCCC0A151AF5F0DC8B4BD45BF37DF365C1A65E68CFDA76D4DA708DF1FB2BC2E4A4371"@
}

pub open spec fn order_hex() -> Seq<char> {
    "F518AA8781A8DF278ABA4E7D64B7CB9D49462353"@
}

pub open spec fn generator_hex() -> Seq<char> {
    "A4D1CBD5C3FD34126765A442EFB99905F8104DD258AC507FD6406CFF14266D31266FEA1E5C41564B777E690F5504F213160217B4B01B886A5E91547F9E2749F4D7FBD7D3B9A92EE1909D0D2263F80A76A6A24C087A091F531DBF0A0169B6A28AD662A4D18E73AFA32D779D5918D08BC8858F4DCEF97C2A24855E6EEB22B3B2E5"@
}

/// The exponent that derives the second generator from the first.
pub open spec fn beta_exponent_hex() -> Seq<char> {
    "266FEA1E5C41564B777E69"@
}

/// Relies on `hex::decode`: it succeeds exactly on hex text and yields the
/// bytes it spells.
#[verifier::external_body]
fn decode_hex(s: &str) -> (r: Option<Vec<u8>>)
    ensures
        r is Some <==> is_hex(s@),
        r is Some ==> r->Some_0@ == hex_bytes(s@),
{
    hex::decode(s).ok()
}

proof fn lemma_be_value_at_least_first(s: Seq<u8>)
    requires
        s.len() > 0,
    ensures
        be_value(s) >= s[0],
    decreases s.len(),
{
    if s.len() > 1 {
        lemma_be_value_at_least_first(s.drop_last());
    }
}

impl ZKP {
    /// The fixed group `(alpha, beta, p, q)`; `beta` is `alpha` raised to a
    /// fixed exponent modulo `p`.
    pub fn get_constants() -> (r: (BigNat, BigNat, BigNat, BigNat))
        ensures
            r.0@ == be_value(hex_bytes(generator_hex())),
            r.1@ == pow_mod(r.0@, be_value(hex_bytes(beta_exponent_hex())), r.2@),
            r.2@ == be_value(hex_bytes(modulus_hex())),
            r.3@ == be_value(hex_bytes(order_hex())),
            r.2@ > 1,
            r.3@ > 0,
    {
        let p_text = "B10B8F96A080E01DDE92DE5EAE5D54EC52C99FBCFB06A3C69A6A9DCA52D23B616073E28675A23D189838EF1E2EE652C013ECB4AEA906112324975C3CD49B83BFACCBDD7D90C4BD7098488E9C219A73724EFFD6FAE5644738FAA31A4FF55BCCC0A151AF5F0DC8B4BD45BF37DF365C1A65E68CFDA76D4DA708DF1FB2BC2E4A4371";
        let q_text = "F518AA8781A8DF278ABA4E7D64B7CB9D49462353";
        let alpha_text = "A4D1CBD5C3FD34126765A442EFB99905F8104DD258AC507FD6406CFF14266D31266FEA1E5C41564B777E690F5504F213160217B4B01B886A5E91547F9E2749F4D7FBD7D3B9A92EE1909D0D2263F80A76A6A24C087A091F531DBF0A0169B6A28AD662A4D18E73AFA32D779D5918D08BC8858F4DCEF97C2A24855E6EEB22B3B2E5";
        let exp_text = "266FEA1E5C41564B777E69";
        proof {
            reveal_strlit("B10B8F96A080E01DDE92DE5EAE5D54EC52C99FBCFB06A3C69A6A9DCA52D23B616073E28675A23D189838EF1E2EE652C013ECB4AEA906112324975C3CD49B83BFACCBDD7D90C4BD7098488E9C219A73724EFFD6FAE5644738FAA31A4FF55BCCC0A151AF5F0DC8B4BD45BF37DF365C1A65E68CFDA76D4DA708DF1FB2BC2E4A4371");
            reveal_strlit("F518AA8781A8DF278ABA4E7D64B7CB9D49462353");
            reveal_strlit("A4D1CBD5C3FD34126765A442EFB99905F8104DD258AC507FD6406CFF14266D31266FEA1E5C41564B777E690F5504F213160217B4B01B886A5E91547F9E2749F4D7FBD7D3B9A92EE1909D0D2263F80A76A6A24C087A091F531DBF0A0169B6A28AD662A4D18E73AFA32D779D5918D08BC8858F4DCEF97C2A24855E6EEB22B3B2E5");
            reveal_strlit("266FEA1E5C41564B777E69");
            assert(is_hex(p_text@));
            assert(is_hex(q_text@));
            assert(is_hex(alpha_text@));
            assert(is_hex(exp_text@));
        }
        let p = BigNat::from_bytes_be(decode_hex(p_text).unwrap());
        let q = BigNat::from_bytes_be(decode_hex(q_text).unwrap());
        let alpha = BigNat::from_bytes_be(decode_hex(alpha_text).unwrap());
        let exp = BigNat::from_bytes_be(decode_hex(exp_text).unwrap());
        proof {
            lemma_be_value_at_least_first(hex_bytes(p_text@));
            lemma_be_value_at_least_first(hex_bytes(q_text@));
        }
        let beta = alpha.modpow(&exp, &p);
        (alpha, beta, p, q)
    }
}

} // verus!
