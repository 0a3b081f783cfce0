//! Reed-Solomon forward error correction over GF(256), used to protect whole
//! frames and the payload blocks of Data packets. The code words are at most
//! 255 bytes long; up to half the parity bytes' worth of corrupted bytes can
//! be corrected.

use vstd::prelude::*;

verus! {

/// One byte of the parity block that Reed-Solomon encoding of `data` with
/// `ecc` parity bytes appends. The coding is a pure function of the data and
/// the parity length; its bytes are given no further interpretation here.
pub uninterp spec fn rs_parity_byte(data: Seq<u8>, ecc: int, i: int) -> u8;

/// The parity block that Reed-Solomon encoding appends to `data`.
pub open spec fn rs_parity(data: Seq<u8>, ecc: int) -> Seq<u8> {
    Seq::new(
        if ecc >= 0 {
            ecc as nat
        } else {
            0
        },
        |i: int| rs_parity_byte(data, ecc, i),
    )
}

/// A word that is exactly some data block followed by its own parity.
pub open spec fn rs_is_codeword(w: Seq<u8>, ecc: int) -> bool {
    0 <= ecc <= w.len() && w == w.take(w.len() - ecc) + rs_parity(w.take(w.len() - ecc), ecc)
}

/// An encoded block is a code word of its own data.
pub proof fn lemma_encoded_is_codeword(data: Seq<u8>, ecc: int)
    requires
        0 <= ecc,
    ensures
        rs_is_codeword(data + rs_parity(data, ecc), ecc),
{
    let w = data + rs_parity(data, ecc);
    assert(w.take(w.len() - ecc) =~= data);
    assert(w =~= w.take(w.len() - ecc) + rs_parity(w.take(w.len() - ecc), ecc));
}

/// Relies on reed_solomon::Encoder::encode: returns the data followed by
/// `ecc` parity bytes. The whole code word must fit a 255-byte block.
#[verifier::external_body]
pub fn rs_encode(data: &[u8], ecc: usize) -> (r: Vec<u8>)
    requires
        1 <= data@.len(),
        data@.len() + ecc <= 255,
    ensures
        r@ == data@ + rs_parity(data@, ecc as int),
        forall|i: int|
            0 <= i < ecc ==> #[trigger] r@[data@.len() + i] == rs_parity_byte(
                data@,
                ecc as int,
                i,
            ),
{
    let encoder = reed_solomon::Encoder::new(ecc);
    let encoded = encoder.encode(data);
    (*encoded).to_vec()
}

/// Relies on reed_solomon::Decoder::correct_err_count: corrects a code word
/// carrying `ecc` parity bytes and reports the count of corrected bytes. An
/// intact code word comes back unchanged with a count of zero; a word the
/// decoder cannot repair yields None. Whatever comes back keeps the word's
/// length, and never more than `ecc` corrections are reported. The parity
/// share is capped at two thirds of a block: past that, correcting a heavily
/// corrupted word could overrun the decoder's fixed 256-byte polynomials.
#[verifier::external_body]
pub fn rs_correct(word: &[u8], ecc: usize) -> (r: Option<(Vec<u8>, usize)>)
    requires
        ecc <= word@.len() <= 255,
        3 * ecc <= 510,
    ensures
        match r {
            Some(t) => t.0@.len() == word@.len() && t.1 <= ecc && (rs_is_codeword(
                word@,
                ecc as int,
            ) ==> t.0@ == word@ && t.1 == 0),
            None => !rs_is_codeword(word@, ecc as int),
        },
{
    match reed_solomon::Decoder::new(ecc).correct_err_count(word, None) {
        Ok((buffer, errs)) => Some(((*buffer).to_vec(), errs)),
        Err(_) => None,
    }
}

} // verus!
