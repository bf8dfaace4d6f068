mod fields;
mod gf256;
mod message;
mod shamir;

pub use fields::{Error, FieldElement, Hex};
pub use gf256::{
    gf_add, gf_inv, gf_mul, lemma_add_assoc, lemma_add_comm, lemma_mul_comm,
    lemma_mul_distributes, lemma_mul_inverse, lemma_mul_nonzero, lemma_mul_one, lemma_mul_zero,
    lemma_sub_of_add, GF256,
};
pub use message::{
    decode_message, encode_message, fragments_decodable, fragments_secret, hex_chars_of,
    message_to_elements, share_bytes, unhex, utf8_of, valid_hex,
};
pub use shamir::{
    coeffs_ok, consistent_shares, decode, encode, eval_poly, gf_pow, has_duplicate,
    interp_at_zero, lagrange_coeff, lemma_single_share_interp, share_col, share_xs,
    shares_consistent_with, uniform_shape, Share,
};
