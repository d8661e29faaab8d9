//! RC5 block cipher, generic over the word width.
//!
//! The cipher operates on words of 8, 16, 32 or 64 bits. A variable-length
//! secret key is expanded once into a round-key table, which raw single-block
//! encryption and decryption then consume. All word arithmetic wraps modulo
//! the word size, and rotations reduce their amount modulo the bit width.

pub mod word;
pub mod w8;
pub mod w16;
pub mod w32;
pub mod w64;
pub mod error;
pub mod cipher;
pub mod schedule;

pub use word::Word;
pub use word::rotl;
pub use word::rotr;
pub use word::lemma_rotation_inverse;
pub use word::lemma_rotation_width_multiple;
pub use word::lemma_rotation_k_widths;
pub use error::Error;
pub use cipher::encrypt;
pub use cipher::decrypt;
pub use cipher::lemma_encrypt_decrypt_inverse;
pub use cipher::lemma_zero_rounds;
pub use schedule::expand_key;
