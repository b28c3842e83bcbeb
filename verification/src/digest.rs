//! CRC32 (IEEE 802.3, reflected, polynomial 0xEDB88320) over byte buffers,
//! and the content digest string recorded for each container file.
//!
//! The digest reuses the frame checksum's CRC32: it catches accidental
//! corruption and drift, but it is not collision-resistant, so it is no
//! defence against deliberate tampering.

use vstd::prelude::*;

use base64::Engine;

verus! {

/// One shift-and-conditional-xor round of the reflected CRC32 update.
pub open spec fn crc32_step(c: u32) -> u32 {
    if c & 1 == 1 {
        (c >> 1) ^ 0xEDB88320u32
    } else {
        c >> 1
    }
}

/// Folds one byte into the running CRC: xor in the byte, then eight rounds.
pub open spec fn crc32_byte(c: u32, b: u8) -> u32 {
    crc32_step(
        crc32_step(
            crc32_step(
                crc32_step(crc32_step(crc32_step(crc32_step(crc32_step(c ^ (b as u32)))))),
            ),
        ),
    )
}

/// Folds a whole byte sequence into the running CRC, front to back.
pub open spec fn crc32_fold(acc: u32, data: Seq<u8>) -> u32
    decreases data.len(),
{
    if data.len() == 0 {
        acc
    } else {
        crc32_fold(crc32_byte(acc, data[0]), data.drop_first())
    }
}

/// The CRC32 of a byte sequence: init 0xFFFFFFFF, xorout 0xFFFFFFFF.
pub open spec fn crc32_spec(data: Seq<u8>) -> u32 {
    crc32_fold(0xFFFFFFFFu32, data) ^ 0xFFFFFFFFu32
}

/// Extending the input by one byte folds that byte into the accumulator.
proof fn lemma_crc32_fold_snoc(acc: u32, s: Seq<u8>, b: u8)
    ensures
        crc32_fold(acc, s.push(b)) == crc32_byte(crc32_fold(acc, s), b),
    decreases s.len(),
{
    reveal_with_fuel(crc32_fold, 3);
    if s.len() == 0 {
        assert(s.push(b).drop_first() =~= Seq::<u8>::empty());
    } else {
        assert(s.push(b).drop_first() =~= s.drop_first().push(b));
        lemma_crc32_fold_snoc(crc32_byte(acc, s[0]), s.drop_first(), b);
    }
}

/// Folds one byte into a running CRC value.
fn crc32_update(c: u32, b: u8) -> (r: u32)
    ensures
        r == crc32_byte(c, b),
{
    let x0: u32 = c ^ (b as u32);
    let x1 = if x0 & 1 == 1 {
        (x0 >> 1) ^ 0xEDB88320u32
    } else {
        x0 >> 1
    };
    let x2 = if x1 & 1 == 1 {
        (x1 >> 1) ^ 0xEDB88320u32
    } else {
        x1 >> 1
    };
    let x3 = if x2 & 1 == 1 {
        (x2 >> 1) ^ 0xEDB88320u32
    } else {
        x2 >> 1
    };
    let x4 = if x3 & 1 == 1 {
        (x3 >> 1) ^ 0xEDB88320u32
    } else {
        x3 >> 1
    };
    let x5 = if x4 & 1 == 1 {
        (x4 >> 1) ^ 0xEDB88320u32
    } else {
        x4 >> 1
    };
    let x6 = if x5 & 1 == 1 {
        (x5 >> 1) ^ 0xEDB88320u32
    } else {
        x5 >> 1
    };
    let x7 = if x6 & 1 == 1 {
        (x6 >> 1) ^ 0xEDB88320u32
    } else {
        x6 >> 1
    };
    let x8 = if x7 & 1 == 1 {
        (x7 >> 1) ^ 0xEDB88320u32
    } else {
        x7 >> 1
    };
    x8
}

/// The CRC32 checksum of a byte buffer.
pub fn calculate_crc32(data: &Vec<u8>) -> (r: u32)
    ensures
        r == crc32_spec(data@),
{
    let mut crc: u32 = 0xFFFFFFFF;
    let mut i: usize = 0;
    while i < data.len()
        invariant
            i <= data@.len(),
            crc == crc32_fold(0xFFFFFFFFu32, data@.take(i as int)),
        decreases data@.len() - i,
    {
        proof {
            assert(data@.take(i + 1) =~= data@.take(i as int).push(data@[i as int]));
            lemma_crc32_fold_snoc(0xFFFFFFFFu32, data@.take(i as int), data@[i as int]);
        }
        crc = crc32_update(crc, data[i]);
        i = i + 1;
    }
    proof {
        assert(data@.take(data@.len() as int) =~= data@);
    }
    crc ^ 0xFFFFFFFF
}

/// What `base64::engine::Engine::encode` with the standard engine returns
/// for a given byte sequence; it is a function of the bytes alone.
pub uninterp spec fn base64_of(s: Seq<u8>) -> Seq<char>;

/// Relies on base64's `Engine::encode` with the `STANDARD` engine: a padded
/// encoding of four output characters for every three input bytes.
#[verifier::external_body]
fn base64_string(bytes: &Vec<u8>) -> (r: String)
    requires
        bytes@.len() <= 0x3FFFFFFF,
    ensures
        r@ == base64_of(bytes@),
        r@.len() == 4 * ((bytes@.len() + 2) / 3),
{
    base64::engine::general_purpose::STANDARD.encode(bytes)
}

/// The digest string recorded for a container file: the base64 encoding of
/// the little-endian bytes of the file's CRC32.
pub open spec fn file_digest_spec(bytes: Seq<u8>) -> Seq<char> {
    base64_of(vstd::bytes::spec_u32_to_le_bytes(crc32_spec(bytes)))
}

/// The digest string recorded for a container file's contents.
pub fn file_digest(bytes: &Vec<u8>) -> (r: String)
    ensures
        r@ == file_digest_spec(bytes@),
{
    let crc = calculate_crc32(bytes);
    let le = vstd::bytes::u32_to_le_bytes(crc);
    base64_string(&le)
}

} // verus!
