use sha2::Digest;
use vstd::bytes::{spec_u32_to_le_bytes, u32_to_le_bytes};
use vstd::prelude::*;
use vstd::string::StringSliceAdditionalSpecFns;
use crate::hex::{encode, hex_encode_spec};

verus! {

/// What SHA-256 yields for a byte string.
pub uninterp spec fn sha256_spec(data: Seq<u8>) -> Seq<u8>;

/// `sha2::Sha256::digest`: the SHA-256 digest of `data`. Claimed: the result
/// is the named digest of the input bytes, and it is 32 bytes long.
#[verifier::external_body]
pub(crate) fn sha256_digest(data: &[u8]) -> (digest: Vec<u8>)
    ensures
        digest@ == sha256_spec(data@),
        digest@.len() == 32,
{
    sha2::Sha256::digest(data).to_vec()
}

/// The bytes a snapshot checksum is taken over: the schema version in
/// little-endian order, then the format label, then the canonical payload.
pub open spec fn checksum_preimage_spec(version: u32, format: Seq<u8>, payload: Seq<u8>) -> Seq<u8> {
    spec_u32_to_le_bytes(version) + format + payload
}

/// The hex-encoded SHA-256 checksum that binds a snapshot's schema version,
/// format label and canonical payload.
pub open spec fn snapshot_checksum_spec(version: u32, format: Seq<u8>, payload: Seq<u8>) -> Seq<char> {
    hex_encode_spec(sha256_spec(checksum_preimage_spec(version, format, payload)))
}

/// Builds the checksum preimage of a snapshot.
pub fn checksum_preimage(version: u32, format: &str, payload: &str) -> (bytes: Vec<u8>)
    ensures
        bytes@ == checksum_preimage_spec(version, format.spec_bytes(), payload.spec_bytes()),
{
    let mut bytes = u32_to_le_bytes(version);
    let f = format.as_bytes();
    let p = payload.as_bytes();
    let ghost start = bytes@;
    for i in 0..f.len()
        invariant
            bytes@ == start + f@.take(i as int),
    {
        bytes.push(f[i]);
        assert(bytes@ =~= start + f@.take(i + 1));
    }
    assert(f@.take(f@.len() as int) =~= f@);
    let ghost mid = bytes@;
    for i in 0..p.len()
        invariant
            bytes@ == mid + p@.take(i as int),
    {
        bytes.push(p[i]);
        assert(bytes@ =~= mid + p@.take(i + 1));
    }
    assert(p@.take(p@.len() as int) =~= p@);
    bytes
}

/// The lower-case hex SHA-256 checksum over
/// `version_le_bytes || format || payload`.
pub fn snapshot_checksum(version: u32, format: &str, payload: &str) -> (checksum: String)
    ensures
        checksum@ == snapshot_checksum_spec(version, format.spec_bytes(), payload.spec_bytes()),
{
    let preimage = checksum_preimage(version, format, payload);
    let digest = sha256_digest(preimage.as_slice());
    encode(digest.as_slice())
}

/// The checksum binds the schema version: snapshots of different versions
/// are hashed over different bytes, whatever their format and payload.
pub proof fn lemma_preimage_binds_version(
    v1: u32,
    v2: u32,
    f1: Seq<u8>,
    f2: Seq<u8>,
    p1: Seq<u8>,
    p2: Seq<u8>,
)
    requires
        v1 != v2,
    ensures
        checksum_preimage_spec(v1, f1, p1) != checksum_preimage_spec(v2, f2, p2),
{
    vstd::bytes::lemma_auto_spec_u32_to_from_le_bytes();
    let a = checksum_preimage_spec(v1, f1, p1);
    let b = checksum_preimage_spec(v2, f2, p2);
    if a == b {
        assert(a.take(4) =~= spec_u32_to_le_bytes(v1));
        assert(b.take(4) =~= spec_u32_to_le_bytes(v2));
        assert(vstd::bytes::spec_u32_from_le_bytes(spec_u32_to_le_bytes(v1)) == v1);
    }
}

/// The checksum covers the whole payload, whatever its length: the preimage
/// is exactly four version bytes, the format and every payload byte long,
/// the format follows the version bytes, the payload is its whole tail, and
/// so, for one version and format, payloads that differ anywhere have
/// different preimages.
pub proof fn lemma_preimage_binds_payload(version: u32, format: Seq<u8>, p1: Seq<u8>, p2: Seq<u8>)
    ensures
        checksum_preimage_spec(version, format, p1).len() == 4 + format.len() + p1.len(),
        checksum_preimage_spec(version, format, p1).subrange(4, 4 + format.len() as int) == format,
        checksum_preimage_spec(version, format, p1).skip(4 + format.len() as int) == p1,
        checksum_preimage_spec(version, format, p1) == checksum_preimage_spec(version, format, p2) ==> p1
            == p2,
{
    vstd::bytes::lemma_auto_spec_u32_to_from_le_bytes();
    assert(spec_u32_to_le_bytes(version).len() == 4);
    let a = checksum_preimage_spec(version, format, p1);
    let b = checksum_preimage_spec(version, format, p2);
    assert(a.subrange(4, 4 + format.len() as int) =~= format);
    assert(a.skip(4 + format.len() as int) =~= p1);
    assert(b.skip(4 + format.len() as int) =~= p2);
}

} // verus!
