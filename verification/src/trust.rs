//! Trust in the manager application: the fingerprint of a package's signer
//! and its comparison with the expected one.
//!
//! A package is a zip archive. It ends with a directory record: 22 bytes
//! that begin with a magic number and end with the length of a comment,
//! which follows them and closes the file. The record holds, at byte 16, the
//! offset of the central directory. Right before the central directory lies
//! the signing block: its size in 8 bytes, the pairs, the size once more, and
//! 16 bytes of magic. The size counts everything behind the first size field.
//!
//! The pairs are a run of entries, each a length in 8 bytes, then, within
//! that length, a scheme id in 4 bytes and the signer record. Numbers are
//! little-endian. The signer record of the first pair with a recognized
//! scheme stands for the package.
use crate::bytes::{bytes_eq, copy_range};
use sha2::Digest;
use vstd::prelude::*;
use vstd::string::StringSliceAdditionalSpecFns;

verus! {

/// The scheme id of signature scheme v2.
pub const SCHEME_V2: u32 = 0x7109871a;

/// The scheme id of signature scheme v3.
pub const SCHEME_V3: u32 = 0xf05368c0;

/// The magic number that opens the directory record at the end of a package.
pub const DIRECTORY_MAGIC: u32 = 0x06054b50;

#[derive(Clone, Copy, PartialEq, Eq, Structural, Debug)]
pub enum Trust {
    Trusted,
    Untrusted,
}

#[derive(Clone, Copy, PartialEq, Eq, Structural, Debug)]
pub enum TrustError {
    /// The signing block holds no signer record of a recognized scheme, or
    /// its framing breaks before one is found.
    SignatureError,
}

/// Size of a package's content and the digest of its signer record.
#[derive(Clone, Debug)]
pub struct Fingerprint {
    pub size: u64,
    pub digest: Vec<u8>,
}

pub struct FingerprintModel {
    pub size: u64,
    pub digest: Seq<u8>,
}

impl View for Fingerprint {
    type V = FingerprintModel;

    open spec fn view(&self) -> FingerprintModel {
        FingerprintModel { size: self.size, digest: self.digest@ }
    }
}

/// The number that the 2 bytes from `at` spell, least significant first.
pub open spec fn u16_at(s: Seq<u8>, at: int) -> int {
    s[at] + s[at + 1] * 0x100
}

/// The number that the 4 bytes from `at` spell, least significant first.
pub open spec fn u32_at(s: Seq<u8>, at: int) -> int {
    s[at] + s[at + 1] * 0x100 + s[at + 2] * 0x1_0000 + s[at + 3] * 0x100_0000
}

/// The number that the 8 bytes from `at` spell, least significant first.
pub open spec fn u64_at(s: Seq<u8>, at: int) -> int {
    u32_at(s, at) + u32_at(s, at + 4) * 0x1_0000_0000
}

pub open spec fn recognized(scheme: int) -> bool {
    scheme == SCHEME_V2 || scheme == SCHEME_V3
}

/// The signer record that stands for a signing block: that of the first pair
/// with a recognized scheme, if the pairs up to it are framed as they should.
pub open spec fn signer_record(block: Seq<u8>) -> Option<Seq<u8>>
    decreases block.len(),
{
    if block.len() < 12 {
        None
    } else {
        let n = u64_at(block, 0);
        if n < 4 || 8 + n > block.len() {
            None
        } else if recognized(u32_at(block, 8)) {
            Some(block.subrange(12, 8 + n))
        } else {
            signer_record(block.skip(8 + n))
        }
    }
}

pub fn read_u32(s: &[u8], at: usize) -> (n: u32)
    requires
        at + 4 <= s@.len(),
    ensures
        n == u32_at(s@, at as int),
{
    let len: usize = s.len();
    assert(at + 4 <= len);
    let b0: u32 = s[at] as u32;
    let b1: u32 = s[at + 1] as u32;
    let b2: u32 = s[at + 2] as u32;
    let b3: u32 = s[at + 3] as u32;
    b0 + b1 * 0x100 + b2 * 0x1_0000 + b3 * 0x100_0000
}

pub fn read_u64(s: &[u8], at: usize) -> (n: u64)
    requires
        at + 8 <= s@.len(),
    ensures
        n == u64_at(s@, at as int),
{
    let len: usize = s.len();
    assert(at + 8 <= len);
    let low: u64 = read_u32(s, at) as u64;
    let high: u64 = read_u32(s, at + 4) as u64;
    low + high * 0x1_0000_0000
}

/// Finds the signer record that stands for a signing block and copies it
/// out.
pub fn find_signer_record(block: &[u8]) -> (r: Result<Vec<u8>, TrustError>)
    ensures
        match signer_record(block@) {
            Some(record) => r matches Ok(found) && found@ == record,
            None => r == Err::<Vec<u8>, TrustError>(TrustError::SignatureError),
        },
{
    let len: usize = block.len();
    let mut i: usize = 0;
    assert(block@.skip(0) =~= block@);
    while len - i >= 12
        invariant
            i <= len == block@.len(),
            signer_record(block@) == signer_record(block@.skip(i as int)),
        decreases len - i,
    {
        let ghost here = block@.skip(i as int);
        assert(u64_at(here, 0) == u64_at(block@, i as int));
        assert(u32_at(here, 8) == u32_at(block@, i + 8));
        let n: u64 = read_u64(block, i);
        let room: usize = len - i - 8;
        if n < 4 || n > room as u64 {
            return Err(TrustError::SignatureError);
        }
        let step: usize = n as usize;
        let scheme: u32 = read_u32(block, i + 8);
        if scheme == SCHEME_V2 || scheme == SCHEME_V3 {
            let found = copy_range(block, i + 12, i + 8 + step);
            assert(here.subrange(12, 8 + n) =~= block@.subrange(i + 12, i + 8 + step));
            return Ok(found);
        }
        assert(here.skip(8 + n) =~= block@.skip(i + 8 + step));
        i = i + 8 + step;
    }
    Err(TrustError::SignatureError)
}

/// Whether the directory record of `package` is the one followed by a
/// comment of `comment` bytes.
pub open spec fn is_directory_record(package: Seq<u8>, comment: int) -> bool {
    0 <= comment && 22 + comment <= package.len() && u32_at(package, package.len() - 22 - comment)
        == DIRECTORY_MAGIC && u16_at(package, package.len() - 2 - comment) == comment
}

/// Where the directory record begins: the search goes from the end of the
/// package towards its start, beginning with a comment of `comment` bytes,
/// and a comment has less than 65536 bytes.
pub open spec fn directory_record(package: Seq<u8>, comment: int) -> Option<int>
    decreases 0x1_0000 - comment,
{
    if comment < 0 || comment > 0xffff || 22 + comment > package.len() {
        None
    } else if is_directory_record(package, comment) {
        Some(package.len() - 22 - comment)
    } else {
        directory_record(package, comment + 1)
    }
}

pub open spec fn block_magic() -> Seq<u8> {
    "APK Sig Block 42".spec_bytes()
}

/// The pairs of the signing block of a package, where it has one.
pub open spec fn signing_block(package: Seq<u8>) -> Option<Seq<u8>> {
    match directory_record(package, 0) {
        None => None,
        Some(record) => {
            let directory = u32_at(package, record + 16);
            if directory < 32 || directory > record {
                None
            } else if package.subrange(directory - 16, directory) != block_magic() {
                None
            } else {
                let size = u64_at(package, directory - 24);
                if size < 24 || size + 8 > directory {
                    None
                } else if u64_at(package, directory - size - 8) != size {
                    None
                } else {
                    Some(package.subrange(directory - size, directory - 24))
                }
            }
        },
    }
}

pub fn read_u16(s: &[u8], at: usize) -> (n: u16)
    requires
        at + 2 <= s@.len(),
    ensures
        n == u16_at(s@, at as int),
{
    let len: usize = s.len();
    assert(at + 2 <= len);
    let b0: u16 = s[at] as u16;
    let b1: u16 = s[at + 1] as u16;
    b0 + b1 * 0x100
}

/// Finds the directory record at the end of a package.
pub fn find_directory_record(package: &[u8]) -> (r: Option<usize>)
    ensures
        match directory_record(package@, 0) {
            Some(at) => r == Some(at as usize) && 0 <= at && at + 22 <= package@.len(),
            None => r is None,
        },
{
    let len: usize = package.len();
    let mut comment: usize = 0;
    while comment <= 0xffff && 22 + comment <= len
        invariant
            len == package@.len(),
            comment <= 0x1_0000,
            directory_record(package@, 0) == directory_record(package@, comment as int),
        decreases 0x1_0000 - comment,
    {
        let at: usize = len - 22 - comment;
        if read_u32(package, at) == DIRECTORY_MAGIC && read_u16(package, at + 20) as usize
            == comment {
            return Some(at);
        }
        comment += 1;
    }
    None
}

/// Cuts the pairs of the signing block out of a package.
pub fn find_signing_block(package: &[u8]) -> (r: Option<Vec<u8>>)
    ensures
        match signing_block(package@) {
            Some(block) => r matches Some(found) && found@ == block,
            None => r is None,
        },
{
    let len: usize = package.len();
    let record = match find_directory_record(package) {
        None => {
            return None;
        },
        Some(record) => record,
    };
    assert(record + 22 <= len);
    let directory: usize = read_u32(package, record + 16) as usize;
    if directory < 32 || directory > record {
        return None;
    }
    let magic = copy_range(package, directory - 16, directory);
    if !bytes_eq(magic.as_slice(), "APK Sig Block 42".as_bytes()) {
        return None;
    }
    let size: u64 = read_u64(package, directory - 24);
    if size < 24 || size > (directory - 8) as u64 {
        return None;
    }
    let start: usize = directory - 8 - size as usize;
    if read_u64(package, start) != size {
        return None;
    }
    Some(copy_range(package, start + 8, directory - 24))
}

/// The SHA-256 digest of `data`.
pub uninterp spec fn sha256_of(data: Seq<u8>) -> Seq<u8>;

/// Calls `sha2::Sha256::digest` and copies the digest out. The digest is a
/// function of the bytes alone; this is all that is claimed of it.
#[verifier::external_body]
fn sha256(data: &[u8]) -> (digest: Vec<u8>)
    ensures
        digest@ == sha256_of(data@),
{
    sha2::Sha256::digest(data).to_vec()
}

impl Fingerprint {
    /// The fingerprint of a package whose content is `size` bytes long and
    /// whose signer record digests to `digest`.
    pub fn new(size: u64, digest: Vec<u8>) -> (fp: Fingerprint)
        ensures
            fp@ == (FingerprintModel { size, digest: digest@ }),
    {
        Fingerprint { size, digest }
    }
}

/// The fingerprint of a package of `size` bytes with the given signing block,
/// where the block holds a signer record.
pub open spec fn fingerprint_of(size: u64, block: Seq<u8>) -> Option<FingerprintModel> {
    match signer_record(block) {
        Some(record) => Some(FingerprintModel { size, digest: sha256_of(record) }),
        None => None,
    }
}

/// Computes the fingerprint of a package from the size of its content and
/// its signing block. Fails exactly where the block yields no signer record.
pub fn fingerprint(size: u64, block: &[u8]) -> (r: Result<Fingerprint, TrustError>)
    ensures
        match fingerprint_of(size, block@) {
            Some(model) => r matches Ok(fp) && fp@ == model,
            None => r matches Err(e) && e == TrustError::SignatureError,
        },
{
    match find_signer_record(block) {
        Ok(record) => Ok(Fingerprint::new(size, sha256(record.as_slice()))),
        Err(e) => Err(e),
    }
}

/// The fingerprint of a package: its length, and the digest of the signer
/// record of its signing block.
pub open spec fn package_fingerprint_of(package: Seq<u8>) -> Option<FingerprintModel> {
    match signing_block(package) {
        Some(block) => fingerprint_of(package.len() as u64, block),
        None => None,
    }
}

/// Computes the fingerprint of a package from its bytes. Fails exactly where
/// the package has no signing block or the block yields no signer record.
pub fn package_fingerprint(package: &[u8]) -> (r: Result<Fingerprint, TrustError>)
    ensures
        match package_fingerprint_of(package@) {
            Some(model) => r matches Ok(fp) && fp@ == model,
            None => r matches Err(e) && e == TrustError::SignatureError,
        },
{
    match find_signing_block(package) {
        None => Err(TrustError::SignatureError),
        Some(block) => fingerprint(package.len() as u64, block.as_slice()),
    }
}

/// Trusted exactly where size and digest both agree.
pub open spec fn verdict_of(found: FingerprintModel, expected: FingerprintModel) -> Trust {
    if found.size == expected.size && found.digest == expected.digest {
        Trust::Trusted
    } else {
        Trust::Untrusted
    }
}

/// Compares a fingerprint with the expected one. A mismatch is an answer,
/// not a failure.
pub fn verify(found: &Fingerprint, expected: &Fingerprint) -> (trust: Trust)
    ensures
        trust == verdict_of(found@, expected@),
{
    if found.size == expected.size && bytes_eq(found.digest.as_slice(), expected.digest.as_slice())
    {
        Trust::Trusted
    } else {
        Trust::Untrusted
    }
}

/// A fingerprint is trusted against itself, and against nothing that
/// differs from it in size or in any byte of the digest.
pub proof fn law_verify_is_exact(found: FingerprintModel, expected: FingerprintModel)
    ensures
        verdict_of(found, expected) == Trust::Trusted <==> found == expected,
        verdict_of(found, found) == Trust::Trusted,
{
    if found.size == expected.size && found.digest == expected.digest {
        assert(found == expected);
    }
}

/// Two packages of one size whose signer records digest differently have
/// fingerprints that do not verify against each other.
pub proof fn law_changed_digest_is_untrusted(size: u64, block: Seq<u8>, changed: Seq<u8>)
    requires
        signer_record(block) is Some,
        signer_record(changed) is Some,
        sha256_of(signer_record(block).unwrap()) != sha256_of(signer_record(changed).unwrap()),
    ensures
        verdict_of(fingerprint_of(size, changed).unwrap(), fingerprint_of(size, block).unwrap())
            == Trust::Untrusted,
{
}

/// The lower-case hexadecimal digit of a number below 16.
pub open spec fn hex_digit(n: int) -> u8 {
    if n < 10 {
        (48 + n) as u8
    } else {
        (87 + n) as u8
    }
}

/// Two lower-case hexadecimal digits per byte, the high one first.
pub open spec fn hex_of(bytes: Seq<u8>) -> Seq<u8> {
    Seq::new(
        2 * bytes.len(),
        |i: int|
            if i % 2 == 0 {
                hex_digit(bytes[i / 2] as int / 16)
            } else {
                hex_digit(bytes[i / 2] as int % 16)
            },
    )
}

pub fn to_hex(bytes: &[u8]) -> (out: Vec<u8>)
    ensures
        out@ == hex_of(bytes@),
{
    let mut out: Vec<u8> = Vec::new();
    let mut i: usize = 0;
    while i < bytes.len()
        invariant
            i <= bytes@.len(),
            out@.len() == 2 * i,
            forall|k: int| 0 <= k < 2 * i ==> out@[k] == hex_of(bytes@)[k],
        decreases bytes.len() - i,
    {
        let high: u8 = bytes[i] / 16;
        let low: u8 = bytes[i] % 16;
        out.push(if high < 10 { 48 + high } else { 87 + high });
        out.push(if low < 10 { 48 + low } else { 87 + low });
        i += 1;
    }
    assert(out@ =~= hex_of(bytes@));
    out
}

} // verus!
