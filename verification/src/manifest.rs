//! Canonical signed object manifests and bounded MANIFEST fragmentation.

use vstd::arithmetic::div_mod::{lemma_fundamental_div_mod, lemma_fundamental_div_mod_converse};
use vstd::prelude::*;
use vstd::string::*;
use vstd::utf8::{decode_utf8, valid_utf8};

use crate::bytes::{all_zero, be16, be16_at, be32, be32_at, be64, be64_at, overwrite_prefix};
use crate::bytes::{
    be32_bytes, get_array, get_u16, get_u32, get_u64, is_all_zero, part, put, put_u16, put_u32,
    put_u64, put_u8,
};
use crate::bytes::{
    group_buffer_writes, lemma_be16_inverse, lemma_be16_of_bytes, lemma_be32_inverse,
    lemma_be32_of_bytes, lemma_be64_inverse, lemma_be64_of_bytes, lemma_be_at_shift,
};
use crate::handshake::{ED25519_SIGNATURE_LEN, IDENTITY_FINGERPRINT_LEN, ML_DSA_65_SIGNATURE_LEN};
use crate::text::{
    decimal, fixed, hexadecimal, hexadecimal_text, with_number, with_two_numbers,
};
use crate::transcript::{signature_padding, TranscriptSink, SIGNATURE_CONTEXT_PREFIX_LEN};
use crate::wire::WireError;

verus! {

/// Manifest format identifier.
pub const MANIFEST_FORMAT_VERSION: u8 = 1;

/// Random object identifier size.
pub const OBJECT_ID_LEN: usize = 32;

/// SHA-384 Merkle root size.
pub const MERKLE_ROOT_LEN: usize = 48;

/// Minimum supported chunk size: 64 KiB.
pub const MIN_CHUNK_SIZE: u32 = 0x1_0000;

/// Maximum supported chunk size: 16 MiB.
pub const MAX_CHUNK_SIZE: u32 = 0x100_0000;

/// Maximum UTF-8 byte length of the informational display name.
pub const MAX_DISPLAY_NAME_LEN: usize = 255;

/// Fixed unsigned bytes preceding the display name.
pub const MANIFEST_UNSIGNED_FIXED_LEN: usize = 147;

/// Smallest complete signed manifest.
pub const MIN_SIGNED_MANIFEST_LEN: usize = MANIFEST_UNSIGNED_FIXED_LEN + ED25519_SIGNATURE_LEN
    + ML_DSA_65_SIGNATURE_LEN;

/// Largest complete signed manifest.
pub const MAX_SIGNED_MANIFEST_LEN: usize = MIN_SIGNED_MANIFEST_LEN + MAX_DISPLAY_NAME_LEN;

/// Fixed bytes preceding a logical-manifest fragment.
pub const MANIFEST_FRAGMENT_FIXED_LEN: usize = 8;

/// Context used to sign the SHA-384 hash of the unsigned manifest.
pub const MANIFEST_SIGNATURE_CONTEXT: &'static str = "OGTP/1 object manifest";

/// Domain separator for a Merkle leaf input.
pub const MERKLE_LEAF_CONTEXT: &'static str = "OGTP/1 chunk\0";

/// Domain separator for a Merkle internal-node input.
pub const MERKLE_NODE_CONTEXT: &'static str = "OGTP/1 node\0";

/// Domain separator for an empty-object Merkle root input.
pub const MERKLE_EMPTY_CONTEXT: &'static str = "OGTP/1 empty\0";

/// Canonical manifest validation or framing failure.
#[allow(inconsistent_fields)]
#[derive(Clone, Copy, Debug, PartialEq, Eq)]
pub enum ManifestError {
    Wire(WireError),
    UnsupportedVersion(u8),
    InvalidFlags(u8),
    ZeroObjectId,
    ZeroSignerFingerprint,
    ZeroMerkleRoot,
    InvalidChunkSize(u32),
    InvalidChunkCount { expected: u64, actual: u32 },
    InvalidDisplayName,
    InvalidSignatureLength { component: &'static str, expected: usize, actual: usize },
    InvalidLogicalLength { length: usize, minimum: usize, maximum: usize },
    ChunkTooLarge { length: usize },
}

impl From<WireError> for ManifestError {
    fn from(error: WireError) -> (wrapped: ManifestError) {
        ManifestError::Wire(error)
    }
}

impl vstd::std_specs::convert::FromSpecImpl<WireError> for ManifestError {
    open spec fn obeys_from_spec() -> bool {
        true
    }

    open spec fn from_spec(error: WireError) -> ManifestError {
        ManifestError::Wire(error)
    }
}

impl ManifestError {
    /// The diagnostic text of a failure.
    pub open spec fn message_text(self) -> Seq<char> {
        match self {
            ManifestError::Wire(error) => error.message_text(),
            ManifestError::UnsupportedVersion(version) => "unsupported manifest version "@
                + decimal(version as nat) + ""@,
            ManifestError::InvalidFlags(flags) => "invalid manifest flags 0x"@ + hexadecimal(
                flags as nat,
            ),
            ManifestError::ZeroObjectId => "manifest object ID is all zero"@,
            ManifestError::ZeroSignerFingerprint => "manifest signer fingerprint is all zero"@,
            ManifestError::ZeroMerkleRoot => "manifest Merkle root is all zero"@,
            ManifestError::InvalidChunkSize(size) => "invalid manifest chunk size "@ + decimal(
                size as nat,
            ) + ""@,
            ManifestError::InvalidChunkCount { expected, actual } =>
            "invalid manifest chunk count "@ + decimal(actual as nat) + ", expected "@ + decimal(
                expected as nat,
            ) + ""@,
            ManifestError::InvalidDisplayName => "invalid manifest display name"@,
            ManifestError::InvalidSignatureLength { component, expected, actual } => "invalid "@
                + component@ + (" length: expected "@ + decimal(expected as nat) + ", got "@
                + decimal(actual as nat) + ""@),
            ManifestError::InvalidLogicalLength { length, minimum, maximum } => (
            "invalid logical manifest length "@ + decimal(length as nat) + ""@) + (", expected "@
                + decimal(minimum as nat) + "..="@ + decimal(maximum as nat) + ""@),
            ManifestError::ChunkTooLarge { length } => "chunk length "@ + decimal(length as nat)
                + " exceeds 32-bit encoding"@,
        }
    }

    /// Returns the diagnostic text of this failure.
    pub fn message(&self) -> (text: String)
        ensures
            text@ == self.message_text(),
    {
        match *self {
            ManifestError::Wire(error) => error.message(),
            ManifestError::UnsupportedVersion(version) => with_number(
                "unsupported manifest version ",
                version as u64,
                "",
            ),
            ManifestError::InvalidFlags(flags) => fixed("invalid manifest flags 0x").concat(
                hexadecimal_text(flags as u64).as_str(),
            ),
            ManifestError::ZeroObjectId => fixed("manifest object ID is all zero"),
            ManifestError::ZeroSignerFingerprint => fixed(
                "manifest signer fingerprint is all zero",
            ),
            ManifestError::ZeroMerkleRoot => fixed("manifest Merkle root is all zero"),
            ManifestError::InvalidChunkSize(size) => with_number(
                "invalid manifest chunk size ",
                size as u64,
                "",
            ),
            ManifestError::InvalidChunkCount { expected, actual } => with_two_numbers(
                "invalid manifest chunk count ",
                actual as u64,
                ", expected ",
                expected,
                "",
            ),
            ManifestError::InvalidDisplayName => fixed("invalid manifest display name"),
            ManifestError::InvalidSignatureLength { component, expected, actual } => fixed(
                "invalid ",
            ).concat(component).concat(
                with_two_numbers(
                    " length: expected ",
                    expected as u64,
                    ", got ",
                    actual as u64,
                    "",
                ).as_str(),
            ),
            ManifestError::InvalidLogicalLength { length, minimum, maximum } => with_number(
                "invalid logical manifest length ",
                length as u64,
                "",
            ).concat(
                with_two_numbers(", expected ", minimum as u64, "..=", maximum as u64, "").as_str(),
            ),
            ManifestError::ChunkTooLarge { length } => with_number(
                "chunk length ",
                length as u64,
                " exceeds 32-bit encoding",
            ),
        }
    }
}

/// Whether a chunk size is a power of two between 64 KiB and 16 MiB.
pub open spec fn is_chunk_size(size: u32) -> bool {
    ||| size == 0x1_0000
    ||| size == 0x2_0000
    ||| size == 0x4_0000
    ||| size == 0x8_0000
    ||| size == 0x10_0000
    ||| size == 0x20_0000
    ||| size == 0x40_0000
    ||| size == 0x80_0000
    ||| size == 0x100_0000
}

/// Number of chunks of an object: its size over the chunk size, rounded up.
pub open spec fn chunk_count_of(object_size: u64, chunk_size: u32) -> int {
    crate::arith::ceil_div(object_size as int, chunk_size as int)
}

/// Whether a character may not stand in a display name: control characters and path separators.
pub open spec fn forbidden_in_name(character: char) -> bool {
    ||| character as u32 <= 0x1f
    ||| 0x7f <= character as u32 <= 0x9f
    ||| character == '/'
    ||| character == '\\'
}

/// Whether a text is a valid display name.
pub open spec fn is_display_name(characters: Seq<char>, byte_length: nat) -> bool {
    &&& byte_length <= MAX_DISPLAY_NAME_LEN
    &&& forall|i: int| 0 <= i < characters.len() ==> !forbidden_in_name(#[trigger] characters[i])
}

/// The failure of an output with room for `available` bytes, if any.
pub open spec fn output_failure(available: nat, needed: nat) -> Option<ManifestError> {
    if available < needed {
        Some(
            ManifestError::Wire(
                WireError::BufferTooSmall {
                    needed: needed as usize,
                    available: available as usize,
                },
            ),
        )
    } else {
        None
    }
}

/// The failure of an input that must have exactly `expected` bytes, if any.
pub open spec fn exact_failure(actual: nat, expected: nat) -> Option<ManifestError> {
    if actual < expected {
        Some(
            ManifestError::Wire(
                WireError::PacketTooShort { minimum: expected as usize, actual: actual as usize },
            ),
        )
    } else if actual != expected {
        Some(
            ManifestError::Wire(
                WireError::LengthMismatch { expected: expected as usize, actual: actual as usize },
            ),
        )
    } else {
        None
    }
}

/// The failure of a signature's length, if any.
pub open spec fn signature_failure(component: &'static str, actual: nat, expected: usize) -> Option<
    ManifestError,
> {
    if actual == expected {
        None
    } else {
        Some(
            ManifestError::InvalidSignatureLength { component, expected, actual: actual as usize },
        )
    }
}

/// The first of two failures.
pub open spec fn first_failure(
    first: Option<ManifestError>,
    second: Option<ManifestError>,
) -> Option<ManifestError> {
    match first {
        Some(error) => Some(error),
        None => second,
    }
}

/// Interprets bytes as UTF-8 text through `core::str::from_utf8`.
///
/// That function returns the text whose UTF-8 encoding the bytes are, and an error exactly when
/// the bytes are not valid UTF-8.
#[verifier::external_body]
fn utf8_text(bytes: &[u8]) -> (text: Option<&str>)
    ensures
        match text {
            Some(text) => valid_utf8(bytes@) && text.spec_bytes() == bytes@,
            None => !valid_utf8(bytes@),
        },
{
    core::str::from_utf8(bytes).ok()
}

/// Fixed fields covered by both object signatures.
#[derive(Clone, Copy, Debug, PartialEq, Eq)]
pub struct ManifestHeader {
    /// Random, non-zero object identity that is not a content hash.
    pub object_id: [u8; OBJECT_ID_LEN],
    /// Exact object length in bytes.
    pub object_size: u64,
    /// Power-of-two chunk size in bytes.
    pub chunk_size: u32,
    /// Exact ceiling of `object_size / chunk_size`.
    pub chunk_count: u32,
    /// SHA-384 root of the domain-separated chunk tree.
    pub merkle_root: [u8; MERKLE_ROOT_LEN],
    /// SHA-384 fingerprint of the identity whose keys sign this manifest.
    pub signer_identity_fingerprint: [u8; IDENTITY_FINGERPRINT_LEN],
}

impl ManifestHeader {
    /// The failure of geometry or identity fields, if any.
    pub open spec fn field_failure(self) -> Option<ManifestError> {
        let expected = chunk_count_of(self.object_size, self.chunk_size);
        if all_zero(self.object_id@) {
            Some(ManifestError::ZeroObjectId)
        } else if all_zero(self.signer_identity_fingerprint@) {
            Some(ManifestError::ZeroSignerFingerprint)
        } else if all_zero(self.merkle_root@) {
            Some(ManifestError::ZeroMerkleRoot)
        } else if !is_chunk_size(self.chunk_size) {
            Some(ManifestError::InvalidChunkSize(self.chunk_size))
        } else if expected != self.chunk_count {
            Some(
                ManifestError::InvalidChunkCount {
                    expected: expected as u64,
                    actual: self.chunk_count,
                },
            )
        } else {
            None
        }
    }

    /// Canonical bytes in front of a display name.
    pub open spec fn prefix(self, name_length: nat) -> Seq<u8> {
        seq![MANIFEST_FORMAT_VERSION] + seq![0u8] + self.object_id@ + be64(self.object_size) + be32(
            self.chunk_size,
        ) + be32(self.chunk_count) + self.merkle_root@ + self.signer_identity_fingerprint@
            + seq![name_length as u8]
    }

    /// Canonical unsigned content.
    pub open spec fn unsigned_encoding(self, name: Seq<u8>) -> Seq<u8> {
        self.prefix(name.len()) + name
    }

    /// Canonical signed manifest.
    pub open spec fn signed_encoding(
        self,
        name: Seq<u8>,
        ed25519_signature: Seq<u8>,
        ml_dsa_65_signature: Seq<u8>,
    ) -> Seq<u8> {
        self.unsigned_encoding(name) + ed25519_signature + ml_dsa_65_signature
    }

    /// The failure of the content that is signed, if any.
    pub open spec fn content_failure(self, name: &str) -> Option<ManifestError> {
        first_failure(
            self.field_failure(),
            if is_display_name(name@, name.spec_bytes().len()) {
                None
            } else {
                Some(ManifestError::InvalidDisplayName)
            },
        )
    }

    /// Validates geometry and non-zero identity fields.
    ///
    /// # Errors
    ///
    /// Returns an error for an invalid object identity, fingerprint, root, chunk size, or chunk
    /// count.
    pub fn validate(self) -> (outcome: Result<(), ManifestError>)
        ensures
            outcome == match self.field_failure() {
                Some(error) => Err::<(), ManifestError>(error),
                None => Ok(()),
            },
    {
        if is_all_zero(&self.object_id) {
            return Err(ManifestError::ZeroObjectId);
        }
        if is_all_zero(&self.signer_identity_fingerprint) {
            return Err(ManifestError::ZeroSignerFingerprint);
        }
        if is_all_zero(&self.merkle_root) {
            return Err(ManifestError::ZeroMerkleRoot);
        }
        match self.chunk_size {
            0x1_0000 | 0x2_0000 | 0x4_0000 | 0x8_0000 | 0x10_0000 | 0x20_0000 | 0x40_0000
            | 0x80_0000 | 0x100_0000 => {},
            _ => {
                return Err(ManifestError::InvalidChunkSize(self.chunk_size));
            },
        }
        let expected: u64 = expected_chunk_count(self.object_size, self.chunk_size);
        if expected != self.chunk_count as u64 {
            return Err(
                ManifestError::InvalidChunkCount { expected, actual: self.chunk_count },
            );
        }
        Ok(())
    }

    /// Encodes the canonical unsigned content consumed by SHA-384.
    ///
    /// # Errors
    ///
    /// Returns an error for invalid fields or display name, arithmetic overflow, or an undersized
    /// output.
    pub fn encode_unsigned(self, display_name: &str, output: &mut [u8]) -> (written: Result<
        usize,
        ManifestError,
    >)
        ensures
            match first_failure(
                self.content_failure(display_name),
                output_failure(
                    old(output)@.len(),
                    MANIFEST_UNSIGNED_FIXED_LEN as nat + display_name.spec_bytes().len(),
                ),
            ) {
                Some(error) => {
                    &&& written == Err::<usize, ManifestError>(error)
                    &&& final(output)@ == old(output)@
                },
                None => {
                    let content = self.unsigned_encoding(display_name.spec_bytes());
                    &&& written == Ok::<usize, ManifestError>(content.len() as usize)
                    &&& final(output)@ == overwrite_prefix(old(output)@, content)
                },
            },
    {
        broadcast use group_buffer_writes;

        match self.validate() {
            Err(error) => {
                return Err(error);
            },
            Ok(()) => {},
        }
        if !display_name_is_valid(display_name) {
            return Err(ManifestError::InvalidDisplayName);
        }
        let name: &[u8] = display_name.as_bytes();
        let needed: usize = MANIFEST_UNSIGNED_FIXED_LEN + name.len();
        if output.len() < needed {
            return Err(
                ManifestError::Wire(WireError::BufferTooSmall { needed, available: output.len() }),
            );
        }
        let prefix: [u8; MANIFEST_UNSIGNED_FIXED_LEN] = self.encoded_prefix(name.len());
        let mut at: usize = put(output, 0, &prefix);
        at = put(output, at, name);
        Ok(at)
    }

    /// Streams canonical unsigned content directly into a caller-owned hash.
    ///
    /// # Errors
    ///
    /// Returns an error for invalid fields or an invalid display name. Nothing is streamed then.
    pub fn feed_unsigned<S: TranscriptSink>(self, display_name: &str, sink: &mut S) -> (outcome:
        Result<(), ManifestError>)
        ensures
            match self.content_failure(display_name) {
                Some(error) => {
                    &&& outcome == Err::<(), ManifestError>(error)
                    &&& *final(sink) == *old(sink)
                },
                None => {
                    &&& outcome == Ok::<(), ManifestError>(())
                    &&& final(sink).fed() == old(sink).fed() + self.unsigned_encoding(
                        display_name.spec_bytes(),
                    )
                },
            },
    {
        match self.validate() {
            Err(error) => {
                return Err(error);
            },
            Ok(()) => {},
        }
        if !display_name_is_valid(display_name) {
            return Err(ManifestError::InvalidDisplayName);
        }
        let name: &[u8] = display_name.as_bytes();
        let prefix: [u8; MANIFEST_UNSIGNED_FIXED_LEN] = self.encoded_prefix(name.len());
        sink.update(&prefix);
        sink.update(name);
        assert(sink.fed() =~= old(sink).fed() + self.unsigned_encoding(display_name.spec_bytes()));
        Ok(())
    }

    /// Encodes unsigned content followed by fixed Ed25519 and ML-DSA-65 signatures.
    ///
    /// # Errors
    ///
    /// Returns an error for invalid manifest fields, signature sizes, or an undersized output.
    #[verifier::spinoff_prover]
    #[verifier::rlimit(40)]
    pub fn encode_signed(
        self,
        display_name: &str,
        ed25519_signature: &[u8],
        ml_dsa_65_signature: &[u8],
        output: &mut [u8],
    ) -> (written: Result<usize, ManifestError>)
        ensures
            match first_failure(
                first_failure(
                    signature_failure(
                        "Ed25519 signature",
                        ed25519_signature@.len(),
                        ED25519_SIGNATURE_LEN,
                    ),
                    signature_failure(
                        "ML-DSA-65 signature",
                        ml_dsa_65_signature@.len(),
                        ML_DSA_65_SIGNATURE_LEN,
                    ),
                ),
                first_failure(
                    self.content_failure(display_name),
                    output_failure(
                        old(output)@.len(),
                        MIN_SIGNED_MANIFEST_LEN as nat + display_name.spec_bytes().len(),
                    ),
                ),
            ) {
                Some(error) => {
                    &&& written == Err::<usize, ManifestError>(error)
                    &&& final(output)@ == old(output)@
                },
                None => {
                    let manifest = self.signed_encoding(
                        display_name.spec_bytes(),
                        ed25519_signature@,
                        ml_dsa_65_signature@,
                    );
                    &&& written == Ok::<usize, ManifestError>(manifest.len() as usize)
                    &&& final(output)@ == overwrite_prefix(old(output)@, manifest)
                },
            },
    {
        broadcast use group_buffer_writes;

        if ed25519_signature.len() != ED25519_SIGNATURE_LEN {
            return Err(
                ManifestError::InvalidSignatureLength {
                    component: "Ed25519 signature",
                    expected: ED25519_SIGNATURE_LEN,
                    actual: ed25519_signature.len(),
                },
            );
        }
        if ml_dsa_65_signature.len() != ML_DSA_65_SIGNATURE_LEN {
            return Err(
                ManifestError::InvalidSignatureLength {
                    component: "ML-DSA-65 signature",
                    expected: ML_DSA_65_SIGNATURE_LEN,
                    actual: ml_dsa_65_signature.len(),
                },
            );
        }
        match self.validate() {
            Err(error) => {
                return Err(error);
            },
            Ok(()) => {},
        }
        if !display_name_is_valid(display_name) {
            return Err(ManifestError::InvalidDisplayName);
        }
        let needed: usize = MIN_SIGNED_MANIFEST_LEN + display_name.as_bytes().len();
        if output.len() < needed {
            return Err(
                ManifestError::Wire(WireError::BufferTooSmall { needed, available: output.len() }),
            );
        }
        let mut at: usize = match self.encode_unsigned(display_name, output) {
            Ok(written) => written,
            Err(error) => {
                return Err(error);
            },
        };
        at = put(output, at, ed25519_signature);
        at = put(output, at, ml_dsa_65_signature);
        Ok(at)
    }

    fn encoded_prefix(self, name_length: usize) -> (prefix: [u8; MANIFEST_UNSIGNED_FIXED_LEN])
        requires
            name_length <= MAX_DISPLAY_NAME_LEN,
        ensures
            prefix@ == self.prefix(name_length as nat),
    {
        broadcast use group_buffer_writes;

        let mut prefix: [u8; MANIFEST_UNSIGNED_FIXED_LEN] = [0u8; MANIFEST_UNSIGNED_FIXED_LEN];
        let ghost blank = prefix@;
        let mut at: usize = put_u8(&mut prefix, 0, MANIFEST_FORMAT_VERSION);
        at = put_u8(&mut prefix, at, 0);
        at = put(&mut prefix, at, &self.object_id);
        at = put_u64(&mut prefix, at, self.object_size);
        at = put_u32(&mut prefix, at, self.chunk_size);
        at = put_u32(&mut prefix, at, self.chunk_count);
        at = put(&mut prefix, at, &self.merkle_root);
        at = put(&mut prefix, at, &self.signer_identity_fingerprint);
        at = put_u8(&mut prefix, at, name_length as u8);
        assert(prefix@ == overwrite_prefix(blank, self.prefix(name_length as nat)));
        assert(prefix@ =~= self.prefix(name_length as nat));
        prefix
    }
}

/// Borrowed canonical signed manifest.
#[derive(Clone, Copy, Debug, PartialEq, Eq)]
pub struct Manifest<'a> {
    /// Validated fixed signed fields.
    pub header: ManifestHeader,
    /// Informational UTF-8 name; never a filesystem path.
    pub display_name: &'a str,
    pub unsigned_content: &'a [u8],
    pub ed25519_signature: &'a [u8],
    pub ml_dsa_65_signature: &'a [u8],
}

impl<'a> Manifest<'a> {
    /// A manifest's invariant: valid content and name, signatures of the right size, and unsigned
    /// content that is the canonical encoding of the fields.
    pub open spec fn well_formed(self) -> bool {
        &&& self.header.content_failure(self.display_name) is None
        &&& self.unsigned_content@ == self.header.unsigned_encoding(self.display_name.spec_bytes())
        &&& self.ed25519_signature@.len() == ED25519_SIGNATURE_LEN
        &&& self.ml_dsa_65_signature@.len() == ML_DSA_65_SIGNATURE_LEN
    }

    /// Canonical bytes of the manifest.
    pub open spec fn encoding(self) -> Seq<u8> {
        self.header.signed_encoding(
            self.display_name.spec_bytes(),
            self.ed25519_signature@,
            self.ml_dsa_65_signature@,
        )
    }

    /// The header that a manifest's bytes hold.
    pub open spec fn header_of(input: Seq<u8>, header: ManifestHeader) -> bool {
        &&& header.object_id@ == input.subrange(2, 34)
        &&& header.object_size == be64_at(input, 34)
        &&& header.chunk_size == be32_at(input, 42)
        &&& header.chunk_count == be32_at(input, 46)
        &&& header.merkle_root@ == input.subrange(50, 98)
        &&& header.signer_identity_fingerprint@ == input.subrange(98, 146)
    }

    /// The failure of decoding `input`, apart from that of its header fields, if any.
    pub open spec fn frame_failure(input: Seq<u8>) -> Option<ManifestError> {
        if input.len() < MIN_SIGNED_MANIFEST_LEN {
            Some(
                ManifestError::Wire(
                    WireError::PacketTooShort {
                        minimum: MIN_SIGNED_MANIFEST_LEN,
                        actual: input.len() as usize,
                    },
                ),
            )
        } else if input[0] != MANIFEST_FORMAT_VERSION {
            Some(ManifestError::UnsupportedVersion(input[0]))
        } else if input[1] != 0 {
            Some(ManifestError::InvalidFlags(input[1]))
        } else if input.len() != MIN_SIGNED_MANIFEST_LEN + input[146] {
            exact_failure(input.len(), (MIN_SIGNED_MANIFEST_LEN + input[146]) as nat)
        } else {
            let name = input.subrange(147, 147 + input[146]);
            if !valid_utf8(name) || !is_display_name(decode_utf8(name), name.len()) {
                Some(ManifestError::InvalidDisplayName)
            } else {
                None
            }
        }
    }

    /// Decodes and validates one exact logical signed manifest.
    ///
    /// This validates representation and geometry, not either signature or the Merkle root.
    ///
    /// # Errors
    ///
    /// Returns an error for truncation, trailing bytes, unsupported fields, invalid UTF-8 metadata,
    /// or inconsistent chunk geometry.
    #[verifier::spinoff_prover]
    #[verifier::rlimit(40)]
    pub fn decode(input: &'a [u8]) -> (decoded: Result<Manifest<'a>, ManifestError>)
        ensures
            match Self::frame_failure(input@) {
                Some(error) => decoded == Err::<Manifest<'a>, ManifestError>(error),
                None => match decoded {
                    Ok(manifest) => {
                        &&& manifest.well_formed()
                        &&& manifest.encoding() == input@
                        &&& Self::header_of(input@, manifest.header)
                    },
                    Err(error) => forall|header: ManifestHeader|
                        Self::header_of(input@, header) ==> (
                        #[trigger] header.field_failure()) == Some(error),
                },
            },
    {
        if input.len() < MIN_SIGNED_MANIFEST_LEN {
            return Err(
                ManifestError::Wire(
                    WireError::PacketTooShort {
                        minimum: MIN_SIGNED_MANIFEST_LEN,
                        actual: input.len(),
                    },
                ),
            );
        }
        if input[0] != MANIFEST_FORMAT_VERSION {
            return Err(ManifestError::UnsupportedVersion(input[0]));
        }
        if input[1] != 0 {
            return Err(ManifestError::InvalidFlags(input[1]));
        }
        let name_length: usize = input[146] as usize;
        let unsigned_len: usize = MANIFEST_UNSIGNED_FIXED_LEN + name_length;
        let ed25519_end: usize = unsigned_len + ED25519_SIGNATURE_LEN;
        let expected: usize = ed25519_end + ML_DSA_65_SIGNATURE_LEN;
        if input.len() < expected {
            return Err(
                ManifestError::Wire(
                    WireError::PacketTooShort { minimum: expected, actual: input.len() },
                ),
            );
        }
        if input.len() != expected {
            return Err(
                ManifestError::Wire(WireError::LengthMismatch { expected, actual: input.len() }),
            );
        }
        let name_bytes: &'a [u8] = part(input, MANIFEST_UNSIGNED_FIXED_LEN, unsigned_len);
        let display_name: &'a str = match utf8_text(name_bytes) {
            Some(text) => text,
            None => {
                return Err(ManifestError::InvalidDisplayName);
            },
        };
        proof {
            vstd::utf8::encode_utf8_decode_utf8(display_name@);
        }
        if !display_name_is_valid(display_name) {
            return Err(ManifestError::InvalidDisplayName);
        }
        let header = ManifestHeader {
            object_id: get_array::<OBJECT_ID_LEN>(input, 2),
            object_size: get_u64(input, 34),
            chunk_size: get_u32(input, 42),
            chunk_count: get_u32(input, 46),
            merkle_root: get_array::<MERKLE_ROOT_LEN>(input, 50),
            signer_identity_fingerprint: get_array::<IDENTITY_FINGERPRINT_LEN>(input, 98),
        };
        match header.validate() {
            Err(error) => {
                proof {
                    assert forall|other: ManifestHeader| Self::header_of(input@, other) implies (
                    #[trigger] other.field_failure()) == Some(error) by {
                        assert(other.object_id@ == header.object_id@);
                        assert(other.merkle_root@ == header.merkle_root@);
                        assert(other.signer_identity_fingerprint@
                            == header.signer_identity_fingerprint@);
                    }
                }
                return Err(error);
            },
            Ok(()) => {},
        }
        let manifest = Manifest {
            header,
            display_name,
            unsigned_content: part(input, 0, unsigned_len),
            ed25519_signature: part(input, unsigned_len, ed25519_end),
            ml_dsa_65_signature: part(input, ed25519_end, expected),
        };
        proof {
            lemma_be64_of_bytes(input@, 34);
            lemma_be32_of_bytes(input@, 42);
            lemma_be32_of_bytes(input@, 46);
            let prefix = header.prefix(name_length as nat);
            assert(prefix =~= input@.subrange(0, 147));
            assert(manifest.unsigned_content@ =~= prefix + name_bytes@);
            assert(manifest.encoding() =~= input@);
        }
        Ok(manifest)
    }

    /// Returns the exact content whose SHA-384 hash is signed.
    pub fn unsigned_content(&self) -> (content: &'a [u8])
        ensures
            content@ == self.unsigned_content@,
    {
        self.unsigned_content
    }

    /// Returns the fixed 64-byte Ed25519 signature.
    pub fn ed25519_signature(&self) -> (signature: &'a [u8])
        ensures
            signature@ == self.ed25519_signature@,
    {
        self.ed25519_signature
    }

    /// Returns the fixed 3,309-byte ML-DSA-65 signature.
    pub fn ml_dsa_65_signature(&self) -> (signature: &'a [u8])
        ensures
            signature@ == self.ml_dsa_65_signature@,
    {
        self.ml_dsa_65_signature
    }
}

/// The parts of canonical unsigned content.
pub(crate) proof fn lemma_prefix_parts(header: ManifestHeader, name_length: nat, rest: Seq<u8>)
    requires
        name_length <= MAX_DISPLAY_NAME_LEN,
    ensures
        header.prefix(name_length).len() == MANIFEST_UNSIGNED_FIXED_LEN,
        (header.prefix(name_length) + rest)[0] == MANIFEST_FORMAT_VERSION,
        (header.prefix(name_length) + rest)[1] == 0,
        (header.prefix(name_length) + rest)[146] == name_length,
        Manifest::header_of(header.prefix(name_length) + rest, header),
{
    let prefix = header.prefix(name_length);
    let bytes = prefix + rest;
    let sizes = seq![MANIFEST_FORMAT_VERSION] + seq![0u8] + header.object_id@ + be64(
        header.object_size,
    ) + be32(header.chunk_size) + be32(header.chunk_count);
    let length = seq![name_length as u8];
    assert(prefix == sizes + header.merkle_root@ + header.signer_identity_fingerprint@ + length);
    assert(sizes.len() == 50);
    assert(sizes[0] == MANIFEST_FORMAT_VERSION && sizes[1] == 0);
    assert(sizes.subrange(2, 34) =~= header.object_id@);
    assert(sizes.subrange(34, 42) =~= be64(header.object_size));
    assert(sizes.subrange(42, 46) =~= be32(header.chunk_size));
    assert(sizes.subrange(46, 50) =~= be32(header.chunk_count));
    assert(bytes[0] == sizes[0] && bytes[1] == sizes[1]);
    assert(bytes.subrange(2, 34) =~= sizes.subrange(2, 34));
    assert(bytes.subrange(34, 42) =~= sizes.subrange(34, 42));
    assert(bytes.subrange(42, 46) =~= sizes.subrange(42, 46));
    assert(bytes.subrange(46, 50) =~= sizes.subrange(46, 50));
    lemma_be64_inverse(header.object_size);
    lemma_be32_inverse(header.chunk_size);
    lemma_be32_inverse(header.chunk_count);
    lemma_be_at_shift(bytes, be64(header.object_size), 34);
    lemma_be_at_shift(bytes, be32(header.chunk_size), 42);
    lemma_be_at_shift(bytes, be32(header.chunk_count), 46);
    assert(bytes.subrange(50, 98) =~= header.merkle_root@);
    assert(bytes.subrange(98, 146) =~= header.signer_identity_fingerprint@);
    assert(bytes[146] == length[0]);
}

/// The parts of four byte strings in a row.
proof fn lemma_four_parts(first: Seq<u8>, second: Seq<u8>, third: Seq<u8>, fourth: Seq<u8>)
    ensures
        first + second + third + fourth == first + (second + third + fourth),
        (first + second + third + fourth).subrange(
            first.len() as int,
            (first.len() + second.len()) as int,
        ) == second,
        (first + second + third + fourth).subrange(
            (first.len() + second.len()) as int,
            (first.len() + second.len() + third.len()) as int,
        ) == third,
        (first + second + third + fourth).skip((first.len() + second.len() + third.len()) as int)
            == fourth,
{
    let whole = first + second + third + fourth;
    let a = first.len() as int;
    let b = a + second.len();
    let c = b + third.len();
    assert(whole =~= first + (second + third + fourth));
    assert(whole.subrange(a, b) =~= second);
    assert(whole.subrange(b, c) =~= third);
    assert(whole.skip(c) =~= fourth);
}

/// The parts of a signed manifest's bytes.
pub(crate) proof fn lemma_signed_parts(manifest: Manifest)
    requires
        manifest.well_formed(),
    ensures
        ({
            let bytes = manifest.encoding();
            let name = manifest.display_name.spec_bytes();
            &&& bytes.len() == MIN_SIGNED_MANIFEST_LEN + name.len()
            &&& bytes[0] == MANIFEST_FORMAT_VERSION
            &&& bytes[1] == 0
            &&& bytes[146] == name.len()
            &&& Manifest::header_of(bytes, manifest.header)
            &&& bytes.subrange(147, 147 + bytes[146]) == name
            &&& bytes.subrange(147 + bytes[146], 211 + bytes[146]) == manifest.ed25519_signature@
            &&& bytes.skip(211 + bytes[146]) == manifest.ml_dsa_65_signature@
        }),
{
    let name = manifest.display_name.spec_bytes();
    let prefix = manifest.header.prefix(name.len());
    let ed25519 = manifest.ed25519_signature@;
    let ml_dsa = manifest.ml_dsa_65_signature@;
    lemma_four_parts(prefix, name, ed25519, ml_dsa);
    lemma_prefix_parts(manifest.header, name.len(), name + ed25519 + ml_dsa);
}

/// Signed manifests round-trip: a valid manifest's bytes decode, and they determine its header, its
/// name and both signatures.
pub proof fn lemma_manifest_round_trip(left: Manifest, right: Manifest)
    requires
        left.well_formed(),
        right.well_formed(),
    ensures
        Manifest::frame_failure(left.encoding()) is None,
        Manifest::header_of(left.encoding(), left.header),
        left.encoding() == right.encoding() ==> {
            &&& left.header == right.header
            &&& left.display_name.spec_bytes() == right.display_name.spec_bytes()
            &&& left.ed25519_signature@ == right.ed25519_signature@
            &&& left.ml_dsa_65_signature@ == right.ml_dsa_65_signature@
        },
{
    lemma_signed_parts(left);
    vstd::utf8::encode_utf8_valid_utf8(left.display_name@);
    vstd::utf8::encode_utf8_decode_utf8(left.display_name@);
    if left.encoding() == right.encoding() {
        lemma_signed_parts(right);
        assert(left.header.object_id =~= right.header.object_id);
        assert(left.header.merkle_root =~= right.header.merkle_root);
        assert(left.header.signer_identity_fingerprint
            =~= right.header.signer_identity_fingerprint);
    }
}

/// Borrowed MANIFEST CONTROL value carrying part of a logical manifest.
#[derive(Clone, Copy, Debug, PartialEq, Eq)]
pub struct ManifestFragment<'a> {
    /// Connection-local object slot being installed.
    pub object_slot: u32,
    /// Total logical signed-manifest length.
    pub manifest_length: u16,
    /// Byte offset of this fragment in the logical manifest.
    pub fragment_offset: u16,
    /// Borrowed logical-manifest bytes.
    pub fragment: &'a [u8],
}

impl<'a> ManifestFragment<'a> {
    /// Canonical bytes of the value.
    pub open spec fn encoding(self) -> Seq<u8> {
        be32(self.object_slot) + be16(self.manifest_length) + be16(self.fragment_offset)
            + self.fragment@
    }

    /// The failure of a fragment's position, if any.
    pub open spec fn bounds_failure(
        manifest_length: u16,
        fragment_offset: u16,
        fragment_length: nat,
    ) -> Option<ManifestError> {
        if !(MIN_SIGNED_MANIFEST_LEN <= manifest_length <= MAX_SIGNED_MANIFEST_LEN) {
            Some(
                ManifestError::InvalidLogicalLength {
                    length: manifest_length as usize,
                    minimum: MIN_SIGNED_MANIFEST_LEN,
                    maximum: MAX_SIGNED_MANIFEST_LEN,
                },
            )
        } else if fragment_length == 0 || fragment_offset + fragment_length > manifest_length {
            Some(ManifestError::Wire(WireError::InvalidFragmentBounds))
        } else {
            None
        }
    }

    /// The failure of decoding `input`, if any.
    pub open spec fn decode_failure(input: Seq<u8>) -> Option<ManifestError> {
        if input.len() < MANIFEST_FRAGMENT_FIXED_LEN + 1 {
            Some(
                ManifestError::Wire(
                    WireError::PacketTooShort {
                        minimum: (MANIFEST_FRAGMENT_FIXED_LEN + 1) as usize,
                        actual: input.len() as usize,
                    },
                ),
            )
        } else {
            Self::bounds_failure(
                be16_at(input, 4),
                be16_at(input, 6),
                (input.len() - MANIFEST_FRAGMENT_FIXED_LEN) as nat,
            )
        }
    }

    /// Encodes one exact MANIFEST CONTROL value.
    ///
    /// # Errors
    ///
    /// Returns an error for an invalid logical length, empty or out-of-bounds fragment, or an
    /// undersized output.
    pub fn encode(self, output: &mut [u8]) -> (written: Result<usize, ManifestError>)
        ensures
            match first_failure(
                Self::bounds_failure(
                    self.manifest_length,
                    self.fragment_offset,
                    self.fragment@.len(),
                ),
                output_failure(
                    old(output)@.len(),
                    MANIFEST_FRAGMENT_FIXED_LEN as nat + self.fragment@.len(),
                ),
            ) {
                Some(error) => {
                    &&& written == Err::<usize, ManifestError>(error)
                    &&& final(output)@ == old(output)@
                },
                None => {
                    &&& written == Ok::<usize, ManifestError>(self.encoding().len() as usize)
                    &&& final(output)@ == overwrite_prefix(old(output)@, self.encoding())
                },
            },
    {
        broadcast use group_buffer_writes;

        match validate_fragment(
            self.manifest_length,
            self.fragment_offset,
            self.fragment.len(),
        ) {
            Some(error) => {
                return Err(error);
            },
            None => {},
        }
        let needed: usize = MANIFEST_FRAGMENT_FIXED_LEN + self.fragment.len();
        if output.len() < needed {
            return Err(
                ManifestError::Wire(WireError::BufferTooSmall { needed, available: output.len() }),
            );
        }
        let mut at: usize = put_u32(output, 0, self.object_slot);
        at = put_u16(output, at, self.manifest_length);
        at = put_u16(output, at, self.fragment_offset);
        at = put(output, at, self.fragment);
        Ok(at)
    }

    /// Decodes one exact MANIFEST CONTROL value without copying its fragment.
    ///
    /// # Errors
    ///
    /// Returns an error for truncation or invalid logical fragment bounds.
    pub fn decode(input: &'a [u8]) -> (decoded: Result<ManifestFragment<'a>, ManifestError>)
        ensures
            match Self::decode_failure(input@) {
                Some(error) => decoded == Err::<ManifestFragment<'a>, ManifestError>(error),
                None => {
                    &&& decoded is Ok
                    &&& decoded->Ok_0.encoding() == input@
                    &&& Self::bounds_failure(
                        decoded->Ok_0.manifest_length,
                        decoded->Ok_0.fragment_offset,
                        decoded->Ok_0.fragment@.len(),
                    ) is None
                },
            },
    {
        let minimum: usize = MANIFEST_FRAGMENT_FIXED_LEN + 1;
        if input.len() < minimum {
            return Err(
                ManifestError::Wire(WireError::PacketTooShort { minimum, actual: input.len() }),
            );
        }
        let fragment = ManifestFragment {
            object_slot: get_u32(input, 0),
            manifest_length: get_u16(input, 4),
            fragment_offset: get_u16(input, 6),
            fragment: part(input, MANIFEST_FRAGMENT_FIXED_LEN, input.len()),
        };
        match validate_fragment(
            fragment.manifest_length,
            fragment.fragment_offset,
            fragment.fragment.len(),
        ) {
            Some(error) => {
                return Err(error);
            },
            None => {},
        }
        proof {
            lemma_be32_of_bytes(input@, 0);
            lemma_be16_of_bytes(input@, 4);
            lemma_be16_of_bytes(input@, 6);
            assert(fragment.encoding() =~= input@);
        }
        Ok(fragment)
    }
}

/// MANIFEST fragments round-trip: an encodable fragment decodes, and its bytes determine it.
pub proof fn lemma_manifest_fragment_round_trip(left: ManifestFragment, right: ManifestFragment)
    requires
        ManifestFragment::bounds_failure(
            left.manifest_length,
            left.fragment_offset,
            left.fragment@.len(),
        ) is None,
    ensures
        ManifestFragment::decode_failure(left.encoding()) is None,
        left.encoding() == right.encoding() ==> {
            &&& left.object_slot == right.object_slot
            &&& left.manifest_length == right.manifest_length
            &&& left.fragment_offset == right.fragment_offset
            &&& left.fragment@ == right.fragment@
        },
{
    let bytes = left.encoding();
    lemma_be16_inverse(left.manifest_length);
    lemma_be16_inverse(left.fragment_offset);
    assert(bytes.subrange(4, 6) =~= be16(left.manifest_length));
    assert(bytes.subrange(6, 8) =~= be16(left.fragment_offset));
    lemma_be_at_shift(bytes, be16(left.manifest_length), 4);
    lemma_be_at_shift(bytes, be16(left.fragment_offset), 6);
    if left.encoding() == right.encoding() {
        lemma_be32_inverse(left.object_slot);
        lemma_be32_inverse(right.object_slot);
        lemma_be16_inverse(right.manifest_length);
        lemma_be16_inverse(right.fragment_offset);
        assert(bytes.subrange(0, 4) =~= be32(left.object_slot));
        assert(bytes.subrange(0, 4) =~= be32(right.object_slot));
        assert(bytes.subrange(4, 6) =~= be16(right.manifest_length));
        assert(bytes.subrange(6, 8) =~= be16(right.fragment_offset));
        assert(bytes.skip(8) =~= left.fragment@);
        assert(bytes.skip(8) =~= right.fragment@);
    }
}

/// The bytes both schemes sign for a manifest.
pub open spec fn manifest_signature_input(content_hash: Seq<u8>) -> Seq<u8> {
    signature_padding() + MANIFEST_SIGNATURE_CONTEXT.spec_bytes() + seq![0u8] + content_hash
}

/// The bytes whose hash is a chunk's leaf.
pub open spec fn chunk_leaf_input(object_id: Seq<u8>, chunk_index: u32, chunk: Seq<u8>) -> Seq<u8> {
    MERKLE_LEAF_CONTEXT.spec_bytes() + object_id + be32(chunk_index) + be32(chunk.len() as u32)
        + chunk
}

/// The bytes whose hash is an internal node.
pub open spec fn merkle_node_input(level: u32, left: Seq<u8>, right: Seq<u8>) -> Seq<u8> {
    MERKLE_NODE_CONTEXT.spec_bytes() + be32(level) + left + right
}

/// The bytes whose hash is the root of an empty object.
pub open spec fn empty_root_input(object_id: Seq<u8>) -> Seq<u8> {
    MERKLE_EMPTY_CONTEXT.spec_bytes() + object_id
}

/// Streams the contextualized input signed by both manifest signature schemes.
pub fn feed_manifest_signature_input<S: TranscriptSink>(
    sink: &mut S,
    unsigned_content_hash: &[u8; MERKLE_ROOT_LEN],
)
    ensures
        final(sink).fed() == old(sink).fed() + manifest_signature_input(unsigned_content_hash@),
{
    let padding: [u8; SIGNATURE_CONTEXT_PREFIX_LEN] = [0x20u8; SIGNATURE_CONTEXT_PREFIX_LEN];
    assert(padding@ =~= signature_padding());
    let separator: [u8; 1] = [0u8];
    assert(separator@ =~= seq![0u8]);
    sink.update(&padding);
    sink.update(MANIFEST_SIGNATURE_CONTEXT.as_bytes());
    sink.update(&separator);
    sink.update(unsigned_content_hash);
    assert(sink.fed() =~= old(sink).fed() + manifest_signature_input(unsigned_content_hash@));
}

/// Streams the exact SHA-384 input for one chunk leaf.
///
/// # Errors
///
/// Returns an error when the chunk length does not fit the signed 32-bit field. Nothing is streamed
/// then.
pub fn feed_chunk_leaf_input<S: TranscriptSink>(
    sink: &mut S,
    object_id: &[u8; OBJECT_ID_LEN],
    chunk_index: u32,
    chunk: &[u8],
) -> (outcome: Result<(), ManifestError>)
    ensures
        chunk@.len() > u32::MAX ==> {
            &&& outcome == Err::<(), ManifestError>(
                ManifestError::ChunkTooLarge { length: chunk@.len() as usize },
            )
            &&& *final(sink) == *old(sink)
        },
        chunk@.len() <= u32::MAX ==> {
            &&& outcome == Ok::<(), ManifestError>(())
            &&& final(sink).fed() == old(sink).fed() + chunk_leaf_input(
                object_id@,
                chunk_index,
                chunk@,
            )
        },
{
    if chunk.len() > u32::MAX as usize {
        return Err(ManifestError::ChunkTooLarge { length: chunk.len() });
    }
    let index: [u8; 4] = be32_bytes(chunk_index);
    let length: [u8; 4] = be32_bytes(chunk.len() as u32);
    sink.update(MERKLE_LEAF_CONTEXT.as_bytes());
    sink.update(object_id);
    sink.update(&index);
    sink.update(&length);
    sink.update(chunk);
    assert(sink.fed() =~= old(sink).fed() + chunk_leaf_input(object_id@, chunk_index, chunk@));
    Ok(())
}

/// Streams the exact SHA-384 input for one internal Merkle node.
pub fn feed_merkle_node_input<S: TranscriptSink>(
    sink: &mut S,
    level: u32,
    left: &[u8; MERKLE_ROOT_LEN],
    right: &[u8; MERKLE_ROOT_LEN],
)
    ensures
        final(sink).fed() == old(sink).fed() + merkle_node_input(level, left@, right@),
{
    let height: [u8; 4] = be32_bytes(level);
    sink.update(MERKLE_NODE_CONTEXT.as_bytes());
    sink.update(&height);
    sink.update(left);
    sink.update(right);
    assert(sink.fed() =~= old(sink).fed() + merkle_node_input(level, left@, right@));
}

/// Streams the exact SHA-384 input defining the root of an empty object.
pub fn feed_empty_root_input<S: TranscriptSink>(sink: &mut S, object_id: &[u8; OBJECT_ID_LEN])
    ensures
        final(sink).fed() == old(sink).fed() + empty_root_input(object_id@),
{
    sink.update(MERKLE_EMPTY_CONTEXT.as_bytes());
    sink.update(object_id);
    assert(sink.fed() =~= old(sink).fed() + empty_root_input(object_id@));
}

/// Inputs of different roles in the tree are never equal: a leaf, an internal node and an empty
/// root are hashed under different domain separators.
pub proof fn lemma_merkle_inputs_are_domain_separated(
    object_id: Seq<u8>,
    chunk_index: u32,
    chunk: Seq<u8>,
    level: u32,
    left: Seq<u8>,
    right: Seq<u8>,
    other_object_id: Seq<u8>,
)
    ensures
        chunk_leaf_input(object_id, chunk_index, chunk) != merkle_node_input(level, left, right),
        chunk_leaf_input(object_id, chunk_index, chunk) != empty_root_input(other_object_id),
        merkle_node_input(level, left, right) != empty_root_input(other_object_id),
{
    reveal_strlit("OGTP/1 chunk\0");
    reveal_strlit("OGTP/1 node\0");
    reveal_strlit("OGTP/1 empty\0");
    let leaf = MERKLE_LEAF_CONTEXT;
    let node = MERKLE_NODE_CONTEXT;
    let empty = MERKLE_EMPTY_CONTEXT;
    assert(leaf.is_ascii() && node.is_ascii() && empty.is_ascii());
    assert(leaf.spec_bytes()[7] == 0x63);
    assert(node.spec_bytes()[7] == 0x6e);
    assert(empty.spec_bytes()[7] == 0x65);
    assert(chunk_leaf_input(object_id, chunk_index, chunk)[7] == 0x63);
    assert(merkle_node_input(level, left, right)[7] == 0x6e);
    assert(empty_root_input(other_object_id)[7] == 0x65);
}

fn expected_chunk_count(object_size: u64, chunk_size: u32) -> (count: u64)
    requires
        is_chunk_size(chunk_size),
    ensures
        count == chunk_count_of(object_size, chunk_size),
{
    if object_size == 0 {
        proof {
            lemma_fundamental_div_mod_converse(0, chunk_size as int, 0, 0);
            assert(chunk_count_of(object_size, chunk_size) == 0);
        }
        0
    } else {
        let size: u64 = chunk_size as u64;
        proof {
            lemma_ceil_by_predecessor(object_size as int, size as int);
        }
        (object_size - 1) / size + 1
    }
}

proof fn lemma_ceil_by_predecessor(dividend: int, divisor: int)
    requires
        dividend > 0,
        divisor > 1,
    ensures
        (dividend - 1) / divisor + 1 == crate::arith::ceil_div(dividend, divisor),
        0 <= (dividend - 1) / divisor,
        (dividend - 1) / divisor + 1 <= dividend,
{
    let quotient = (dividend - 1) / divisor;
    let remainder = (dividend - 1) % divisor;
    lemma_fundamental_div_mod(dividend - 1, divisor);
    assert(0 <= quotient <= dividend - 1) by (nonlinear_arith)
        requires
            dividend - 1 == divisor * quotient + remainder,
            0 <= remainder < divisor,
            divisor > 1,
            dividend > 0,
    ;
    if remainder == divisor - 1 {
        assert(dividend == (quotient + 1) * divisor + 0) by (nonlinear_arith)
            requires
                dividend - 1 == divisor * quotient + (divisor - 1),
        ;
        lemma_fundamental_div_mod_converse(dividend, divisor, quotient + 1, 0);
    } else {
        assert(dividend == quotient * divisor + (remainder + 1)) by (nonlinear_arith)
            requires
                dividend - 1 == divisor * quotient + remainder,
        ;
        lemma_fundamental_div_mod_converse(dividend, divisor, quotient, remainder + 1);
    }
}

fn display_name_is_valid(display_name: &str) -> (valid: bool)
    ensures
        valid == is_display_name(display_name@, display_name.spec_bytes().len()),
{
    if display_name.as_bytes().len() > MAX_DISPLAY_NAME_LEN {
        return false;
    }
    let total: usize = display_name.unicode_len();
    let mut index: usize = 0;
    while index < total
        invariant
            index <= total,
            total == display_name@.len(),
            display_name.spec_bytes().len() <= MAX_DISPLAY_NAME_LEN,
            forall|i: int| 0 <= i < index ==> !forbidden_in_name(#[trigger] display_name@[i]),
        decreases total - index,
    {
        let character: char = display_name.get_char(index);
        let code: u32 = character as u32;
        if code <= 0x1f || (0x7f <= code && code <= 0x9f) || character == '/' || character == '\\' {
            assert(forbidden_in_name(display_name@[index as int]));
            return false;
        }
        index = index + 1;
    }
    true
}

fn validate_fragment(manifest_length: u16, offset: u16, length: usize) -> (failure: Option<
    ManifestError,
>)
    ensures
        failure == ManifestFragment::bounds_failure(manifest_length, offset, length as nat),
{
    let total: usize = manifest_length as usize;
    if total < MIN_SIGNED_MANIFEST_LEN || total > MAX_SIGNED_MANIFEST_LEN {
        return Some(
            ManifestError::InvalidLogicalLength {
                length: total,
                minimum: MIN_SIGNED_MANIFEST_LEN,
                maximum: MAX_SIGNED_MANIFEST_LEN,
            },
        );
    }
    if length == 0 || length > total || offset as usize > total - length {
        return Some(ManifestError::Wire(WireError::InvalidFragmentBounds));
    }
    None
}

} // verus!
