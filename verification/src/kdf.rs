//! Canonical HKDF label encoding for the key schedule.
//!
//! This module only serializes HKDF `info` values. It deliberately does not implement SHA-384,
//! HMAC, HKDF, or any other cryptographic primitive.

use vstd::prelude::*;
use vstd::string::*;

use crate::bytes::{be16, group_buffer_writes, overwrite_prefix};
use crate::bytes::{put, put_u16, put_u8};
use crate::text::{decimal, fixed, with_two_numbers};

verus! {

pub const HASH_LEN: usize = 48;

pub const AEAD_KEY_LEN: usize = 32;

pub const AEAD_IV_LEN: usize = 12;

pub const HEADER_PROTECTION_KEY_LEN: usize = 32;

/// Text in front of every label.
pub const LABEL_PREFIX: &'static str = "ogtp1 ";

pub const LABEL_DERIVED: &'static str = "derived";

pub const LABEL_INITIATOR_HANDSHAKE: &'static str = "i hs";

pub const LABEL_RESPONDER_HANDSHAKE: &'static str = "r hs";

pub const LABEL_INITIATOR_APPLICATION: &'static str = "i ap";

pub const LABEL_RESPONDER_APPLICATION: &'static str = "r ap";

pub const LABEL_FINISHED: &'static str = "finished";

pub const LABEL_PATH: &'static str = "path";

pub const LABEL_KEY: &'static str = "key";

pub const LABEL_IV: &'static str = "iv";

pub const LABEL_HEADER_PROTECTION: &'static str = "hp";

pub const LABEL_TRAFFIC_UPDATE: &'static str = "traffic upd";

/// HKDF label-encoding errors.
#[derive(Clone, Copy, Debug, PartialEq, Eq, Structural)]
pub enum LabelError {
    EmptyLabel,
    NonAsciiLabel,
    LabelTooLong,
    ContextTooLong,
    LengthOverflow,
    BufferTooSmall { needed: usize, available: usize },
}

impl LabelError {
    /// The diagnostic text of a failure.
    pub open spec fn message_text(self) -> Seq<char> {
        match self {
            LabelError::EmptyLabel => "HKDF label is empty"@,
            LabelError::NonAsciiLabel => "HKDF label is not ASCII"@,
            LabelError::LabelTooLong => "HKDF label is too long"@,
            LabelError::ContextTooLong => "HKDF context is too long"@,
            LabelError::LengthOverflow => "HKDF label length overflow"@,
            LabelError::BufferTooSmall { needed, available } => "buffer too small: need "@
                + decimal(needed as nat) + ", have "@ + decimal(available as nat) + ""@,
        }
    }

    /// Returns the diagnostic text of this failure.
    pub fn message(&self) -> (text: String)
        ensures
            text@ == self.message_text(),
    {
        match *self {
            LabelError::EmptyLabel => fixed("HKDF label is empty"),
            LabelError::NonAsciiLabel => fixed("HKDF label is not ASCII"),
            LabelError::LabelTooLong => fixed("HKDF label is too long"),
            LabelError::ContextTooLong => fixed("HKDF context is too long"),
            LabelError::LengthOverflow => fixed("HKDF label length overflow"),
            LabelError::BufferTooSmall { needed, available } => with_two_numbers(
                "buffer too small: need ",
                needed as u64,
                ", have ",
                available as u64,
                "",
            ),
        }
    }
}

/// The `info` value of one label expansion.
pub open spec fn expand_label_info(output_length: u16, label: &str, context: Seq<u8>) -> Seq<u8> {
    be16(output_length) + seq![(LABEL_PREFIX.spec_bytes().len() + label.spec_bytes().len()) as u8]
        + LABEL_PREFIX.spec_bytes() + label.spec_bytes() + seq![context.len() as u8] + context
}

/// The failure of encoding a label into `available` bytes, if any.
pub open spec fn label_failure(label: &str, context: nat, available: nat) -> Option<LabelError> {
    let full = LABEL_PREFIX.spec_bytes().len() + label.spec_bytes().len();
    let needed = 4 + full + context;
    if label@.len() == 0 {
        Some(LabelError::EmptyLabel)
    } else if !label.is_ascii() {
        Some(LabelError::NonAsciiLabel)
    } else if full > usize::MAX {
        Some(LabelError::LengthOverflow)
    } else if full > u8::MAX {
        Some(LabelError::LabelTooLong)
    } else if context > u8::MAX {
        Some(LabelError::ContextTooLong)
    } else if available < needed {
        Some(LabelError::BufferTooSmall { needed: needed as usize, available: available as usize })
    } else {
        None
    }
}

/// Encodes the `info` argument of a label expansion.
///
/// The canonical structure is:
///
/// ```text
/// Output Length u16 | Label Length u8 | "ogtp1 " || Label
///                   | Context Length u8 | Context
/// ```
///
/// # Errors
///
/// Returns an error for an empty/non-ASCII/oversized label, an oversized context, arithmetic
/// overflow, or an undersized output buffer.
pub fn encode_expand_label(
    output_length: u16,
    label: &str,
    context: &[u8],
    output: &mut [u8],
) -> (written: Result<usize, LabelError>)
    ensures
        match label_failure(label, context@.len(), old(output)@.len()) {
            Some(error) => {
                &&& written == Err::<usize, LabelError>(error)
                &&& final(output)@ == old(output)@
            },
            None => {
                let info = expand_label_info(output_length, label, context@);
                &&& written == Ok::<usize, LabelError>(info.len() as usize)
                &&& info.len() <= old(output)@.len()
                &&& final(output)@ == overwrite_prefix(old(output)@, info)
            },
        },
{
    broadcast use group_buffer_writes;

    if label.is_empty() {
        return Err(LabelError::EmptyLabel);
    }
    if !label.is_ascii() {
        return Err(LabelError::NonAsciiLabel);
    }
    let prefix: &[u8] = LABEL_PREFIX.as_bytes();
    let name: &[u8] = label.as_bytes();
    let full: usize = match prefix.len().checked_add(name.len()) {
        Some(full) => full,
        None => {
            return Err(LabelError::LengthOverflow);
        },
    };
    if full > u8::MAX as usize {
        return Err(LabelError::LabelTooLong);
    }
    if context.len() > u8::MAX as usize {
        return Err(LabelError::ContextTooLong);
    }
    let needed: usize = 4 + full + context.len();
    if output.len() < needed {
        return Err(LabelError::BufferTooSmall { needed, available: output.len() });
    }
    let mut at: usize = put_u16(output, 0, output_length);
    at = put_u8(output, at, full as u8);
    at = put(output, at, prefix);
    at = put(output, at, name);
    at = put_u8(output, at, context.len() as u8);
    at = put(output, at, context);
    Ok(at)
}

/// A canonical `info` value determines its output length, its label and its context.
pub proof fn lemma_expand_label_is_injective(
    left_length: u16,
    left: &str,
    left_context: Seq<u8>,
    right_length: u16,
    right: &str,
    right_context: Seq<u8>,
)
    requires
        LABEL_PREFIX.spec_bytes().len() + left.spec_bytes().len() <= u8::MAX,
        LABEL_PREFIX.spec_bytes().len() + right.spec_bytes().len() <= u8::MAX,
        expand_label_info(left_length, left, left_context) == expand_label_info(
            right_length,
            right,
            right_context,
        ),
    ensures
        left_length == right_length,
        left.spec_bytes() == right.spec_bytes(),
        left_context == right_context,
{
    let info = expand_label_info(left_length, left, left_context);
    let prefix = LABEL_PREFIX.spec_bytes().len() as int;
    let left_name = left.spec_bytes();
    let right_name = right.spec_bytes();
    crate::bytes::lemma_be16_inverse(left_length);
    crate::bytes::lemma_be16_inverse(right_length);
    assert(info.subrange(0, 2) =~= be16(left_length));
    assert(info.subrange(0, 2) =~= be16(right_length));
    assert(info[2] == (prefix + left_name.len()) as u8);
    assert(info[2] == (prefix + right_name.len()) as u8);
    assert(info.subrange(3 + prefix, 3 + prefix + left_name.len()) =~= left_name);
    assert(info.subrange(3 + prefix, 3 + prefix + right_name.len()) =~= right_name);
    assert(info.skip(4 + prefix + left_name.len()) =~= left_context);
    assert(info.skip(4 + prefix + right_name.len()) =~= right_context);
}

} // verus!
