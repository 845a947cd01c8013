//! Which message variant a JSON object stands for, decided from the keys it
//! holds, and which text frames carry no message at all.
use vstd::prelude::*;
use vstd::string::StringSliceAdditionalSpecFns;

verus! {

/// The variants of an inbound message.
#[derive(Clone, Copy, Debug, PartialEq, Eq, Structural)]
pub enum InboundKind {
    Encrypted,
    Meta,
    Plaintext,
    PublicKey,
}

/// Why a non-blank frame does not hold a message.
#[derive(Clone, Copy, Debug, PartialEq, Eq, Structural)]
pub enum MessageError {
    /// The text is not a JSON object, or a field of the chosen variant does
    /// not have the expected shape.
    Malformed,
    /// The keys fit no variant.
    Unrecognised,
    /// The keys fit more than one variant.
    Ambiguous,
}

/// Whether `name` is among `keys`.
pub open spec fn has_key(keys: Seq<String>, name: Seq<char>) -> bool {
    exists|i: int| 0 <= i < keys.len() && (#[trigger] keys[i])@ == name
}

/// Whether an object with these keys holds every field of variant `k`.
pub open spec fn fits(keys: Seq<String>, k: InboundKind) -> bool {
    match k {
        InboundKind::Encrypted => has_key(keys, "cipher"@) && has_key(keys, "initialization_vector"@)
            && has_key(keys, "recv_addr"@),
        InboundKind::Meta => has_key(keys, "meta"@),
        InboundKind::Plaintext => has_key(keys, "plaintext"@),
        InboundKind::PublicKey => has_key(keys, "public_key"@),
    }
}

/// How many variants an object with these keys fits.
pub open spec fn fit_count(keys: Seq<String>) -> int {
    (if fits(keys, InboundKind::Encrypted) { 1int } else { 0 }) + (if fits(
        keys,
        InboundKind::Meta,
    ) {
        1int
    } else {
        0
    }) + (if fits(keys, InboundKind::Plaintext) { 1int } else { 0 }) + (if fits(
        keys,
        InboundKind::PublicKey,
    ) {
        1int
    } else {
        0
    })
}

/// The variant that an object with these keys stands for: the one variant
/// whose fields are all present. Keys that belong to no variant are ignored.
pub open spec fn kind_of(keys: Seq<String>) -> Result<InboundKind, MessageError> {
    if fit_count(keys) == 0 {
        Err(MessageError::Unrecognised)
    } else if fit_count(keys) > 1 {
        Err(MessageError::Ambiguous)
    } else if fits(keys, InboundKind::Encrypted) {
        Ok(InboundKind::Encrypted)
    } else if fits(keys, InboundKind::Meta) {
        Ok(InboundKind::Meta)
    } else if fits(keys, InboundKind::Plaintext) {
        Ok(InboundKind::Plaintext)
    } else {
        Ok(InboundKind::PublicKey)
    }
}

fn holds_key(keys: &Vec<String>, name: &str) -> (r: bool)
    ensures
        r == has_key(keys@, name@),
{
    let wanted = String::from_str(name);
    let mut i: usize = 0;
    while i < keys.len()
        invariant
            i <= keys@.len(),
            wanted@ == name@,
            forall|j: int| 0 <= j < i ==> (#[trigger] keys@[j])@ != name@,
        decreases keys@.len() - i,
    {
        if keys[i] == wanted {
            return true;
        }
        i = i + 1;
    }
    false
}

/// Chooses the variant of an inbound object from its top-level keys.
///
/// An object fits a variant when it holds all of that variant's fields. One
/// that fits none is `Unrecognised`; one that fits several (say, both
/// `plaintext` and `public_key`) is `Ambiguous` and is refused rather than
/// resolved by a guess.
pub fn select_kind(keys: &Vec<String>) -> (r: Result<InboundKind, MessageError>)
    ensures
        r == kind_of(keys@),
        r matches Ok(k) ==> fits(keys@, k) && fit_count(keys@) == 1,
{
    let encrypted = holds_key(keys, "cipher") && holds_key(keys, "initialization_vector")
        && holds_key(keys, "recv_addr");
    let meta = holds_key(keys, "meta");
    let plaintext = holds_key(keys, "plaintext");
    let public_key = holds_key(keys, "public_key");
    let count: u8 = (if encrypted { 1u8 } else { 0 }) + (if meta { 1u8 } else { 0 }) + (if plaintext {
        1u8
    } else {
        0
    }) + (if public_key { 1u8 } else { 0 });
    if count == 0 {
        Err(MessageError::Unrecognised)
    } else if count > 1 {
        Err(MessageError::Ambiguous)
    } else if encrypted {
        Ok(InboundKind::Encrypted)
    } else if meta {
        Ok(InboundKind::Meta)
    } else if plaintext {
        Ok(InboundKind::Plaintext)
    } else {
        Ok(InboundKind::PublicKey)
    }
}

/// Whether a byte is JSON whitespace: space, tab, line feed or carriage return.
pub open spec fn is_json_space(b: u8) -> bool {
    b == 0x20 || b == 0x09 || b == 0x0a || b == 0x0d
}

/// Whether every byte of a frame's text is JSON whitespace (an empty frame
/// included).
pub open spec fn blank_text(bytes: Seq<u8>) -> bool {
    forall|i: int| 0 <= i < bytes.len() ==> is_json_space(#[trigger] bytes[i])
}

/// Whether a text frame carries no message: it is empty or holds only
/// whitespace. Such a frame is skipped, not treated as an error.
pub fn is_blank(text: &str) -> (r: bool)
    ensures
        r == blank_text(text.spec_bytes()),
{
    let bytes = text.as_bytes();
    let mut i: usize = 0;
    while i < bytes.len()
        invariant
            i <= bytes@.len(),
            bytes@ == text.spec_bytes(),
            forall|j: int| 0 <= j < i ==> is_json_space(#[trigger] bytes@[j]),
        decreases bytes@.len() - i,
    {
        let b = bytes[i];
        if !(b == 0x20 || b == 0x09 || b == 0x0a || b == 0x0d) {
            return false;
        }
        i = i + 1;
    }
    true
}

} // verus!
