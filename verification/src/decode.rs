//! Decoding of the bytes of a file whose character encoding is not known.

use vstd::prelude::*;
use crate::search::{first_where, lemma_first_where_found, lemma_first_where_none};

verus! {

/// What the `encoding_rs` crate decodes from `bytes` with the encoding that
/// `label` names: the text, and whether a malformed sequence was replaced;
/// `None` where the label names no encoding. A byte order mark at the start
/// of the bytes decides the encoding in place of the label, and is not part
/// of the text.
pub uninterp spec fn decoded(bytes: Seq<u8>, label: Seq<char>) -> Option<(Seq<char>, bool)>;

/// `encoding_rs::Encoding::for_label` and `encoding_rs::Encoding::decode`:
/// decodes the whole of `bytes` with the encoding of that label. The result
/// is what `decoded` names: it depends on the bytes and the label alone.
/// The length is bounded because `decode` computes the size of its buffer, a
/// small multiple of the length, without wrapping.
#[verifier::external_body]
fn decode_labeled(bytes: &Vec<u8>, label: &str) -> (r: Option<(String, bool)>)
    requires
        bytes@.len() <= usize::MAX / 4,
    ensures
        match r {
            Some((text, malformed)) => decoded(bytes@, label@) == Some((text@, malformed)),
            None => decoded(bytes@, label@) is None,
        },
{
    let encoding = encoding_rs::Encoding::for_label(label.as_bytes())?;
    let (text, _, malformed) = encoding.decode(bytes);
    Some((text.into_owned(), malformed))
}

/// Whether the bytes start with a byte order mark of UTF-8 or UTF-16.
pub open spec fn has_bom(bytes: Seq<u8>) -> bool {
    ||| bytes.len() >= 3 && bytes[0] == 0xEF && bytes[1] == 0xBB && bytes[2] == 0xBF
    ||| bytes.len() >= 2 && bytes[0] == 0xFF && bytes[1] == 0xFE
    ||| bytes.len() >= 2 && bytes[0] == 0xFE && bytes[1] == 0xFF
}

/// The encodings that are tried on bytes without a byte order mark, in the
/// order in which they are tried.
pub open spec fn labels() -> Seq<Seq<char>> {
    seq![
        "UTF-8"@,
        "windows-1250"@,
        "windows-1251"@,
        "windows-1252"@,
        "windows-1253"@,
        "windows-1254"@,
        "windows-1255"@,
        "windows-1256"@,
        "windows-1257"@,
        "windows-1258"@,
        "windows-874"@,
    ]
}

/// Whether the encoding at `i` decodes the bytes without a malformed
/// sequence.
pub open spec fn clean(bytes: Seq<u8>, i: int) -> bool {
    decoded(bytes, labels()[i]) matches Some((_, malformed)) && !malformed
}

/// The text of the bytes of a file. With a byte order mark the bytes are
/// decoded as the mark says, malformed or not. Without one the text is that
/// of the first encoding that decodes the bytes without a malformed
/// sequence.
pub open spec fn text_of(bytes: Seq<u8>) -> Option<Seq<char>> {
    if bytes.len() > usize::MAX / 4 {
        None
    } else if has_bom(bytes) {
        match decoded(bytes, labels()[0]) {
            Some((text, _)) => Some(text),
            None => None,
        }
    } else {
        match first_where(labels().len() as int, |i: int| clean(bytes, i)) {
            Some(i) => Some(decoded(bytes, labels()[i])->Some_0.0),
            None => None,
        }
    }
}

/// The label of the encoding at `i`.
fn label(i: usize) -> (r: &'static str)
    requires
        i < 11,
    ensures
        r@ == labels()[i as int],
{
    if i == 0 {
        "UTF-8"
    } else if i == 1 {
        "windows-1250"
    } else if i == 2 {
        "windows-1251"
    } else if i == 3 {
        "windows-1252"
    } else if i == 4 {
        "windows-1253"
    } else if i == 5 {
        "windows-1254"
    } else if i == 6 {
        "windows-1255"
    } else if i == 7 {
        "windows-1256"
    } else if i == 8 {
        "windows-1257"
    } else if i == 9 {
        "windows-1258"
    } else {
        "windows-874"
    }
}

/// Tells whether the bytes start with a byte order mark.
pub fn starts_with_bom(bytes: &Vec<u8>) -> (r: bool)
    ensures
        r == has_bom(bytes@),
{
    let n = bytes.len();
    (n >= 3 && bytes[0] == 0xEF && bytes[1] == 0xBB && bytes[2] == 0xBF) || (n >= 2 && bytes[0]
        == 0xFF && bytes[1] == 0xFE) || (n >= 2 && bytes[0] == 0xFE && bytes[1] == 0xFF)
}

/// Decodes the bytes of a file: by its byte order mark if it has one, else
/// with the first of the known encodings that fits. `None` if none fits, or
/// if the bytes are too many to decode.
#[verifier::loop_isolation(false)]
pub fn decode_universal(bytes: &Vec<u8>) -> (r: Option<String>)
    ensures
        match r {
            Some(text) => text_of(bytes@) == Some(text@),
            None => text_of(bytes@) is None,
        },
{
    if bytes.len() > usize::MAX / 4 {
        return None;
    }
    if starts_with_bom(bytes) {
        return match decode_labeled(bytes, label(0)) {
            Some((text, _)) => Some(text),
            None => None,
        };
    }
    let ghost fits = |i: int| clean(bytes@, i);
    assert(labels().len() == 11);
    let mut i: usize = 0;
    while i < 11
        invariant
            i <= 11,
            bytes@.len() <= usize::MAX / 4,
            fits == |i: int| clean(bytes@, i),
            forall|j: int| 0 <= j < i ==> !#[trigger] fits(j),
        decreases 11 - i,
    {
        match decode_labeled(bytes, label(i)) {
            Some((text, malformed)) => {
                if !malformed {
                    proof {
                        lemma_first_where_found(11, fits, i as int);
                    }
                    return Some(text);
                }
            },
            None => {},
        }
        i += 1;
    }
    proof {
        lemma_first_where_none(11, fits);
    }
    None
}

} // verus!
