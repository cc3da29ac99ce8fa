//! Text made from bytes.

use vstd::prelude::*;
use vstd::string::StringSliceAdditionalSpecFns;
use vstd::utf8::{decode_utf8, encode_utf8, valid_utf8};

verus! {

/// The text that `String::from_utf8_lossy` makes of a byte string: the text
/// the bytes encode where they are valid UTF-8, and otherwise that text with
/// U+FFFD in place of each invalid sequence.
pub uninterp spec fn utf8_lossy(bytes: Seq<u8>) -> Seq<char>;

/// Calls `String::from_utf8_lossy` and takes ownership of the text. The
/// standard library documents that valid UTF-8 is returned unchanged, so
/// the bytes of the text are then the given bytes; what is made of an
/// invalid sequence is left to the name `utf8_lossy`.
#[verifier::external_body]
pub(crate) fn lossy_string(bytes: &[u8]) -> (text: String)
    ensures
        text@ == utf8_lossy(bytes@),
        valid_utf8(bytes@) ==> encode_utf8(text@) == bytes@,
{
    String::from_utf8_lossy(bytes).into_owned()
}

/// The text that bytes are read as: the text that they encode where they
/// are valid UTF-8, and what `String::from_utf8_lossy` makes of them where
/// they are not.
pub open spec fn lossy_text(bytes: Seq<u8>) -> Seq<char> {
    if valid_utf8(bytes) {
        decode_utf8(bytes)
    } else {
        utf8_lossy(bytes)
    }
}

/// The bytes of a text are read as that text.
pub proof fn law_text_read_back(text: Seq<char>)
    ensures
        lossy_text(encode_utf8(text)) == text,
{
    vstd::utf8::encode_utf8_valid_utf8(text);
    vstd::utf8::encode_utf8_decode_utf8(text);
}

/// Reads bytes as text; bytes that are not UTF-8 become U+FFFD.
pub fn read_text(bytes: &[u8]) -> (text: String)
    ensures
        text@ == lossy_text(bytes@),
        valid_utf8(bytes@) ==> encode_utf8(text@) == bytes@,
{
    let text = lossy_string(bytes);
    proof {
        if valid_utf8(bytes@) {
            vstd::utf8::encode_utf8_decode_utf8(text@);
        }
    }
    text
}

/// Whether every byte is an ASCII byte (below 128).
pub open spec fn all_ascii(bytes: Seq<u8>) -> bool {
    forall|i: int| 0 <= i < bytes.len() ==> #[trigger] bytes[i] < 128
}

/// ASCII bytes are valid UTF-8.
pub proof fn lemma_ascii_is_utf8(bytes: Seq<u8>)
    requires
        all_ascii(bytes),
    ensures
        valid_utf8(bytes),
    decreases bytes.len(),
{
    if bytes.len() > 0 {
        let first: u8 = bytes[0];
        assert(first & 0x80 == 0) by (bit_vector)
            requires
                first < 128,
        ;
        let rest = vstd::utf8::pop_first_scalar(bytes);
        assert(rest =~= bytes.subrange(1, bytes.len() as int));
        assert forall|i: int| 0 <= i < rest.len() implies #[trigger] rest[i] < 128 by {
            assert(rest[i] == bytes[i + 1]);
        }
        lemma_ascii_is_utf8(rest);
    }
}

/// Two ASCII byte strings make an ASCII byte string.
pub proof fn lemma_all_ascii_concat(a: Seq<u8>, b: Seq<u8>)
    requires
        all_ascii(a),
        all_ascii(b),
    ensures
        all_ascii(a + b),
{
    assert forall|i: int| 0 <= i < (a + b).len() implies #[trigger] (a + b)[i] < 128 by {
        if i < a.len() {
            assert((a + b)[i] == a[i]);
        } else {
            assert((a + b)[i] == b[i - a.len()]);
        }
    }
}

/// The bytes of an ASCII text are its characters.
pub proof fn lemma_literal_bytes(text: &str)
    requires
        vstd::string::is_ascii(text),
    ensures
        text.spec_bytes().len() == text@.len(),
        forall|i: int| 0 <= i < text@.len() ==> #[trigger] text.spec_bytes()[i] == text@[i] as u8,
{
    vstd::string::is_ascii_spec_bytes(text);
}

/// The bytes of an ASCII text are ASCII bytes.
pub proof fn lemma_ascii_text_bytes(text: &str)
    requires
        vstd::string::is_ascii(text),
    ensures
        all_ascii(text.spec_bytes()),
{
    vstd::string::is_ascii_spec_bytes(text);
}

/// Appends the bytes of an ASCII text.
pub fn push_text(out: &mut Vec<u8>, text: &str)
    requires
        vstd::string::is_ascii(text),
    ensures
        final(out)@ == old(out)@ + text.spec_bytes(),
        all_ascii(old(out)@) ==> all_ascii(final(out)@),
{
    crate::util::append_slice(out, text.as_bytes());
    proof {
        lemma_ascii_text_bytes(text);
        if all_ascii(old(out)@) {
            lemma_all_ascii_concat(old(out)@, text.spec_bytes());
        }
    }
}

/// The text whose bytes are the given ASCII bytes.
pub fn ascii_string(bytes: &[u8]) -> (text: String)
    requires
        all_ascii(bytes@),
    ensures
        encode_utf8(text@) == bytes@,
        text@ == decode_utf8(bytes@),
{
    proof {
        lemma_ascii_is_utf8(bytes@);
    }
    read_text(bytes)
}

} // verus!
