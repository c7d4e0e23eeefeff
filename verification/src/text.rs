//! Character-level helpers on strings.

use vstd::prelude::*;
use vstd::std_specs::iter::IteratorSpec;
use vstd::utf8::{
    char_u32_cast, decode_first_scalar, encode_scalar, encode_utf8, encode_utf8_first_scalar,
    length_of_first_scalar,
};

verus! {

/// Whether `text` begins with `prefix`, compared character by character.
pub fn starts_with(text: &str, prefix: &str) -> (b: bool)
    ensures
        b == prefix@.is_prefix_of(text@),
{
    let mut want = prefix.chars();
    let mut have = text.chars();
    let ghost mut seen: int = 0;
    loop
        invariant
            0 <= seen <= prefix@.len(),
            seen <= text@.len(),
            want.remaining() == prefix@.skip(seen),
            have.remaining() == text@.skip(seen),
            prefix@.take(seen) == text@.take(seen),
        decreases prefix@.len() - seen,
    {
        match want.next() {
            None => {
                return true;
            },
            Some(p) => {
                match have.next() {
                    None => {
                        return false;
                    },
                    Some(t) => {
                        if p != t {
                            return false;
                        }
                        proof {
                            seen = seen + 1;
                        }
                    },
                }
            },
        }
    }
}

/// The bytes of a text written behind another are the bytes of the one,
/// then those of the other.
pub proof fn lemma_bytes_of_concatenation(first: Seq<char>, second: Seq<char>)
    ensures
        encode_utf8(first + second) == encode_utf8(first) + encode_utf8(second),
    decreases first.len(),
{
    if first.len() == 0 {
        assert(first + second =~= second);
        assert(encode_utf8(first) + encode_utf8(second) =~= encode_utf8(second));
    } else {
        assert((first + second).drop_first() =~= first.drop_first() + second);
        lemma_bytes_of_concatenation(first.drop_first(), second);
        assert(encode_utf8(first + second) =~= encode_utf8(first) + encode_utf8(second));
    }
}

/// Comparing a prefix character by character is comparing it byte by byte:
/// one text begins with another exactly when its UTF-8 bytes begin with the
/// other's.
pub proof fn lemma_prefix_is_bytewise(prefix: Seq<char>, text: Seq<char>)
    ensures
        prefix.is_prefix_of(text) <==> encode_utf8(prefix).is_prefix_of(encode_utf8(text)),
    decreases prefix.len(),
{
    let prefix_bytes = encode_utf8(prefix);
    let text_bytes = encode_utf8(text);
    if prefix.is_prefix_of(text) {
        let rest = text.skip(prefix.len() as int);
        assert(text =~= prefix + rest);
        lemma_bytes_of_concatenation(prefix, rest);
        assert(prefix_bytes =~= text_bytes.subrange(0, prefix_bytes.len() as int));
    }
    if prefix_bytes.is_prefix_of(text_bytes) && prefix.len() > 0 {
        let first = encode_scalar(prefix[0] as u32);
        encode_utf8_first_scalar(prefix);
        assert(prefix_bytes.len() >= first.len() >= 1);
        assert(text.len() > 0);
        encode_utf8_first_scalar(text);
        let width = length_of_first_scalar(prefix_bytes);
        assert forall|i: int| 0 <= i < width implies prefix_bytes[i] == text_bytes[i] by {
            assert(prefix_bytes[i] == text_bytes.subrange(0, prefix_bytes.len() as int)[i]);
        }
        assert(length_of_first_scalar(text_bytes) == width);
        assert(decode_first_scalar(text_bytes) == decode_first_scalar(prefix_bytes));
        char_u32_cast(prefix[0], prefix[0] as u32);
        char_u32_cast(text[0], text[0] as u32);
        assert(prefix[0] == text[0]);
        let prefix_rest = encode_utf8(prefix.drop_first());
        let text_rest = encode_utf8(text.drop_first());
        assert(prefix_rest =~= prefix_bytes.skip(width));
        assert(text_rest =~= text_bytes.skip(width));
        assert(prefix_rest =~= text_rest.subrange(0, prefix_rest.len() as int)) by {
            assert forall|i: int| 0 <= i < prefix_rest.len() implies prefix_rest[i]
                == text_rest[i] by {
                assert(prefix_bytes[i + width] == text_bytes.subrange(
                    0,
                    prefix_bytes.len() as int,
                )[i + width]);
            }
        }
        lemma_prefix_is_bytewise(prefix.drop_first(), text.drop_first());
        assert(prefix =~= text.subrange(0, prefix.len() as int)) by {
            let front = text.drop_first().subrange(0, prefix.len() - 1);
            assert forall|i: int| 0 <= i < prefix.len() implies prefix[i] == text[i] by {
                if i > 0 {
                    assert(prefix.drop_first()[i - 1] == front[i - 1]);
                }
            }
        }
    }
}

} // verus!
