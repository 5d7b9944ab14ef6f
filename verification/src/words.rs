//! Splitting the leading word off a string slice.

use vstd::prelude::*;
use vstd::string::StringSliceAdditionalSpecFns;
use vstd::utf8::*;

verus! {

/// The byte that separates words.
pub const SPACE: u8 = 0x20;

/// `k` is where the first word of `bytes` ends: no separator lies before `k`,
/// and `k` is either the position of a separator or the end of `bytes`.
pub open spec fn is_word_end(bytes: Seq<u8>, k: int) -> bool {
    &&& 0 <= k <= bytes.len()
    &&& forall|j: int| 0 <= j < k ==> bytes[j] != SPACE
    &&& k < bytes.len() ==> bytes[k] == SPACE
}

/// The end of the first word is unique.
pub proof fn lemma_word_end_unique(bytes: Seq<u8>, a: int, b: int)
    requires
        is_word_end(bytes, a),
        is_word_end(bytes, b),
    ensures
        a == b,
{
    if a < b {
        assert(bytes[a] != SPACE);
    } else if b < a {
        assert(bytes[b] != SPACE);
    }
}

/// `word` is the first word of `text`: the longest prefix of `text` that
/// holds no space.
pub open spec fn is_first_word(text: Seq<char>, word: Seq<char>) -> bool {
    &&& word.len() <= text.len()
    &&& text.subrange(0, word.len() as int) == word
    &&& forall|i: int| 0 <= i < word.len() ==> word[i] != ' '
    &&& word.len() < text.len() ==> text[word.len() as int] == ' '
}

/// Text whose encoding holds no separator byte holds no space.
pub proof fn lemma_no_space_byte_no_space(bytes: Seq<u8>)
    requires
        valid_utf8(bytes),
        forall|j: int| 0 <= j < bytes.len() ==> bytes[j] != SPACE,
    ensures
        forall|i: int| 0 <= i < decode_utf8(bytes).len() ==> decode_utf8(bytes)[i] != ' ',
    decreases bytes.len(),
{
    if bytes.len() > 0 {
        assert(valid_first_scalar(bytes) && valid_utf8(pop_first_scalar(bytes)));
        let rest = pop_first_scalar(bytes);
        let width = length_of_first_scalar(bytes);
        assert(1 <= width <= bytes.len());
        assert forall|j: int| 0 <= j < rest.len() implies rest[j] != SPACE by {
            assert(rest[j] == bytes[j + width]);
        }
        lemma_no_space_byte_no_space(rest);
        let first = decode_first_scalar(bytes) as char;
        assert(first != ' ') by {
            decode_utf8_first_scalar(bytes);
            if first == ' ' {
                assert((0x20u32 & 0x7F) as u8 == 0x20u8) by (bit_vector);
                assert(encode_scalar(' ' as u32)[0] == 0x20u8);
                assert(take_first_scalar(bytes)[0] == bytes[0]);
            }
        }
        let chars = decode_utf8(bytes);
        let tail = decode_utf8(rest);
        assert(chars == seq![first] + tail);
        assert forall|i: int| 0 <= i < chars.len() implies chars[i] != ' ' by {
            if i == 0 {
                assert(chars[0] == first);
            } else {
                assert(chars[i] == tail[i - 1]);
            }
        }
    }
}

/// Text whose encoding starts with the separator byte starts with a space.
pub proof fn lemma_space_byte_is_space(bytes: Seq<u8>)
    requires
        valid_utf8(bytes),
        bytes.len() > 0,
        bytes[0] == SPACE,
    ensures
        decode_utf8(bytes).len() > 0,
        decode_utf8(bytes)[0] == ' ',
{
    assert((0x20u8 & 0x7f) as u32 == 0x20u32) by (bit_vector);
    let first = decode_first_scalar(bytes);
    assert(first == 0x20);
    assert(decode_utf8(bytes) == seq![first as char] + decode_utf8(pop_first_scalar(bytes)));
}

/// What holds of the bytes of the first word holds of its characters: a
/// prefix of the encoding of `text` that ends where the first word ends
/// encodes the first word of `text`.
pub proof fn lemma_first_word_of_text(text: Seq<char>, word: Seq<char>)
    requires
        is_word_end(encode_utf8(text), encode_utf8(word).len() as int),
        encode_utf8(word) == encode_utf8(text).subrange(0, encode_utf8(word).len() as int),
    ensures
        is_first_word(text, word),
{
    let bytes = encode_utf8(text);
    let head = encode_utf8(word);
    let end = head.len() as int;
    let tail = bytes.subrange(end, bytes.len() as int);
    encode_utf8_valid_utf8(text);
    encode_utf8_decode_utf8(text);
    encode_utf8_decode_utf8(word);
    if end < bytes.len() {
        is_char_boundary_iff_not_is_continuation_byte(bytes, end);
    } else {
        is_char_boundary_start_end_of_seq(bytes);
    }
    valid_utf8_split(bytes, end);
    decode_utf8_split(bytes, end);
    assert(text =~= word + decode_utf8(tail));
    lemma_no_space_byte_no_space(head);
    if end < bytes.len() {
        assert(tail[0] == bytes[end]);
        lemma_space_byte_is_space(tail);
        assert(text[word.len() as int] == decode_utf8(tail)[0]);
    } else {
        assert(tail.len() == 0);
        assert(decode_utf8(tail).len() == 0);
    }
    assert(text.subrange(0, word.len() as int) =~= word);
}

/// Returns the part of `s` that precedes its first space, or all of `s` when
/// it holds no space.
pub fn first_word(s: &str) -> (word: &str)
    ensures
        is_first_word(s@, word@),
        is_word_end(s.spec_bytes(), word.spec_bytes().len() as int),
        word.spec_bytes() == s.spec_bytes().subrange(0, word.spec_bytes().len() as int),
{
    let bytes = s.as_bytes();
    let mut i: usize = 0;
    while i < bytes.len()
        invariant
            bytes@ == s.spec_bytes(),
            i <= bytes.len(),
            forall|j: int| 0 <= j < i ==> bytes@[j] != SPACE,
        decreases bytes.len() - i,
    {
        if bytes[i] == SPACE {
            proof {
                encode_utf8_valid_utf8(s@);
                is_char_boundary_iff_not_is_continuation_byte(bytes@, i as int);
            }
            let (head, _) = s.split_at(i);
            proof {
                lemma_first_word_of_text(s@, head@);
            }
            return head;
        }
        i += 1;
    }
    proof {
        assert(s.spec_bytes().subrange(0, s.spec_bytes().len() as int) =~= s.spec_bytes());
        lemma_first_word_of_text(s@, s@);
    }
    s
}

} // verus!
