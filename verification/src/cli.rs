//! Helpers of the command-line front end.
use vstd::prelude::*;
use vstd::string::StringSliceAdditionalSpecFns;
use vstd::utf8::{decode_utf8, encode_utf8, encode_utf8_decode_utf8, encode_utf8_valid_utf8, is_char_boundary};

verus! {

/// A text's UTF-8 encoding has at least one byte per character.
pub proof fn lemma_encoding_not_shorter(chars: Seq<char>)
    ensures
        encode_utf8(chars).len() >= chars.len(),
    decreases chars.len(),
{
    if chars.len() > 0 {
        lemma_encoding_not_shorter(chars.drop_first());
    }
}

/// `s` when it has at most `max` characters; otherwise its first `max - 1`
/// bytes, which must end on a character boundary, followed by `…`.
pub fn truncate(s: &str, max: usize) -> (r: String)
    requires
        s@.len() > max ==> max >= 1 && is_char_boundary(s.spec_bytes(), max - 1),
    ensures
        s@.len() <= max ==> r@ == s@,
        s@.len() > max ==> r@ == decode_utf8(s.spec_bytes().subrange(0, max - 1)) + "…"@,
        r@.len() <= if s@.len() <= max { s@.len() as int } else { max as int },
{
    if s.unicode_len() <= max {
        s.to_owned()
    } else {
        let (head, _) = s.split_at(max - 1);
        proof {
            encode_utf8_valid_utf8(s@);
            assert(max - 1 <= s.spec_bytes().len());
            encode_utf8_decode_utf8(head@);
            assert(head.spec_bytes() == encode_utf8(head@));
            lemma_encoding_not_shorter(head@);
            reveal_strlit("…");
        }
        let mut out = head.to_owned();
        out.append("…");
        out
    }
}

} // verus!
