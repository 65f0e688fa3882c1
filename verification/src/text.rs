//! Verified text helpers: string equality and byte-wise lexicographic order,
//! plus the case-folding call used to normalize category names.

use vstd::prelude::*;

verus! {

use vstd::string::StringSliceAdditionalSpecFns;
use vstd::utf8::encode_utf8;
use vstd::utf8::encode_utf8_decode_utf8;
use vstd::utf8::decode_utf8;

/// Lexicographic "at or before" order on byte sequences: a proper prefix
/// comes first, and otherwise the first differing byte decides.
pub open spec fn spec_lex_le(a: Seq<u8>, b: Seq<u8>) -> bool
    decreases a.len(),
{
    if a.len() == 0 {
        true
    } else if b.len() == 0 {
        false
    } else if a[0] < b[0] {
        true
    } else if a[0] > b[0] {
        false
    } else {
        spec_lex_le(a.drop_first(), b.drop_first())
    }
}

/// The lexicographic order is total: of two byte sequences, one is at or
/// before the other.
pub proof fn lemma_lex_le_total(a: Seq<u8>, b: Seq<u8>)
    ensures
        spec_lex_le(a, b) || spec_lex_le(b, a),
    decreases a.len(),
{
    if a.len() != 0 && b.len() != 0 && a[0] == b[0] {
        lemma_lex_le_total(a.drop_first(), b.drop_first());
    }
}

/// The lexicographic order is transitive.
pub proof fn lemma_lex_le_trans(a: Seq<u8>, b: Seq<u8>, c: Seq<u8>)
    requires
        spec_lex_le(a, b),
        spec_lex_le(b, c),
    ensures
        spec_lex_le(a, c),
    decreases a.len(),
{
    if a.len() != 0 && b.len() != 0 && c.len() != 0 && a[0] == b[0] && b[0] == c[0] {
        lemma_lex_le_trans(a.drop_first(), b.drop_first(), c.drop_first());
    }
}

/// Whether one string sorts at or before another, comparing their UTF-8
/// bytes lexicographically.
pub fn str_le(a: &str, b: &str) -> (r: bool)
    ensures
        r == spec_lex_le(a.spec_bytes(), b.spec_bytes()),
{
    let ab = a.as_bytes();
    let bb = b.as_bytes();
    let a_len = ab.len();
    let b_len = bb.len();
    let mut i: usize = 0;
    proof {
        assert(ab@.skip(0) =~= ab@);
        assert(bb@.skip(0) =~= bb@);
    }
    loop
        invariant
            i <= a_len,
            i <= b_len,
            a_len == ab@.len(),
            b_len == bb@.len(),
            ab@ == a.spec_bytes(),
            bb@ == b.spec_bytes(),
            spec_lex_le(ab@, bb@) == spec_lex_le(ab@.skip(i as int), bb@.skip(i as int)),
        ensures
            (i == a_len || i == b_len || ab@[i as int] != bb@[i as int]),
            i <= a_len,
            i <= b_len,
            spec_lex_le(ab@, bb@) == spec_lex_le(ab@.skip(i as int), bb@.skip(i as int)),
        decreases a_len - i,
    {
        if i == a_len || i == b_len {
            break;
        }
        if ab[i] != bb[i] {
            break;
        }
        proof {
            assert(ab@.skip(i as int).drop_first() =~= ab@.skip(i + 1));
            assert(bb@.skip(i as int).drop_first() =~= bb@.skip(i + 1));
        }
        i = i + 1;
    }
    if i == a_len {
        proof {
            assert(ab@.skip(i as int).len() == 0);
        }
        true
    } else if i == b_len {
        proof {
            assert(bb@.skip(i as int).len() == 0);
            assert(ab@.skip(i as int).len() > 0);
        }
        false
    } else {
        proof {
            assert(ab@.skip(i as int)[0] == ab@[i as int]);
            assert(bb@.skip(i as int)[0] == bb@[i as int]);
        }
        ab[i] < bb[i]
    }
}

/// Whether two strings hold the same characters.
pub fn str_eq(a: &str, b: &str) -> (r: bool)
    ensures
        r == (a@ == b@),
{
    proof {
        broadcast use encode_utf8_decode_utf8;
    }
    let ab = a.as_bytes();
    let bb = b.as_bytes();
    let a_len = ab.len();
    if a_len != bb.len() {
        proof {
            if a@ == b@ {
                assert(a.spec_bytes() == b.spec_bytes());
            }
        }
        return false;
    }
    let mut i: usize = 0;
    while i < a_len
        invariant
            i <= a_len,
            a_len == ab@.len() == bb@.len(),
            ab@ == a.spec_bytes(),
            bb@ == b.spec_bytes(),
            forall|j: int| 0 <= j < i ==> ab@[j] == bb@[j],
        decreases a_len - i,
    {
        if ab[i] != bb[i] {
            proof {
                if a@ == b@ {
                    assert(a.spec_bytes() == b.spec_bytes());
                }
            }
            return false;
        }
        i = i + 1;
    }
    proof {
        assert(ab@ =~= bb@);
        assert(decode_utf8(encode_utf8(a@)) == decode_utf8(encode_utf8(b@)));
    }
    true
}

/// Text made only of the lowercase ASCII letters.
pub open spec fn ascii_lowercase(s: Seq<char>) -> bool {
    forall|i: int| 0 <= i < s.len() ==> 'a' <= #[trigger] s[i] <= 'z'
}

/// The case-folded form of a piece of text; it depends on the characters
/// alone.
pub uninterp spec fn spec_lowercase(s: Seq<char>) -> Seq<char>;

/// Relies on str::to_lowercase: the returned string is the case-folded form
/// of the input, a function of the input characters alone. A character
/// without an uppercase-to-lowercase mapping is yielded unchanged, so text
/// that is already lowercase ASCII comes back as it went in.
#[verifier::external_body]
pub(crate) fn lowercase(s: &str) -> (r: String)
    ensures
        r@ == spec_lowercase(s@),
        ascii_lowercase(s@) ==> r@ == s@,
{
    s.to_lowercase()
}

} // verus!
