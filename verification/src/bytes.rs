//! The bytes that text is stored in: how many there are up to a character,
//! and which text they hold.

use vstd::prelude::*;
use vstd::utf8::{encode_scalar, encode_utf8};

verus! {

/// The number of bytes that `text` takes in UTF-8.
pub open spec fn byte_len(text: Seq<char>) -> nat {
    encode_utf8(text).len()
}

/// Texts behind one another are stored behind one another.
pub proof fn lemma_encode_concat(a: Seq<char>, b: Seq<char>)
    ensures
        encode_utf8(a + b) == encode_utf8(a) + encode_utf8(b),
    decreases a.len(),
{
    if a.len() == 0 {
        assert(a + b =~= b);
        assert(encode_utf8(a + b) =~= encode_utf8(a) + encode_utf8(b));
    } else {
        lemma_encode_concat(a.drop_first(), b);
        assert((a + b).drop_first() =~= a.drop_first() + b);
        assert(encode_utf8(a + b) =~= encode_utf8(a) + encode_utf8(b));
    }
}

pub proof fn lemma_byte_len_grows(text: Seq<char>, i: int, j: int)
    requires
        0 <= i <= j <= text.len(),
    ensures
        byte_len(text.take(i)) + byte_len(text.subrange(i, j)) == byte_len(text.take(j)),
        byte_len(text.take(j)) <= byte_len(text),
{
    assert(text.take(j) =~= text.take(i) + text.subrange(i, j));
    lemma_encode_concat(text.take(i), text.subrange(i, j));
    assert(text =~= text.take(j) + text.skip(j));
    lemma_encode_concat(text.take(j), text.skip(j));
}

pub proof fn lemma_byte_len_of_one(text: Seq<char>, i: int)
    requires
        0 <= i < text.len(),
    ensures
        byte_len(text.take(i + 1)) == byte_len(text.take(i)) + encode_scalar(
            text[i] as u32,
        ).len(),
        byte_len(text.take(i + 1)) <= byte_len(text),
{
    lemma_byte_len_grows(text, i, i + 1);
    let one = text.subrange(i, i + 1);
    assert(one.drop_first() =~= Seq::empty());
    assert(one[0] == text[i]);
    reveal_with_fuel(encode_utf8, 2);
    assert(encode_utf8(one) =~= encode_scalar(text[i] as u32));
}

/// The number of bytes that a character takes in UTF-8.
pub fn char_len(c: char) -> (n: usize)
    ensures
        n == encode_scalar(c as u32).len(),
        1 <= n <= 4,
{
    let v: u32 = c as u32;
    if v <= 0x7f {
        1
    } else if v <= 0x7ff {
        2
    } else if v <= 0xffff {
        3
    } else {
        4
    }
}

/// The number of bytes that the part `i..j` of a text takes.
pub fn byte_count(text: &[char], i: usize, j: usize) -> (n: usize)
    requires
        i <= j <= text@.len(),
        byte_len(text@) <= usize::MAX,
    ensures
        n == byte_len(text@.subrange(i as int, j as int)),
        byte_len(text@.take(i as int)) + n == byte_len(text@.take(j as int)),
{
    let mut n: usize = 0;
    let mut k: usize = i;
    proof {
        assert(text@.subrange(i as int, i as int) =~= Seq::empty());
    }
    while k < j
        invariant
            i <= k <= j <= text@.len(),
            byte_len(text@) <= usize::MAX,
            n == byte_len(text@.subrange(i as int, k as int)),
        decreases j - k,
    {
        proof {
            lemma_byte_len_grows(text@, i as int, k as int);
            lemma_byte_len_grows(text@, i as int, k + 1);
            lemma_byte_len_of_one(text@, k as int);
        }
        n += char_len(text[k]);
        k += 1;
    }
    proof {
        lemma_byte_len_grows(text@, i as int, j as int);
    }
    n
}

} // verus!
