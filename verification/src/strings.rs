//! String kernels: character-order reversal and whitespace-delimited word
//! counting, both operating on Unicode scalar values.

use vstd::prelude::*;

verus! {

/// `c` has the Unicode `White_Space` property, the delimiter set used when
/// splitting text into words.
pub open spec fn is_space(c: char) -> bool {
    let u = c as u32;
    u == 0x09 || u == 0x0A || u == 0x0B || u == 0x0C || u == 0x0D || u == 0x20 || u == 0x85 || u
        == 0xA0 || u == 0x1680 || (0x2000 <= u && u <= 0x200A) || u == 0x2028 || u == 0x2029 || u
        == 0x202F || u == 0x205F || u == 0x3000
}

/// A maximal non-whitespace run begins at position `i`.
pub open spec fn word_start_at(s: Seq<char>, i: int) -> bool {
    0 <= i < s.len() && !is_space(s[i]) && (i == 0 || is_space(s[i - 1]))
}

/// Number of words that begin strictly before position `n`.
pub open spec fn words_upto(s: Seq<char>, n: int) -> int
    decreases n,
{
    if n <= 0 {
        0
    } else {
        words_upto(s, n - 1) + if word_start_at(s, n - 1) {
            1int
        } else {
            0int
        }
    }
}

/// Count of whitespace-delimited maximal non-whitespace runs.
pub open spec fn word_count_spec(s: Seq<char>) -> int {
    words_upto(s, s.len() as int)
}

/// Relies on `String::push`: appends the given character to the end of the
/// string.
#[verifier::external_body]
fn push_char(s: &mut String, c: char)
    ensures
        final(s)@ == old(s)@.push(c),
{
    s.push(c);
}

/// Whether `c` counts as whitespace, per the Unicode `White_Space` property.
fn is_space_char(c: char) -> (r: bool)
    ensures
        r == is_space(c),
{
    let u = c as u32;
    u == 0x09 || u == 0x0A || u == 0x0B || u == 0x0C || u == 0x0D || u == 0x20 || u == 0x85 || u
        == 0xA0 || u == 0x1680 || (0x2000 <= u && u <= 0x200A) || u == 0x2028 || u == 0x2029 || u
        == 0x202F || u == 0x205F || u == 0x3000
}

/// Returns a new string with the characters in reverse order; multi-byte
/// characters are kept intact.
pub fn reverse_string(s: &str) -> (r: String)
    ensures
        r@ == s@.reverse(),
{
    let n = s.unicode_len();
    let mut out = String::new();
    let mut i: usize = 0;
    while i < n
        invariant
            n == s@.len(),
            0 <= i <= n,
            out@.len() == i,
            forall|k: int| 0 <= k < i ==> out@[k] == s@[n - 1 - k],
        decreases n - i,
    {
        let c = s.get_char(n - 1 - i);
        push_char(&mut out, c);
        i += 1;
    }
    proof {
        assert(out@ =~= s@.reverse());
    }
    out
}

/// Reversal is an involution: reversing twice restores the original order.
pub proof fn lemma_reverse_involution(s: Seq<char>)
    ensures
        s.reverse().reverse() == s,
{
    assert(s.reverse().reverse() =~= s);
}

/// Counts whitespace-delimited words. A count too large for 32 bits (which
/// would need a string of billions of characters) wraps modulo 2^32.
pub fn word_count(s: &str) -> (r: u32)
    ensures
        r == word_count_spec(s@) % 0x1_0000_0000,
        word_count_spec(s@) <= u32::MAX ==> r == word_count_spec(s@),
{
    let n = s.unicode_len();
    let mut count: u64 = 0;
    let mut prev_space = true;
    let mut i: usize = 0;
    while i < n
        invariant
            n == s@.len(),
            0 <= i <= n,
            prev_space <==> (i == 0 || is_space(s@[i as int - 1])),
            count == words_upto(s@, i as int),
            count <= i,
        decreases n - i,
    {
        let c = s.get_char(i);
        let sp = is_space_char(c);
        if !sp && prev_space {
            count += 1;
        }
        prev_space = sp;
        i += 1;
    }
    proof {
        assert(count as u32 == count % 0x1_0000_0000u64) by (bit_vector);
    }
    #[verifier::truncate]
    (count as u32)
}

} // verus!
