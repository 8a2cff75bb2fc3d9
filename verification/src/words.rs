//! Word boundaries within a row: the whitespace-delimited word before or
//! after the cursor, used by word-wise movement, deletion, and word wrap.

use vstd::prelude::*;

verus! {

/// The characters that separate words inside a row (a row never holds a
/// line break).
pub open spec fn is_ws(c: char) -> bool {
    c == ' ' || c == '\t'
}

/// `s` without its trailing whitespace.
pub open spec fn strip_trailing_ws(s: Seq<char>) -> Seq<char>
    decreases s.len(),
{
    if s.len() > 0 && is_ws(s.last()) {
        strip_trailing_ws(s.drop_last())
    } else {
        s
    }
}

/// Length of the maximal non-whitespace run at the end of `s`.
pub open spec fn trailing_word_len(s: Seq<char>) -> nat
    decreases s.len(),
{
    if s.len() > 0 && !is_ws(s.last()) {
        1 + trailing_word_len(s.drop_last())
    } else {
        0
    }
}

/// Length of the last whitespace-delimited word of `s`, or 0 if `s` holds
/// no word at all.
pub open spec fn last_word_len(s: Seq<char>) -> nat {
    trailing_word_len(strip_trailing_ws(s))
}

/// `s` without its leading whitespace.
pub open spec fn strip_leading_ws(s: Seq<char>) -> Seq<char>
    decreases s.len(),
{
    if s.len() > 0 && is_ws(s.first()) {
        strip_leading_ws(s.drop_first())
    } else {
        s
    }
}

/// Length of the maximal non-whitespace run at the start of `s`.
pub open spec fn leading_word_len(s: Seq<char>) -> nat
    decreases s.len(),
{
    if s.len() > 0 && !is_ws(s.first()) {
        1 + leading_word_len(s.drop_first())
    } else {
        0
    }
}

/// Length of the first whitespace-delimited word of `s`, or 0 if `s` holds
/// no word at all.
pub open spec fn first_word_len(s: Seq<char>) -> nat {
    leading_word_len(strip_leading_ws(s))
}

/// The last word never reaches past the characters it was scanned from.
pub proof fn lemma_last_word_le(s: Seq<char>)
    ensures
        last_word_len(s) <= strip_trailing_ws(s).len() <= s.len(),
    decreases s.len(),
{
    lemma_strip_trailing_le(s);
    lemma_trailing_word_le(strip_trailing_ws(s));
}

proof fn lemma_strip_trailing_le(s: Seq<char>)
    ensures
        strip_trailing_ws(s).len() <= s.len(),
    decreases s.len(),
{
    if s.len() > 0 && is_ws(s.last()) {
        lemma_strip_trailing_le(s.drop_last());
    }
}

proof fn lemma_trailing_word_le(s: Seq<char>)
    ensures
        trailing_word_len(s) <= s.len(),
    decreases s.len(),
{
    if s.len() > 0 && !is_ws(s.last()) {
        lemma_trailing_word_le(s.drop_last());
    }
}

/// Position where the trailing whitespace of `content[..upto]` begins:
/// the first `j` characters are that prefix with its trailing whitespace
/// stripped.
pub fn scan_trailing_ws(content: &Vec<char>, upto: usize) -> (j: usize)
    requires
        upto <= content@.len(),
    ensures
        j <= upto,
        content@.take(j as int) == strip_trailing_ws(content@.take(upto as int)),
{
    let ghost prefix = content@.take(upto as int);
    let mut j: usize = upto;
    while j > 0 && (content[j - 1] == ' ' || content[j - 1] == '\t')
        invariant
            j <= upto <= content@.len(),
            strip_trailing_ws(prefix) == strip_trailing_ws(content@.take(j as int)),
            prefix == content@.take(upto as int),
        decreases j,
    {
        proof {
            assert(content@.take(j as int).drop_last() =~= content@.take(j - 1));
        }
        j -= 1;
    }
    proof {
        assert(strip_trailing_ws(content@.take(j as int)) == content@.take(j as int));
    }
    j
}

/// Start of the maximal non-whitespace run ending at position `j`:
/// `j - k` is the length of that run.
pub fn scan_word_start(content: &Vec<char>, j: usize) -> (k: usize)
    requires
        j <= content@.len(),
    ensures
        k <= j,
        j - k == trailing_word_len(content@.take(j as int)),
{
    let mut k: usize = j;
    while k > 0 && !(content[k - 1] == ' ' || content[k - 1] == '\t')
        invariant
            k <= j <= content@.len(),
            trailing_word_len(content@.take(j as int)) == j - k + trailing_word_len(
                content@.take(k as int),
            ),
        decreases k,
    {
        proof {
            assert(content@.take(k as int).drop_last() =~= content@.take(k - 1));
        }
        k -= 1;
    }
    proof {
        assert(trailing_word_len(content@.take(k as int)) == 0);
    }
    k
}

/// Length of the last whitespace-delimited word among the first `upto`
/// characters of `content` (0 if that prefix holds only whitespace).
pub fn scan_last_word_len(content: &Vec<char>, upto: usize) -> (n: usize)
    requires
        upto <= content@.len(),
    ensures
        n == last_word_len(content@.take(upto as int)),
{
    let j = scan_trailing_ws(content, upto);
    let k = scan_word_start(content, j);
    j - k
}

/// Length of the first whitespace-delimited word of `content` from position
/// `from` on (0 if the rest holds only whitespace).
pub fn scan_first_word_len(content: &Vec<char>, from: usize) -> (n: usize)
    requires
        from <= content@.len(),
    ensures
        n == first_word_len(content@.skip(from as int)),
{
    let ghost rest = content@.skip(from as int);
    let len = content.len();
    let mut j: usize = from;
    while j < len && (content[j] == ' ' || content[j] == '\t')
        invariant
            from <= j <= len,
            len == content@.len(),
            strip_leading_ws(rest) == strip_leading_ws(content@.skip(j as int)),
            rest == content@.skip(from as int),
        decreases len - j,
    {
        proof {
            assert(content@.skip(j as int).drop_first() =~= content@.skip(j + 1));
        }
        j += 1;
    }
    proof {
        assert(strip_leading_ws(content@.skip(j as int)) == content@.skip(j as int));
    }
    let start = j;
    let mut k: usize = j;
    while k < len && !(content[k] == ' ' || content[k] == '\t')
        invariant
            start <= k <= len,
            len == content@.len(),
            leading_word_len(content@.skip(start as int)) == k - start + leading_word_len(
                content@.skip(k as int),
            ),
        decreases len - k,
    {
        proof {
            assert(content@.skip(k as int).drop_first() =~= content@.skip(k + 1));
        }
        k += 1;
    }
    proof {
        assert(leading_word_len(content@.skip(k as int)) == 0);
    }
    k - start
}

} // verus!
