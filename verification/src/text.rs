//! Small text-building blocks: repeated characters and strings, and decimal
//! renderings of integers, each pinned to a spec-level sequence of characters.

use vstd::prelude::*;

verus! {

/// The sequence of characters of the decimal digit `d`.
pub open spec fn digit_seq(d: nat) -> Seq<char> {
    if d == 0 {
        "0"@
    } else if d == 1 {
        "1"@
    } else if d == 2 {
        "2"@
    } else if d == 3 {
        "3"@
    } else if d == 4 {
        "4"@
    } else if d == 5 {
        "5"@
    } else if d == 6 {
        "6"@
    } else if d == 7 {
        "7"@
    } else if d == 8 {
        "8"@
    } else {
        "9"@
    }
}

/// The usual decimal rendering of `n`, most significant digit first,
/// without leading zeros (except for `n == 0` itself).
pub open spec fn dec_of(n: nat) -> Seq<char>
    decreases n,
{
    if n < 10 {
        digit_seq(n)
    } else {
        dec_of(n / 10) + digit_seq(n % 10)
    }
}

/// How many digits the decimal rendering of `n` has.
pub open spec fn dec_len(n: nat) -> nat
    decreases n,
{
    if n < 10 {
        1
    } else {
        1 + dec_len(n / 10)
    }
}

/// Each digit renders as a single character.
pub proof fn lemma_digit_seq_len(d: nat)
    ensures
        digit_seq(d).len() == 1,
{
    reveal_strlit("0");
    reveal_strlit("1");
    reveal_strlit("2");
    reveal_strlit("3");
    reveal_strlit("4");
    reveal_strlit("5");
    reveal_strlit("6");
    reveal_strlit("7");
    reveal_strlit("8");
    reveal_strlit("9");
}

/// The decimal rendering of `n` is `dec_len(n)` characters long.
pub proof fn lemma_dec_of_len(n: nat)
    ensures
        dec_of(n).len() == dec_len(n),
    decreases n,
{
    if n < 10 {
        lemma_digit_seq_len(n);
    } else {
        lemma_dec_of_len(n / 10);
        lemma_digit_seq_len(n % 10);
    }
}

fn digit_str(d: u64) -> (r: &'static str)
    requires
        d < 10,
    ensures
        r@ == digit_seq(d as nat),
{
    if d == 0 {
        "0"
    } else if d == 1 {
        "1"
    } else if d == 2 {
        "2"
    } else if d == 3 {
        "3"
    } else if d == 4 {
        "4"
    } else if d == 5 {
        "5"
    } else if d == 6 {
        "6"
    } else if d == 7 {
        "7"
    } else if d == 8 {
        "8"
    } else {
        "9"
    }
}

/// Renders `n` in decimal.
pub fn u64_to_string(n: u64) -> (r: String)
    ensures
        r@ == dec_of(n as nat),
    decreases n,
{
    if n < 10 {
        String::from_str(digit_str(n))
    } else {
        let mut s = u64_to_string(n / 10);
        s.append(digit_str(n % 10));
        s
    }
}

/// Powers of ten, for bounding digit counts.
pub open spec fn pow10(k: nat) -> nat
    decreases k,
{
    if k == 0 {
        1
    } else {
        10 * pow10((k - 1) as nat)
    }
}

/// A number below the k-th power of ten has at most k digits.
pub proof fn lemma_dec_len_bound(n: nat, k: nat)
    requires
        k >= 1,
        n < pow10(k),
    ensures
        dec_len(n) <= k,
    decreases k,
{
    if n < 10 {
    } else {
        assert(pow10(0) == 1);
        assert(pow10(1) == 10);
        if k == 1 {
            assert(false);
        }
        assert(pow10(k) == 10 * pow10((k - 1) as nat));
        assert(n / 10 < pow10((k - 1) as nat)) by (nonlinear_arith)
            requires
                n < 10 * pow10((k - 1) as nat),
        ;
        lemma_dec_len_bound(n / 10, (k - 1) as nat);
    }
}

/// Any value a machine word can hold has at most twenty digits.
pub proof fn lemma_dec_len_word(n: nat)
    requires
        n < 0x10000000000000000,
    ensures
        dec_len(n) <= 20,
{
    assert(pow10(0) == 1);
    assert(pow10(1) == 10);
    assert(pow10(2) == 100);
    assert(pow10(3) == 1000);
    assert(pow10(4) == 10000);
    assert(pow10(5) == 100000);
    assert(pow10(6) == 1000000);
    assert(pow10(7) == 10000000);
    assert(pow10(8) == 100000000);
    assert(pow10(9) == 1000000000);
    assert(pow10(10) == 10000000000);
    assert(pow10(11) == 100000000000);
    assert(pow10(12) == 1000000000000);
    assert(pow10(13) == 10000000000000);
    assert(pow10(14) == 100000000000000);
    assert(pow10(15) == 1000000000000000);
    assert(pow10(16) == 10000000000000000);
    assert(pow10(17) == 100000000000000000);
    assert(pow10(18) == 1000000000000000000);
    assert(pow10(19) == 10000000000000000000);
    assert(pow10(20) == 100000000000000000000);
    lemma_dec_len_bound(n, 20);
}

/// The decimal rendering of a signed score, a minus sign ahead of the
/// digits when it is negative.
pub open spec fn score_seq(score: i16) -> Seq<char> {
    if score < 0 {
        "-"@ + dec_of((-(score as int)) as nat)
    } else {
        dec_of(score as nat)
    }
}

/// How many characters `score_seq` has.
pub open spec fn score_len(score: i16) -> nat {
    if score < 0 {
        1 + dec_len((-(score as int)) as nat)
    } else {
        dec_len(score as nat)
    }
}

pub proof fn lemma_score_seq_len(score: i16)
    ensures
        score_seq(score).len() == score_len(score),
{
    if score < 0 {
        reveal_strlit("-");
        lemma_dec_of_len((-(score as int)) as nat);
    } else {
        lemma_dec_of_len(score as nat);
    }
}

/// Renders a score in decimal, with its sign.
pub fn score_string(score: i16) -> (r: String)
    ensures
        r@ == score_seq(score),
{
    if score < 0 {
        let magnitude: u64 = (-(score as i32)) as u64;
        let mut s = String::from_str("-");
        let digits = u64_to_string(magnitude);
        s.append(digits.as_str());
        s
    } else {
        u64_to_string(score as u64)
    }
}

/// `n` copies of the character `c` when `n` is positive, nothing otherwise.
pub open spec fn char_repeat(c: char, n: i8) -> Seq<char> {
    if n <= 0 {
        Seq::empty()
    } else {
        Seq::new(n as nat, |i: int| c)
    }
}

/// Builds a string of `num` copies of `c`; a non-positive count gives the
/// empty string.
pub fn repeat_char(c: char, num: i8) -> (r: String)
    ensures
        r@ == char_repeat(c, num),
{
    let mut s = String::new();
    if num <= 0 {
        assert(s@ =~= char_repeat(c, num));
        return s;
    }
    let mut i: i8 = 0;
    while i < num
        invariant
            0 <= i <= num,
            0 < num,
            s@ =~= Seq::new(i as nat, |j: int| c),
        decreases num - i,
    {
        push_char(&mut s, c);
        i = i + 1;
        assert(s@ =~= Seq::new(i as nat, |j: int| c));
    }
    assert(s@ =~= char_repeat(c, num));
    s
}

/// `n` copies of the character sequence `s`, one after the other.
pub open spec fn seq_repeat(s: Seq<char>, n: nat) -> Seq<char>
    decreases n,
{
    if n == 0 {
        Seq::empty()
    } else {
        seq_repeat(s, (n - 1) as nat) + s
    }
}

/// Appends `n` copies of `piece` to `out`.
pub fn append_repeated(out: &mut String, piece: &str, n: usize)
    ensures
        final(out)@ == old(out)@ + seq_repeat(piece@, n as nat),
{
    let mut i: usize = 0;
    assert(out@ =~= old(out)@ + seq_repeat(piece@, 0));
    while i < n
        invariant
            0 <= i <= n,
            out@ == old(out)@ + seq_repeat(piece@, i as nat),
        decreases n - i,
    {
        out.append(piece);
        i = i + 1;
        assert(out@ =~= old(out)@ + seq_repeat(piece@, i as nat));
    }
}

/// Relies on std's `String::push`: appends the given character to the end
/// of the string.
#[verifier::external_body]
fn push_char(s: &mut String, c: char)
    ensures
        final(s)@ == old(s)@.push(c),
{
    s.push(c);
}

} // verus!
