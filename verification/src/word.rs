//! Machine words.

use vstd::prelude::*;

verus! {

/// The two's complement reading of a machine word.
pub open spec fn signed(n: usize) -> int {
    if n <= isize::MAX {
        n as int
    } else {
        n - usize::MAX - 1
    }
}

/// Reads a machine word as a signed one.
pub fn to_signed(n: usize) -> (r: isize)
    ensures
        r == signed(n),
        n <= isize::MAX ==> r == n,
        n > isize::MAX ==> r + usize::MAX + 1 == n,
{
    if n <= isize::MAX as usize {
        n as isize
    } else {
        -((usize::MAX - n) as isize) - 1
    }
}

/// The bytes of a machine word.
pub open spec fn word_size() -> nat {
    vstd::layout::size_of::<usize>()
}

/// The `n` lowest bytes of a number, the lowest first.
pub open spec fn le_bytes(value: int, n: nat) -> Seq<u8>
    decreases n,
{
    if n == 0 {
        Seq::empty()
    } else {
        seq![(value % 256) as u8] + le_bytes(value / 256, (n - 1) as nat)
    }
}

/// The number that bytes make, the lowest first.
pub open spec fn le_value(bytes: Seq<u8>) -> int
    decreases bytes.len(),
{
    if bytes.len() == 0 {
        0
    } else {
        bytes[0] + 256 * le_value(bytes.drop_first())
    }
}

/// A machine word as it lies in memory.
pub open spec fn word_bytes(word: usize) -> Seq<u8> {
    le_bytes(word as int, word_size())
}

/// There are as many bytes as asked for.
pub proof fn lemma_le_bytes_len(value: int, n: nat)
    ensures
        le_bytes(value, n).len() == n,
    decreases n,
{
    if n > 0 {
        lemma_le_bytes_len(value / 256, (n - 1) as nat);
    }
}

/// A number is what its bytes make, if they are enough to hold it.
pub proof fn lemma_le_bytes_value(value: int, n: nat)
    requires
        0 <= value < vstd::arithmetic::power::pow(256, n),
    ensures
        le_value(le_bytes(value, n)) == value,
    decreases n,
{
    reveal(vstd::arithmetic::power::pow);
    if n > 0 {
        let rest = le_bytes(value / 256, (n - 1) as nat);
        let smaller = vstd::arithmetic::power::pow(256, (n - 1) as nat);
        assert(value / 256 < smaller) by (nonlinear_arith)
            requires
                value < 256 * smaller,
        ;
        lemma_le_bytes_value(value / 256, (n - 1) as nat);
        assert(le_bytes(value, n).drop_first() =~= rest);
    }
}

/// Every machine word can be read back from its bytes, of which there are [`word_size`].
pub proof fn law_word_round_trip(word: usize)
    ensures
        word_bytes(word).len() == word_size(),
        le_value(word_bytes(word)) == word,
{
    vstd::layout::unsigned_int_max_values();
    lemma_le_bytes_len(word as int, word_size());
    lemma_le_bytes_value(word as int, word_size());
}

/// A machine word as it lies in memory.
pub fn to_word_bytes(word: usize) -> (bytes: Vec<u8>)
    ensures
        bytes@ == word_bytes(word),
        le_value(bytes@) == word,
        forall|i: int|
            0 <= i < bytes@.len() ==> #[trigger] bytes@[i] == (word as int
                / vstd::arithmetic::power::pow(256, i as nat)) % 256,
{
    proof {
        law_word_round_trip(word);
        law_word_bytes_are_digits(word);
    }
    let size: usize = core::mem::size_of::<usize>();
    let mut bytes: Vec<u8> = Vec::new();
    let mut rest: usize = word;
    let mut i: usize = 0;
    assert(bytes@ + le_bytes(rest as int, word_size()) =~= word_bytes(word));
    while i < size
        invariant
            i <= size,
            size == word_size(),
            bytes@ + le_bytes(rest as int, (size - i) as nat) == word_bytes(word),
        decreases size - i,
    {
        let ghost before = bytes@;
        bytes.push((rest % 256) as u8);
        assert(before + (seq![(rest % 256) as u8] + le_bytes(
            rest as int / 256,
            (size - i - 1) as nat,
        )) =~= bytes@ + le_bytes(rest as int / 256, (size - i - 1) as nat));
        rest = rest / 256;
        i += 1;
    }
    assert(bytes@ + le_bytes(rest as int, 0) =~= bytes@);
    bytes
}

/// Each byte of a number is one of its digits to the base 256.
proof fn lemma_le_bytes_digits(value: int, n: nat, i: nat)
    requires
        0 <= value,
        i < n,
    ensures
        le_bytes(value, n)[i as int] == (value / vstd::arithmetic::power::pow(256, i)) % 256,
    decreases n,
{
    reveal(vstd::arithmetic::power::pow);
    if i == 0 {
        assert(vstd::arithmetic::power::pow(256, 0) == 1);
    } else {
        let rest = le_bytes(value / 256, (n - 1) as nat);
        let below = vstd::arithmetic::power::pow(256, (i - 1) as nat);
        lemma_le_bytes_len(value / 256, (n - 1) as nat);
        lemma_le_bytes_digits(value / 256, (n - 1) as nat, (i - 1) as nat);
        vstd::arithmetic::power::lemma_pow_positive(256, (i - 1) as nat);
        vstd::arithmetic::div_mod::lemma_div_denominator(value, 256, below);
        assert(le_bytes(value, n)[i as int] == rest[i - 1]);
    }
}

/// Byte `i` of a machine word in memory is the digit of weight `256^i`.
pub proof fn law_word_bytes_are_digits(word: usize)
    ensures
        word_bytes(word).len() == vstd::layout::size_of::<usize>(),
        forall|i: int|
            0 <= i < vstd::layout::size_of::<usize>() ==> #[trigger] word_bytes(word)[i] == (
            word as int / vstd::arithmetic::power::pow(256, i as nat)) % 256,
{
    lemma_le_bytes_len(word as int, word_size());
    assert forall|i: int| 0 <= i < word_size() implies #[trigger] word_bytes(word)[i] == (
    word as int / vstd::arithmetic::power::pow(256, i as nat)) % 256 by {
        lemma_le_bytes_digits(word as int, word_size(), i as nat);
    }
}

/// The signed reading of a machine word differs from the word by nothing or by the number of
/// words there are, and two words never have the same reading.
pub proof fn law_signed_is_congruent(n: usize, m: usize)
    ensures
        isize::MIN <= signed(n) <= isize::MAX,
        signed(n) == n || signed(n) + usize::MAX + 1 == n,
        signed(n) >= 0 <==> n <= isize::MAX,
        signed(n) == signed(m) <==> n == m,
{
}

} // verus!
