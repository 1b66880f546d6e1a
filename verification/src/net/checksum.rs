//! The Internet checksum: the one's complement of the one's-complement sum
//! of the 16-bit words of a message.

use vstd::prelude::*;

verus! {

/// The sum of the first `n` 16-bit big-endian words of `s`.
pub open spec fn sum_words(s: Seq<u8>, n: nat) -> nat
    decreases n,
{
    if n == 0 {
        0
    } else {
        sum_words(s, (n - 1) as nat) + s[2 * n - 2] as nat * 256 + s[2 * n - 1] as nat
    }
}

/// The sum of all 16-bit big-endian words of `s`; a last odd byte counts as
/// the high byte of a word whose low byte is zero.
pub open spec fn sum16(s: Seq<u8>) -> nat {
    sum_words(s, s.len() / 2) + if s.len() % 2 == 1 {
        s[s.len() - 1] as nat * 256
    } else {
        0
    }
}

/// Folds the carries of a sum back into its low sixteen bits.
pub open spec fn fold16(x: nat) -> nat
    decreases x,
{
    if x < 0x10000 {
        x
    } else {
        fold16(x / 0x10000 + x % 0x10000)
    }
}

/// The Internet checksum of `s`.
pub open spec fn internet_checksum(s: Seq<u8>) -> u16 {
    (0xffff - fold16(sum16(s))) as u16
}

/// The sum of `n` words is at most `n` times the largest word.
proof fn lemma_sum_words_bound(s: Seq<u8>, n: nat)
    ensures
        sum_words(s, n) <= n * 0xffff,
    decreases n,
{
    if n > 0 {
        lemma_sum_words_bound(s, (n - 1) as nat);
    }
}

/// Computes the Internet checksum of `data`.
pub fn checksum(data: &[u8]) -> (c: u16)
    ensures
        c == internet_checksum(data@),
{
    let len: usize = data.len();
    let n: usize = len / 2;
    let mut acc: u128 = 0;
    let mut i: usize = 0;
    while i < n
        invariant
            i <= n,
            len == data@.len(),
            n == len / 2,
            acc == sum_words(data@, i as nat),
        decreases n - i,
    {
        proof {
            lemma_sum_words_bound(data@, i as nat);
        }
        let hi: u128 = data[2 * i] as u128;
        let lo: u128 = data[2 * i + 1] as u128;
        acc = acc + hi * 256 + lo;
        i = i + 1;
    }
    proof {
        lemma_sum_words_bound(data@, n as nat);
    }
    if data.len() % 2 == 1 {
        acc = acc + (data[data.len() - 1] as u128) * 256;
    }
    assert(acc == sum16(data@));
    while acc > 0xffff
        invariant
            fold16(acc as nat) == fold16(sum16(data@)),
        decreases acc,
    {
        acc = acc / 0x10000 + acc % 0x10000;
    }
    (0xffff - acc) as u16
}

} // verus!
