//! Frame scheduling for the zoom sequence: frame order and labels.

use vstd::prelude::*;

verus! {

/// The frame indices of a zoom run, in the order their images must be
/// written: `start, start + 1, ..., end - 1` (empty when `start >= end`).
pub fn frame_indices(start: u32, end: u32) -> (r: Vec<u32>)
    ensures
        start <= end ==> r@.len() == end - start,
        start > end ==> r@.len() == 0,
        forall|k: int| 0 <= k < r@.len() ==> r@[k] == start + k,
        forall|k1: int, k2: int| 0 <= k1 < k2 < r@.len() ==> r@[k1] < r@[k2],
{
    let mut r: Vec<u32> = Vec::new();
    let mut frame: u32 = start;
    while frame < end
        invariant
            start <= frame,
            frame <= end || (frame == start && start > end),
            r@.len() == frame - start,
            forall|k: int| 0 <= k < r@.len() ==> r@[k] == start + k,
        decreases end - frame,
    {
        r.push(frame);
        frame = frame + 1;
    }
    r
}

/// The decimal digits of `n` as ASCII bytes, most significant first.
pub open spec fn dec_digits(n: nat) -> Seq<u8>
    decreases n,
{
    if n < 10 {
        seq![(n + 48) as u8]
    } else {
        dec_digits(n / 10).push((n % 10 + 48) as u8)
    }
}

/// `k` ASCII zeros.
pub open spec fn zeros(k: nat) -> Seq<u8> {
    Seq::new(k, |i: int| 48u8)
}

/// The label of frame `n`: its decimal digits, left-padded with ASCII
/// zeros to at least four characters.
pub open spec fn frame_label_spec(n: nat) -> Seq<u8> {
    if dec_digits(n).len() >= 4 {
        dec_digits(n)
    } else {
        zeros((4 - dec_digits(n).len()) as nat) + dec_digits(n)
    }
}

/// The number an ASCII digit string denotes in base 10.
pub open spec fn digits_value(s: Seq<u8>) -> int
    decreases s.len(),
{
    if s.len() == 0 {
        0
    } else {
        digits_value(s.drop_last()) * 10 + s.last() - 48
    }
}

/// Every character of `s` is an ASCII decimal digit.
pub open spec fn all_digits(s: Seq<u8>) -> bool {
    forall|i: int| 0 <= i < s.len() ==> 48 <= #[trigger] s[i] <= 57
}

/// The digit string of `n` is made of digits and denotes `n`.
pub proof fn lemma_dec_digits_value(n: nat)
    ensures
        digits_value(dec_digits(n)) == n,
        all_digits(dec_digits(n)),
    decreases n,
{
    if n < 10 {
        assert(dec_digits(n).drop_last() =~= Seq::<u8>::empty());
        assert(digits_value(Seq::<u8>::empty()) == 0);
        assert(dec_digits(n).last() == (n + 48) as u8);
    } else {
        vstd::arithmetic::div_mod::lemma_div_is_strictly_smaller(n as int, 10);
        lemma_dec_digits_value(n / 10);
        let d = ((n % 10 + 48) as u8);
        assert(dec_digits(n).drop_last() =~= dec_digits(n / 10));
        assert(digits_value(dec_digits(n)) == digits_value(dec_digits(n / 10)) * 10 + d - 48);
        vstd::arithmetic::div_mod::lemma_fundamental_div_mod(n as int, 10);
        assert forall|i: int| 0 <= i < dec_digits(n).len() implies 48 <= #[trigger] dec_digits(
            n,
        )[i] <= 57 by {
            if i < dec_digits(n).len() - 1 {
                assert(dec_digits(n)[i] == dec_digits(n / 10)[i]);
            }
        }
    }
}

/// A string of ASCII zeros denotes zero.
proof fn lemma_zeros_value(k: nat)
    ensures
        digits_value(zeros(k)) == 0,
        all_digits(zeros(k)),
    decreases k,
{
    if k > 0 {
        lemma_zeros_value((k - 1) as nat);
        assert(zeros(k).drop_last() =~= zeros((k - 1) as nat));
    }
}

/// Left-padding a digit string with ASCII zeros keeps the number it denotes.
proof fn lemma_pad_keeps_value(k: nat, s: Seq<u8>)
    ensures
        digits_value(zeros(k) + s) == digits_value(s),
    decreases s.len(),
{
    if s.len() == 0 {
        lemma_zeros_value(k);
        assert(zeros(k) + s =~= zeros(k));
    } else {
        lemma_pad_keeps_value(k, s.drop_last());
        assert((zeros(k) + s).drop_last() =~= zeros(k) + s.drop_last());
        assert((zeros(k) + s).last() == s.last());
    }
}

/// The zero-padded label of frame `n` still denotes `n`: padding changes
/// the length of the label, never the frame it names.
pub proof fn lemma_frame_label_value(n: nat)
    ensures
        digits_value(frame_label_spec(n)) == n,
        all_digits(frame_label_spec(n)),
{
    lemma_dec_digits_value(n);
    if dec_digits(n).len() < 4 {
        let k = (4 - dec_digits(n).len()) as nat;
        lemma_zeros_value(k);
        lemma_pad_keeps_value(k, dec_digits(n));
        assert forall|i: int| 0 <= i < frame_label_spec(n).len() implies 48 <= #[trigger] frame_label_spec(n)[i] <= 57 by {
            if i < k {
                assert(frame_label_spec(n)[i] == zeros(k)[i]);
            } else {
                assert(frame_label_spec(n)[i] == dec_digits(n)[i - k]);
            }
        }
    }
}

/// A number's digit string is never empty and never longer than `n + 1`.
proof fn lemma_dec_digits_len(n: nat)
    ensures
        1 <= dec_digits(n).len(),
        dec_digits(n).len() <= n + 1,
    decreases n,
{
    if n >= 10 {
        vstd::arithmetic::div_mod::lemma_div_is_strictly_smaller(n as int, 10);
        lemma_dec_digits_len(n / 10);
    }
}

/// How many decimal digits `n` has.
fn count_digits(n: u32) -> (r: usize)
    ensures
        r == dec_digits(n as nat).len(),
    decreases n,
{
    if n < 10 {
        1
    } else {
        proof {
            vstd::arithmetic::div_mod::lemma_div_is_strictly_smaller(n as int, 10);
            lemma_dec_digits_len((n / 10) as nat);
        }
        let c: usize = count_digits(n / 10);
        c + 1
    }
}

/// Appends the decimal digits of `n` to `out`, most significant first.
fn push_digits(n: u32, out: &mut Vec<u8>)
    ensures
        final(out)@ == old(out)@ + dec_digits(n as nat),
    decreases n,
{
    if n < 10 {
        out.push((n as u8) + 48);
        assert(out@ =~= old(out)@ + dec_digits(n as nat));
    } else {
        proof {
            vstd::arithmetic::div_mod::lemma_div_is_strictly_smaller(n as int, 10);
        }
        push_digits(n / 10, out);
        out.push((n % 10) as u8 + 48);
        assert(out@ =~= old(out)@ + dec_digits(n as nat));
    }
}

/// The file label of one frame: its index in decimal, zero-padded to at
/// least four characters, as ASCII bytes.
pub fn frame_label(frame: u32) -> (r: Vec<u8>)
    ensures
        r@ == frame_label_spec(frame as nat),
        r@.len() >= 4,
        digits_value(r@) == frame,
        all_digits(r@),
{
    proof {
        lemma_frame_label_value(frame as nat);
    }
    let nd: usize = count_digits(frame);
    let pad: usize = if nd >= 4 {
        0
    } else {
        4 - nd
    };
    let mut out: Vec<u8> = Vec::new();
    assert(out@ =~= zeros(0));
    let mut k: usize = 0;
    while k < pad
        invariant
            k <= pad,
            out@ == zeros(k as nat),
        decreases pad - k,
    {
        out.push(48u8);
        assert(out@ =~= zeros((k + 1) as nat));
        k = k + 1;
    }
    push_digits(frame, &mut out);
    proof {
        lemma_dec_digits_len(frame as nat);
        assert(out@ =~= frame_label_spec(frame as nat));
    }
    out
}

} // verus!
