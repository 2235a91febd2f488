use std::collections::VecDeque;
use vstd::arithmetic::div_mod::{
    lemma_add_mod_noop_right, lemma_fundamental_div_mod, lemma_mod_multiples_vanish,
};
use vstd::prelude::*;

verus! {

/// Fixed-capacity FIFO queue: pushing onto a full queue first drops the
/// oldest element, so the queue always holds the most recent `N` items.
#[derive(Debug)]
pub struct SmallQueue<T, const N: usize> {
    buf: VecDeque<T>,
}

impl<T, const N: usize> View for SmallQueue<T, N> {
    type V = Seq<T>;

    /// The queued elements, oldest first.
    closed spec fn view(&self) -> Seq<T> {
        self.buf@
    }
}

/// What a push does to the contents of a queue of capacity `n`.
pub open spec fn pushed<T>(q: Seq<T>, x: T, n: nat) -> Seq<T> {
    if q.len() < n {
        q.push(x)
    } else {
        q.drop_first().push(x)
    }
}

/// Contents after pushing each element of `xs`, in order, onto a queue of
/// capacity `n` holding `q`.
pub open spec fn pushed_all<T>(q: Seq<T>, xs: Seq<T>, n: nat) -> Seq<T>
    decreases xs.len(),
{
    if xs.len() == 0 {
        q
    } else {
        pushed(pushed_all(q, xs.drop_last(), n), xs.last(), n)
    }
}

/// One push keeps a queue within its capacity and appends at the tail,
/// dropping from the head only what no longer fits.
pub proof fn lemma_push_bounded<T>(q: Seq<T>, x: T, n: nat)
    requires
        0 < n,
        q.len() <= n,
    ensures
        pushed(q, x, n).len() <= n,
        pushed(q, x, n).last() == x,
        q.len() < n ==> pushed(q, x, n).drop_last() == q,
        q.len() == n ==> pushed(q, x, n).drop_last() == q.drop_first(),
{
    assert(q.push(x).drop_last() =~= q);
    if q.len() > 0 {
        assert(q.drop_first().push(x).drop_last() =~= q.drop_first());
    }
}

/// Pushing a sequence onto an empty queue of capacity `n` leaves the latest
/// `n` elements, oldest first: earlier ones are evicted from the head.
pub proof fn lemma_pushes_keep_latest<T>(xs: Seq<T>, n: nat)
    requires
        0 < n,
    ensures
        pushed_all(Seq::empty(), xs, n).len() <= n,
        pushed_all(Seq::empty(), xs, n) == if xs.len() <= n {
            xs
        } else {
            xs.skip(xs.len() - n)
        },
    decreases xs.len(),
{
    if xs.len() > 0 {
        lemma_pushes_keep_latest(xs.drop_last(), n);
        let prev = pushed_all(Seq::<T>::empty(), xs.drop_last(), n);
        if xs.len() <= n {
            assert(prev.push(xs.last()) =~= xs);
        } else {
            assert(prev.drop_first().push(xs.last()) =~= xs.skip(xs.len() - n));
        }
    }
}

impl<T, const N: usize> SmallQueue<T, N> {
    /// A usable queue has a non-zero capacity and holds at most that many
    /// elements.
    pub open spec fn wf(&self) -> bool {
        0 < N && self@.len() <= N
    }

    pub fn new() -> (q: Self)
        requires
            0 < N,
        ensures
            q.wf(),
            q@ == Seq::<T>::empty(),
    {
        SmallQueue { buf: VecDeque::new() }
    }

    /// Appends `elem`; on a full queue the oldest element is dropped first.
    /// Always succeeds.
    pub fn push(&mut self, elem: T) -> (r: Option<()>)
        requires
            old(self).wf(),
        ensures
            final(self).wf(),
            final(self)@ == pushed(old(self)@, elem, N as nat),
            r == Some(()),
    {
        if self.buf.len() == N {
            let _ = self.buf.pop_front();
        }
        self.buf.push_back(elem);
        Some(())
    }

    /// Removes and returns the oldest element, if any.
    pub fn pop_front(&mut self) -> (r: Option<T>)
        requires
            old(self).wf(),
        ensures
            final(self).wf(),
            old(self)@.len() == 0 ==> r is None && final(self)@ == old(self)@,
            old(self)@.len() > 0 ==> r == Some(old(self)@[0]) && final(self)@
                == old(self)@.drop_first(),
    {
        self.buf.pop_front()
    }

    /// The number of queued elements, never more than the capacity.
    pub fn len(&self) -> (r: usize)
        requires
            self.wf(),
        ensures
            r == self@.len(),
            r <= N,
    {
        self.buf.len()
    }

    pub fn is_empty(&self) -> (r: bool)
        ensures
            r == (self@.len() == 0),
    {
        self.buf.len() == 0
    }
}

/// Little-endian 16-bit word number `k` of `d`.
pub open spec fn le_word(d: Seq<u8>, k: int) -> nat {
    d[2 * k] as nat + 256 * d[2 * k + 1] as nat
}

/// Sum of the first `k` little-endian words of `d`.
pub open spec fn words_sum(d: Seq<u8>, k: nat) -> nat
    decreases k,
{
    if k == 0 {
        0
    } else {
        words_sum(d, (k - 1) as nat) + le_word(d, k - 1)
    }
}

/// Sum of every little-endian word of `d`; an odd tail byte counts as the
/// low half of a zero-padded word.
pub open spec fn ones_sum(d: Seq<u8>) -> nat {
    words_sum(d, d.len() / 2) + if d.len() % 2 == 1 {
        d[d.len() - 1] as nat
    } else {
        0
    }
}

/// Folds the carries of a sum back into its low 16 bits until it fits.
pub open spec fn fold16(s: nat) -> nat
    decreases s,
{
    if s < 0x10000 {
        s
    } else {
        fold16(s % 0x10000 + s / 0x10000)
    }
}

/// The Internet checksum of `d` started from `init`: the bitwise complement
/// of the folded one's-complement sum.
pub open spec fn checksum_of(d: Seq<u8>, init: nat) -> u16 {
    (0xffff - fold16(init + ones_sum(d))) as u16
}

/// Folding leaves a sum's residue modulo 0xffff, and only zero folds to zero.
pub proof fn lemma_fold16_closed(s: nat)
    ensures
        fold16(s) == if s == 0 {
            0
        } else {
            ((s - 1) % 0xffff + 1) as nat
        },
        fold16(s) <= 0xffff,
    decreases s,
{
    if s >= 0x10000 {
        let q = s / 0x10000;
        let r = s % 0x10000;
        lemma_fundamental_div_mod(s as int, 0x10000);
        let t = (r + q) as nat;
        assert(s - 1 == 0xffff * q + (t - 1));
        lemma_fold16_closed(t);
        lemma_mod_multiples_vanish(q as int, t - 1, 0xffff);
    }
}

/// Folding part of a sum early does not change the folded total.
pub proof fn lemma_fold16_add(a: nat, w: nat)
    ensures
        fold16(fold16(a) + w) == fold16(a + w),
{
    lemma_fold16_closed(a);
    lemma_fold16_closed(fold16(a) + w);
    lemma_fold16_closed(a + w);
    if a > 0 {
        lemma_add_mod_noop_right(w as int, a - 1, 0xffff);
    }
}

/// Replacing word `k` changes the word sums from that word on by the
/// difference.
proof fn lemma_words_sum_replace(d: Seq<u8>, d2: Seq<u8>, k: int, c: nat, m: nat)
    requires
        d.len() == d2.len(),
        0 <= k,
        2 * k + 1 < d.len(),
        2 * m <= d.len(),
        le_word(d2, k) == c,
        forall|j: int| 0 <= j < d.len() && j != 2 * k && j != 2 * k + 1 ==> d2[j] == d[j],
    ensures
        words_sum(d2, m) + if m > k {
            le_word(d, k)
        } else {
            0
        } == words_sum(d, m) + if m > k {
            c
        } else {
            0
        },
    decreases m,
{
    if m > 0 {
        lemma_words_sum_replace(d, d2, k, c, (m - 1) as nat);
        if m - 1 != k {
            assert(d2[2 * (m - 1)] == d[2 * (m - 1)]);
            assert(d2[2 * (m - 1) + 1] == d[2 * (m - 1) + 1]);
        }
    }
}

/// A checksum written, low byte first, into a zeroed 16-bit field at an even
/// offset makes the whole block check to zero.
pub proof fn lemma_checksum_field_verifies(d: Seq<u8>, k: int)
    requires
        0 <= k,
        2 * k + 1 < d.len(),
        d[2 * k] == 0,
        d[2 * k + 1] == 0,
    ensures
        ({
            let c = checksum_of(d, 0);
            checksum_of(d.update(2 * k, (c % 256) as u8).update(2 * k + 1, (c / 256) as u8), 0) == 0
        }),
{
    let c = checksum_of(d, 0);
    let d2 = d.update(2 * k, (c % 256) as u8).update(2 * k + 1, (c / 256) as u8);
    let s = ones_sum(d);
    lemma_fold16_closed(s);
    assert(c as nat == 0xffff - fold16(s));
    assert(le_word(d2, k) == c as nat);
    assert(le_word(d, k) == 0);
    lemma_words_sum_replace(d, d2, k, c as nat, d.len() / 2);
    if d.len() % 2 == 1 {
        assert(d2[d.len() - 1] == d[d.len() - 1]);
    }
    assert(ones_sum(d2) == s + c);
    lemma_fold16_closed((s + c) as nat);
    if s > 0 {
        let m: int = 0xffff;
        lemma_fundamental_div_mod(s - 1, m);
        let q = (s - 1) / m;
        assert(s + c - 1 == m * q + (m - 1));
        lemma_mod_multiples_vanish(q, m - 1, m);
    }
}

/// The weight of byte `j` in the word sum: low half or high half of its word.
pub open spec fn byte_weight(j: int) -> nat {
    if j % 2 == 0 {
        1
    } else {
        256
    }
}

/// Changing byte `j` changes the word sums that include it by the weighted
/// difference.
proof fn lemma_words_sum_byte(d: Seq<u8>, j: int, v: u8, m: nat)
    requires
        0 <= j < d.len(),
        2 * m <= d.len(),
    ensures
        words_sum(d.update(j, v), m) + if m > j / 2 {
            d[j] * byte_weight(j)
        } else {
            0
        } == words_sum(d, m) + if m > j / 2 {
            v * byte_weight(j)
        } else {
            0
        },
    decreases m,
{
    let d2 = d.update(j, v);
    if m > 0 {
        lemma_words_sum_byte(d, j, v, (m - 1) as nat);
        let k = m - 1;
        if k != j / 2 {
            assert(d2[2 * k] == d[2 * k]);
            assert(d2[2 * k + 1] == d[2 * k + 1]);
        } else if j % 2 == 0 {
            assert(j == 2 * k);
            assert(d2[2 * k + 1] == d[2 * k + 1]);
        } else {
            assert(j == 2 * k + 1);
            assert(d2[2 * k] == d[2 * k]);
        }
    }
}

/// Changing byte `j` of a block changes its one's-complement sum by the
/// weighted difference.
proof fn lemma_ones_sum_byte(d: Seq<u8>, j: int, v: u8)
    requires
        0 <= j < d.len(),
    ensures
        ones_sum(d.update(j, v)) + d[j] * byte_weight(j) == ones_sum(d) + v * byte_weight(j),
{
    let d2 = d.update(j, v);
    let m = d.len() / 2;
    lemma_words_sum_byte(d, j, v, m);
    if d.len() % 2 == 1 {
        if j != d.len() - 1 {
            assert(d2[d.len() - 1] == d[d.len() - 1]);
            assert(m > j / 2);
        } else {
            assert(!(m > j / 2));
        }
    } else {
        assert(m > j / 2);
    }
}

/// A block that checks to zero no longer does once any single byte of it is
/// changed.
pub proof fn law_single_byte_change_detected(d: Seq<u8>, j: int, v: u8)
    requires
        0 <= j < d.len(),
        v != d[j],
        checksum_of(d, 0) == 0,
    ensures
        checksum_of(d.update(j, v), 0) != 0,
{
    let d2 = d.update(j, v);
    let s1 = ones_sum(d);
    let s2 = ones_sum(d2);
    let w = byte_weight(j);
    let a = d[j] * w;
    let b = v * w;
    lemma_ones_sum_byte(d, j, v);
    lemma_fold16_closed(s1);
    lemma_fold16_closed(s2);
    assert(0 + s1 == s1);
    assert(0 + s2 == s2);
    if checksum_of(d2, 0) == 0 {
        let m: int = 0xffff;
        assert(fold16(s1) == 0xffff);
        assert(fold16(s2) == 0xffff);
        assert(s1 > 0 && s2 > 0);
        lemma_fundamental_div_mod(s1 - 1, m);
        lemma_fundamental_div_mod(s2 - 1, m);
        let q1 = (s1 - 1) / m;
        let q2 = (s2 - 1) / m;
        assert((s1 - 1) % m == (s2 - 1) % m);
        assert(b - a == m * (q2 - q1)) by (nonlinear_arith)
            requires
                s2 + a == s1 + b,
                s1 - 1 == m * q1 + (s1 - 1) % m,
                s2 - 1 == m * q2 + (s2 - 1) % m,
                (s1 - 1) % m == (s2 - 1) % m,
        ;
        assert(a != b) by (nonlinear_arith)
            requires
                a == d[j] * w,
                b == v * w,
                v != d[j],
                w == 1 || w == 256,
        ;
        assert(-65280 <= b - a <= 65280) by (nonlinear_arith)
            requires
                a == d[j] * w,
                b == v * w,
                0 <= d[j] <= 255,
                0 <= v <= 255,
                w == 1 || w == 256,
        ;
        assert(false) by (nonlinear_arith)
            requires
                b - a == m * (q2 - q1),
                a != b,
                -65280 <= b - a <= 65280,
                m == 0xffff,
        ;
    }
}

/// Computes the 16-bit one's-complement Internet checksum of `data`,
/// starting from the partial sum `init`.
pub fn checksum16(data: &[u8], init: u32) -> (r: u16)
    ensures
        r == checksum_of(data@, init as nat),
{
    let mut sum: u32 = init;
    while sum >= 0x10000
        invariant
            fold16(sum as nat) == fold16(init as nat),
        decreases sum,
    {
        sum = sum % 0x10000 + sum / 0x10000;
    }
    let n = data.len();
    assert(words_sum(data@, 0) == 0);
    let mut i: usize = 0;
    while i + 1 < n
        invariant
            n == data@.len(),
            i % 2 == 0,
            i <= n,
            sum <= 0xffff,
            sum as nat == fold16(init as nat + words_sum(data@, (i / 2) as nat)),
        decreases n - i,
    {
        let w: u32 = data[i] as u32 + 256 * data[i + 1] as u32;
        proof {
            let k = (i / 2) as nat;
            lemma_fold16_add(init as nat + words_sum(data@, k), w as nat);
            assert(words_sum(data@, k + 1) == words_sum(data@, k) + w);
        }
        let t: u32 = sum + w;
        sum = t % 0x10000 + t / 0x10000;
        assert(sum as nat == fold16(t as nat)) by {
            if t >= 0x10000 {
                assert(fold16(t as nat) == fold16(sum as nat));
            }
        }
        i = i + 2;
    }
    if i < n {
        let t: u32 = sum + data[i] as u32;
        proof {
            lemma_fold16_add(init as nat + words_sum(data@, (i / 2) as nat), data[i as int] as nat);
        }
        sum = t % 0x10000 + t / 0x10000;
        assert(sum as nat == fold16(t as nat)) by {
            if t >= 0x10000 {
                assert(fold16(t as nat) == fold16(sum as nat));
            }
        }
    }
    proof {
        lemma_fold16_closed(init as nat + ones_sum(data@));
    }
    (0xffff - sum) as u16
}

} // verus!
