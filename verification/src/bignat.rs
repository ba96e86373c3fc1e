//! Natural numbers of any size, for arithmetic that must stay exact.

use vstd::prelude::*;

verus! {

/// The base of the digits: 2 to the power of 32.
pub open spec fn base() -> nat {
    0x1_0000_0000
}

/// The weight of the digit at position `k`: the base to the power of `k`.
pub open spec fn weight(k: nat) -> nat
    decreases k,
{
    if k == 0 {
        1
    } else {
        base() * weight((k - 1) as nat)
    }
}

/// The digit at position `k`, which is 0 beyond the last one.
pub open spec fn digit(limbs: Seq<u32>, k: int) -> nat {
    if 0 <= k < limbs.len() {
        limbs[k] as nat
    } else {
        0
    }
}

/// What the first `n` digits denote, the least significant digit first.
pub open spec fn value_upto(limbs: Seq<u32>, n: nat) -> nat
    decreases n,
{
    if n == 0 {
        0
    } else {
        value_upto(limbs, (n - 1) as nat) + digit(limbs, n - 1) * weight((n - 1) as nat)
    }
}

/// The number that a sequence of digits denotes.
pub open spec fn limbs_value(limbs: Seq<u32>) -> nat {
    value_upto(limbs, limbs.len())
}

/// A natural number, held as digits in base 2 to the power of 32, the least significant
/// first. Zero digits at the top do not change the number.
pub struct BigNat {
    pub limbs: Vec<u32>,
}

impl View for BigNat {
    type V = nat;

    open spec fn view(&self) -> nat {
        limbs_value(self.limbs@)
    }
}

/// Sequences that agree on their first `n` digits denote the same there.
pub proof fn lemma_value_agrees(a: Seq<u32>, b: Seq<u32>, n: nat)
    requires
        forall|k: int| 0 <= k < n ==> digit(a, k) == digit(b, k),
    ensures
        value_upto(a, n) == value_upto(b, n),
    decreases n,
{
    if n > 0 {
        lemma_value_agrees(a, b, (n - 1) as nat);
        assert(digit(a, n - 1) == digit(b, n - 1));
    }
}

/// Positions beyond the last digit add nothing.
pub proof fn lemma_value_beyond(limbs: Seq<u32>, n: nat)
    requires
        n >= limbs.len(),
    ensures
        value_upto(limbs, n) == limbs_value(limbs),
    decreases n,
{
    if n > limbs.len() {
        lemma_value_beyond(limbs, (n - 1) as nat);
        assert(digit(limbs, n - 1) == 0);
        assert(digit(limbs, n - 1) * weight((n - 1) as nat) == 0) by (nonlinear_arith)
            requires
                digit(limbs, n - 1) == 0,
        ;
    }
}

/// The first `n` digits denote less than the weight of position `n`.
pub proof fn lemma_value_below_weight(limbs: Seq<u32>, n: nat)
    ensures
        value_upto(limbs, n) < weight(n),
    decreases n,
{
    if n > 0 {
        lemma_value_below_weight(limbs, (n - 1) as nat);
        let w = weight((n - 1) as nat);
        let d = digit(limbs, n - 1);
        assert(d <= base() - 1);
        assert(value_upto(limbs, (n - 1) as nat) + d * w < base() * w) by (nonlinear_arith)
            requires
                value_upto(limbs, (n - 1) as nat) < w,
                d <= base() - 1,
        ;
    }
}

/// One more digit at the top adds the digit times the weight of its position.
pub proof fn lemma_value_push(limbs: Seq<u32>, d: u32)
    ensures
        limbs_value(limbs.push(d)) == limbs_value(limbs) + d * weight(limbs.len()),
{
    let longer = limbs.push(d);
    lemma_value_agrees(longer, limbs, limbs.len());
    assert(digit(longer, limbs.len() as int) == d);
}

/// The digit at position `k`, which is 0 beyond the last one.
fn digit_at(limbs: &Vec<u32>, k: usize) -> (d: u32)
    ensures
        d == digit(limbs@, k as int),
{
    if k < limbs.len() {
        limbs[k]
    } else {
        0
    }
}

impl BigNat {
    /// The number that fits one digit.
    pub fn small(x: u32) -> (out: BigNat)
        ensures
            out@ == x,
    {
        let limbs: Vec<u32> = vec![x];
        proof {
            assert(limbs@ =~= Seq::<u32>::empty().push(x));
            lemma_value_push(Seq::<u32>::empty(), x);
            assert(x * weight(0) == x) by (nonlinear_arith)
                requires
                    weight(0) == 1,
            ;
        }
        BigNat { limbs }
    }

    /// A copy of the number.
    pub fn copy(&self) -> (out: BigNat)
        ensures
            out@ == self@,
    {
        BigNat { limbs: self.limbs.clone() }
    }

    /// The sum of `m` times `x` and `n` times `y`.
    pub fn combine(x: &BigNat, m: u32, y: &BigNat, n: u32) -> (out: BigNat)
        ensures
            out@ == m * x@ + n * y@,
    {
        let len = if x.limbs.len() > y.limbs.len() {
            x.limbs.len()
        } else {
            y.limbs.len()
        };
        let mut limbs: Vec<u32> = Vec::new();
        let mut carry: u64 = 0;
        let mut i: usize = 0;
        assert(m * value_upto(x.limbs@, 0) + n * value_upto(y.limbs@, 0) == 0) by (nonlinear_arith)
            requires
                value_upto(x.limbs@, 0) == 0,
                value_upto(y.limbs@, 0) == 0,
        ;
        assert(carry * weight(0) == 0) by (nonlinear_arith)
            requires
                carry == 0,
        ;
        while i < len
            invariant
                i <= len,
                len >= x.limbs@.len(),
                len >= y.limbs@.len(),
                limbs@.len() == i,
                carry <= 2 * base() - 2,
                limbs_value(limbs@) + carry * weight(i as nat) == m * value_upto(
                    x.limbs@,
                    i as nat,
                ) + n * value_upto(y.limbs@, i as nat),
            decreases len - i,
        {
            let dx = digit_at(&x.limbs, i);
            let dy = digit_at(&y.limbs, i);
            assert(m * dx <= 0xffff_ffff * 0xffff_ffff) by (nonlinear_arith)
                requires
                    m <= 0xffff_ffff,
                    dx <= 0xffff_ffff,
            ;
            assert(n * dy <= 0xffff_ffff * 0xffff_ffff) by (nonlinear_arith)
                requires
                    n <= 0xffff_ffff,
                    dy <= 0xffff_ffff,
            ;
            let total: u128 = (m as u128) * (dx as u128) + (n as u128) * (dy as u128) + (
            carry as u128);
            let low = (total % 0x1_0000_0000) as u32;
            let high = (total / 0x1_0000_0000) as u64;
            proof {
                let w = weight(i as nat);
                let before = limbs_value(limbs@);
                let vx = value_upto(x.limbs@, i as nat);
                let vy = value_upto(y.limbs@, i as nat);
                lemma_value_push(limbs@, low);
                assert(total == high * base() + low);
                assert(before + low * w + high * (base() * w) == m * (vx + dx * w) + n * (vy + dy
                    * w)) by (nonlinear_arith)
                    requires
                        before + carry * w == m * vx + n * vy,
                        total == m * dx + n * dy + carry,
                        total == high * base() + low,
                ;
            }
            limbs.push(low);
            carry = high;
            i += 1;
        }
        proof {
            lemma_value_beyond(x.limbs@, len as nat);
            lemma_value_beyond(y.limbs@, len as nat);
        }
        let low = (carry % 0x1_0000_0000) as u32;
        let high = (carry / 0x1_0000_0000) as u32;
        proof {
            let w = weight(len as nat);
            let before = limbs_value(limbs@);
            lemma_value_push(limbs@, low);
            lemma_value_push(limbs@.push(low), high);
            assert(before + low * w + high * (base() * w) == before + carry * w)
                by (nonlinear_arith)
                requires
                    carry == high * base() + low,
            ;
        }
        limbs.push(low);
        limbs.push(high);
        BigNat { limbs }
    }

    /// Whether `x` is at most `y`.
    pub fn le(x: &BigNat, y: &BigNat) -> (yes: bool)
        ensures
            yes == (x@ <= y@),
    {
        let len = if x.limbs.len() > y.limbs.len() {
            x.limbs.len()
        } else {
            y.limbs.len()
        };
        proof {
            lemma_value_beyond(x.limbs@, len as nat);
            lemma_value_beyond(y.limbs@, len as nat);
        }
        let mut i: usize = len;
        while i > 0
            invariant
                i <= len,
                x@ == value_upto(x.limbs@, len as nat),
                y@ == value_upto(y.limbs@, len as nat),
                x@ - value_upto(x.limbs@, i as nat) == y@ - value_upto(y.limbs@, i as nat),
            decreases i,
        {
            let dx = digit_at(&x.limbs, i - 1);
            let dy = digit_at(&y.limbs, i - 1);
            proof {
                lemma_value_below_weight(x.limbs@, (i - 1) as nat);
                lemma_value_below_weight(y.limbs@, (i - 1) as nat);
            }
            let ghost w = weight((i - 1) as nat);
            let ghost lx = value_upto(x.limbs@, (i - 1) as nat);
            let ghost ly = value_upto(y.limbs@, (i - 1) as nat);
            if dx < dy {
                assert(lx + dx * w < ly + dy * w) by (nonlinear_arith)
                    requires
                        lx < w,
                        dx < dy,
                        ly >= 0,
                ;
                return true;
            }
            if dx > dy {
                assert(ly + dy * w < lx + dx * w) by (nonlinear_arith)
                    requires
                        ly < w,
                        dy < dx,
                        lx >= 0,
                ;
                return false;
            }
            i -= 1;
        }
        true
    }

    /// The quotient of `p` by `q`, rounded down, where it is at most 255.
    pub fn quotient(p: &BigNat, q: &BigNat) -> (out: u8)
        requires
            q@ > 0,
            p@ <= 255 * q@,
        ensures
            out == p@ / q@,
    {
        let mut low: u32 = 0;
        let mut high: u32 = 255;
        assert(0 * q@ <= p@ < 256 * q@) by (nonlinear_arith)
            requires
                q@ > 0,
                p@ <= 255 * q@,
        ;
        while low < high
            invariant
                low <= high <= 255,
                q@ > 0,
                low * q@ <= p@ < (high + 1) * q@,
            decreases high - low,
        {
            let middle = (low + high + 1) / 2;
            let multiple = BigNat::combine(q, middle, q, 0);
            assert(multiple@ == middle * q@) by (nonlinear_arith)
                requires
                    multiple@ == middle * q@ + 0 * q@,
            ;
            if BigNat::le(&multiple, p) {
                low = middle;
            } else {
                high = middle - 1;
            }
        }
        proof {
            let a = p@ as int;
            let b = q@ as int;
            let c = low as int;
            assert((c + 1) * b == c * b + b) by (nonlinear_arith);
            vstd::arithmetic::div_mod::lemma_fundamental_div_mod_converse(a, b, c, a - c * b);
        }
        low as u8
    }
}

} // verus!
