//! A 256-bit word together with its absolute value as a signed number.
//!
//! A word is 32 little-endian bytes. Read as a two's complement number it
//! is negative when its top bit is set, and its absolute value is then
//! `2^256` minus the word, so that the lowest number, `-2^255`, is its own
//! absolute value.

use vstd::prelude::*;
use crate::scalar::{
    as_digits, bytes_value, lemma_bytes_unique, lemma_division_chain, lemma_powers_of_256,
    lemma_value_below_power, lemma_value_is_zero, power,
};
use crate::arith_helpers::digits_value;

verus! {

/// `2^255`: the words from here on are negative.
pub open spec fn sign_bound() -> int {
    0x8000_0000_0000_0000_0000_0000_0000_0000_0000_0000_0000_0000_0000_0000_0000_0000int
}

/// `2^256`: the number of words.
pub open spec fn modulus() -> int {
    0x1_0000_0000_0000_0000_0000_0000_0000_0000_0000_0000_0000_0000_0000_0000_0000_0000int
}

/// The word that is the absolute value of the word `v`.
pub open spec fn abs_value(v: int) -> int {
    if v < sign_bound() {
        v
    } else {
        modulus() - v
    }
}

/// A word is negative exactly when its top byte is above 127.
pub proof fn lemma_sign_of_word(word: [u8; 32])
    ensures
        0 <= bytes_value(word@) < modulus(),
        (word[31] > 127) == (bytes_value(word@) >= sign_bound()),
{
    let d = as_digits(word@);
    let low = d.take(31);
    let chain = Seq::new(32, |i: int| digits_value(d, 256, i));
    assert forall|i: int| 0 <= i < 31 implies chain[i] == low[i] + 256 * chain[i + 1] by {
        assert(digits_value(d, 256, i) == d[i] + 256 * digits_value(d, 256, i + 1));
    }
    lemma_division_chain(chain, low, 256, 0);
    lemma_value_below_power(low, 256, 0);
    lemma_value_below_power(d, 256, 0);
    lemma_powers_of_256();
    assert(digits_value(d, 256, 31) == d[31] + 256 * digits_value(d, 256, 32));
    assert(chain[31] == word[31] as int);
    let p = power(256, 31);
    let v = digits_value(low, 256, 0);
    let t = word[31] as int;
    assert((t > 127) == (v + p * t >= 128 * p)) by (nonlinear_arith)
        requires
            0 <= v < p,
    ;
}

/// A chain of additions with carry: digit by digit, `x[i] + y[i] + c[i]` is
/// `s[i] + 256 * c[i + 1]`, so the numbers add up to the sum plus the last
/// carry times the power of 256.
proof fn lemma_addition_chain(
    x: Seq<int>,
    y: Seq<int>,
    s: Seq<int>,
    c: Seq<int>,
    from: int,
)
    requires
        0 <= from <= x.len(),
        x.len() == y.len(),
        x.len() == s.len(),
        c.len() == x.len() + 1,
        forall|i: int| 0 <= i < x.len() ==> x[i] + y[i] + c[i] == s[i] + 256 * c[i + 1],
    ensures
        digits_value(x, 256, from) + digits_value(y, 256, from) + c[from] == digits_value(
            s,
            256,
            from,
        ) + power(256, (x.len() - from) as nat) * c[x.len() as int],
    decreases x.len() - from,
{
    let last = c[x.len() as int];
    if from < x.len() {
        lemma_addition_chain(x, y, s, c, from + 1);
        let top = power(256, (x.len() - from - 1) as nat);
        assert(power(256, (x.len() - from) as nat) == 256 * top);
        assert(256 * (top * last) == (256 * top) * last) by (nonlinear_arith);
    } else {
        assert(1 * last == last) by (nonlinear_arith);
    }
}

/// The sum of two words modulo `2^256`, and whether it wrapped around.
pub fn overflowing_add(x: &[u8; 32], y: &[u8; 32]) -> (res: ([u8; 32], bool))
    ensures
        bytes_value(x@) + bytes_value(y@) == bytes_value(res.0@) + (if res.1 {
            modulus()
        } else {
            0
        }),
{
    let mut sum: [u8; 32] = [0u8;32];
    let mut carry: u16 = 0;
    let ghost mut carries: Seq<int> = seq![0int];
    let mut i: usize = 0;
    while i < 32
        invariant
            i <= 32,
            carry <= 1,
            carries.len() == i + 1,
            carries[0] == 0,
            carries[i as int] == carry,
            forall|j: int|
                0 <= j < i ==> x[j] + y[j] + #[trigger] carries[j] == sum[j] + 256 * carries[j
                    + 1],
        decreases 32 - i,
    {
        let total: u16 = x[i] as u16 + y[i] as u16 + carry;
        sum[i] = (total % 256) as u8;
        carry = total / 256;
        proof {
            carries = carries.push(carry as int);
        }
        i += 1;
    }
    proof {
        let dx = as_digits(x@);
        let dy = as_digits(y@);
        let ds = as_digits(sum@);
        assert forall|j: int| 0 <= j < 32 implies dx[j] + dy[j] + carries[j] == ds[j] + 256
            * carries[j + 1] by {
            assert(x[j] + y[j] + carries[j] == sum[j] + 256 * carries[j + 1]);
        }
        lemma_addition_chain(dx, dy, ds, carries, 0);
        lemma_powers_of_256();
        if carry == 1 {
            assert(power(256, 32) * 1 == power(256, 32)) by (nonlinear_arith);
        } else {
            assert(power(256, 32) * 0 == 0) by (nonlinear_arith);
        }
    }
    (sum, carry == 1)
}

/// Whether two words have the same bytes.
pub fn same_word(a: &[u8; 32], b: &[u8; 32]) -> (same: bool)
    ensures
        same == (*a == *b),
        same == (bytes_value(a@) == bytes_value(b@)),
{
    let mut i: usize = 0;
    while i < 32
        invariant
            i <= 32,
            forall|j: int| 0 <= j < i ==> a[j] == b[j],
        decreases 32 - i,
    {
        if a[i] != b[i] {
            proof {
                if bytes_value(a@) == bytes_value(b@) {
                    lemma_bytes_unique(*a, *b);
                }
            }
            return false;
        }
        i += 1;
    }
    assert(*a =~= *b);
    true
}

/// Whether a word is 0.
pub fn is_zero_word(a: &[u8; 32]) -> (zero: bool)
    ensures
        zero == (bytes_value(a@) == 0),
{
    let mut i: usize = 0;
    while i < 32
        invariant
            i <= 32,
            forall|j: int| 0 <= j < i ==> as_digits(a@)[j] == 0,
        decreases 32 - i,
    {
        if a[i] != 0 {
            proof {
                assert(as_digits(a@)[i as int] != 0);
                lemma_value_is_zero(as_digits(a@), 256, 0);
            }
            return false;
        }
        i += 1;
    }
    proof {
        lemma_value_is_zero(as_digits(a@), 256, 0);
    }
    true
}

/// A word, a claimed absolute value, and the values derived from them: the
/// sign of the word, and the sum of the two with its carry.
#[derive(Debug)]
pub struct AbsWordGadget {
    x: [u8; 32],
    x_abs: [u8; 32],
    sum: [u8; 32],
    is_neg: bool,
    carry: bool,
}

impl AbsWordGadget {
    #[verifier::type_invariant]
    spec fn derived_values_agree(self) -> bool {
        &&& self.is_neg == (self.x[31] > 127)
        &&& bytes_value(self.x@) + bytes_value(self.x_abs@) == bytes_value(self.sum@) + (
        if self.carry {
            modulus()
        } else {
            0
        })
    }

    /// The word.
    pub closed spec fn word(self) -> [u8; 32] {
        self.x
    }

    /// The claimed absolute value.
    pub closed spec fn claimed(self) -> [u8; 32] {
        self.x_abs
    }

    /// The claim is true: the claimed word is the absolute value of the
    /// word.
    pub open spec fn holds(self) -> bool {
        bytes_value(self.claimed()@) == abs_value(bytes_value(self.word()@))
    }

    /// The gadget with the word 0 and the claimed absolute value 0.
    pub fn construct() -> (gadget: Self)
        ensures
            bytes_value(gadget.word()@) == 0,
            bytes_value(gadget.claimed()@) == 0,
    {
        let zero: [u8; 32] = [0u8;32];
        proof {
            lemma_value_is_zero(as_digits(zero@), 256, 0);
        }
        AbsWordGadget { x: zero, x_abs: zero, sum: zero, is_neg: false, carry: false }
    }

    /// Sets the word and the claimed absolute value, and derives the sign
    /// and the sum.
    pub fn assign(&mut self, x: [u8; 32], x_abs: [u8; 32])
        ensures
            final(self).word() == x,
            final(self).claimed() == x_abs,
    {
        let (sum, carry) = overflowing_add(&x, &x_abs);
        *self = AbsWordGadget { x, x_abs, sum, is_neg: x[31] > 127, carry };
    }

    /// The word.
    pub fn x(&self) -> (word: &[u8; 32])
        ensures
            *word == self.word(),
    {
        &self.x
    }

    /// The claimed absolute value.
    pub fn x_abs(&self) -> (word: &[u8; 32])
        ensures
            *word == self.claimed(),
    {
        &self.x_abs
    }

    /// Whether the word is negative.
    pub fn is_neg(&self) -> (negative: bool)
        ensures
            negative == (bytes_value(self.word()@) >= sign_bound()),
    {
        proof {
            use_type_invariant(self);
            lemma_sign_of_word(self.x);
        }
        self.is_neg
    }

    /// Whether the relations of the gadget hold: for a word that is not
    /// negative, the claimed word is the word itself, half by half; for a
    /// negative word, the sum of the two is 0 with a carry.
    pub fn is_satisfied(&self) -> (ok: bool)
        ensures
            ok == self.holds(),
    {
        proof {
            use_type_invariant(self);
            lemma_sign_of_word(self.x);
            lemma_sign_of_word(self.x_abs);
            lemma_sign_of_word(self.sum);
        }
        if self.is_neg {
            is_zero_word(&self.sum) && self.carry
        } else {
            same_word(&self.x_abs, &self.x)
        }
    }
}

} // verus!
