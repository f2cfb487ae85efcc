use vstd::prelude::*;

verus! {

/// One more than the largest 64-bit digit.
pub open spec fn digit_base() -> int {
    0x1_0000_0000_0000_0000
}

/// The number that little-endian base-2^64 digits stand for.
pub open spec fn digits_value(s: Seq<u64>) -> int
    decreases s.len(),
{
    if s.len() == 0 {
        0
    } else {
        s[0] as int + digit_base() * digits_value(s.drop_first())
    }
}

/// An integer literal of any size: a sign and a magnitude in base 2^64,
/// least significant digit first.
#[derive(Clone, Debug)]
pub struct IntLiteral {
    pub negative: bool,
    pub magnitude: Vec<u64>,
}

proof fn lemma_digits_nonneg(s: Seq<u64>)
    ensures
        digits_value(s) >= 0,
    decreases s.len(),
{
    if s.len() > 0 {
        lemma_digits_nonneg(s.drop_first());
    }
}

proof fn lemma_digits_zero(s: Seq<u64>)
    requires
        forall|k: int| 0 <= k < s.len() ==> s[k] == 0,
    ensures
        digits_value(s) == 0,
    decreases s.len(),
{
    if s.len() > 0 {
        lemma_digits_zero(s.drop_first());
    }
}

proof fn lemma_digits_positive(s: Seq<u64>, k: int)
    requires
        0 <= k < s.len(),
        s[k] != 0,
    ensures
        digits_value(s) >= 1,
    decreases s.len(),
{
    lemma_digits_nonneg(s.drop_first());
    if k > 0 {
        lemma_digits_positive(s.drop_first(), k - 1);
    }
}

impl IntLiteral {
    /// The integer this literal denotes.
    pub open spec fn value(&self) -> int {
        if self.negative {
            -digits_value(self.magnitude@)
        } else {
            digits_value(self.magnitude@)
        }
    }

    /// The literal as a 64-bit integer, when it fits in one.
    pub open spec fn as_i64(&self) -> Option<i64> {
        if i64::MIN <= self.value() <= i64::MAX {
            Some(self.value() as i64)
        } else {
            None
        }
    }

    /// Converts to `i64`; `None` when the value is out of its range.
    pub fn to_i64(&self) -> (r: Option<i64>)
        ensures
            r == self.as_i64(),
    {
        let n = self.magnitude.len();
        if n == 0 {
            proof {
                lemma_digits_zero(self.magnitude@);
            }
            return Some(0);
        }
        let mut i: usize = 1;
        while i < n
            invariant
                1 <= i <= n,
                n == self.magnitude@.len(),
                forall|k: int| 1 <= k < i ==> self.magnitude@[k] == 0,
            decreases n - i,
        {
            if self.magnitude[i] != 0 {
                proof {
                    let s = self.magnitude@;
                    lemma_digits_positive(s.drop_first(), i - 1);
                    assert(digits_value(s) == s[0] as int + digit_base() * digits_value(
                        s.drop_first(),
                    ));
                    assert(digits_value(s) >= digit_base()) by (nonlinear_arith)
                        requires
                            digits_value(s) == s[0] as int + digit_base() * digits_value(
                                s.drop_first(),
                            ),
                            digits_value(s.drop_first()) >= 1,
                            s[0] >= 0,
                            digit_base() > 0,
                    ;
                }
                return None;
            }
            i = i + 1;
        }
        let d = self.magnitude[0];
        proof {
            let s = self.magnitude@;
            assert forall|k: int| 0 <= k < s.drop_first().len() implies s.drop_first()[k]
                == 0 by {
                assert(s.drop_first()[k] == s[k + 1]);
            }
            lemma_digits_zero(s.drop_first());
            assert(digits_value(s) == d as int);
        }
        if self.negative {
            if d <= 0x7fff_ffff_ffff_ffff {
                Some(-(d as i64))
            } else if d == 0x8000_0000_0000_0000 {
                Some(i64::MIN)
            } else {
                None
            }
        } else if d <= 0x7fff_ffff_ffff_ffff {
            Some(d as i64)
        } else {
            None
        }
    }
}

} // verus!
