//! Arbitrary-precision integers held as a sign and canonical decimal digits.

use core::cmp::Ordering;
use vstd::prelude::*;
use vstd::string::*;

verus! {

pub open spec fn pow10(n: nat) -> nat
    decreases n,
{
    if n == 0 {
        1
    } else {
        10 * pow10((n - 1) as nat)
    }
}

/// The value of decimal digits, most significant first.
pub open spec fn digits_value(d: Seq<u8>) -> nat
    decreases d.len(),
{
    if d.len() == 0 {
        0
    } else {
        digits_value(d.drop_last()) * 10 + d.last() as nat
    }
}

pub open spec fn all_digits(d: Seq<u8>) -> bool {
    forall|i: int| 0 <= i < d.len() ==> #[trigger] d[i] < 10
}

/// Decimal digits without a leading zero; zero is the empty sequence.
pub open spec fn canonical_digits(d: Seq<u8>) -> bool {
    all_digits(d) && (d.len() > 0 ==> d[0] != 0)
}

/// A sign and a magnitude that together spell one integer in one way only.
pub open spec fn canonical_int(negative: bool, d: Seq<u8>) -> bool {
    canonical_digits(d) && (negative ==> d.len() > 0)
}

pub open spec fn signed_value(negative: bool, d: Seq<u8>) -> int {
    if negative {
        -(digits_value(d) as int)
    } else {
        digits_value(d) as int
    }
}

pub open spec fn is_digit_char(c: char) -> bool {
    '0' <= c && c <= '9'
}

pub open spec fn char_digit(c: char) -> u8 {
    (c as u32 - '0' as u32) as u8
}

/// One or more decimal digits.
pub open spec fn is_digit_text(s: Seq<char>) -> bool {
    s.len() > 0 && forall|i: int| 0 <= i < s.len() ==> #[trigger] is_digit_char(s[i])
}

/// The text of an integer: decimal digits, with an optional leading minus sign.
pub open spec fn is_int_text(s: Seq<char>) -> bool {
    is_digit_text(s) || (s.len() > 0 && s[0] == '-' && is_digit_text(s.drop_first()))
}

pub open spec fn text_digits(s: Seq<char>) -> Seq<u8> {
    s.map_values(|c: char| char_digit(c))
}

/// The integer that a text accepted by `is_int_text` spells.
pub open spec fn int_text_value(s: Seq<char>) -> int {
    if s.len() > 0 && s[0] == '-' {
        -(digits_value(text_digits(s.drop_first())) as int)
    } else {
        digits_value(text_digits(s)) as int
    }
}

/// An integer of any magnitude.
#[derive(Clone, Debug, PartialEq, Eq, Hash)]
pub struct Int {
    pub negative: bool,
    /// Decimal digits of the magnitude, most significant first.
    pub digits: Vec<u8>,
}

impl View for Int {
    type V = int;

    open spec fn view(&self) -> int {
        signed_value(self.negative, self.digits@)
    }
}

proof fn lemma_pow10_positive(n: nat)
    ensures
        pow10(n) >= 1,
    decreases n,
{
    if n > 0 {
        lemma_pow10_positive((n - 1) as nat);
    }
}

proof fn lemma_pow10_monotone(a: nat, b: nat)
    requires
        a <= b,
    ensures
        pow10(a) <= pow10(b),
    decreases b,
{
    if a < b {
        lemma_pow10_monotone(a, (b - 1) as nat);
    }
}

proof fn lemma_digits_upper(d: Seq<u8>)
    requires
        all_digits(d),
    ensures
        digits_value(d) < pow10(d.len()),
    decreases d.len(),
{
    if d.len() > 0 {
        let p = d.drop_last();
        assert(all_digits(p)) by {
            assert forall|i: int| 0 <= i < p.len() implies #[trigger] p[i] < 10 by {
                assert(p[i] == d[i]);
            }
        }
        lemma_digits_upper(p);
        let v = digits_value(p);
        let q = pow10(p.len());
        let l = d.last() as nat;
        assert(l < 10);
        assert(v * 10 + l < 10 * q) by (nonlinear_arith)
            requires
                v < q,
                l < 10,
        ;
    }
}

proof fn lemma_digits_lower(d: Seq<u8>)
    requires
        canonical_digits(d),
        d.len() > 0,
    ensures
        digits_value(d) >= pow10((d.len() - 1) as nat),
    decreases d.len(),
{
    let p = d.drop_last();
    if d.len() == 1 {
        assert(d.last() == d[0]);
    } else {
        assert(p[0] == d[0]);
        assert(canonical_digits(p)) by {
            assert forall|i: int| 0 <= i < p.len() implies #[trigger] p[i] < 10 by {
                assert(p[i] == d[i]);
            }
        }
        lemma_digits_lower(p);
        let v = digits_value(p);
        let q = pow10((p.len() - 1) as nat);
        assert(v * 10 + d.last() as nat >= 10 * q) by (nonlinear_arith)
            requires
                v >= q,
        ;
    }
}

proof fn lemma_digits_split(a: Seq<u8>, b: Seq<u8>)
    ensures
        digits_value(a + b) == digits_value(a) * pow10(b.len()) + digits_value(b),
    decreases b.len(),
{
    if b.len() == 0 {
        assert(a + b =~= a);
        assert(pow10(0) == 1);
        assert(digits_value(b) == 0);
    } else {
        let b1 = b.drop_last();
        assert((a + b).drop_last() =~= a + b1);
        assert((a + b).last() == b.last());
        lemma_digits_split(a, b1);
        let va = digits_value(a);
        let vb1 = digits_value(b1);
        let q = pow10(b1.len());
        let l = b.last() as nat;
        assert((va * q + vb1) * 10 + l == va * (10 * q) + (vb1 * 10 + l)) by (nonlinear_arith);
    }
}

/// Equal-length digit sequences are ordered by their first difference.
proof fn lemma_first_difference(a: Seq<u8>, b: Seq<u8>, i: int)
    requires
        all_digits(a),
        all_digits(b),
        a.len() == b.len(),
        0 <= i < a.len(),
        a.subrange(0, i) == b.subrange(0, i),
        a[i] < b[i],
    ensures
        digits_value(a) < digits_value(b),
{
    let n = a.len() as int;
    let pa = a.subrange(0, i + 1);
    let pb = b.subrange(0, i + 1);
    let ra = a.subrange(i + 1, n);
    let rb = b.subrange(i + 1, n);
    assert(a =~= pa + ra);
    assert(b =~= pb + rb);
    lemma_digits_split(pa, ra);
    lemma_digits_split(pb, rb);
    assert(pa.drop_last() =~= a.subrange(0, i));
    assert(pb.drop_last() =~= b.subrange(0, i));
    assert(all_digits(ra)) by {
        assert forall|j: int| 0 <= j < ra.len() implies #[trigger] ra[j] < 10 by {
            assert(ra[j] == a[i + 1 + j]);
        }
    }
    lemma_digits_upper(ra);
    let v = digits_value(a.subrange(0, i));
    let x = a[i] as nat;
    let y = b[i] as nat;
    let p = pow10(ra.len());
    let va = digits_value(ra);
    let vb = digits_value(rb);
    assert(digits_value(pa) == v * 10 + x);
    assert(digits_value(pb) == v * 10 + y);
    assert((v * 10 + x) * p + va < (v * 10 + y) * p + vb) by (nonlinear_arith)
        requires
            va < p,
            x < y,
    ;
}

/// Compares two canonical magnitudes.
fn compare_digits(a: &Vec<u8>, b: &Vec<u8>) -> (r: Ordering)
    requires
        canonical_digits(a@),
        canonical_digits(b@),
    ensures
        r == Ordering::Less <==> digits_value(a@) < digits_value(b@),
        r == Ordering::Equal <==> digits_value(a@) == digits_value(b@),
        r == Ordering::Greater <==> digits_value(a@) > digits_value(b@),
{
    if a.len() < b.len() {
        proof {
            lemma_digits_upper(a@);
            lemma_digits_lower(b@);
            lemma_pow10_monotone(a.len() as nat, (b.len() - 1) as nat);
        }
        return Ordering::Less;
    }
    if a.len() > b.len() {
        proof {
            lemma_digits_upper(b@);
            lemma_digits_lower(a@);
            lemma_pow10_monotone(b.len() as nat, (a.len() - 1) as nat);
        }
        return Ordering::Greater;
    }
    let mut i: usize = 0;
    while i < a.len()
        invariant
            a.len() == b.len(),
            0 <= i <= a.len(),
            canonical_digits(a@),
            canonical_digits(b@),
            a@.subrange(0, i as int) == b@.subrange(0, i as int),
        decreases a.len() - i,
    {
        if a[i] < b[i] {
            proof {
                lemma_first_difference(a@, b@, i as int);
            }
            return Ordering::Less;
        }
        if a[i] > b[i] {
            proof {
                lemma_first_difference(b@, a@, i as int);
            }
            return Ordering::Greater;
        }
        assert(a@.subrange(0, i + 1) =~= a@.subrange(0, i as int).push(a@[i as int]));
        assert(b@.subrange(0, i + 1) =~= b@.subrange(0, i as int).push(b@[i as int]));
        i = i + 1;
    }
    assert(a@ =~= a@.subrange(0, a.len() as int));
    assert(b@ =~= b@.subrange(0, b.len() as int));
    Ordering::Equal
}

impl Int {
    pub open spec fn wf(&self) -> bool {
        canonical_int(self.negative, self.digits@)
    }

    /// Reads the text of an integer; `None` where the text is not one.
    pub fn parse(s: &str) -> (r: Option<Int>)
        ensures
            r is Some <==> is_int_text(s@),
            r matches Some(v) ==> v.wf() && v@ == int_text_value(s@),
    {
        let n = s.unicode_len();
        let start: usize = if n > 0 && s.get_char(0) == '-' {
            1
        } else {
            0
        };
        if n <= start {
            proof {
                if n > 0 {
                    assert(!is_digit_char(s@[0]));
                    assert(s@.drop_first().len() == 0);
                }
            }
            return None;
        }
        let ghost body = s@.subrange(start as int, n as int);
        let mut digits: Vec<u8> = Vec::new();
        let mut i: usize = start;
        assert(text_digits(s@.subrange(start as int, start as int)) =~= Seq::<u8>::empty());
        while i < n
            invariant
                n == s@.len(),
                start <= i <= n,
                start == 0 || start == 1,
                start == 1 <==> s@[0] == '-',
                canonical_digits(digits@),
                forall|j: int| start <= j < i ==> #[trigger] is_digit_char(s@[j]),
                digits_value(digits@) == digits_value(text_digits(s@.subrange(start as int, i as int))),
            decreases n - i,
        {
            let c = s.get_char(i);
            if !('0' <= c && c <= '9') {
                proof {
                    assert(!is_digit_char(s@[i as int]));
                    if start == 0 {
                        assert(!is_digit_text(s@));
                    } else {
                        assert(s@.drop_first()[i - 1] == c);
                        assert(!is_digit_text(s@));
                        assert(!is_digit_text(s@.drop_first()));
                    }
                }
                return None;
            }
            let d = ((c as u32) - ('0' as u32)) as u8;
            let ghost prefix = text_digits(s@.subrange(start as int, i as int));
            let ghost next = text_digits(s@.subrange(start as int, i + 1));
            proof {
                assert(next =~= prefix.push(d));
                assert(next.drop_last() =~= prefix);
            }
            if digits.len() > 0 || d != 0 {
                proof {
                    assert(digits@.push(d).drop_last() =~= digits@);
                }
                digits.push(d);
                proof {
                    assert(canonical_digits(digits@)) by {
                        assert forall|j: int| 0 <= j < digits@.len() implies #[trigger] digits@[j] < 10 by {
                            if j < digits@.len() - 1 {
                                assert(digits@[j] == digits@.drop_last()[j]);
                            }
                        }
                    }
                }
            }
            i = i + 1;
        }
        let negative = start == 1 && digits.len() > 0;
        proof {
            if start == 0 {
                assert(s@.subrange(0, n as int) =~= s@);
                assert(is_digit_text(s@));
            } else {
                assert(s@.subrange(1, n as int) =~= s@.drop_first());
                assert(is_digit_text(s@.drop_first())) by {
                    assert forall|j: int| 0 <= j < s@.drop_first().len() implies #[trigger] is_digit_char(s@.drop_first()[j]) by {
                        assert(s@.drop_first()[j] == s@[j + 1]);
                    }
                }
            }
        }
        Some(Int { negative, digits })
    }

    /// Orders two integers by value.
    pub fn compare(&self, other: &Int) -> (r: Ordering)
        requires
            self.wf(),
            other.wf(),
        ensures
            r == Ordering::Less <==> self@ < other@,
            r == Ordering::Equal <==> self@ == other@,
            r == Ordering::Greater <==> self@ > other@,
    {
        proof {
            if self.negative {
                lemma_digits_lower(self.digits@);
                lemma_pow10_positive((self.digits@.len() - 1) as nat);
            }
            if other.negative {
                lemma_digits_lower(other.digits@);
                lemma_pow10_positive((other.digits@.len() - 1) as nat);
            }
        }
        if self.negative && !other.negative {
            Ordering::Less
        } else if !self.negative && other.negative {
            Ordering::Greater
        } else if self.negative {
            compare_digits(&other.digits, &self.digits)
        } else {
            compare_digits(&self.digits, &other.digits)
        }
    }

    pub fn less_than(&self, other: &Int) -> (r: bool)
        requires
            self.wf(),
            other.wf(),
        ensures
            r == (self@ < other@),
    {
        matches!(self.compare(other), Ordering::Less)
    }

    pub fn equals(&self, other: &Int) -> (r: bool)
        requires
            self.wf(),
            other.wf(),
        ensures
            r == (self@ == other@),
    {
        matches!(self.compare(other), Ordering::Equal)
    }

    /// A copy of this integer.
    pub fn duplicate(&self) -> (r: Int)
        ensures
            r.negative == self.negative,
            r.digits@ == self.digits@,
    {
        let digits = self.digits.clone();
        proof {
            assert(digits@ =~= self.digits@);
        }
        Int { negative: self.negative, digits }
    }
}

} // verus!
