use vstd::arithmetic::mul::lemma_mul_is_associative;
use vstd::prelude::*;

verus! {

/// The most decimal places that an amount can carry.
pub const MAX_SCALE: u32 = 28;

/// `10^n`.
pub open spec fn pow10(n: nat) -> int
    decreases n,
{
    if n == 0 {
        1
    } else {
        10 * pow10((n - 1) as nat)
    }
}

/// Whether an integer can be held by an `i128`.
pub open spec fn in_range(x: int) -> bool {
    i128::MIN <= x <= i128::MAX
}

proof fn lemma_pow10_monotonic(a: nat, b: nat)
    requires
        a <= b,
    ensures
        1 <= pow10(a) <= pow10(b),
    decreases b,
{
    if a < b {
        lemma_pow10_monotonic(a, (b - 1) as nat);
    } else if a > 0 {
        lemma_pow10_monotonic((a - 1) as nat, (a - 1) as nat);
    }
}

proof fn lemma_pow10_add(a: nat, b: nat)
    ensures
        pow10(a + b) == pow10(a) * pow10(b),
    decreases a,
{
    if a > 0 {
        lemma_pow10_add((a - 1) as nat, b);
        assert(pow10(a + b) == 10 * pow10((a - 1 + b) as nat));
        lemma_mul_is_associative(10, pow10((a - 1) as nat), pow10(b));
    }
}

/// `m * 10^(28 - from)` is `m * 10^(to - from)` at scale `to`.
proof fn lemma_rescaled(m: int, from: nat, to: nat)
    requires
        from <= to <= 28,
    ensures
        m * pow10((28 - from) as nat) == (m * pow10((to - from) as nat)) * pow10((28 - to) as nat),
{
    lemma_pow10_add((to - from) as nat, (28 - to) as nat);
    assert((to - from) as nat + (28 - to) as nat == (28 - from) as nat);
    lemma_mul_is_associative(m, pow10((to - from) as nat), pow10((28 - to) as nat));
}

proof fn lemma_scaled_order(x: int, y: int, q: int)
    requires
        q >= 1,
    ensures
        (x * q >= y * q) == (x >= y),
        (x * q == y * q) == (x == y),
        x * q + y * q == (x + y) * q,
        x * q - y * q == (x - y) * q,
{
    assert((x * q >= y * q) == (x >= y)) by (nonlinear_arith)
        requires
            q >= 1,
    ;
    assert((x * q == y * q) == (x == y)) by (nonlinear_arith)
        requires
            q >= 1,
    ;
    assert(x * q + y * q == (x + y) * q) by (nonlinear_arith);
    assert(x * q - y * q == (x - y) * q) by (nonlinear_arith);
}

/// An exact decimal amount: `mantissa / 10^scale`, with a scale of at most
/// 28 places, as a decimal has.
#[derive(Clone, Copy, Debug)]
pub struct Amount {
    mantissa: i128,
    scale: u32,
}

impl View for Amount {
    type V = int;

    /// The amount in units of `10^-28`.
    closed spec fn view(&self) -> int {
        self.mantissa * pow10((MAX_SCALE - self.scale) as nat)
    }
}

impl Amount {
    #[verifier::type_invariant]
    spec fn inv(self) -> bool {
        self.scale <= MAX_SCALE
    }

    /// The scale is one that a decimal can have.
    pub open spec fn valid(self) -> bool {
        self.parts().1 <= MAX_SCALE
    }

    /// The mantissa and the scale.
    pub closed spec fn parts(self) -> (int, nat) {
        (self.mantissa as int, self.scale as nat)
    }

    /// The amount `m / 10^e`.
    pub closed spec fn with_parts(m: int, e: nat) -> Amount {
        Amount { mantissa: m as i128, scale: e as u32 }
    }

    /// Zero, with no decimal places.
    pub open spec fn nothing() -> Amount {
        Amount::with_parts(0, 0)
    }

    /// `self + o`, computed at the larger of the two scales, where each
    /// rescaled mantissa and their sum fit in an `i128`.
    pub open spec fn sum(self, o: Amount) -> Option<Amount> {
        let (ma, sa) = self.parts();
        let (mb, sb) = o.parts();
        let s = if sa >= sb {
            sa
        } else {
            sb
        };
        let x = ma * pow10((s - sa) as nat);
        let y = mb * pow10((s - sb) as nat);
        if self.valid() && o.valid() && in_range(x) && in_range(y) && in_range(x + y) {
            Some(Amount::with_parts(x + y, s))
        } else {
            None
        }
    }

    /// `self - o`, computed as `sum` is.
    pub open spec fn diff(self, o: Amount) -> Option<Amount> {
        let (ma, sa) = self.parts();
        let (mb, sb) = o.parts();
        let s = if sa >= sb {
            sa
        } else {
            sb
        };
        let x = ma * pow10((s - sa) as nat);
        let y = mb * pow10((s - sb) as nat);
        if self.valid() && o.valid() && in_range(x) && in_range(y) && in_range(x - y) {
            Some(Amount::with_parts(x - y, s))
        } else {
            None
        }
    }

    pub open spec fn add_fits(self, o: Amount) -> bool {
        self.sum(o) is Some
    }

    pub open spec fn sub_fits(self, o: Amount) -> bool {
        self.diff(o) is Some
    }

    pub open spec fn plus(self, o: Amount) -> Amount {
        match self.sum(o) {
            Some(r) => r,
            None => self,
        }
    }

    pub open spec fn minus(self, o: Amount) -> Amount {
        match self.diff(o) {
            Some(r) => r,
            None => self,
        }
    }

    pub fn zero() -> (r: Amount)
        ensures
            r == Amount::nothing(),
            r@ == 0,
            r.valid(),
    {
        Amount { mantissa: 0, scale: 0 }
    }

    /// The amount of `n` whole currency units.
    pub fn from_whole(n: i64) -> (r: Amount)
        ensures
            r.parts() == (n as int, 0nat),
            r@ == n * pow10(MAX_SCALE as nat),
            r.valid(),
    {
        Amount { mantissa: n as i128, scale: 0 }
    }

    pub fn mantissa(&self) -> (r: i128)
        ensures
            r == self.parts().0,
    {
        self.mantissa
    }

    pub fn scale(&self) -> (r: u32)
        ensures
            r == self.parts().1,
            r <= MAX_SCALE,
    {
        proof {
            use_type_invariant(self);
        }
        self.scale
    }

    /// The same value with trailing zero decimal places dropped: the scale
    /// is then zero or the mantissa is not a multiple of ten.
    pub fn trimmed(&self) -> (r: Amount)
        ensures
            r@ == self@,
            r.valid(),
            r.parts().1 <= self.parts().1,
            r.parts().1 == 0 || r.parts().0 % 10 != 0,
    {
        proof {
            use_type_invariant(self);
        }
        let mut m = self.mantissa;
        let mut s = self.scale;
        while s > 0
            invariant
                s <= self.scale <= MAX_SCALE,
                m * pow10((MAX_SCALE - s) as nat) == self@,
            ensures
                s == 0 || m % 10 != 0,
                s <= self.scale <= MAX_SCALE,
                m * pow10((MAX_SCALE - s) as nat) == self@,
            decreases s,
        {
            if m.checked_rem_euclid(10) != Some(0i128) {
                break;
            }
            let q = match m.checked_div_euclid(10) {
                Some(q) => q,
                None => break,
            };
            proof {
                let k = pow10((MAX_SCALE - s) as nat);
                assert(pow10((MAX_SCALE - (s - 1)) as nat) == 10 * k);
                assert(m == 10 * q);
                assert(q * (10 * k) == (10 * q) * k) by (nonlinear_arith);
            }
            m = q;
            s = s - 1;
        }
        Amount { mantissa: m, scale: s }
    }

    /// `self + o`, where it can be represented.
    pub fn checked_add(&self, o: &Amount) -> (r: Option<Amount>)
        ensures
            r == self.sum(*o),
            r matches Some(x) ==> x@ == self@ + o@ && x.valid(),
    {
        proof {
            use_type_invariant(self);
            use_type_invariant(o);
        }
        let s = if self.scale >= o.scale {
            self.scale
        } else {
            o.scale
        };
        let x = match rescale(self.mantissa, s - self.scale) {
            Some(x) => x,
            None => return None,
        };
        let y = match rescale(o.mantissa, s - o.scale) {
            Some(y) => y,
            None => return None,
        };
        match x.checked_add(y) {
            Some(m) => {
                proof {
                    lemma_sum_value(*self, *o);
                }
                Some(Amount { mantissa: m, scale: s })
            },
            None => None,
        }
    }

    /// `self - o`, where it can be represented.
    pub fn checked_sub(&self, o: &Amount) -> (r: Option<Amount>)
        ensures
            r == self.diff(*o),
            r matches Some(x) ==> x@ == self@ - o@ && x.valid(),
    {
        proof {
            use_type_invariant(self);
            use_type_invariant(o);
        }
        let s = if self.scale >= o.scale {
            self.scale
        } else {
            o.scale
        };
        let x = match rescale(self.mantissa, s - self.scale) {
            Some(x) => x,
            None => return None,
        };
        let y = match rescale(o.mantissa, s - o.scale) {
            Some(y) => y,
            None => return None,
        };
        match x.checked_sub(y) {
            Some(m) => {
                proof {
                    lemma_diff_value(*self, *o);
                }
                Some(Amount { mantissa: m, scale: s })
            },
            None => None,
        }
    }

    /// Whether `self >= o`, by value.
    pub fn ge(&self, o: &Amount) -> (r: bool)
        ensures
            r == (self@ >= o@),
    {
        proof {
            use_type_invariant(self);
            use_type_invariant(o);
        }
        let s = if self.scale >= o.scale {
            self.scale
        } else {
            o.scale
        };
        let ghost p = pow10((s - self.scale) as nat);
        let ghost q = pow10((s - o.scale) as nat);
        let ghost k = pow10((MAX_SCALE - s) as nat);
        proof {
            lemma_rescaled(self.mantissa as int, self.scale as nat, s as nat);
            lemma_rescaled(o.mantissa as int, o.scale as nat, s as nat);
            lemma_pow10_monotonic(0, (MAX_SCALE - s) as nat);
            lemma_pow10_monotonic(0, (s - self.scale) as nat);
            lemma_pow10_monotonic(0, (s - o.scale) as nat);
        }
        let x = rescale(self.mantissa, s - self.scale);
        let y = rescale(o.mantissa, s - o.scale);
        match (x, y) {
            (Some(x), Some(y)) => {
                proof {
                    lemma_scaled_order(x as int, y as int, k);
                }
                x >= y
            },
            (None, _) => {
                // only the amount with the smaller scale is rescaled
                assert(o.scale == s);
                assert(y == Some(o.mantissa));
                let ghost big = self.mantissa * p;
                proof {
                    assert(self.mantissa > 0 ==> big >= self.mantissa) by (nonlinear_arith)
                        requires
                            p >= 1,
                            big == self.mantissa * p,
                    ;
                    assert(self.mantissa <= 0 ==> big <= 0) by (nonlinear_arith)
                        requires
                            p >= 1,
                            big == self.mantissa * p,
                    ;
                    lemma_scaled_order(big, o.mantissa as int, k);
                }
                self.mantissa > 0
            },
            (_, None) => {
                assert(self.scale == s);
                let ghost big = o.mantissa * q;
                proof {
                    assert(o.mantissa > 0 ==> big >= o.mantissa) by (nonlinear_arith)
                        requires
                            q >= 1,
                            big == o.mantissa * q,
                    ;
                    assert(o.mantissa <= 0 ==> big <= 0) by (nonlinear_arith)
                        requires
                            q >= 1,
                            big == o.mantissa * q,
                    ;
                    lemma_scaled_order(self.mantissa as int, big, k);
                }
                o.mantissa < 0
            },
        }
    }
}

/// Two amounts are equal when their values are, whatever their scales.
impl PartialEq for Amount {
    fn eq(&self, o: &Amount) -> (r: bool) {
        self.ge(o) && o.ge(self)
    }
}

impl vstd::std_specs::cmp::PartialEqSpecImpl for Amount {
    open spec fn obeys_eq_spec() -> bool {
        true
    }

    open spec fn eq_spec(&self, o: &Amount) -> bool {
        self@ == o@
    }
}

/// `m * 10^by`, where an `i128` holds it.
fn rescale(m: i128, by: u32) -> (r: Option<i128>)
    requires
        by <= MAX_SCALE,
    ensures
        r == if in_range(m * pow10(by as nat)) {
            Some((m * pow10(by as nat)) as i128)
        } else {
            None::<i128>
        },
{
    m.checked_mul(pow10_exec(by))
}

/// `10^n` for `n <= 28`.
fn pow10_exec(n: u32) -> (r: i128)
    requires
        n <= MAX_SCALE,
    ensures
        r == pow10(n as nat),
{
    proof {
        reveal_with_fuel(pow10, 29);
        lemma_pow10_monotonic(n as nat, 28);
    }
    let mut p: i128 = 1;
    let mut i: u32 = 0;
    while i < n
        invariant
            i <= n <= 28,
            p == pow10(i as nat),
            pow10(n as nat) <= pow10(28),
            pow10(28) == 10000000000000000000000000000,
        decreases n - i,
    {
        proof {
            lemma_pow10_monotonic((i + 1) as nat, n as nat);
        }
        p = p * 10;
        i = i + 1;
    }
    p
}

/// A representable sum has the sum of the values.
pub proof fn lemma_sum_value(a: Amount, b: Amount)
    requires
        a.add_fits(b),
    ensures
        a.plus(b)@ == a@ + b@,
{
    let s = if a.scale >= b.scale {
        a.scale
    } else {
        b.scale
    };
    lemma_rescaled(a.mantissa as int, a.scale as nat, s as nat);
    lemma_rescaled(b.mantissa as int, b.scale as nat, s as nat);
    lemma_pow10_monotonic(0, (MAX_SCALE - s) as nat);
    lemma_scaled_order(
        a.mantissa * pow10((s - a.scale) as nat),
        b.mantissa * pow10((s - b.scale) as nat),
        pow10((MAX_SCALE - s) as nat),
    );
}

/// A representable difference has the difference of the values.
pub proof fn lemma_diff_value(a: Amount, b: Amount)
    requires
        a.sub_fits(b),
    ensures
        a.minus(b)@ == a@ - b@,
{
    let s = if a.scale >= b.scale {
        a.scale
    } else {
        b.scale
    };
    lemma_rescaled(a.mantissa as int, a.scale as nat, s as nat);
    lemma_rescaled(b.mantissa as int, b.scale as nat, s as nat);
    lemma_pow10_monotonic(0, (MAX_SCALE - s) as nat);
    lemma_scaled_order(
        a.mantissa * pow10((s - a.scale) as nat),
        b.mantissa * pow10((s - b.scale) as nat),
        pow10((MAX_SCALE - s) as nat),
    );
}

/// Taking `b` away and adding it back can always be represented.
pub proof fn lemma_diff_then_sum(a: Amount, b: Amount)
    requires
        a.sub_fits(b),
    ensures
        a.minus(b).add_fits(b),
{
    let m = a.minus(b);
    assert(m.parts().1 >= b.parts().1);
    assert(pow10(0) == 1);
    assert(m.parts().0 * pow10(0) == m.parts().0);
}

/// Adding `b` and taking it away again can always be represented.
pub proof fn lemma_sum_then_diff(a: Amount, b: Amount)
    requires
        a.add_fits(b),
    ensures
        a.plus(b).sub_fits(b),
{
}

/// An amount built from parts has those parts.
pub proof fn lemma_with_parts(m: int, e: nat)
    requires
        in_range(m),
        e <= MAX_SCALE,
    ensures
        Amount::with_parts(m, e).parts() == (m, e),
        Amount::with_parts(m, e)@ == m * pow10((MAX_SCALE - e) as nat),
{
}

/// The value of an amount is its mantissa at scale 28.
pub proof fn lemma_value(a: Amount)
    ensures
        a@ == a.parts().0 * pow10((MAX_SCALE - a.parts().1) as nat),
{
}

/// Zero has value zero.
pub proof fn lemma_nothing_value()
    ensures
        Amount::nothing()@ == 0,
{
    assert(0int * pow10(MAX_SCALE as nat) == 0);
}

/// Zero has value zero, and adding a valid amount to it can be represented.
pub proof fn lemma_nothing_sum(a: Amount)
    requires
        a.valid(),
    ensures
        Amount::nothing()@ == 0,
        Amount::nothing().add_fits(a),
{
    lemma_pow10_monotonic(0, a.scale as nat);
    assert(0 * pow10(a.scale as nat) == 0);
    assert(pow10(0) == 1);
    assert(a.mantissa * pow10(0) == a.mantissa);
    assert(0int * pow10(MAX_SCALE as nat) == 0);
}

/// The amount `mantissa / 10^scale`, where the scale is one that a decimal
/// can have.
pub fn amount_from_parts(mantissa: i128, scale: u32) -> (r: Option<Amount>)
    ensures
        r is Some <==> scale <= MAX_SCALE,
        r matches Some(a) ==> a == Amount::with_parts(mantissa as int, scale as nat) && a.parts() == (
        mantissa as int, scale as nat) && a@ == mantissa * pow10((MAX_SCALE - scale) as nat),
{
    if scale <= MAX_SCALE {
        Some(Amount { mantissa, scale })
    } else {
        None
    }
}

/// The mantissa and scale of the decimal that `rust_decimal` reads from `s`,
/// or `None` where it reads none.
pub uninterp spec fn decimal_of(s: Seq<char>) -> Option<(int, nat)>;

/// Relies on `<rust_decimal::Decimal as FromStr>::from_str` to read a decimal
/// from text, and on `Decimal::mantissa` and `Decimal::scale` to take the
/// result apart; what is read depends on the text alone, and a decimal's
/// scale is at most 28.
#[verifier::external_body]
fn parse_decimal(s: &str) -> (r: Option<(i128, u32)>)
    ensures
        match r {
            Some((m, e)) => decimal_of(s@) == Some((m as int, e as nat)) && e <= 28,
            None => decimal_of(s@) is None,
        },
{
    match s.parse::<rust_decimal::Decimal>() {
        Ok(d) => Some((d.mantissa(), d.scale())),
        Err(_) => None,
    }
}

/// The amount that the text `s` denotes, where it is a decimal.
pub open spec fn amount_of(s: Seq<char>) -> Option<Amount> {
    match decimal_of(s) {
        Some((m, e)) => Some(Amount::with_parts(m, e)),
        None => None,
    }
}

/// Reads an amount from decimal text such as `"12.5"`, keeping its mantissa
/// and scale.
pub fn parse_amount(s: &str) -> (r: Option<Amount>)
    ensures
        r == amount_of(s@),
        r is Some <==> decimal_of(s@) is Some,
        r matches Some(a) ==> decimal_of(s@) == Some(a.parts()),
{
    match parse_decimal(s) {
        Some((m, e)) => amount_from_parts(m, e),
        None => None,
    }
}

} // verus!
