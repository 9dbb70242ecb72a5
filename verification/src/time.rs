//! Instants and durations counted in clock ticks.

use crate::task::Context;
use crate::task::Poll;
use crate::task::Task;
use vstd::prelude::*;
use vstd::std_specs::ops::AddSpecImpl;
use vstd::std_specs::ops::DivSpecImpl;
use vstd::std_specs::ops::MulSpecImpl;
use vstd::std_specs::ops::SubSpecImpl;

verus! {

/// Whether `t` is a tick count that an `Instant` or a `Duration` can hold.
pub open spec fn fits(t: int) -> bool {
    i64::MIN <= t <= i64::MAX
}

/// The quotient that rounds toward zero, as the machine's signed division does.
pub open spec fn div_toward_zero(a: int, b: int) -> int
    recommends
        b != 0,
{
    if a >= 0 {
        a / b
    } else {
        -((-a) / b)
    }
}

/// The quotient toward zero leaves a remainder that is smaller than the divisor and has
/// the sign of the dividend.
pub proof fn lemma_div_toward_zero(a: int, b: int)
    requires
        b != 0,
    ensures
        ({
            let r = a - div_toward_zero(a, b) * b;
            &&& (a >= 0 ==> 0 <= r)
            &&& (a <= 0 ==> r <= 0)
            &&& (b > 0 ==> -b < r < b)
            &&& (b < 0 ==> b < r < -b)
        }),
{
    if a >= 0 {
        vstd::arithmetic::div_mod::lemma_fundamental_div_mod(a, b);
        assert(a == b * (a / b) + a % b);
        assert(0 <= a % b);
        if b > 0 {
            vstd::arithmetic::div_mod::lemma_mod_bound(a, b);
        } else {
            lemma_mod_neg_bound(a, b);
        }
        assert((a / b) * b == b * (a / b)) by (nonlinear_arith);
        if a == 0 {
            assert(0int % b == 0) by (nonlinear_arith)
                requires
                    b != 0,
            ;
        }
    } else {
        let n = -a;
        vstd::arithmetic::div_mod::lemma_fundamental_div_mod(n, b);
        assert(n == b * (n / b) + n % b);
        if b > 0 {
            vstd::arithmetic::div_mod::lemma_mod_bound(n, b);
        } else {
            lemma_mod_neg_bound(n, b);
        }
        assert((-(n / b)) * b == -(b * (n / b))) by (nonlinear_arith);
    }
}

/// The quotient toward zero of a tick count fits, but for the one quotient that the
/// machine cannot hold.
pub proof fn lemma_div_fits(a: int, b: int)
    requires
        fits(a),
        b != 0,
        !(a == i64::MIN && b == -1),
    ensures
        fits(div_toward_zero(a, b)),
{
    lemma_div_toward_zero(a, b);
    let q = div_toward_zero(a, b);
    let r = a - q * b;
    if b > 0 {
        assert(-0x8000_0000_0000_0000 <= q <= 0x7fff_ffff_ffff_ffff) by (nonlinear_arith)
            requires
                b > 0,
                r == a - q * b,
                -b < r < b,
                a >= 0 ==> r >= 0,
                a <= 0 ==> r <= 0,
                -0x8000_0000_0000_0000 <= a <= 0x7fff_ffff_ffff_ffff,
        ;
    } else {
        assert(-0x8000_0000_0000_0000 <= q <= 0x7fff_ffff_ffff_ffff) by (nonlinear_arith)
            requires
                b < 0,
                r == a - q * b,
                b < r < -b,
                a >= 0 ==> r >= 0,
                a <= 0 ==> r <= 0,
                -0x8000_0000_0000_0000 <= a <= 0x7fff_ffff_ffff_ffff,
                !(a == -0x8000_0000_0000_0000 && b == -1),
        ;
    }
}

/// The remainder of a division by a negative divisor lies below the divisor's size.
proof fn lemma_mod_neg_bound(a: int, b: int)
    requires
        b < 0,
    ensures
        0 <= a % b < -b,
{
    assert(0 <= a % b < -b) by (nonlinear_arith)
        requires
            b < 0,
    ;
}

/// The character of the decimal digit `d`.
pub open spec fn digit(d: int) -> char
    recommends
        0 <= d <= 9,
{
    if d == 0 {
        '0'
    } else if d == 1 {
        '1'
    } else if d == 2 {
        '2'
    } else if d == 3 {
        '3'
    } else if d == 4 {
        '4'
    } else if d == 5 {
        '5'
    } else if d == 6 {
        '6'
    } else if d == 7 {
        '7'
    } else if d == 8 {
        '8'
    } else {
        '9'
    }
}

/// The decimal digits of `n`, without leading zeros; one `0` for zero.
pub open spec fn digits(n: nat) -> Seq<char>
    decreases n,
{
    if n < 10 {
        seq![digit(n as int)]
    } else {
        digits(n / 10).push(digit((n % 10) as int))
    }
}

/// The integer `n` in decimal: its digits, with a minus sign before them where `n` is
/// negative.
pub open spec fn decimal(n: i64) -> Seq<char> {
    if n < 0 {
        seq!['-'] + digits((-n) as nat)
    } else {
        digits(n as nat)
    }
}

/// `format!` of std, on a text, an integer and a text: the first text, then the integer
/// in decimal as std displays it, then the second text.
#[verifier::external_body]
fn around_decimal(before: &str, n: i64, after: &str) -> (r: String)
    ensures
        r@ == before@ + decimal(n) + after@,
{
    format!("{}{}{}", before, n, after)
}

/// Point in time, as a signed number of ticks.
#[derive(Debug, Copy, Clone, PartialEq, Eq, Structural, PartialOrd, Ord, Hash)]
pub struct Instant(i64);

impl View for Instant {
    type V = int;

    closed spec fn view(&self) -> int {
        self.0 as int
    }
}

impl Instant {
    /// The instant at tick `t`, for a `t` that fits.
    pub closed spec fn at(t: int) -> Instant {
        Instant(t as i64)
    }

    /// The instant at a tick that fits has that tick.
    pub proof fn lemma_at(t: int)
        requires
            fits(t),
        ensures
            Instant::at(t)@ == t,
    {
    }

    /// An instant is its tick count: two instants at the same tick are equal.
    pub proof fn lemma_view_injective(self, other: Instant)
        ensures
            self@ == other@ <==> self == other,
            fits(self@),
            Instant::at(self@) == self,
    {
    }

    /// The earliest instant: stands for "no deadline yet" in comparisons.
    pub fn min_value() -> (r: Self)
        ensures
            r@ == i64::MIN,
    {
        Instant(i64::MIN)
    }

    /// The latest instant: stands for "furthest possible" in comparisons.
    pub fn max_value() -> (r: Self)
        ensures
            r@ == i64::MAX,
    {
        Instant(i64::MAX)
    }

    /// The instant at tick `ticks`.
    pub fn new(ticks: i64) -> (r: Self)
        ensures
            r@ == ticks,
    {
        Instant(ticks)
    }

    /// The tick count.
    pub fn ticks(&self) -> (r: i64)
        ensures
            r == self@,
    {
        self.0
    }

    /// The instant as text: the word `tick` and the tick count.
    pub fn to_text(&self) -> (r: String)
        ensures
            r@ == "tick "@ + decimal(self@ as i64),
    {
        let r = around_decimal("tick ", self.0, "");
        proof {
            reveal_strlit("");
            assert(r@ =~= "tick "@ + decimal(self@ as i64));
        }
        r
    }
}

/// Length of the interval between two instants, as a signed number of ticks.
#[derive(Debug, Copy, Clone, PartialEq, Eq, Structural, PartialOrd, Ord, Hash)]
pub struct Duration(i64);

impl View for Duration {
    type V = int;

    closed spec fn view(&self) -> int {
        self.0 as int
    }
}

impl Duration {
    /// The duration of `t` ticks, for a `t` that fits.
    pub closed spec fn of(t: int) -> Duration {
        Duration(t as i64)
    }

    /// The duration of a tick count that fits has that count.
    pub proof fn lemma_of(t: int)
        requires
            fits(t),
        ensures
            Duration::of(t)@ == t,
    {
    }

    /// A duration is its tick count: two durations of the same length are equal.
    pub proof fn lemma_view_injective(self, other: Duration)
        ensures
            self@ == other@ <==> self == other,
            fits(self@),
            Duration::of(self@) == self,
    {
    }

    /// The most negative duration.
    pub fn min_value() -> (r: Self)
        ensures
            r@ == i64::MIN,
    {
        Duration(i64::MIN)
    }

    /// The longest duration.
    pub fn max_value() -> (r: Self)
        ensures
            r@ == i64::MAX,
    {
        Duration(i64::MAX)
    }

    /// The duration of `ticks` ticks.
    pub fn new(ticks: i64) -> (r: Self)
        ensures
            r@ == ticks,
    {
        Duration(ticks)
    }

    /// The tick count.
    pub fn ticks(&self) -> (r: i64)
        ensures
            r == self@,
    {
        self.0
    }

    /// The duration as text: `1 tick` for one tick, else the tick count and the word
    /// `ticks`.
    pub fn to_text(&self) -> (r: String)
        ensures
            r@ == if self@ == 1 {
                "1 tick"@
            } else {
                decimal(self@ as i64) + " ticks"@
            },
    {
        if self.0 == 1 {
            "1 tick".to_owned()
        } else {
            let r = around_decimal("", self.0, " ticks");
            proof {
                reveal_strlit("");
                assert(r@ =~= decimal(self@ as i64) + " ticks"@);
            }
            r
        }
    }
}

impl std::ops::Add<Duration> for Instant {
    type Output = Instant;

    /// The instant `rhs` after `self`. The sum has to fit.
    fn add(self, rhs: Duration) -> (r: Instant)
        ensures
            r@ == self@ + rhs@,
    {
        Instant(self.0 + rhs.0)
    }
}

impl AddSpecImpl<Duration> for Instant {
    open spec fn obeys_add_spec() -> bool {
        true
    }

    open spec fn add_req(self, rhs: Duration) -> bool {
        fits(self@ + rhs@)
    }

    open spec fn add_spec(self, rhs: Duration) -> Instant {
        Instant::at(self@ + rhs@)
    }
}

impl std::ops::Sub<Instant> for Instant {
    type Output = Duration;

    /// The duration from `rhs` to `self`. The difference has to fit.
    fn sub(self, rhs: Instant) -> (r: Duration)
        ensures
            r@ == self@ - rhs@,
    {
        Duration(self.0 - rhs.0)
    }
}

impl SubSpecImpl<Instant> for Instant {
    open spec fn obeys_sub_spec() -> bool {
        true
    }

    open spec fn sub_req(self, rhs: Instant) -> bool {
        fits(self@ - rhs@)
    }

    open spec fn sub_spec(self, rhs: Instant) -> Duration {
        Duration::of(self@ - rhs@)
    }
}

impl std::ops::Add<Duration> for Duration {
    type Output = Duration;

    /// The two durations in a row. The sum has to fit.
    fn add(self, rhs: Duration) -> (r: Duration)
        ensures
            r@ == self@ + rhs@,
    {
        Duration(self.0 + rhs.0)
    }
}

impl AddSpecImpl<Duration> for Duration {
    open spec fn obeys_add_spec() -> bool {
        true
    }

    open spec fn add_req(self, rhs: Duration) -> bool {
        fits(self@ + rhs@)
    }

    open spec fn add_spec(self, rhs: Duration) -> Duration {
        Duration::of(self@ + rhs@)
    }
}

impl std::ops::Sub<Duration> for Duration {
    type Output = Duration;

    /// What is left of `self` after `rhs`. The difference has to fit.
    fn sub(self, rhs: Duration) -> (r: Duration)
        ensures
            r@ == self@ - rhs@,
    {
        Duration(self.0 - rhs.0)
    }
}

impl SubSpecImpl<Duration> for Duration {
    open spec fn obeys_sub_spec() -> bool {
        true
    }

    open spec fn sub_req(self, rhs: Duration) -> bool {
        fits(self@ - rhs@)
    }

    open spec fn sub_spec(self, rhs: Duration) -> Duration {
        Duration::of(self@ - rhs@)
    }
}

impl std::ops::Mul<i64> for Duration {
    type Output = Duration;

    /// The duration `rhs` times over. The product has to fit.
    fn mul(self, rhs: i64) -> (r: Duration)
        ensures
            r@ == self@ * rhs,
    {
        Duration(self.0 * rhs)
    }
}

impl MulSpecImpl<i64> for Duration {
    open spec fn obeys_mul_spec() -> bool {
        true
    }

    open spec fn mul_req(self, rhs: i64) -> bool {
        fits(self@ * rhs)
    }

    open spec fn mul_spec(self, rhs: i64) -> Duration {
        Duration::of(self@ * rhs)
    }
}

impl std::ops::Div<i64> for Duration {
    type Output = Duration;

    /// The `rhs`-th part of the duration, rounded toward zero. The divisor is not zero,
    /// and the longest negative duration is not divided by -1.
    fn div(self, rhs: i64) -> (r: Duration)
        ensures
            r@ == div_toward_zero(self@, rhs as int),
    {
        proof {
            lemma_div_fits(self@, rhs as int);
        }
        Duration(self.0 / rhs)
    }
}

impl DivSpecImpl<i64> for Duration {
    open spec fn obeys_div_spec() -> bool {
        true
    }

    open spec fn div_req(self, rhs: i64) -> bool {
        rhs != 0 && !(self@ == i64::MIN && rhs == -1)
    }

    open spec fn div_spec(self, rhs: i64) -> Duration {
        Duration::of(div_toward_zero(self@, rhs as int))
    }
}

/// A computation that is done at its first poll, with the time of that poll.
#[derive(Debug, Copy, Clone, PartialEq, Eq, Structural)]
pub struct CurrentTime {}

impl CurrentTime {
    /// A reading of the time that was not polled yet.
    pub fn new() -> Self {
        CurrentTime {  }
    }
}

impl<S> Task<S> for CurrentTime {
    type Output = Instant;

    /// Ready with the time of the poll; nothing else changes.
    fn poll(&mut self, cx: &mut Context, shared: &mut S) -> (r: Poll<Instant>)
        ensures
            r == Poll::Ready(old(cx).now()),
            *final(cx) == *old(cx),
            *final(shared) == *old(shared),
    {
        Poll::Ready(cx.current_time())
    }

    /// A poll of the reading is done with the time of the poll, and changes nothing.
    open spec fn poll_spec(step: crate::task::PollStep<Self, S, Instant>) -> bool {
        &&& step.outcome == Poll::Ready(step.cx_before.now())
        &&& step.cx_after == step.cx_before
        &&& step.shared_after == step.shared_before
    }
}

} // verus!
