//! Outdoor weather samples and the linear interpolation that fills the
//! minutes between two consecutive samples.
use crate::time::Timestamp;
use vstd::prelude::*;

verus! {

/// Number of quantities in a weather sample.
pub const WEATHER_FIELDS: usize = 10;

/// One outdoor weather observation. Each quantity is a fixed-point integer in
/// a unit that the reader chooses (the same for all samples).
#[derive(Clone, Copy, Debug, PartialEq, Eq, Structural)]
pub struct WeatherPoint {
    pub temperature: i32,
    pub avg_temperature: i32,
    pub min_temperature: i32,
    pub max_temperature: i32,
    pub rel_humidity: i32,
    pub avg_rel_humidity: i32,
    pub min_rel_humidity: i32,
    pub max_rel_humidity: i32,
    pub precipitation: i32,
    pub wind_speed: i32,
}

/// A weather vector held exactly: quantity `f` is `field(f) / denominator`,
/// in the unit of the samples it comes from.
#[derive(Clone, Copy, Debug, PartialEq, Eq, Structural)]
pub struct ExactWeather {
    pub temperature: i128,
    pub avg_temperature: i128,
    pub min_temperature: i128,
    pub max_temperature: i128,
    pub rel_humidity: i128,
    pub avg_rel_humidity: i128,
    pub min_rel_humidity: i128,
    pub max_rel_humidity: i128,
    pub precipitation: i128,
    pub wind_speed: i128,
    pub denominator: u64,
}

impl WeatherPoint {
    /// Quantity number `f` (0 to 9, in declaration order).
    pub open spec fn field(self, f: int) -> int {
        if f == 0 {
            self.temperature as int
        } else if f == 1 {
            self.avg_temperature as int
        } else if f == 2 {
            self.min_temperature as int
        } else if f == 3 {
            self.max_temperature as int
        } else if f == 4 {
            self.rel_humidity as int
        } else if f == 5 {
            self.avg_rel_humidity as int
        } else if f == 6 {
            self.min_rel_humidity as int
        } else if f == 7 {
            self.max_rel_humidity as int
        } else if f == 8 {
            self.precipitation as int
        } else {
            self.wind_speed as int
        }
    }
}

impl ExactWeather {
    /// Numerator of quantity number `f` (0 to 9, in declaration order).
    pub open spec fn numerator(self, f: int) -> int {
        if f == 0 {
            self.temperature as int
        } else if f == 1 {
            self.avg_temperature as int
        } else if f == 2 {
            self.min_temperature as int
        } else if f == 3 {
            self.max_temperature as int
        } else if f == 4 {
            self.rel_humidity as int
        } else if f == 5 {
            self.avg_rel_humidity as int
        } else if f == 6 {
            self.min_rel_humidity as int
        } else if f == 7 {
            self.max_rel_humidity as int
        } else if f == 8 {
            self.precipitation as int
        } else {
            self.wind_speed as int
        }
    }

    /// Whether quantity `f` of `self` equals the rational `num / den`.
    pub open spec fn field_is(self, f: int, num: int, den: int) -> bool {
        self.numerator(f) * den == num * self.denominator
    }
}

/// Numerator, over `span`, of `a + (k / span) * (b - a)`.
pub open spec fn blend_numerator(a: int, b: int, k: int, span: int) -> int {
    a * span + k * (b - a)
}

/// The weather `k` minutes into a stretch of `span` minutes from `a` to `b`,
/// each quantity at `a + (k / span) * (b - a)`, as a fraction over `span`.
pub open spec fn spec_blend(a: WeatherPoint, b: WeatherPoint, k: int, span: int) -> ExactWeather {
    ExactWeather {
        temperature: blend_numerator(a.temperature as int, b.temperature as int, k, span) as i128,
        avg_temperature: blend_numerator(a.avg_temperature as int, b.avg_temperature as int, k, span) as i128,
        min_temperature: blend_numerator(a.min_temperature as int, b.min_temperature as int, k, span) as i128,
        max_temperature: blend_numerator(a.max_temperature as int, b.max_temperature as int, k, span) as i128,
        rel_humidity: blend_numerator(a.rel_humidity as int, b.rel_humidity as int, k, span) as i128,
        avg_rel_humidity: blend_numerator(a.avg_rel_humidity as int, b.avg_rel_humidity as int, k, span) as i128,
        min_rel_humidity: blend_numerator(a.min_rel_humidity as int, b.min_rel_humidity as int, k, span) as i128,
        max_rel_humidity: blend_numerator(a.max_rel_humidity as int, b.max_rel_humidity as int, k, span) as i128,
        precipitation: blend_numerator(a.precipitation as int, b.precipitation as int, k, span) as i128,
        wind_speed: blend_numerator(a.wind_speed as int, b.wind_speed as int, k, span) as i128,
        denominator: span as u64,
    }
}

/// A sample held exactly, over denominator 1.
pub open spec fn spec_exact(a: WeatherPoint) -> ExactWeather {
    ExactWeather {
        temperature: a.temperature as i128,
        avg_temperature: a.avg_temperature as i128,
        min_temperature: a.min_temperature as i128,
        max_temperature: a.max_temperature as i128,
        rel_humidity: a.rel_humidity as i128,
        avg_rel_humidity: a.avg_rel_humidity as i128,
        min_rel_humidity: a.min_rel_humidity as i128,
        max_rel_humidity: a.max_rel_humidity as i128,
        precipitation: a.precipitation as i128,
        wind_speed: a.wind_speed as i128,
        denominator: 1,
    }
}

proof fn lemma_blend_bounds(a: i32, b: i32, k: u64, span: u64)
    requires
        k <= span,
    ensures
        i128::MIN <= blend_numerator(a as int, b as int, k as int, span as int) <= i128::MAX,
        i128::MIN <= a * span <= i128::MAX,
        i128::MIN <= k * (b - a) <= i128::MAX,
{
    let ai = a as int;
    let bi = b as int;
    let ki = k as int;
    let si = span as int;
    assert(-0x8000_0000 * 0x1_0000_0000_0000_0000 <= ai * si <= 0x8000_0000 * 0x1_0000_0000_0000_0000) by (nonlinear_arith)
        requires
            -0x8000_0000 <= ai <= 0x8000_0000,
            0 <= si <= 0x1_0000_0000_0000_0000,
    ;
    assert(-0x1_0000_0000 * 0x1_0000_0000_0000_0000 <= ki * (bi - ai) <= 0x1_0000_0000 * 0x1_0000_0000_0000_0000) by (nonlinear_arith)
        requires
            -0x1_0000_0000 <= bi - ai <= 0x1_0000_0000,
            0 <= ki <= 0x1_0000_0000_0000_0000,
    ;
}

/// `a + (k / span) * (b - a)` over `span`, in machine integers.
fn blend_field(a: i32, b: i32, k: u64, span: u64) -> (r: i128)
    requires
        k <= span,
    ensures
        r == blend_numerator(a as int, b as int, k as int, span as int),
{
    proof {
        lemma_blend_bounds(a, b, k, span);
    }
    (a as i128) * (span as i128) + (k as i128) * ((b as i128) - (a as i128))
}

/// The weather `k` minutes into a stretch of `span` minutes that runs from
/// sample `a` to sample `b`: every quantity at `a + (k / span) * (b - a)`.
pub fn interpolate_weather_points(a: &WeatherPoint, b: &WeatherPoint, k: u64, span: u64) -> (r: ExactWeather)
    requires
        k <= span,
    ensures
        r == spec_blend(*a, *b, k as int, span as int),
{
    ExactWeather {
        temperature: blend_field(a.temperature, b.temperature, k, span),
        avg_temperature: blend_field(a.avg_temperature, b.avg_temperature, k, span),
        min_temperature: blend_field(a.min_temperature, b.min_temperature, k, span),
        max_temperature: blend_field(a.max_temperature, b.max_temperature, k, span),
        rel_humidity: blend_field(a.rel_humidity, b.rel_humidity, k, span),
        avg_rel_humidity: blend_field(a.avg_rel_humidity, b.avg_rel_humidity, k, span),
        min_rel_humidity: blend_field(a.min_rel_humidity, b.min_rel_humidity, k, span),
        max_rel_humidity: blend_field(a.max_rel_humidity, b.max_rel_humidity, k, span),
        precipitation: blend_field(a.precipitation, b.precipitation, k, span),
        wind_speed: blend_field(a.wind_speed, b.wind_speed, k, span),
        denominator: span,
    }
}

/// A sample held exactly.
pub fn exact(a: &WeatherPoint) -> (r: ExactWeather)
    ensures
        r == spec_exact(*a),
{
    ExactWeather {
        temperature: a.temperature as i128,
        avg_temperature: a.avg_temperature as i128,
        min_temperature: a.min_temperature as i128,
        max_temperature: a.max_temperature as i128,
        rel_humidity: a.rel_humidity as i128,
        avg_rel_humidity: a.avg_rel_humidity as i128,
        min_rel_humidity: a.min_rel_humidity as i128,
        max_rel_humidity: a.max_rel_humidity as i128,
        precipitation: a.precipitation as i128,
        wind_speed: a.wind_speed as i128,
        denominator: 1,
    }
}


/// The minutes strictly between two consecutive samples, each with the
/// interpolated weather; empty when the samples are less than two minutes
/// apart.
pub open spec fn spec_gap_fill(ta: Timestamp, a: WeatherPoint, tb: Timestamp, b: WeatherPoint) -> Seq<(Timestamp, ExactWeather)> {
    let span = tb.abs() - ta.abs();
    if span <= 1 {
        Seq::empty()
    } else {
        Seq::new((span - 1) as nat, |i: int| (ta.spec_plus((i + 1) as nat), spec_blend(a, b, i + 1, span)))
    }
}

/// The weather series made from samples in the order they were read: each
/// sample, preceded by the interpolated minutes since the sample before it.
/// Where two entries share a minute, the later one holds.
pub open spec fn spec_interpolate(samples: Seq<(Timestamp, WeatherPoint)>) -> Seq<(Timestamp, ExactWeather)>
    decreases samples.len(),
{
    if samples.len() == 0 {
        Seq::empty()
    } else if samples.len() == 1 {
        seq![(samples[0].0, spec_exact(samples[0].1))]
    } else {
        let n = samples.len();
        spec_interpolate(samples.drop_last()) + spec_gap_fill(samples[n - 2].0, samples[n - 2].1, samples[n - 1].0, samples[n - 1].1)
            + seq![(samples[n - 1].0, spec_exact(samples[n - 1].1))]
    }
}

/// Fills the minutes between consecutive weather samples by linear
/// interpolation; the samples themselves are kept as read.
pub fn interpolate_weather(samples: &Vec<(Timestamp, WeatherPoint)>) -> (r: Vec<(Timestamp, ExactWeather)>)
    requires
        forall|i: int| 0 <= i < samples@.len() ==> (#[trigger] samples@[i]).0.wf(),
    ensures
        r@ == spec_interpolate(samples@),
{
    let mut out: Vec<(Timestamp, ExactWeather)> = Vec::new();
    let mut j: usize = 0;
    while j < samples.len()
        invariant
            j <= samples@.len(),
            forall|i: int| 0 <= i < samples@.len() ==> (#[trigger] samples@[i]).0.wf(),
            out@ == spec_interpolate(samples@.take(j as int)),
        decreases samples@.len() - j,
    {
        let (tb, b) = samples[j];
        let ghost base = out@;
        if j > 0 {
            let (ta, a) = samples[j - 1];
            let span: i64 = tb.total_minutes() - ta.total_minutes();
            if span > 1 {
                let span = span as u64;
                let mut k: u64 = 1;
                while k < span
                    invariant
                        1 <= k <= span,
                        span == tb.abs() - ta.abs(),
                        ta.wf(),
                        tb.wf(),
                        out@ == base + spec_gap_fill(ta, a, tb, b).take(k - 1),
                    decreases span - k,
                {
                    let t = ta.plus_minutes(k, &tb);
                    let w = interpolate_weather_points(&a, &b, k, span);
                    out.push((t, w));
                    proof {
                        assert(spec_gap_fill(ta, a, tb, b).take(k as int) == spec_gap_fill(ta, a, tb, b).take(k - 1).push((t, w)));
                    }
                    k += 1;
                }
                assert(spec_gap_fill(ta, a, tb, b).take(k - 1) == spec_gap_fill(ta, a, tb, b));
            } else {
                assert(spec_gap_fill(ta, a, tb, b) == Seq::<(Timestamp, ExactWeather)>::empty());
                assert(out@ == base + spec_gap_fill(ta, a, tb, b));
            }
        }
        out.push((tb, exact(&b)));
        proof {
            let s = samples@.take(j + 1);
            assert(s.drop_last() == samples@.take(j as int));
            if j > 0 {
                assert(s[s.len() - 2] == samples@[j - 1]);
            }
        }
        j += 1;
    }
    assert(samples@.take(samples@.len() as int) == samples@);
    out
}

/// Linear interpolation is exact: `k` minutes into a stretch of `span`
/// minutes from sample `a` to sample `b`, every quantity equals
/// `a + (k / span) * (b - a)`; at `k = 0` that is `a` and at `k = span` it is
/// `b`.
pub proof fn lemma_interpolation_exact(a: WeatherPoint, b: WeatherPoint, k: u64, span: u64)
    requires
        0 < span,
        k <= span,
    ensures
        forall|f: int| 0 <= f < WEATHER_FIELDS ==> #[trigger] spec_blend(a, b, k as int, span as int).field_is(
            f,
            a.field(f) * span + k * (b.field(f) - a.field(f)),
            span as int,
        ),
        k == 0 ==> forall|f: int| 0 <= f < WEATHER_FIELDS ==> #[trigger] spec_blend(a, b, k as int, span as int).field_is(f, a.field(f), 1),
        k == span ==> forall|f: int| 0 <= f < WEATHER_FIELDS ==> #[trigger] spec_blend(a, b, k as int, span as int).field_is(f, b.field(f), 1),
{
    let e = spec_blend(a, b, k as int, span as int);
    lemma_blend_bounds(a.temperature, b.temperature, k, span);
    lemma_blend_bounds(a.avg_temperature, b.avg_temperature, k, span);
    lemma_blend_bounds(a.min_temperature, b.min_temperature, k, span);
    lemma_blend_bounds(a.max_temperature, b.max_temperature, k, span);
    lemma_blend_bounds(a.rel_humidity, b.rel_humidity, k, span);
    lemma_blend_bounds(a.avg_rel_humidity, b.avg_rel_humidity, k, span);
    lemma_blend_bounds(a.min_rel_humidity, b.min_rel_humidity, k, span);
    lemma_blend_bounds(a.max_rel_humidity, b.max_rel_humidity, k, span);
    lemma_blend_bounds(a.precipitation, b.precipitation, k, span);
    lemma_blend_bounds(a.wind_speed, b.wind_speed, k, span);
    assert forall|f: int| 0 <= f < WEATHER_FIELDS implies e.numerator(f) == blend_numerator(a.field(f), b.field(f), k as int, span as int) by {}
    assert forall|f: int| 0 <= f < WEATHER_FIELDS implies #[trigger] e.field_is(
        f,
        a.field(f) * span + k * (b.field(f) - a.field(f)),
        span as int,
    ) by {
        let x = a.field(f);
        let y = b.field(f);
        let n = e.numerator(f);
        assert(n * span == (x * span + k * (y - x)) * span) by (nonlinear_arith)
            requires
                n == x * span + k * (y - x),
        ;
    }
    if k == 0 {
        assert forall|f: int| 0 <= f < WEATHER_FIELDS implies #[trigger] e.field_is(f, a.field(f), 1) by {
            let x = a.field(f);
            let y = b.field(f);
            let n = e.numerator(f);
            assert(n * 1 == x * span) by (nonlinear_arith)
                requires
                    n == x * span + k * (y - x),
                    k == 0,
            ;
        }
    }
    if k == span {
        assert forall|f: int| 0 <= f < WEATHER_FIELDS implies #[trigger] e.field_is(f, b.field(f), 1) by {
            let x = a.field(f);
            let y = b.field(f);
            let n = e.numerator(f);
            assert(n * 1 == y * span) by (nonlinear_arith)
                requires
                    n == x * span + k * (y - x),
                    k == span,
            ;
        }
    }
}

/// Between two samples `span` minutes apart, interpolation emits exactly the
/// `span - 1` minutes in between, minute `ta + k` holding the blend at `k`;
/// the first sample comes before them and the second after them, both as
/// read.
pub proof fn lemma_interpolated_pair(ta: Timestamp, a: WeatherPoint, tb: Timestamp, b: WeatherPoint)
    requires
        ta.wf(),
        tb.wf(),
        ta.abs() < tb.abs(),
    ensures
        ({
            let out = spec_interpolate(seq![(ta, a), (tb, b)]);
            let span = tb.abs() - ta.abs();
            &&& out.len() == span + 1
            &&& out[0] == (ta, spec_exact(a))
            &&& out[span] == (tb, spec_exact(b))
            &&& forall|k: int| 0 < k < span ==> #[trigger] out[k] == (ta.spec_plus(k as nat), spec_blend(a, b, k, span))
            &&& forall|k: int| 0 < k < span ==> (#[trigger] out[k]).0.abs() == ta.abs() + k
        }),
{
    let s = seq![(ta, a), (tb, b)];
    let one = seq![(ta, a)];
    assert(s.drop_last() == one);
    assert(one.len() == 1 && one[0] == (ta, a));
    assert(spec_interpolate(one) == seq![(ta, spec_exact(a))]);
    let span = tb.abs() - ta.abs();
    let gap = spec_gap_fill(ta, a, tb, b);
    let out = spec_interpolate(s);
    assert(s[0] == (ta, a) && s[1] == (tb, b));
    assert(out == seq![(ta, spec_exact(a))] + gap + seq![(tb, spec_exact(b))]);
    assert(gap.len() == span - 1);
    assert forall|k: int| 0 < k < span implies #[trigger] out[k] == (ta.spec_plus(k as nat), spec_blend(a, b, k, span)) by {
        assert(out[k] == gap[k - 1]);
    }
    assert forall|k: int| 0 < k < span implies (#[trigger] out[k]).0.abs() == ta.abs() + k by {
        assert(out[k] == gap[k - 1]);
        let m = ta.minute + k;
        assert(m == (m / 1440) * 1440 + m % 1440) by (nonlinear_arith);
        assert(ta.spec_plus(k as nat).abs() == ta.day * 1440 + (m / 1440) * 1440 + m % 1440) by (nonlinear_arith)
            requires
                ta.spec_plus(k as nat).day == ta.day + m / 1440,
                ta.spec_plus(k as nat).minute == m % 1440,
        ;
    }
}

} // verus!
