use lttb::adaptive::auto_lttb;
use lttb::integral::trapz;
use lttb::reduce::lttb_from_array;
use lttb::scalar::Real;
use lttb::series::Point;

/// A double-precision scalar.
#[derive(Clone, Copy, Debug, PartialEq)]
struct R(f64);

impl Real for R {
    // The `*_spec` trait items are ghost: the verified library erases their
    // bodies, so an implementor outside it supplies stubs that never run.
    fn plus_spec(self, _: Self) -> Self {
        unreachable!()
    }

    fn minus_spec(self, _: Self) -> Self {
        unreachable!()
    }

    fn times_spec(self, _: Self) -> Self {
        unreachable!()
    }

    fn abs_spec(self) -> Self {
        unreachable!()
    }

    fn halve_spec(self) -> Self {
        unreachable!()
    }

    fn div_count_spec(self, _: usize) -> Self {
        unreachable!()
    }

    fn over_spec(self, _: Self) -> Self {
        unreachable!()
    }

    fn le_spec(self, _: Self) -> bool {
        unreachable!()
    }

    fn lt_spec(self, _: Self) -> bool {
        unreachable!()
    }

    fn eq_spec(self, _: Self) -> bool {
        unreachable!()
    }

    fn zero_spec() -> Self {
        unreachable!()
    }

    fn plus(self, o: Self) -> Self {
        R(self.0 + o.0)
    }

    fn minus(self, o: Self) -> Self {
        R(self.0 - o.0)
    }

    fn times(self, o: Self) -> Self {
        R(self.0 * o.0)
    }

    fn abs_val(self) -> Self {
        R(self.0.abs())
    }

    fn halve(self) -> Self {
        R(self.0 * 0.5)
    }

    fn div_count(self, k: usize) -> Self {
        R(self.0 / (k as f64))
    }

    fn over(self, o: Self) -> Self {
        R(self.0 / o.0)
    }

    fn is_le(self, o: Self) -> bool {
        self.0 <= o.0
    }

    fn is_lt(self, o: Self) -> bool {
        self.0 < o.0
    }

    fn is_eq(self, o: Self) -> bool {
        self.0 == o.0
    }

    fn zero() -> Self {
        R(0.0)
    }
}

fn pt(x: f64, y: f64) -> Point<R> {
    Point { x: R(x), y: R(y) }
}

fn linspace(a: f64, b: f64, n: usize) -> Vec<f64> {
    let mut v = Vec::new();
    for i in 0..n {
        v.push(a + (b - a) * (i as f64) / ((n - 1) as f64));
    }
    v
}

/// The candidate ladder of the adaptive search: with `power` the floor of
/// `log10(len)`, `power * 4` sizes log-spaced from `len / 10^power` up to
/// `len`, each rounded to the nearest integer.
fn ladder(len: usize) -> Vec<usize> {
    let power = (len as f64).log10().floor() as usize;
    let count = power * 4;
    let mut v = Vec::new();
    for i in 0..count {
        let e = -(power as f64) + (power as f64) * (i as f64) / ((count - 1) as f64);
        v.push((10f64.powf(e) * (len as f64)).round() as usize);
    }
    v
}

#[test]
fn gaussian_reduction_keeps_the_peak_region() {
    let xs = linspace(-3.0, 3.0, 100);
    let s: Vec<Point<R>> = xs.iter().map(|&x| pt(x, (-x * x).exp())).collect();
    let out = lttb_from_array(&s, 5).unwrap();
    assert_eq!(out.len(), 5);
    assert_eq!(out[0].x.0, -3.0);
    assert_eq!(out[0].y.0, (-9.0f64).exp());
    assert_eq!(out[4].x.0, 3.0);
    assert_eq!(out[4].y.0, (-9.0f64).exp());
    for k in 1..4 {
        assert!(out[k].x.0.abs() < 2.0, "interior point in a flat tail");
        assert!(out[k].y.0 > 0.05);
    }
    assert!(out[2].x.0.abs() < 0.5);
    assert!(out[2].y.0 > 0.9);
    for k in 0..4 {
        assert!(out[k].x.0 < out[k + 1].x.0);
    }
}

#[test]
fn linear_series_integral_roundtrip() {
    let xs = linspace(0.0, 10.0, 50);
    let s: Vec<Point<R>> = xs.iter().map(|&x| pt(x, 2.0 * x + 1.0)).collect();
    let i0 = trapz(&s).0;
    for n in [2usize, 3, 7, 25, 49, 50] {
        let out = lttb_from_array(&s, n).unwrap();
        let i1 = trapz(&out).0;
        assert!((i1 - i0).abs() <= 1e-9 * i0.abs());
    }
}

#[test]
fn adaptive_linear_accepts_the_smallest_candidate() {
    let xs = linspace(0.0, 9.9, 100);
    let s: Vec<Point<R>> = xs.iter().map(|&x| pt(x, 3.0 * x - 5.0)).collect();
    let cands = ladder(100);
    assert_eq!(cands, vec![1, 2, 4, 7, 14, 27, 52, 100]);
    let out = auto_lttb(&s, &cands, R(1e-4)).unwrap();
    assert_eq!(out.len(), 2);
    assert_eq!(out[0].x.0, 0.0);
    assert_eq!(out[1].x.0, 9.9);
}

#[test]
fn adaptive_rejects_everything_under_a_tight_tolerance() {
    // A convex series: every proper reduction overestimates the integral, so
    // no candidate passes a tolerance this tight and the original series
    // comes back, all 100 points of it. The last ladder size (the length
    // itself) is left out, as the adaptive loop never tries it.
    let xs = linspace(0.0, 10.0, 100);
    let s: Vec<Point<R>> = xs.iter().map(|&x| pt(x, x * x)).collect();
    let mut cands = ladder(100);
    cands.pop();
    let out = auto_lttb(&s, &cands, R(1e-12)).unwrap();
    assert_eq!(out.len(), 100);
    for i in 0..100 {
        assert_eq!(out[i].x, s[i].x);
        assert_eq!(out[i].y, s[i].y);
    }
}

#[test]
fn adaptive_zero_integral_is_special_cased() {
    // The series is odd, so its trapezoidal integral is exactly zero, and so
    // is the integral of its two-point reduction: the loss counts as zero and
    // the candidate is accepted.
    let s = vec![pt(-3.0, -3.0), pt(-1.0, -1.0), pt(1.0, 1.0), pt(3.0, 3.0)];
    assert_eq!(trapz(&s).0, 0.0);
    let out = auto_lttb(&s, &vec![2], R(1e-4)).unwrap();
    assert_eq!(out.len(), 2);
    assert_eq!(out[0].x.0, -3.0);
    assert_eq!(out[1].x.0, 3.0);
}

#[test]
fn tie_goes_to_the_later_candidate_in_f64() {
    let s = vec![pt(0.0, 0.0), pt(1.0, 1.0), pt(2.0, 1.0), pt(3.0, 0.0)];
    let out = lttb_from_array(&s, 3).unwrap();
    assert_eq!(out.len(), 3);
    assert_eq!(out[1].x.0, 2.0);
    assert_eq!(out[1].y.0, 1.0);
}

#[test]
fn gaussian_adaptive_matches_a_manual_search() {
    // The adaptive result equals the reduction at the first ladder size whose
    // relative loss is under the tolerance, found here by hand.
    let xs = linspace(-3.0, 3.0, 100);
    let s: Vec<Point<R>> = xs.iter().map(|&x| pt(x, (-x * x).exp())).collect();
    let i0 = trapz(&s).0;
    let mut cands = ladder(100);
    cands.pop();
    let mut expected: Option<usize> = None;
    for &c in cands.iter() {
        if c < 2 {
            continue;
        }
        let red = lttb_from_array(&s, c).unwrap();
        if ((trapz(&red).0 - i0) / i0).abs() < 1e-3 {
            expected = Some(c);
            break;
        }
    }
    let out = auto_lttb(&s, &cands, R(1e-3)).unwrap();
    match expected {
        Some(n) => assert_eq!(out.len(), n),
        None => assert_eq!(out.len(), 100),
    }
}
