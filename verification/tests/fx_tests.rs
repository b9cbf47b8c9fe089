use lttb::adaptive::auto_lttb;
use lttb::integral::trapz;
use lttb::reduce::{lttb_from_array, lttb_from_list};
use lttb::scalar::Fx;
use lttb::series::{LttbError, Point};

fn fx(v: i64) -> Fx {
    if v < 0 {
        Fx { neg: true, mag: (-v) as u64 }
    } else {
        Fx { neg: false, mag: v as u64 }
    }
}

fn fxp(x: i64, y: i64) -> Point<Fx> {
    Point { x: fx(x), y: fx(y) }
}

#[test]
fn identity_keeps_every_point() {
    let s = vec![fxp(0, 0), fxp(1, 5), fxp(2, 1), fxp(3, 4), fxp(4, 2)];
    let out = lttb_from_array(&s, 5).unwrap();
    assert_eq!(out.len(), 5);
    for i in 0..5 {
        assert_eq!(out[i].x, s[i].x);
        assert_eq!(out[i].y, s[i].y);
    }
}

#[test]
fn minimal_keeps_first_and_last() {
    let s = vec![fxp(0, 7), fxp(1, -3), fxp(2, 9), fxp(3, 1), fxp(4, -8), fxp(5, 2)];
    let out = lttb_from_array(&s, 2).unwrap();
    assert_eq!(out.len(), 2);
    assert_eq!(out[0].x, fx(0));
    assert_eq!(out[0].y, fx(7));
    assert_eq!(out[1].x, fx(5));
    assert_eq!(out[1].y, fx(2));
}

#[test]
fn size_and_anchors_hold() {
    let mut s = Vec::new();
    for i in 0..10i64 {
        s.push(fxp(i, (i * i) % 7));
    }
    for n in [2usize, 3, 4, 7, 10] {
        let out = lttb_from_array(&s, n).unwrap();
        assert_eq!(out.len(), n);
        assert_eq!(out[0].x, s[0].x);
        assert_eq!(out[0].y, s[0].y);
        assert_eq!(out[n - 1].x, s[9].x);
        assert_eq!(out[n - 1].y, s[9].y);
        for k in 0..n - 1 {
            assert!(out[k].x.mag < out[k + 1].x.mag || out[k].x.neg);
        }
    }
}

#[test]
fn tie_goes_to_the_later_candidate() {
    // One interior bucket holding (1, 1) and (2, 1): both triangles against
    // the anchor (0, 0) and the next-bucket mean (3, 0) have area 3.
    let s = vec![fxp(0, 0), fxp(1, 1), fxp(2, 1), fxp(3, 0)];
    let out = lttb_from_array(&s, 3).unwrap();
    assert_eq!(out.len(), 3);
    assert_eq!(out[1].x, fx(2));
    assert_eq!(out[1].y, fx(1));
}

#[test]
fn list_front_end_matches_the_array_form() {
    let rows = vec![
        vec![fx(0), fx(0)],
        vec![fx(1), fx(1)],
        vec![fx(2), fx(1)],
        vec![fx(3), fx(0)],
    ];
    let out = lttb_from_list(&rows, 3).unwrap();
    assert_eq!(out.len(), 3);
    assert_eq!(out[0], vec![fx(0), fx(0)]);
    assert_eq!(out[1], vec![fx(2), fx(1)]);
    assert_eq!(out[2], vec![fx(3), fx(0)]);
    assert!(matches!(lttb_from_list(&rows, 5), Err(LttbError::InvalidArgument)));
}

#[test]
fn rejects_malformed_requests() {
    let s = vec![fxp(0, 0), fxp(1, 1), fxp(2, 2)];
    assert!(matches!(lttb_from_array(&s, 0), Err(LttbError::InvalidArgument)));
    assert!(matches!(lttb_from_array(&s, 1), Err(LttbError::InvalidArgument)));
    assert!(matches!(lttb_from_array(&s, 4), Err(LttbError::InvalidArgument)));
    let short = vec![fxp(0, 0)];
    assert!(matches!(lttb_from_array(&short, 2), Err(LttbError::InvalidArgument)));
    assert!(matches!(auto_lttb(&short, &vec![2], fx(1)), Err(LttbError::InvalidArgument)));
}

#[test]
fn trapezoid_integral_exact_values() {
    let flat = vec![fxp(0, 2), fxp(2, 2), fxp(4, 2)];
    assert_eq!(trapz(&flat), fx(8));
    let empty: Vec<Point<Fx>> = Vec::new();
    assert_eq!(trapz(&empty), fx(0));
    let single = vec![fxp(5, 9)];
    assert_eq!(trapz(&single), fx(0));
    let ramp = vec![fxp(0, 0), fxp(2, 2), fxp(4, 4)];
    assert_eq!(trapz(&ramp), fx(8));
}

#[test]
fn adaptive_accepts_straight_line_at_two() {
    let s = vec![fxp(0, 0), fxp(2, 2), fxp(4, 4)];
    let out = auto_lttb(&s, &vec![2, 3], fx(1)).unwrap();
    assert_eq!(out.len(), 2);
    assert_eq!(out[0].x, fx(0));
    assert_eq!(out[1].x, fx(4));
}

#[test]
fn adaptive_falls_back_when_nothing_is_accepted() {
    // A zero tolerance rejects every candidate: the loss compares below
    // nothing, so the original series comes back unchanged.
    let s = vec![fxp(0, 0), fxp(2, 4), fxp(4, 16), fxp(6, 36), fxp(8, 64)];
    let out = auto_lttb(&s, &vec![2, 3, 4], fx(0)).unwrap();
    assert_eq!(out.len(), 5);
    for i in 0..5 {
        assert_eq!(out[i].x, s[i].x);
        assert_eq!(out[i].y, s[i].y);
    }
}

#[test]
fn adaptive_skips_small_and_clamps_large_candidates() {
    // Sizes under 2 are skipped; a size over the length is clamped to the
    // length, whose reduction is the identity and is accepted.
    let s = vec![fxp(0, 0), fxp(2, 2), fxp(4, 0), fxp(6, 2), fxp(8, 0)];
    let out = auto_lttb(&s, &vec![0, 1, 99], fx(1)).unwrap();
    assert_eq!(out.len(), 5);
    for i in 0..5 {
        assert_eq!(out[i].x, s[i].x);
        assert_eq!(out[i].y, s[i].y);
    }
}
