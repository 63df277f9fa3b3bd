use k9::{Error, Http, Nanos, Stat, Trend};

#[test]
fn four_samples_statistics() {
    let mut t: Trend<Nanos> = Trend::new(String::from("latency"));
    let mut pool: Vec<Trend<Nanos>> = Vec::new();
    for v in [1000u64, 2000, 3000, 4000] {
        t.add(Nanos(v), &mut pool).unwrap();
    }
    let d = t.dataset();
    assert_eq!(d.name().as_str(), "latency");
    assert_eq!(d.min(), Nanos(1000));
    assert_eq!(d.max(), Nanos(4000));
    assert_eq!(d.mean(), Nanos(2500));
    assert_eq!(d.median(), Nanos(3000));
    assert_eq!(d.percentile(1, 2), Nanos(2500));
}

#[test]
fn unsorted_recording_is_sorted() {
    let mut t: Trend<Nanos> = Trend::new(String::from("latency"));
    let mut pool: Vec<Trend<Nanos>> = Vec::new();
    for v in [3000u64, 1000, 4000, 2000] {
        t.add(Nanos(v), &mut pool).unwrap();
    }
    let d = t.dataset();
    assert_eq!(d.min(), Nanos(1000));
    assert_eq!(d.max(), Nanos(4000));
    assert_eq!(d.mean(), Nanos(2500));
    assert_eq!(d.median(), Nanos(3000));
    assert_eq!(d.percentile(1, 2), Nanos(2500));
}

#[test]
fn empty_trend_defaults() {
    let t: Trend<Nanos> = Trend::new(String::from("empty"));
    let d = t.dataset();
    assert_eq!(d.min(), Nanos(0));
    assert_eq!(d.max(), Nanos(0));
    assert_eq!(d.mean(), Nanos(0));
    assert_eq!(d.median(), Nanos(0));
    assert_eq!(d.percentile(0, 1), Nanos(0));
    assert_eq!(d.percentile(1, 2), Nanos(0));
    assert_eq!(d.percentile(1, 1), Nanos(0));
}

#[test]
fn single_sample_statistics() {
    let mut t: Trend<Nanos> = Trend::new(String::from("one"));
    let mut pool: Vec<Trend<Nanos>> = Vec::new();
    t.add(Nanos(7000), &mut pool).unwrap();
    let d = t.dataset();
    assert_eq!(d.min(), Nanos(7000));
    assert_eq!(d.max(), Nanos(7000));
    assert_eq!(d.mean(), Nanos(7000));
    assert_eq!(d.median(), Nanos(7000));
    assert_eq!(d.percentile(0, 1), Nanos(7000));
    assert_eq!(d.percentile(1, 2), Nanos(7000));
    assert_eq!(d.percentile(1, 1), Nanos(7000));
}

#[test]
fn percentile_extremes_are_min_and_max() {
    let mut t: Trend<Nanos> = Trend::new(String::from("scan"));
    let mut pool: Vec<Trend<Nanos>> = Vec::new();
    for v in [1000u64, 5000, 2000, 8000, 3000] {
        t.add(Nanos(v), &mut pool).unwrap();
    }
    let d = t.dataset();
    assert_eq!(d.percentile(0, 1), d.min());
    assert_eq!(d.percentile(0, 10), d.min());
    assert_eq!(d.percentile(1, 1), d.max());
    assert_eq!(d.percentile(10, 10), d.max());
}

#[test]
fn percentile_is_monotone() {
    let mut t: Trend<Nanos> = Trend::new(String::from("scan"));
    let mut pool: Vec<Trend<Nanos>> = Vec::new();
    for v in [1000u64, 5000, 2000, 8000, 3000, 3000] {
        t.add(Nanos(v), &mut pool).unwrap();
    }
    let d = t.dataset();
    let mut prev = d.percentile(0, 100);
    for i in 1..=100u64 {
        let cur = d.percentile(i, 100);
        assert!(prev.0 <= cur.0);
        prev = cur;
    }
}

#[test]
fn order_of_statistics() {
    let mut t: Trend<Nanos> = Trend::new(String::from("order"));
    let mut pool: Vec<Trend<Nanos>> = Vec::new();
    for v in [9000u64, 100, 400, 2500, 7000] {
        t.add(Nanos(v), &mut pool).unwrap();
    }
    let d = t.dataset();
    assert!(d.min().0 <= d.median().0);
    assert!(d.median().0 <= d.max().0);
    assert!(d.min().0 <= d.mean().0);
    assert!(d.mean().0 <= d.max().0);
}

#[test]
fn fan_out_mirrors_three_recordings() {
    let mut empty_pool: Vec<Trend<Nanos>> = Vec::new();
    let mut b: Trend<Nanos> = Trend::new(String::from("b"));
    b.add(Nanos(1000), &mut empty_pool).unwrap();
    let mut pool = vec![b];

    let mut a: Trend<Nanos> = Trend::new(String::from("a"));
    a.add(Nanos(1000), &mut pool).unwrap();
    // linking happens after the first recording: that sample is not mirrored
    a = a.also(0);
    for _ in 0..3 {
        a.add(Nanos(5000), &mut pool).unwrap();
    }

    let da = a.dataset();
    assert_eq!(da.min(), Nanos(1000));
    assert_eq!(da.max(), Nanos(5000));
    assert_eq!(da.mean(), Nanos(4000));
    assert_eq!(da.median(), Nanos(5000));

    let db = pool.pop().unwrap().dataset();
    assert_eq!(db.min(), Nanos(1000));
    assert_eq!(db.max(), Nanos(5000));
    assert_eq!(db.mean(), Nanos(4000));
    assert_eq!(db.median(), Nanos(5000));
}

#[test]
fn duplicate_edges_mirror_twice() {
    let mut empty_pool: Vec<Trend<Nanos>> = Vec::new();
    let mut b: Trend<Nanos> = Trend::new(String::from("b"));
    b.add(Nanos(1000), &mut empty_pool).unwrap();
    let mut pool = vec![b];

    let mut a: Trend<Nanos> = Trend::new(String::from("a")).also(0).also(0);
    a.add(Nanos(5000), &mut pool).unwrap();

    let db = pool.pop().unwrap().dataset();
    assert_eq!(db.min(), Nanos(1000));
    assert_eq!(db.max(), Nanos(5000));
    assert_eq!(db.median(), Nanos(5000));
    assert_eq!(db.mean(), Nanos(3666));

    let da = a.dataset();
    assert_eq!(da.min(), Nanos(5000));
    assert_eq!(da.max(), Nanos(5000));
}

#[test]
fn invalid_edge_faults_recording() {
    let mut pool: Vec<Trend<Nanos>> = vec![Trend::new(String::from("b"))];
    let mut a: Trend<Nanos> = Trend::new(String::from("a")).also(0).also(7);
    let r = a.add(Nanos(2000), &mut pool);
    match r {
        Err(Error::Concurency(m)) => assert!(!m.is_empty()),
        Ok(()) => panic!("an edge outside the pool must fault"),
    }

    // the append made before the fault stays; the trend's own samples do not change
    let db = pool.pop().unwrap().dataset();
    assert_eq!(db.min(), Nanos(2000));
    assert_eq!(db.max(), Nanos(2000));
    let da = a.dataset();
    assert_eq!(da.min(), Nanos(0));
    assert_eq!(da.max(), Nanos(0));
    assert_eq!(da.mean(), Nanos(0));
}

#[test]
fn error_message_reads() {
    let mut pool: Vec<Trend<Nanos>> = Vec::new();
    let mut a: Trend<Nanos> = Trend::new(String::from("a")).also(3);
    let e = a.add(Nanos(1), &mut pool).unwrap_err();
    assert!(!e.message().is_empty());
}

#[test]
fn nanos_capability() {
    assert_eq!(Nanos::zero(), Nanos(0));
    assert_eq!(Nanos(10).plus(&Nanos(5)), Nanos(15));
    assert!(Nanos(10).le(&Nanos(10)));
    assert!(Nanos(9).le(&Nanos(10)));
    assert!(!Nanos(11).le(&Nanos(10)));
    assert_eq!(Nanos(10).div_count(0), Nanos(0));
    assert_eq!(Nanos(10).div_count(4), Nanos(2));
    assert_eq!(Nanos(1000).lerp(Nanos(2000), 1, 2), Nanos(1500));
    assert_eq!(Nanos(1000).lerp(Nanos(2000), 0, 1), Nanos(1000));
    assert_eq!(Nanos(1000).lerp(Nanos(2000), 1, 1), Nanos(2000));
    // interpolating toward a smaller value saturates at the start
    assert_eq!(Nanos(2000).lerp(Nanos(1000), 1, 2), Nanos(2000));
    // the interpolated step is rounded down
    assert_eq!(Nanos(0).lerp(Nanos(1), 1, 2), Nanos(0));
}

#[test]
fn nanos_repr_decimal() {
    assert_eq!(Nanos(0).repr(), "0");
    assert_eq!(Nanos(42).repr(), "42");
    assert_eq!(Nanos(905000).repr(), "905000");
    assert_eq!(Nanos(18446744073709551615).repr(), "18446744073709551615");
}

#[test]
fn http_default_trend() {
    let http = Http::new();
    let d = http.request_duration.dataset();
    assert_eq!(d.name().as_str(), "http-request-duration");
    assert_eq!(d.min(), Nanos(0));
    assert_eq!(d.mean(), Nanos(0));
}

#[test]
fn http_arcd_shares_one_client() {
    let h = Http::arcd();
    let h = match std::sync::Arc::try_unwrap(h) {
        Ok(h) => h,
        Err(_) => panic!("the new Arc has a single owner"),
    };
    let d = h.request_duration.dataset();
    assert_eq!(d.name().as_str(), "http-request-duration");
}

#[test]
fn http_default_matches_new() {
    let h = Http::default();
    let d = h.request_duration.dataset();
    assert_eq!(d.name().as_str(), "http-request-duration");
}

#[test]
fn trend_arc_constructor() {
    let t = Trend::<Nanos>::arc(String::from("shared"));
    let t = match std::sync::Arc::try_unwrap(t) {
        Ok(t) => t,
        Err(_) => panic!("the new Arc has a single owner"),
    };
    let d = t.dataset();
    assert_eq!(d.name().as_str(), "shared");
    assert_eq!(d.max(), Nanos(0));
}
