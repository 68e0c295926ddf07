use anytls::padding::{DefaultPaddingFactory, PaddingFactory, PlanEntry};

#[test]
fn default_scheme_loads() {
    let f = DefaultPaddingFactory::load().unwrap();
    assert_eq!(f.stop(), 8);
    let expected = format!("{:x}", md5::compute(f.raw_scheme())).into_bytes();
    assert_eq!(f.md5().clone(), expected);
}

#[test]
fn default_scheme_packet0_plan_is_size_30() {
    let f = DefaultPaddingFactory::load().unwrap();
    let plan = f.generate_record_payload_sizes(0);
    assert_eq!(plan, vec![PlanEntry::Size(30)]);
}

#[test]
fn default_scheme_packet1_plan_in_range() {
    let f = DefaultPaddingFactory::load().unwrap();
    for _ in 0..20 {
        let plan = f.generate_record_payload_sizes(1);
        assert_eq!(plan.len(), 1);
        match plan[0] {
            PlanEntry::Size(s) => assert!((100..=400).contains(&s)),
            PlanEntry::Check => panic!("unexpected check mark"),
        }
    }
}

#[test]
fn default_scheme_packet2_plan_shape() {
    let f = DefaultPaddingFactory::load().unwrap();
    let plan = f.generate_record_payload_sizes(2);
    assert_eq!(plan.len(), 9);
    for (i, entry) in plan.iter().enumerate() {
        if i % 2 == 1 {
            assert_eq!(*entry, PlanEntry::Check);
        } else {
            assert!(matches!(entry, PlanEntry::Size(_)));
        }
    }
}

#[test]
fn plan_for_missing_packet_is_empty() {
    let f = DefaultPaddingFactory::load().unwrap();
    assert!(f.generate_record_payload_sizes(8).is_empty());
    assert!(f.generate_record_payload_sizes(1000).is_empty());
}

#[test]
fn scheme_rejects_bad_bodies() {
    assert!(PaddingFactory::new(b"").is_none());
    assert!(PaddingFactory::new(b"0=30-30").is_none());
    assert!(PaddingFactory::new(b"stop=x\n0=30-30").is_none());
    assert!(PaddingFactory::new(b"stop=8\n0=30-30").is_some());
    assert!(DefaultPaddingFactory::update(b"stop=2\n0=10-20"));
    assert!(!DefaultPaddingFactory::update(b"nothing"));
}

#[test]
fn scheme_skips_zero_and_malformed_ranges() {
    let f = PaddingFactory::new(b"stop=2\n0=0-5,c,9-9,bogus,5-2\n1=c").unwrap();
    let plan = f.generate_record_payload_sizes(0);
    // 0-5 is skipped (zero endpoint), bogus is skipped, 5-2 is reordered.
    assert_eq!(plan.len(), 3);
    assert_eq!(plan[0], PlanEntry::Check);
    assert_eq!(plan[1], PlanEntry::Size(9));
    match plan[2] {
        PlanEntry::Size(s) => assert!((2..=5).contains(&s)),
        PlanEntry::Check => panic!("expected a size"),
    }
    assert_eq!(f.generate_record_payload_sizes(1), vec![PlanEntry::Check]);
}

#[test]
fn rng_vec_length() {
    let f = DefaultPaddingFactory::load().unwrap();
    assert_eq!(f.rng_vec(0).len(), 0);
    assert_eq!(f.rng_vec(513).len(), 513);
}
