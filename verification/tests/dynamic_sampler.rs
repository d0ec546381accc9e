use zbus::dynamic::{DynamicSampler, TimeInterval};

#[test]
fn new_sampler_is_empty() {
    let d: DynamicSampler<u32> = DynamicSampler::new();
    assert_eq!(d.len(), 0);
    assert_eq!(d.s(), 128);
    assert_eq!(d.k(), "");
    assert_eq!(d.t(), TimeInterval::new());
}

#[test]
fn first_key_fixes_the_sampler() {
    let mut d: DynamicSampler<u32> = DynamicSampler::new();
    assert!(d.set(1, "100".to_string(), false, 5));
    assert_eq!(d.k(), "100");
    assert!(!d.set(2, "200".to_string(), false, 6));
    assert_eq!(d.len(), 1);
}

#[test]
fn seen_timestamp_is_refused() {
    let mut d: DynamicSampler<u32> = DynamicSampler::new();
    assert!(d.set(1, "7".to_string(), false, 3));
    assert!(!d.set(2, "7".to_string(), true, 3));
    assert_eq!(d.metrics().iter().copied().collect::<Vec<_>>(), vec![1]);
}

#[test]
fn span_widens() {
    let mut d: DynamicSampler<u32> = DynamicSampler::new();
    d.set(1, "k".to_string(), false, 5);
    assert_eq!(d.t(), TimeInterval { s: 0, e: 5 });
    d.set(2, "k".to_string(), false, -4);
    assert_eq!(d.t(), TimeInterval { s: -4, e: 5 });
    d.set(3, "k".to_string(), false, 2);
    assert_eq!(d.t(), TimeInterval { s: -4, e: 5 });
}

#[test]
fn capacity_drops_oldest() {
    let mut d: DynamicSampler<u32> = DynamicSampler::new();
    d.set_capacity(2);
    for i in 0..5 {
        assert!(d.set(i, "k".to_string(), false, 0));
    }
    assert_eq!(d.metrics().iter().copied().collect::<Vec<_>>(), vec![3, 4]);
}

#[test]
fn default_capacity_holds_at_most_128() {
    let mut d: DynamicSampler<u32> = DynamicSampler::new();
    for i in 0..300 {
        d.set(i, "k".to_string(), false, 0);
    }
    assert_eq!(d.len(), 128);
    assert_eq!(*d.metrics().front().unwrap(), 172);
}
