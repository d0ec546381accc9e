use zbus::sampler::{Sampler, SamplerError, BLOCK, WINDOW};

fn counting() -> Sampler<i64> {
    let values: Vec<i64> = (0..WINDOW as i64).collect();
    let stamps: Vec<i64> = (0..WINDOW as i64).map(|i| 1000 + i).collect();
    Sampler::from_parts(&values, &stamps)
}

#[test]
fn filled_holds_window_of_copies() {
    let s = Sampler::filled(0.0f64, 0.0f64);
    assert_eq!(s.raw().len(), WINDOW);
    assert!(s.raw().iter().all(|v| *v == 0.0));
    assert!(s.timestamps().iter().all(|v| *v == 0.0));
}

#[test]
fn push_drops_oldest_reading() {
    let mut s = counting();
    s.set_and_ts(500, 9999);
    let raw = s.raw();
    assert_eq!(raw.len(), WINDOW);
    assert_eq!(raw[0], 1);
    assert_eq!(raw[WINDOW - 1], 500);
    assert_eq!(s.try_get_xy(127), Ok((9999, 500)));
    assert_eq!(s.try_get_xy(0), Ok((1001, 1)));
}

#[test]
fn reading_without_timestamp_keeps_stamps() {
    let mut s = counting();
    s.try_set_no_ts(77);
    assert_eq!(s.timestamps()[0], 1000);
    assert_eq!(s.raw()[127], 77);
    s.try_set_ts(5);
    assert_eq!(s.timestamps()[127], 5);
    assert_eq!(s.raw()[127], 77);
}

#[test]
fn try_get_xy_bounds() {
    let s = counting();
    assert_eq!(s.try_get_xy(-1), Err(SamplerError::OutOfBound));
    assert_eq!(s.try_get_xy(128), Err(SamplerError::OutOfBound));
    assert_eq!(s.try_get_xy(5), Ok((1005, 5)));
}

#[test]
fn values_raw_pairs_stamp_with_reading() {
    let s = counting();
    let v = s.values_raw();
    assert_eq!(v.len(), WINDOW);
    assert_eq!(v[3], (1003, 3));
}

#[test]
fn car_takes_first_readings() {
    let s = counting();
    assert!(s.car(0).is_empty());
    assert!(s.car(-4).is_empty());
    assert_eq!(s.car(3), vec![0, 1, 2]);
    assert_eq!(s.car(1000).len(), WINDOW);
}

#[test]
fn cdr_takes_remaining_readings() {
    let s = counting();
    assert_eq!(s.cdr(125), vec![125, 126, 127]);
    assert_eq!(s.cdr(0).len(), WINDOW);
    assert!(s.cdr(128).is_empty());
    assert!(s.cdr(-1).is_empty());
}

#[test]
fn car_and_cdr_split_the_readings() {
    let s = counting();
    for n in 0..=128i64 {
        let mut both = s.car(n);
        both.extend(s.cdr(n));
        assert_eq!(both, s.raw());
    }
}

#[test]
fn select_keeps_flagged_readings() {
    let s = counting();
    let keep: Vec<bool> = (0..WINDOW).map(|i| i % 2 == 0).collect();
    let sel = s.select_readings(&keep);
    assert_eq!(sel.len(), 64);
    assert_eq!(sel[1], 2);
    let all = vec![true; WINDOW];
    assert_eq!(s.select_readings(&all), s.raw());
}

#[test]
fn blocks_cut_readings_into_eights() {
    let s = counting();
    let b = s.blocks();
    assert_eq!(b.len(), WINDOW / BLOCK);
    assert_eq!(b[1], vec![8, 9, 10, 11, 12, 13, 14, 15]);
    assert_eq!(b.concat(), s.raw());
}

#[test]
fn distribute_replaces_stamps_only() {
    let s = counting();
    let stamps: Vec<i64> = (0..WINDOW as i64).map(|i| -i).collect();
    let r = s.distribute_timestamps(&stamps);
    assert_eq!(r.timestamps(), stamps);
    assert_eq!(r.raw(), s.raw());
    assert_eq!(s.timestamps()[2], 1002);
}

#[test]
fn duplicate_is_equal_copy() {
    let s = counting();
    let d = s.duplicate();
    assert_eq!(d.raw(), s.raw());
    assert_eq!(d.timestamps(), s.timestamps());
}
