use rally_timer::debounce::{debounce_all, DebounceFilter};

#[test]
fn first_candidate_always_accepted() {
    let mut f = DebounceFilter::new(5000);
    assert!(f.offer(7));
}

#[test]
fn window_spacing_is_enforced() {
    let ts: Vec<u64> = vec![0, 500, 1000, 1400, 2000];
    let accepted = debounce_all(1000, &ts);
    assert_eq!(accepted, vec![0, 1000, 2000]);
}

#[test]
fn zero_window_accepts_every_candidate() {
    let ts: Vec<u64> = vec![100, 110, 110, 120];
    let accepted = debounce_all(0, &ts);
    assert_eq!(accepted, vec![100, 110, 110, 120]);
}

#[test]
fn candidate_inside_window_is_rejected_and_watermark_kept() {
    let mut f = DebounceFilter::new(1000);
    assert!(f.offer(10_000));
    assert!(!f.offer(10_500));
    // the rejected candidate must not have moved the watermark
    assert!(f.offer(11_000));
}

#[test]
fn out_of_order_candidate_is_rejected_not_underflowed() {
    let mut f = DebounceFilter::new(100);
    assert!(f.offer(5_000));
    // earlier than the watermark: treated as within the window
    assert!(!f.offer(4_000));
    assert!(f.offer(5_100));
}

#[test]
fn exact_window_boundary_is_accepted() {
    let mut f = DebounceFilter::new(1000);
    assert!(f.offer(0));
    assert!(!f.offer(999));
    assert!(f.offer(1000));
}
