use literacy::controls::{
    back_fast, back_step, forward_fast, forward_step, is_highlighted, slider_bounds,
    slider_change, slider_value, FAST_STEP,
};

#[test]
fn fast_step_is_five() {
    assert_eq!(FAST_STEP, 5);
}

#[test]
fn back_fast_moves_five_back_but_not_to_the_first_page() {
    assert_eq!(back_fast(12), 7);
    assert_eq!(back_fast(6), 1);
    assert_eq!(back_fast(5), 5);
    assert_eq!(back_fast(usize::MAX), usize::MAX - 5);
}

#[test]
fn back_step_moves_one_back_but_for_the_first_page() {
    assert_eq!(back_step(3), 2);
    assert_eq!(back_step(1), 0);
    assert_eq!(back_step(0), 0);
}

#[test]
fn forward_step_moves_one_on_up_to_the_largest_index() {
    assert_eq!(forward_step(0), 1);
    assert_eq!(forward_step(41), 42);
    assert_eq!(forward_step(usize::MAX - 1), usize::MAX);
    assert_eq!(forward_step(usize::MAX), usize::MAX);
}

#[test]
fn forward_fast_moves_five_on_below_the_largest_index() {
    assert_eq!(forward_fast(0), 5);
    assert_eq!(forward_fast(10), 15);
    assert_eq!(forward_fast(usize::MAX - 6), usize::MAX - 1);
    assert_eq!(forward_fast(usize::MAX - 5), usize::MAX - 5);
}

#[test]
fn slider_shows_zero_without_a_highlight() {
    assert_eq!(slider_value(None), 0);
    assert_eq!(slider_value(Some(0)), 0);
    assert_eq!(slider_value(Some(7)), 7);
}

#[test]
fn slider_change_is_none_for_the_value_shown() {
    assert_eq!(slider_change(Some(3), 3), None);
    assert_eq!(slider_change(None, 0), None);
    assert_eq!(slider_change(Some(3), 4), Some(4));
    assert_eq!(slider_change(None, 2), Some(2));
    assert_eq!(slider_change(Some(2), 0), Some(0));
}

#[test]
fn slider_bounds_span_the_words() {
    assert_eq!(slider_bounds(0), None);
    assert_eq!(slider_bounds(1), Some((0, 0)));
    assert_eq!(slider_bounds(10), Some((0, 9)));
}

#[test]
fn highlight_needs_the_active_segment_and_the_word() {
    assert!(is_highlighted(true, Some(2), 2));
    assert!(!is_highlighted(false, Some(2), 2));
    assert!(!is_highlighted(true, Some(2), 1));
    assert!(!is_highlighted(true, None, 0));
}
