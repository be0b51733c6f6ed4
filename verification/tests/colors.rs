use amogus::{adjust_color, color_distance_squared, is_distinct, Color};

#[test]
fn lightening_adds_eight_to_red_green_and_blue() {
    let c = Color::new(10, 20, 30, 40);
    assert_eq!(adjust_color(c), Color::new(18, 28, 38, 40));
}

#[test]
fn lightening_saturates_at_255() {
    let c = Color::new(250, 247, 248, 255);
    assert_eq!(adjust_color(c), Color::new(255, 255, 255, 255));
}

#[test]
fn distance_is_the_sum_of_the_squared_channel_gaps() {
    let a = Color::new(0, 0, 0, 0);
    let b = Color::new(3, 4, 12, 84);
    assert_eq!(color_distance_squared(a, b), 9 + 16 + 144 + 7056);
    assert_eq!(color_distance_squared(b, a), 9 + 16 + 144 + 7056);
}

#[test]
fn colours_exactly_fifty_apart_are_not_distinct() {
    let a = Color::new(0, 0, 0, 255);
    let b = Color::new(30, 40, 0, 255);
    assert_eq!(color_distance_squared(a, b), 2500);
    assert!(!is_distinct(a, b));
    let c = Color::new(30, 40, 1, 255);
    assert!(is_distinct(a, c));
}
