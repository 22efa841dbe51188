use retropixel::effects::{clamp_hue_degrees, clamp_percent};

#[test]
fn percent_is_limited() {
    assert_eq!(clamp_percent(-250), -100);
    assert_eq!(clamp_percent(-100), -100);
    assert_eq!(clamp_percent(-3), -3);
    assert_eq!(clamp_percent(0), 0);
    assert_eq!(clamp_percent(100), 100);
    assert_eq!(clamp_percent(i32::MAX), 100);
    assert_eq!(clamp_percent(i32::MIN), -100);
}

#[test]
fn hue_is_limited() {
    assert_eq!(clamp_hue_degrees(-1), 0);
    assert_eq!(clamp_hue_degrees(0), 0);
    assert_eq!(clamp_hue_degrees(180), 180);
    assert_eq!(clamp_hue_degrees(360), 360);
    assert_eq!(clamp_hue_degrees(361), 360);
}
