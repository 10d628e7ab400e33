use advanced_rust::traffic_light::{
    Emergency, Intersection, Light, LightStatus, Red, TrafficLight,
};

#[test]
fn normal_cycle_keeps_the_name() {
    let light = TrafficLight::<Red>::new("Main St North");
    assert_eq!(light.display(), "[Main St North] RED — Stop");
    let light = light.turn_green();
    assert_eq!(light.display(), "[Main St North] GREEN — Go");
    assert!(!light.is_stop());
    let light = light.turn_yellow();
    assert_eq!(light.display(), "[Main St North] YELLOW — Caution");
    assert!(light.is_stop());
    let light = light.turn_red();
    assert_eq!(light.display(), "[Main St North] RED — Stop");
    assert_eq!(light.name(), "Main St North");
}

#[test]
fn emergency_from_any_state_and_recovery() {
    let green_light = TrafficLight::<Red>::new("Elm St").turn_green();
    assert_eq!(green_light.display(), "[Elm St] GREEN — Go");
    let flashing = green_light.emergency("Power grid failure");
    assert_eq!(
        flashing.display(),
        "[Elm St] FLASHING RED — Emergency: Power grid failure"
    );
    assert!(flashing.is_stop());

    let yellow_light = TrafficLight::<Red>::new("Oak Ave").turn_green().turn_yellow();
    let flashing2 = yellow_light.emergency("Accident ahead");
    assert_eq!(
        flashing2.display(),
        "[Oak Ave] FLASHING RED — Emergency: Accident ahead"
    );

    let recovered = flashing.recover();
    assert_eq!(recovered.display(), "[Elm St] RED — Stop");
    assert_eq!(recovered.status_line(), "RED — Stop");
}

#[test]
fn mixed_intersection_is_not_all_stopped() {
    let mut intersection = Intersection::new();
    intersection.add(Light::Red(TrafficLight::<Red>::new("North")));
    intersection.add(Light::Green(TrafficLight::<Red>::new("South").turn_green()));
    intersection.add(Light::Yellow(
        TrafficLight::<Red>::new("East").turn_green().turn_yellow(),
    ));
    intersection.add(Light::FlashingRed(
        TrafficLight::<Red>::new("West").emergency("Sensor fault"),
    ));
    assert_eq!(
        intersection.report(),
        vec![
            "[North] RED — Stop".to_string(),
            "[South] GREEN — Go".to_string(),
            "[East] YELLOW — Caution".to_string(),
            "[West] FLASHING RED — Emergency: Sensor fault".to_string(),
        ]
    );
    assert!(!intersection.all_stopped());
}

#[test]
fn all_red_intersection_is_all_stopped() {
    let mut all_red = Intersection::new();
    for n in ["N", "S", "E", "W"] {
        all_red.add(Light::Red(TrafficLight::<Red>::new(n)));
    }
    assert_eq!(all_red.report().len(), 4);
    assert_eq!(all_red.report()[3], "[W] RED — Stop");
    assert!(all_red.all_stopped());
}

#[test]
fn empty_intersection() {
    let empty = Intersection::new();
    assert!(empty.all_stopped());
    assert!(empty.report().is_empty());
}

#[test]
fn status_line_borrows_fixed_text_and_owns_the_emergency_text() {
    let red = TrafficLight::<Red>::new("A");
    assert!(matches!(red.status_line(), std::borrow::Cow::Borrowed("RED — Stop")));
    let flashing = TrafficLight::<Red>::new("B").emergency("power cut");
    let line = flashing.status_line();
    assert!(matches!(line, std::borrow::Cow::Owned(_)));
    assert_eq!(line, "FLASHING RED — Emergency: power cut");
}
