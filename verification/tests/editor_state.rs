use balchug::api::{color_to_hex, parse_hex_color, ParseColorError, ProjectProperties};
use balchug::editor::{modify_states_possible, select_timeline_point, GuideDirection, TimeLinePoints};
use balchug::settings::{BalchugSettings, InertiaProperties};
use balchug::sprite::{map_easing_to_str, map_str_to_easing, str_eq, Easing};

const ALL_EASINGS: [Easing; 7] = [
    Easing::Linear,
    Easing::InSine,
    Easing::OutSine,
    Easing::InOutSine,
    Easing::InCubic,
    Easing::OutCubic,
    Easing::InOutCubic,
];

#[test]
fn parse_colors() {
    assert_eq!(parse_hex_color("#ff8000"), Ok([255, 128, 0]));
    assert_eq!(parse_hex_color("00FF0a"), Ok([0, 255, 10]));
    assert_eq!(parse_hex_color("##0a0B0c"), Ok([10, 11, 12]));
    assert_eq!(parse_hex_color("+f+f+f"), Ok([15, 15, 15]));
    assert_eq!(parse_hex_color("#123456789"), Ok([0x12, 0x34, 0x56]));
}

#[test]
fn parse_color_errors() {
    assert_eq!(parse_hex_color("#gg0000"), Err(ParseColorError::InvalidDigit));
    assert_eq!(parse_hex_color("#00zz00"), Err(ParseColorError::InvalidDigit));
    assert_eq!(parse_hex_color("#0000-1"), Err(ParseColorError::InvalidDigit));
    assert_eq!(parse_hex_color("#x1"), Err(ParseColorError::InvalidDigit));
}

#[test]
fn colors_are_written_in_lowercase() {
    assert_eq!(color_to_hex([255, 128, 0]), "#ff8000");
    assert_eq!(color_to_hex([0, 0, 0]), "#000000");
    assert_eq!(color_to_hex([10, 171, 205]), "#0aabcd");
}

#[test]
fn written_colors_read_back() {
    for c in [[0u8, 0, 0], [255, 255, 255], [1, 16, 254], [171, 205, 239]] {
        assert_eq!(parse_hex_color(&color_to_hex(c)), Ok(c));
    }
}

#[test]
fn easing_labels() {
    assert_eq!(map_str_to_easing("In Cubic"), Easing::InCubic);
    assert_eq!(map_str_to_easing("In-Out Sine"), Easing::InOutSine);
    assert_eq!(map_str_to_easing("Linear"), Easing::Linear);
    assert_eq!(map_str_to_easing("in cubic"), Easing::Linear);
    assert_eq!(map_str_to_easing(""), Easing::Linear);
    assert_eq!(map_easing_to_str(Easing::OutSine), "Out Sine");
    assert_eq!(map_easing_to_str(Easing::Linear), "Linear");
    assert_eq!(Easing::default(), Easing::Linear);
}

#[test]
fn easing_labels_read_back() {
    for e in ALL_EASINGS {
        assert_eq!(map_str_to_easing(map_easing_to_str(e)), e);
    }
}

#[test]
fn string_equality() {
    assert!(str_eq("abc", "abc"));
    assert!(!str_eq("abc", "abd"));
    assert!(!str_eq("abc", "ab"));
    assert!(str_eq("", ""));
    assert!(str_eq("ёж", "ёж"));
}

#[test]
fn default_settings_and_properties() {
    let i = InertiaProperties::default();
    assert_eq!((i.viscosity, i.inertion), (20, 50));
    let s = BalchugSettings::default();
    assert_eq!(s.background_color, [0, 0, 0]);
    assert_eq!(s.inertia_properties, i);
    let p = ProjectProperties::default();
    assert_eq!(p.name, "Balchug Project");
    assert_eq!((p.background_color, p.default_text_color), ([0, 0, 0], [255, 255, 255]));
    assert_eq!((p.viscosity, p.inertion), (20, 50));
}

#[test]
fn settings_follow_the_properties() {
    let mut p = ProjectProperties::default();
    p.background_color = [1, 2, 3];
    p.viscosity = 7;
    p.inertion = 90;
    let s = p.settings();
    assert_eq!(s.background_color, [1, 2, 3]);
    assert_eq!(s.inertia_properties, InertiaProperties { viscosity: 7, inertion: 90 });
}

#[test]
fn guide_directions_differ() {
    assert_ne!(GuideDirection::Horizonal, GuideDirection::Vertical);
}

#[test]
fn first_click_selects_one_state() {
    let p = select_timeline_point(&None, 2, 5).expect("a state is selected");
    assert_eq!((p.sprite_group_index, p.states_indices.clone()), (2, vec![5]));
}

#[test]
fn click_in_another_group_starts_over() {
    let cur = Some(TimeLinePoints::all(1, 3));
    let p = select_timeline_point(&cur, 4, 2).expect("a state is selected");
    assert_eq!((p.sprite_group_index, p.states_indices), (4, vec![2]));
}

#[test]
fn clicks_toggle_states_in_order() {
    let cur = Some(TimeLinePoints { sprite_group_index: 0, states_indices: vec![1, 4] });
    let p = select_timeline_point(&cur, 0, 3).expect("still selected");
    assert_eq!(p.states_indices, vec![1, 3, 4]);
    let p = select_timeline_point(&Some(p), 0, 0).expect("still selected");
    assert_eq!(p.states_indices, vec![0, 1, 3, 4]);
    let p = select_timeline_point(&Some(p), 0, 9).expect("still selected");
    assert_eq!(p.states_indices, vec![0, 1, 3, 4, 9]);
    let p = select_timeline_point(&Some(p), 0, 3).expect("still selected");
    assert_eq!(p.states_indices, vec![0, 1, 4, 9]);
    assert_eq!(p.sprite_group_index, 0);
}

#[test]
fn deselecting_the_last_state_leaves_nothing() {
    let cur = Some(TimeLinePoints::single(3, 7));
    assert!(select_timeline_point(&cur, 3, 7).is_none());
}

#[test]
fn second_click_restores_the_selection() {
    let start = TimeLinePoints { sprite_group_index: 1, states_indices: vec![0, 2, 5] };
    for index in [0usize, 1, 2, 5, 6] {
        let once = start.toggle(index).expect("something stays selected");
        let twice = once.toggle(index).expect("something stays selected");
        assert_eq!(twice.states_indices, start.states_indices);
    }
}

#[test]
fn all_states_selected() {
    assert_eq!(TimeLinePoints::all(0, 4).states_indices, vec![0, 1, 2, 3]);
    assert!(TimeLinePoints::all(0, 0).states_indices.is_empty());
}

#[test]
fn state_changes_offered() {
    assert!(modify_states_possible(true, false, false, 2));
    assert!(!modify_states_possible(true, false, true, 5));
    assert!(modify_states_possible(false, true, true, 3));
    assert!(!modify_states_possible(false, true, true, 2));
    assert!(!modify_states_possible(false, true, false, 9));
    assert!(!modify_states_possible(false, false, false, 9));
}

#[test]
fn read_colours_are_written_back_lowercase() {
    for s in ["#AbCdEf", "#00ff7F", "#123456", "#FFFFFF"] {
        let c = parse_hex_color(s).expect("six hex digits read");
        assert_eq!(color_to_hex(c), s.to_ascii_lowercase());
    }
}
