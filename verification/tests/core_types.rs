use chubby_bunny::{
    next_id, parse_hex_color, AttachmentConstraint, BodySettings, CollisionConstraint, Event,
    IdCounter, InputState, MouseButton, MouseEventType, SVGConstraintSettings, style_declarations,
};
use std::collections::HashMap;

#[test]
fn ids_count_up() {
    let mut counter = IdCounter::new();
    assert_eq!(next_id(&mut counter), 0);
    assert_eq!(next_id(&mut counter), 1);
    assert_eq!(next_id(&mut counter), 2);
}

#[test]
fn settings_from_values_as_in_readme() {
    let body_settings = BodySettings::from_values(1.0_f32, 0.01, false);
    assert_eq!(body_settings.particle_settings.mass, 1.0);
    assert_eq!(body_settings.particle_settings.friction, 0.01);
    assert!(!body_settings.particle_settings.is_static);
    let s = SVGConstraintSettings::from_values(0.5_f32, 0.35, 0.3, 0.4, 0.5, 5, 8, 2.0, 3);
    assert_eq!(s.constraint_settings.stiffness_distance, 0.5);
    assert_eq!(s.constraint_settings.stiffness_shear, 0.35);
    assert_eq!(s.constraint_settings.stiffness_bending, 0.3);
    assert_eq!(s.constraint_settings.stiffness_area, 0.4);
    assert_eq!(s.constraint_settings.attachment_stiffness, 0.5);
    assert_eq!(s.attachment_settings.child_sample_stride, 5);
    assert_eq!(s.attachment_settings.max_total_attachments, 8);
    assert_eq!(s.attachment_settings.max_distance_factor, 2.0);
    assert_eq!(s.attachment_settings.parent_springs_per_child_anchor, 3);
}

#[test]
fn collision_constraint_keeps_stiffness() {
    assert_eq!(CollisionConstraint::new(0.99_f32).stiffness(), 0.99);
}

#[test]
fn attachment_follows_renamed_body() {
    let mut c = AttachmentConstraint {
        id: 4,
        point_idxs_parent: vec![0, 1],
        point_idxs_child: vec![2, 3],
        target_distances: vec![1.0_f32, 2.0],
        stiffness: 0.5,
    };
    let mut map = HashMap::new();
    map.insert(3, 30);
    c.remap_body_ids(&map);
    assert_eq!(c.get_id(), 4);
    map.insert(4, 40);
    c.remap_body_ids(&map);
    assert_eq!(c.get_id(), 40);
    assert_eq!(c.point_idxs_child, vec![2, 3]);
}

#[test]
fn input_events_chain_their_states() {
    let mut input: InputState<(i32, i32)> = InputState::new();
    input.mouse_down(MouseButton::Left, (1, 1));
    input.mouse_move((2, 3));
    input.mouse_up(MouseButton::Left, (4, 4));
    let events: Vec<Event<(i32, i32)>> = input.events.drain(..).collect();
    assert_eq!(events.len(), 3);
    assert_eq!(events[0].event_type, MouseEventType::Down);
    assert_eq!(events[0].last_state, None);
    assert_eq!(events[1].event_type, MouseEventType::Move);
    assert_eq!(events[1].button, MouseButton::NoButton);
    assert_eq!(events[1].last_state, Some((1, 1)));
    assert_eq!(events[2].last_state, Some((2, 3)));
    input.mouse_move((9, 9));
    assert_eq!(input.events[0].last_state, Some((4, 4)));
}

#[test]
fn hex_colors() {
    assert_eq!(parse_hex_color("#fff"), Some((255, 255, 255)));
    assert_eq!(parse_hex_color("  #0a0B0c \n"), Some((10, 11, 12)));
    assert_eq!(parse_hex_color("#abc"), parse_hex_color("#aabbcc"));
    assert_eq!(parse_hex_color("#12"), None);
    assert_eq!(parse_hex_color("abc"), None);
    assert_eq!(parse_hex_color("#ggg"), None);
    assert_eq!(parse_hex_color("#+f0000"), Some((15, 0, 0)));
    assert_eq!(parse_hex_color("#+++"), None);
    assert_eq!(parse_hex_color("#ééé"), None);
}

#[test]
fn style_declarations_split_and_trim() {
    let d = style_declarations("fill:#f4d35e;stroke:#000000;stroke-width:2");
    assert_eq!(
        d,
        vec![
            ("fill".to_string(), "#f4d35e".to_string()),
            ("stroke".to_string(), "#000000".to_string()),
            ("stroke-width".to_string(), "2".to_string()),
        ]
    );
    let d = style_declarations(" a : b : c ;;x");
    assert_eq!(
        d,
        vec![
            ("a".to_string(), "b : c".to_string()),
            (String::new(), String::new()),
            ("x".to_string(), String::new()),
        ]
    );
    assert_eq!(style_declarations(""), vec![(String::new(), String::new())]);
}

#[test]
fn input_state_default_is_empty() {
    let input: InputState<u8> = Default::default();
    assert!(input.events.is_empty());
}
