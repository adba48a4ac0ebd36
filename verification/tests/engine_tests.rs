//! Engine-side pieces: configuration, input states, animation, tiles,
//! styles and error messages.

use teengine::AnimationProvider;
use teengine::AnimationSequence;
use teengine::EngineConfig;
use teengine::FontError;
use teengine::InputAction;
use teengine::KeyState;
use teengine::TextAlignment;
use teengine::TextStyle;
use teengine::TileType;
use teengine::VerticalAlignment;
use teengine::input::key_event;
use teengine::input::key_transition;

#[test]
fn engine_config_defaults() {
    let c = EngineConfig::default();
    assert_eq!(c.title, "Game");
    assert_eq!((c.width, c.height), (800, 600));
    assert!(c.vsync);
    assert!(c.fps_limit.is_none());
}

#[test]
fn text_style_defaults() {
    let s = TextStyle::default();
    assert_eq!(s.font_size, 16);
    assert_eq!(s.color, [255, 255, 255, 255]);
    assert_eq!(s.line_height, 120);
    assert_eq!(s.letter_spacing, 0);
    assert_eq!(s.alignment, TextAlignment::Left);
    assert_eq!(s.vertical_alignment, VerticalAlignment::Top);
    assert!(s.max_width.is_none());
    assert!(s.background_color.is_none());
    assert!(s.clip_bounds.is_none());
}

#[test]
fn key_transitions_follow_the_press_lifecycle() {
    assert_eq!(key_transition(false, true), KeyState::Pressed);
    assert_eq!(key_transition(true, true), KeyState::Held);
    assert_eq!(key_transition(true, false), KeyState::Released);
    assert_eq!(key_transition(false, false), KeyState::Idle);
    assert_eq!(key_event(KeyState::Idle, true), KeyState::Pressed);
    assert_eq!(key_event(KeyState::Pressed, true), KeyState::Held);
    assert_eq!(key_event(KeyState::Held, false), KeyState::Released);
    assert_eq!(key_event(KeyState::Released, false), KeyState::Idle);
    assert_eq!(InputAction::Jump, InputAction::Jump);
    assert_ne!(InputAction::MoveLeft, InputAction::MoveRight);
}

#[test]
fn animation_advances_once_per_frame_duration() {
    let mut anim = AnimationSequence::new("walk".to_string(), vec![3, 5, 7], 100, false);
    // Frame time not yet elapsed at 50 ms: the first frame stays.
    assert_eq!(anim.get_current_frame(50), Some(3));
    // Elapsed at 100 ms: show the first frame and advance.
    assert_eq!(anim.get_current_frame(100), Some(3));
    assert_eq!(anim.get_current_frame(150), Some(5));
    assert_eq!(anim.get_current_frame(250), Some(5));
    assert_eq!(anim.get_current_frame(350), Some(7));
    // A non-repeating sequence runs out.
    assert_eq!(anim.get_current_frame(500), None);
}

#[test]
fn a_repeating_animation_wraps_around() {
    let mut anim = AnimationSequence::new("spin".to_string(), vec![1, 2], 10, true);
    assert_eq!(anim.get_current_frame(10), Some(1));
    assert_eq!(anim.get_current_frame(20), Some(2));
    assert_eq!(anim.get_current_frame(30), Some(1));
}

#[test]
fn reset_rewinds_to_the_first_frame() {
    let mut anim = AnimationSequence::new("walk".to_string(), vec![3, 5], 10, false);
    assert_eq!(anim.get_current_frame(10), Some(3));
    assert_eq!(anim.get_current_frame(20), Some(5));
    anim.reset(20);
    assert_eq!(anim.get_current_frame(25), Some(3));
    assert_eq!(anim.name, "walk");
}

#[test]
fn tile_kinds_compare_by_kind_and_name() {
    assert_eq!(TileType::Ground, TileType::Ground);
    assert_ne!(TileType::Water, TileType::Lava);
    assert_eq!(TileType::Custom("ledge".to_string()), TileType::Custom("ledge".to_string()));
    assert_ne!(TileType::Custom("ledge".to_string()), TileType::Custom("rope".to_string()));
}

#[test]
fn errors_carry_their_description() {
    let e = FontError::LoadError("record truncated".to_string());
    assert_eq!(e.message().as_str(), "record truncated");
    let e = FontError::SaveError("disk full".to_string());
    assert_eq!(e.message().as_str(), "disk full");
}
