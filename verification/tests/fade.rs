use term_chat::fade::{fade_action, fade_window, FadeAction, FadeMode};
use term_chat::time::Duration;

#[test]
fn disabled_fade_keeps_forever() {
    assert_eq!(
        fade_action(Duration::from_secs(9999), 0, FadeMode::Remove),
        FadeAction::Keep
    );
    assert_eq!(
        fade_action(Duration::from_secs(9999), 0, FadeMode::Dim),
        FadeAction::Keep
    );
    assert_eq!(fade_window(0), Duration::zero());
}

#[test]
fn remove_mode_drops_at_timeout() {
    assert_eq!(
        fade_action(Duration::from_secs(4), 5, FadeMode::Remove),
        FadeAction::Keep
    );
    assert_eq!(
        fade_action(Duration::from_secs(5), 5, FadeMode::Remove),
        FadeAction::Remove
    );
    assert_eq!(
        fade_action(Duration::from_secs(6), 5, FadeMode::Remove),
        FadeAction::Remove
    );
}

#[test]
fn dim_mode_dims_then_removes() {
    // fade_secs = 10 -> window = min(2.0, 10 * 0.2) = 2s -> dim starts at 8s.
    assert_eq!(
        fade_action(Duration::from_secs(7), 10, FadeMode::Dim),
        FadeAction::Keep
    );
    assert_eq!(
        fade_action(Duration::from_secs(8), 10, FadeMode::Dim),
        FadeAction::Dim
    );
    assert_eq!(
        fade_action(Duration::from_secs(9), 10, FadeMode::Dim),
        FadeAction::Dim
    );
    assert_eq!(
        fade_action(Duration::from_secs(10), 10, FadeMode::Dim),
        FadeAction::Remove
    );
    assert_eq!(
        fade_action(Duration::from_secs(11), 10, FadeMode::Dim),
        FadeAction::Remove
    );
}

#[test]
fn dim_window_is_capped_at_two_seconds() {
    assert_eq!(fade_window(1000), Duration::from_secs(2));
    // Short lifetimes keep a proportional (small) window.
    assert!(fade_window(3) < Duration::from_secs(2));
}

#[test]
fn parse_mode_defaults_to_remove() {
    assert_eq!(FadeMode::parse("dim"), FadeMode::Dim);
    assert_eq!(FadeMode::parse("DIM"), FadeMode::Dim);
    assert_eq!(FadeMode::parse("remove"), FadeMode::Remove);
    assert_eq!(FadeMode::parse(""), FadeMode::Remove);
    assert_eq!(FadeMode::parse("explode"), FadeMode::Remove);
}

#[test]
fn parse_mode_ignores_white_space_around() {
    assert_eq!(FadeMode::parse("  Dim\t\n"), FadeMode::Dim);
    assert_eq!(FadeMode::parse("\u{3000}dim\u{a0}"), FadeMode::Dim);
    assert_eq!(FadeMode::parse("d im"), FadeMode::Remove);
}

#[test]
fn window_agrees_with_the_floating_point_formula() {
    for secs in 0u64..2000 {
        let fraction = std::time::Duration::from_secs_f64(secs as f64 * 0.2);
        let expected = fraction.min(std::time::Duration::from_secs(2));
        assert_eq!(fade_window(secs).nanos, expected.as_nanos());
    }
    assert_eq!(fade_window(u64::MAX), Duration::from_secs(2));
}

#[test]
fn a_dimmed_message_is_never_shown_in_full_again() {
    let mut seen_dim = false;
    let mut seen_remove = false;
    for ms in 0..7000u64 {
        let action = fade_action(Duration::from_millis(ms), 5, FadeMode::Dim);
        if seen_dim {
            assert_ne!(action, FadeAction::Keep);
        }
        if seen_remove {
            assert_eq!(action, FadeAction::Remove);
        }
        seen_dim = seen_dim || action == FadeAction::Dim;
        seen_remove = seen_remove || action == FadeAction::Remove;
        // Both modes remove at the same moment.
        let plain = fade_action(Duration::from_millis(ms), 5, FadeMode::Remove);
        assert_eq!(plain == FadeAction::Remove, action == FadeAction::Remove);
    }
    assert!(seen_dim && seen_remove);
    assert_eq!(fade_action(Duration::from_millis(3999), 5, FadeMode::Dim), FadeAction::Keep);
    assert_eq!(fade_action(Duration::from_millis(4000), 5, FadeMode::Dim), FadeAction::Dim);
}
