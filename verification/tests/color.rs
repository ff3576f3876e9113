//! Color policy tests: the decision is a pure function of the mode and the
//! observed environment.

use rtp_opus::ColorWhen;

#[test]
fn no_color_disables_in_auto() {
    // NO_COLOR set: Auto never colors, TTY or not.
    assert!(!ColorWhen::Auto.should_color(true, false, true));
    assert!(!ColorWhen::Auto.should_color(true, false, false));
}

#[test]
fn emacs_disables_in_auto() {
    // EMACS set: Auto never colors, TTY or not.
    assert!(!ColorWhen::Auto.should_color(false, true, true));
    assert!(!ColorWhen::Auto.should_color(false, true, false));
}

#[test]
fn explicit_always_wins() {
    // Always colors even with NO_COLOR set.
    assert!(ColorWhen::Always.should_color(true, false, false));
}

#[test]
fn explicit_never_wins() {
    assert!(!ColorWhen::Never.should_color(false, false, true));
}

#[test]
fn auto_follows_tty() {
    assert!(ColorWhen::Auto.should_color(false, false, true));
    assert!(!ColorWhen::Auto.should_color(false, false, false));
}
