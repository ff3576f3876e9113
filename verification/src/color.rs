//! CLI color policy.
//!
//! The decision is a pure function of the chosen mode and of what the caller
//! observed about the process environment: whether `NO_COLOR` is set,
//! whether `EMACS` is set, and whether the target stream is a TTY.

use vstd::prelude::*;

verus! {

/// When to emit ANSI colors.
#[derive(Debug, Clone, Copy, PartialEq, Eq, Structural)]
pub enum ColorWhen {
    /// Enable colors only when output is a TTY and nothing disables them.
    Auto,
    /// Always enable colors.
    Always,
    /// Never enable colors.
    Never,
}

/// The color decision: an explicit choice wins; in `Auto`, color is used
/// only when neither `NO_COLOR` nor `EMACS` is set and the stream is a TTY.
pub open spec fn should_color_spec(
    mode: ColorWhen,
    no_color: bool,
    emacs: bool,
    is_tty: bool,
) -> bool {
    match mode {
        ColorWhen::Always => true,
        ColorWhen::Never => false,
        ColorWhen::Auto => !no_color && !emacs && is_tty,
    }
}

impl ColorWhen {
    /// Returns whether ANSI color should be used, given what the caller
    /// observed about the environment and the target stream.
    pub fn should_color(self, no_color: bool, emacs: bool, is_tty: bool) -> (r: bool)
        ensures
            r == should_color_spec(self, no_color, emacs, is_tty),
    {
        match self {
            ColorWhen::Always => true,
            ColorWhen::Never => false,
            ColorWhen::Auto => {
                if no_color {
                    return false;
                }
                if emacs {
                    return false;
                }
                is_tty
            },
        }
    }
}

} // verus!
