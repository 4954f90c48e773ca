//! The floating toolbar shown while recording: its elapsed-time text and the
//! look of its pause button.
use vstd::prelude::*;

use crate::text::{decimal, push_char, push_decimal_padded, zero_padded};

verus! {

/// Elapsed time as `HH:MM:SS`, each part at least two digits.
pub open spec fn timer_text_spec(secs: nat) -> Seq<char> {
    zero_padded(decimal(secs / 3600), 2) + seq![':'] + zero_padded(decimal((secs % 3600) / 60), 2)
        + seq![':'] + zero_padded(decimal(secs % 60), 2)
}

pub fn timer_text(secs: u64) -> (r: String)
    ensures
        r@ == timer_text_spec(secs as nat),
{
    let mut out = String::new();
    push_decimal_padded(&mut out, secs / 3600, 2);
    push_char(&mut out, ':');
    push_decimal_padded(&mut out, (secs % 3600) / 60, 2);
    push_char(&mut out, ':');
    push_decimal_padded(&mut out, secs % 60, 2);
    out
}

pub open spec fn pause_icon_spec(paused: bool) -> Seq<char> {
    if paused {
        "media-playback-start-symbolic"@
    } else {
        "media-playback-pause-symbolic"@
    }
}

pub open spec fn pause_tooltip_spec(paused: bool) -> Seq<char> {
    if paused {
        "Продолжить"@
    } else {
        "Пауза"@
    }
}

/// Icon name and tooltip of the pause button: "resume" while paused, "pause" otherwise.
pub fn pause_button_look(paused: bool) -> (r: (&'static str, &'static str))
    ensures
        r.0@ == pause_icon_spec(paused),
        r.1@ == pause_tooltip_spec(paused),
{
    if paused {
        ("media-playback-start-symbolic", "Продолжить")
    } else {
        ("media-playback-pause-symbolic", "Пауза")
    }
}

} // verus!
