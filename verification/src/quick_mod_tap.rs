//! A modifier-tap key with an independent action for tap-then-hold: hold is decided as soon
//! as another key is pressed, after 220 ms at the latest, and a second tap counts within
//! 200 ms. The key becomes an RMK morse key.
use vstd::prelude::*;
use rmk_types::action::Action;
use rmk_types::morse::Morse;

verus! {

pub const HOLD_TIMEOUT_MS: u16 = 220;
pub const DANCE_TIMEOUT_MS: u16 = 200;

/// RMK's key action, carried through unread.
#[verifier::external_type_specification]
#[verifier::external_body]
pub struct ExAction(rmk_types::action::Action);

/// RMK's morse key (its profile and its pattern-to-action map).
#[verifier::external_type_specification]
#[verifier::external_body]
pub struct ExMorse(rmk_types::morse::Morse);

/// RMK's packed morse profile.
#[verifier::external_type_specification]
#[verifier::external_body]
pub struct ExMorseProfile(rmk_types::morse::MorseProfile);

/// When a held key becomes a hold.
#[derive(Clone, Copy, Debug, PartialEq, Eq, Structural)]
pub enum MorseMode {
    PermissiveHold,
    HoldOnOtherPress,
    Normal,
}

/// The tap-hold settings of a key, as plain values (`None`: RMK's global default).
#[derive(Clone, Copy, Debug, PartialEq, Eq, Structural)]
pub struct MorseSettings {
    pub unilateral_tap: Option<bool>,
    pub mode: Option<MorseMode>,
    pub hold_timeout_ms: Option<u16>,
    pub gap_timeout_ms: Option<u16>,
}

/// Longest timeout a morse profile holds, in milliseconds.
pub const TIMEOUT_MAX_MS: u16 = 8191;

/// The bits of RMK's morse patterns for a tap, a hold, and a tap then a hold.
pub const TAP_PATTERN: u16 = 0b10;
pub const HOLD_PATTERN: u16 = 0b11;
pub const HOLD_AFTER_TAP_PATTERN: u16 = 0b101;

/// The settings an RMK morse profile gives back through its getters (`unilateral_tap`,
/// `mode`, `hold_timeout_ms`, `gap_timeout_ms`).
pub uninterp spec fn profile_settings(profile: rmk_types::morse::MorseProfile) -> MorseSettings;

/// The profile of an RMK morse key (its `profile` field).
pub uninterp spec fn morse_profile(key: Morse) -> rmk_types::morse::MorseProfile;

/// The actions of an RMK morse key, keyed by the bits of their morse pattern.
pub uninterp spec fn morse_actions(key: Morse) -> Map<u16, Action>;

/// A timeout as a profile keeps it: zero reads back as unset, and longer timeouts as the
/// longest one.
pub open spec fn stored_timeout(timeout: Option<u16>) -> Option<u16> {
    match timeout {
        Some(t) => if t == 0 {
            None
        } else if t > TIMEOUT_MAX_MS {
            Some(TIMEOUT_MAX_MS)
        } else {
            Some(t)
        },
        None => None,
    }
}

/// The settings as a profile packed from them reads them back.
pub open spec fn stored_settings(settings: MorseSettings) -> MorseSettings {
    MorseSettings {
        unilateral_tap: settings.unilateral_tap,
        mode: settings.mode,
        hold_timeout_ms: stored_timeout(settings.hold_timeout_ms),
        gap_timeout_ms: stored_timeout(settings.gap_timeout_ms),
    }
}

/// Calls `rmk_types::morse::MorseProfile::new` on the settings, which packs them into the
/// profile's bits. Its getters give back the unilateral-tap flag and the mode as they were
/// given, and each timeout encoded to at most 8191 ms, where a zero timeout reads as unset.
#[verifier::external_body]
fn packed_profile(settings: MorseSettings) -> (r: rmk_types::morse::MorseProfile)
    ensures
        profile_settings(r) == stored_settings(settings),
{
    let mode = match settings.mode {
        Some(MorseMode::PermissiveHold) => Some(rmk_types::morse::MorseMode::PermissiveHold),
        Some(MorseMode::HoldOnOtherPress) => Some(rmk_types::morse::MorseMode::HoldOnOtherPress),
        Some(MorseMode::Normal) => Some(rmk_types::morse::MorseMode::Normal),
        None => None,
    };
    rmk_types::morse::MorseProfile::new(
        settings.unilateral_tap,
        mode,
        settings.hold_timeout_ms,
        settings.gap_timeout_ms,
    )
}

/// Calls `rmk_types::morse::Morse::new_from_vial` with no double-tap action: a morse key with
/// `profile` whose tap, hold and hold-after-tap patterns map to the given actions, and no
/// other pattern mapped. Left unsaid: that a pattern is mapped exactly when its action is not
/// `Action::No` (the action is opaque here).
#[verifier::external_body]
fn vial_morse(
    tap: Action,
    hold: Action,
    hold_after_tap: Action,
    profile: rmk_types::morse::MorseProfile,
) -> (r: Morse)
    ensures
        morse_profile(r) == profile,
        morse_actions(r).dom().subset_of(set![TAP_PATTERN, HOLD_PATTERN, HOLD_AFTER_TAP_PATTERN]),
        morse_actions(r).contains_key(TAP_PATTERN) ==> morse_actions(r)[TAP_PATTERN] == tap,
        morse_actions(r).contains_key(HOLD_PATTERN) ==> morse_actions(r)[HOLD_PATTERN] == hold,
        morse_actions(r).contains_key(HOLD_AFTER_TAP_PATTERN) ==> morse_actions(r)[HOLD_AFTER_TAP_PATTERN]
            == hold_after_tap,
{
    Morse::new_from_vial(tap, hold, hold_after_tap, Action::No, profile)
}

/// The three actions of a quick modifier-tap key.
pub struct QuickModTap {
    pub tap: Action,
    pub hold: Action,
    pub dance: Action,
}

impl QuickModTap {
    pub fn new(tap: Action, hold: Action, dance: Action) -> (r: Self)
        ensures
            r.tap == tap && r.hold == hold && r.dance == dance,
    {
        QuickModTap { tap, hold, dance }
    }

    /// The key's tap-hold settings: hold on another key press, no unilateral tap, and the
    /// hold and tap-dance timeouts.
    pub fn settings(&self) -> (r: MorseSettings)
        ensures
            r == (MorseSettings {
                unilateral_tap: Some(false),
                mode: Some(MorseMode::HoldOnOtherPress),
                hold_timeout_ms: Some(HOLD_TIMEOUT_MS),
                gap_timeout_ms: Some(DANCE_TIMEOUT_MS),
            }),
    {
        MorseSettings {
            unilateral_tap: Some(false),
            mode: Some(MorseMode::HoldOnOtherPress),
            hold_timeout_ms: Some(HOLD_TIMEOUT_MS),
            gap_timeout_ms: Some(DANCE_TIMEOUT_MS),
        }
    }

    /// The RMK morse key: tap, hold, and the dance action on tap-then-hold, with the key's
    /// settings.
    pub fn into_morse(self) -> (r: Morse)
        ensures
            profile_settings(morse_profile(r)) == (MorseSettings {
                unilateral_tap: Some(false),
                mode: Some(MorseMode::HoldOnOtherPress),
                hold_timeout_ms: Some(HOLD_TIMEOUT_MS),
                gap_timeout_ms: Some(DANCE_TIMEOUT_MS),
            }),
            morse_actions(r).dom().subset_of(set![TAP_PATTERN, HOLD_PATTERN, HOLD_AFTER_TAP_PATTERN]),
            morse_actions(r).contains_key(TAP_PATTERN) ==> morse_actions(r)[TAP_PATTERN] == self.tap,
            morse_actions(r).contains_key(HOLD_PATTERN) ==> morse_actions(r)[HOLD_PATTERN] == self.hold,
            morse_actions(r).contains_key(HOLD_AFTER_TAP_PATTERN) ==> morse_actions(
                r,
            )[HOLD_AFTER_TAP_PATTERN] == self.dance,
    {
        let profile = packed_profile(self.settings());
        vial_morse(self.tap, self.hold, self.dance, profile)
    }
}

} // verus!
