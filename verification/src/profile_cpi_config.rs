//! One fixed sensor CPI per Bluetooth profile.
use vstd::prelude::*;

verus! {

pub const PROFILE_COUNT: usize = 5;

/// The CPI of each profile: the second profile (BT2) uses a lower fixed CPI.
pub const PROFILE_CPI: [u16; 5] = [1600, 800, 1600, 1600, 1600];

/// The CPI of a profile index, with out-of-range profiles using the last profile.
pub open spec fn profile_cpi_spec(profile: u8) -> u16 {
    if profile == 1 { 800 } else { 1600 }
}

/// A CPI request for a pointing device.
#[derive(Clone, Copy, Debug, PartialEq, Eq, Structural)]
pub struct CpiRequest {
    pub device_id: u8,
    pub cpi: u16,
}

/// Applies the stored CPI of the active Bluetooth profile to the trackball.
pub struct ProfileCpiConfigWatcher {
    pub active_profile: u8,
    pub pointing_device_id: u8,
}

impl ProfileCpiConfigWatcher {
    pub fn new(pointing_device_id: u8) -> (r: Self)
        ensures
            r.active_profile == 0,
            r.pointing_device_id == pointing_device_id,
    {
        Self { active_profile: 0, pointing_device_id }
    }

    /// The request that applies the active profile's CPI.
    pub fn apply_active_profile(&self) -> (r: CpiRequest)
        requires
            self.active_profile < PROFILE_COUNT,
        ensures
            r == (CpiRequest { device_id: self.pointing_device_id, cpi: profile_cpi_spec(self.active_profile) }),
            r.cpi == PROFILE_CPI@[self.active_profile as int],
    {
        let table = PROFILE_CPI;
        CpiRequest { device_id: self.pointing_device_id, cpi: table[self.active_profile as usize] }
    }

    /// A connection change to `profile` (clamped to the last profile): a request only when the
    /// active profile changes.
    pub fn update_profile(&mut self, profile: u8) -> (r: Option<CpiRequest>)
        requires
            old(self).active_profile < PROFILE_COUNT,
        ensures
            final(self).pointing_device_id == old(self).pointing_device_id,
            final(self).active_profile == if profile < 4 { profile } else { 4 },
            r == if final(self).active_profile != old(self).active_profile {
                Some(CpiRequest { device_id: old(self).pointing_device_id, cpi: profile_cpi_spec(final(self).active_profile) })
            } else {
                None::<CpiRequest>
            },
    {
        let profile = if profile < (PROFILE_COUNT - 1) as u8 { profile } else { (PROFILE_COUNT - 1) as u8 };
        if profile != self.active_profile {
            self.active_profile = profile;
            Some(self.apply_active_profile())
        } else {
            None
        }
    }

    /// Restores the current connection's profile (after boot or sleep): always a request.
    pub fn restore_current_profile(&mut self, profile: u8) -> (r: CpiRequest)
        ensures
            final(self).pointing_device_id == old(self).pointing_device_id,
            final(self).active_profile == if profile < 4 { profile } else { 4 },
            r == (CpiRequest { device_id: old(self).pointing_device_id, cpi: profile_cpi_spec(final(self).active_profile) }),
    {
        self.active_profile = if profile < (PROFILE_COUNT - 1) as u8 { profile } else { (PROFILE_COUNT - 1) as u8 };
        self.apply_active_profile()
    }
}

/// Each profile's CPI is the entry of the [`PROFILE_CPI`] table for that profile, and a
/// profile past the last one uses the last entry: BT2 uses 800 CPI, the others 1600.
pub proof fn law_profile_cpi_is_the_table_entry(profile: u8)
    ensures
        profile < PROFILE_COUNT ==> profile_cpi_spec(profile) == PROFILE_CPI@[profile as int],
        profile >= PROFILE_COUNT ==> profile_cpi_spec(profile) == PROFILE_CPI@[PROFILE_COUNT - 1],
{
    assert(PROFILE_CPI@ == seq![1600u16, 800u16, 1600u16, 1600u16, 1600u16]);
}

} // verus!
