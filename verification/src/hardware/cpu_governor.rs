//! Lock of the core frequency.

use vstd::prelude::*;

verus! {

/// Frequency governor of a core.
#[derive(Debug, Clone, Copy)]
pub struct CpuGovernor {
    /// Governor is in use.
    pub active: bool,
    /// Frequency is locked.
    pub locked: bool,
    /// Frequency that is aimed at.
    pub target_freq: u64,
    /// Frequency of the core.
    pub current_freq: u64,
    /// Core.
    pub core_id: u32,
}

impl CpuGovernor {
    /// Governor that is not in use.
    pub fn new(core_id: u32) -> (r: Self)
        ensures
            r == (CpuGovernor {
                active: false,
                locked: false,
                target_freq: 0,
                current_freq: 0,
                core_id,
            }),
    {
        CpuGovernor { active: false, locked: false, target_freq: 0, current_freq: 0, core_id }
    }

    /// Use the governor.
    pub fn activate(&mut self)
        ensures
            *final(self) == (CpuGovernor { active: true, ..*old(self) }),
    {
        self.active = true;
    }

    /// Check if the governor is in use.
    pub fn is_active(&self) -> (r: bool)
        ensures
            r == self.active,
    {
        self.active
    }

    /// Check if the frequency is locked.
    pub fn is_locked(&self) -> (r: bool)
        ensures
            r == self.locked,
    {
        self.locked
    }

    /// Lock the core to a frequency. Fails if the governor is not in use.
    pub fn lock_to_performance(&mut self, freq: u64) -> (r: bool)
        ensures
            r == old(self).active,
            *final(self) == if old(self).active {
                CpuGovernor { target_freq: freq, current_freq: freq, locked: true, ..*old(self) }
            } else {
                *old(self)
            },
    {
        if !self.is_active() {
            return false;
        }
        self.target_freq = freq;
        self.current_freq = freq;
        self.locked = true;
        true
    }

    /// Give the frequency free.
    pub fn unlock(&mut self)
        ensures
            *final(self) == (CpuGovernor { locked: false, ..*old(self) }),
    {
        self.locked = false;
    }
}

} // verus!
