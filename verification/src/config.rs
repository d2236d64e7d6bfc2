//! Settings of the host application that owns the supervisor.

use vstd::prelude::*;

verus! {

/// User-facing settings of the host application.
#[derive(Clone, Copy, Debug, PartialEq, Eq, Structural)]
pub struct AppConfig {
    /// Closing the main window hides it in the tray instead of quitting.
    pub minimize_to_tray: bool,
}

impl Default for AppConfig {
    /// The settings of a first start: the window hides in the tray.
    fn default() -> (config: Self)
        ensures
            config.minimize_to_tray,
    {
        AppConfig { minimize_to_tray: true }
    }
}

/// The settings in force. The host keeps one of these for its lifetime and
/// guards it as it guards any state that several callers reach.
#[derive(Clone, Copy, Debug, PartialEq, Eq, Structural)]
pub struct ConfigState {
    pub config: AppConfig,
}

impl ConfigState {
    /// A state that holds `config`.
    pub fn new(config: AppConfig) -> (state: Self)
        ensures
            state.config == config,
    {
        ConfigState { config }
    }

    /// The settings in force.
    pub fn get(&self) -> (config: AppConfig)
        ensures
            config == self.config,
    {
        self.config
    }

    /// Puts `config` in force and returns the settings that it replaces.
    pub fn set(&mut self, config: AppConfig) -> (previous: AppConfig)
        ensures
            final(self).config == config,
            previous == old(self).config,
    {
        let previous = self.config;
        self.config = config;
        previous
    }
}

} // verus!
