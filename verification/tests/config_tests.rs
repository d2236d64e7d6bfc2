use sidecar_supervisor::config::{AppConfig, ConfigState};

#[test]
fn default_config_minimizes_to_tray() {
    assert!(AppConfig::default().minimize_to_tray);
    assert_eq!(AppConfig::default(), AppConfig { minimize_to_tray: true });
}

#[test]
fn state_holds_what_it_was_given() {
    let state = ConfigState::new(AppConfig { minimize_to_tray: false });
    assert_eq!(state.get(), AppConfig { minimize_to_tray: false });
    assert!(!state.config.minimize_to_tray);
}

#[test]
fn set_replaces_the_config() {
    let mut state = ConfigState::new(AppConfig::default());
    let previous = state.set(AppConfig { minimize_to_tray: false });
    assert_eq!(previous, AppConfig { minimize_to_tray: true });
    assert_eq!(state.get(), AppConfig { minimize_to_tray: false });
    let previous = state.set(AppConfig { minimize_to_tray: false });
    assert_eq!(previous, AppConfig { minimize_to_tray: false });
    assert_eq!(state.get(), AppConfig { minimize_to_tray: false });
}

#[test]
fn get_does_not_change_the_state() {
    let state = ConfigState::new(AppConfig::default());
    let _ = state.get();
    assert_eq!(state, ConfigState { config: AppConfig { minimize_to_tray: true } });
}
