//! Spotlight panels: configuration merging, the panel registry and the
//! decisions behind panel activation and shortcut wiring.
pub mod config;
pub mod error;
pub mod registry;
pub mod shortcut;

pub use config::{PluginConfig, WindowConfig};
pub use error::Error;
pub use registry::{
    panel_setup, visibility_call, Handled, InitOutcome, NativePanel, PanelCall, PanelSetup, Request,
    SpotlightManager, MAIN_MENU_WINDOW_LEVEL,
};
pub use shortcut::close_shortcut_to_register;
