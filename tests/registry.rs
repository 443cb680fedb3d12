use std::cell::Cell;

use tauri_plugin_spotlight::{
    close_shortcut_to_register, panel_setup, visibility_call, Error, Handled, InitOutcome, NativePanel,
    PanelCall, PanelSetup, PluginConfig, Request, SpotlightManager, WindowConfig,
};

struct FakePanel {
    visible: Cell<bool>,
    calls: Cell<u32>,
    setup: PanelSetup,
}

impl NativePanel for FakePanel {
    fn is_visible(&self) -> bool {
        self.visible.get()
    }

    fn show(&self) {
        self.calls.set(self.calls.get() + 1);
        self.visible.set(true);
    }

    fn order_out(&self) {
        self.calls.set(self.calls.get() + 1);
        self.visible.set(false);
    }
}

fn fake(setup: PanelSetup) -> Result<FakePanel, Error> {
    Ok(FakePanel { visible: Cell::new(false), calls: Cell::new(0), setup })
}

fn scenario_config() -> PluginConfig {
    PluginConfig {
        windows: Some(vec![WindowConfig {
            label: String::from("main"),
            shortcut: Some(String::from("Ctrl+I")),
            macos_window_level: None,
            auto_hide: Some(true),
        }]),
        global_close_shortcut: Some(String::from("Escape")),
    }
}

#[test]
fn visibility_call_skips_redundant_calls() {
    assert_eq!(visibility_call(Request::Show, false), PanelCall::Show);
    assert_eq!(visibility_call(Request::Show, true), PanelCall::Nothing);
    assert_eq!(visibility_call(Request::Hide, true), PanelCall::OrderOut);
    assert_eq!(visibility_call(Request::Hide, false), PanelCall::Nothing);
    assert_eq!(visibility_call(Request::Toggle, true), PanelCall::OrderOut);
    assert_eq!(visibility_call(Request::Toggle, false), PanelCall::Show);
}

#[test]
fn panel_setup_defaults_and_overrides() {
    let mut c = WindowConfig { label: String::from("main"), ..WindowConfig::default() };
    assert_eq!(panel_setup(&c), PanelSetup { level: 25, auto_hide: true });
    c.macos_window_level = Some(20);
    c.auto_hide = Some(false);
    assert_eq!(panel_setup(&c), PanelSetup { level: 20, auto_hide: false });
}

#[test]
fn get_window_config_takes_first_match() {
    let cfg = PluginConfig {
        windows: Some(vec![
            WindowConfig { label: String::from("a"), shortcut: Some(String::from("1")), ..WindowConfig::default() },
            WindowConfig { label: String::from("a"), shortcut: Some(String::from("2")), ..WindowConfig::default() },
        ]),
        global_close_shortcut: None,
    };
    let m: SpotlightManager<FakePanel> = SpotlightManager::new(cfg);
    assert_eq!(m.get_window_config("a").unwrap().shortcut, Some(String::from("1")));
    assert!(m.get_window_config("b").is_none());
}

#[test]
fn init_of_unconfigured_window_does_nothing() {
    let mut m: SpotlightManager<FakePanel> = SpotlightManager::new(scenario_config());
    let mut made = 0;
    let r = m.init_spotlight_window("other", |s| {
        made += 1;
        fake(s)
    });
    assert_eq!(r.unwrap(), InitOutcome::Unmanaged);
    assert_eq!(made, 0);
    assert_eq!(m.get_panel("other").err(), Some(Error::NotFound));
}

#[test]
fn init_twice_creates_one_panel() {
    let mut m: SpotlightManager<FakePanel> = SpotlightManager::new(scenario_config());
    let mut made = 0;
    let first = m.init_spotlight_window("main", |s| {
        made += 1;
        fake(s)
    });
    assert_eq!(first.unwrap(), InitOutcome::Created { shortcut: Some(String::from("Ctrl+I")) });
    let second = m.init_spotlight_window("main", |s| {
        made += 1;
        fake(s)
    });
    assert_eq!(second.unwrap(), InitOutcome::AlreadyInitialized);
    assert_eq!(made, 1);
    assert_eq!(m.get_panel("main").unwrap().setup, PanelSetup { level: 25, auto_hide: true });
}

#[test]
fn init_error_from_panel_creation_registers_nothing() {
    let mut m: SpotlightManager<FakePanel> = SpotlightManager::new(scenario_config());
    let r = m.init_spotlight_window("main", |_| Err(Error::Lock));
    assert_eq!(r.err(), Some(Error::Lock));
    assert!(m.get_panel("main").is_err());
}

#[test]
fn show_and_hide_of_unmanaged_label_succeed() {
    let mut m: SpotlightManager<FakePanel> = SpotlightManager::new(scenario_config());
    m.init_spotlight_window("main", fake).unwrap();
    assert_eq!(m.show("ghost"), Ok(None));
    assert_eq!(m.hide_panel("ghost"), Ok(None));
    assert_eq!(m.toggle("ghost"), Ok(None));
    let p = m.get_panel("main").unwrap();
    assert!(!p.is_visible());
    assert_eq!(p.calls.get(), 0);
}

#[test]
fn show_and_hide_make_no_redundant_calls() {
    let mut m: SpotlightManager<FakePanel> = SpotlightManager::new(scenario_config());
    m.init_spotlight_window("main", fake).unwrap();
    assert_eq!(
        m.hide_panel("main"),
        Ok(Some(Handled { was_visible: false, call: PanelCall::Nothing }))
    );
    assert_eq!(m.get_panel("main").unwrap().calls.get(), 0);
    assert_eq!(m.show("main"), Ok(Some(Handled { was_visible: false, call: PanelCall::Show })));
    assert_eq!(m.show("main"), Ok(Some(Handled { was_visible: true, call: PanelCall::Nothing })));
    assert_eq!(m.get_panel("main").unwrap().calls.get(), 1);
    assert_eq!(
        m.hide_panel("main"),
        Ok(Some(Handled { was_visible: true, call: PanelCall::OrderOut }))
    );
    assert_eq!(m.get_panel("main").unwrap().calls.get(), 2);
    assert!(!m.get_panel("main").unwrap().is_visible());
}

#[test]
fn close_shortcut_registered_once_across_two_windows() {
    let sc = Some(String::from("Escape"));
    let first = close_shortcut_to_register(&sc, Some(false));
    assert_eq!(first, Ok(Some(String::from("Escape"))));
    let second = close_shortcut_to_register(&sc, Some(true));
    assert_eq!(second, Ok(None));
}

#[test]
fn close_shortcut_query_failure_is_an_error() {
    let sc = Some(String::from("Escape"));
    assert_eq!(close_shortcut_to_register(&sc, None), Err(Error::ShortcutRegistration));
    assert_eq!(close_shortcut_to_register(&None, None), Ok(None));
    assert_eq!(close_shortcut_to_register(&None, Some(false)), Ok(None));
}

#[test]
fn end_to_end_toggle_focus_loss_and_close_all() {
    let mut m: SpotlightManager<FakePanel> = SpotlightManager::new(scenario_config());
    let r = m.init_spotlight_window("main", fake).unwrap();
    assert_eq!(r, InitOutcome::Created { shortcut: Some(String::from("Ctrl+I")) });
    assert!(m.get_panel("main").is_ok());
    // the toggle shortcut
    m.toggle("main").unwrap();
    assert!(m.get_panel("main").unwrap().is_visible());
    m.toggle("main").unwrap();
    assert!(!m.get_panel("main").unwrap().is_visible());
    // focus loss with auto-hide
    m.show("main").unwrap();
    assert!(m.get_panel("main").unwrap().setup.auto_hide);
    m.hide_panel("main").unwrap();
    assert!(!m.get_panel("main").unwrap().is_visible());
    // the close-all shortcut
    m.show("main").unwrap();
    assert_eq!(
        m.hide_all(),
        Ok(vec![Some(Handled { was_visible: true, call: PanelCall::OrderOut })])
    );
    assert!(!m.get_panel("main").unwrap().is_visible());
    assert_eq!(
        m.hide_all(),
        Ok(vec![Some(Handled { was_visible: false, call: PanelCall::Nothing })])
    );
    assert!(!m.get_panel("main").unwrap().is_visible());
}

#[test]
fn hide_all_walks_configured_labels_and_skips_missing_panels() {
    let cfg = PluginConfig {
        windows: Some(vec![
            WindowConfig { label: String::from("a"), ..WindowConfig::default() },
            WindowConfig { label: String::from("b"), ..WindowConfig::default() },
        ]),
        global_close_shortcut: None,
    };
    let mut m: SpotlightManager<FakePanel> = SpotlightManager::new(cfg);
    m.init_spotlight_window("b", fake).unwrap();
    m.show("b").unwrap();
    assert_eq!(
        m.hide_all(),
        Ok(vec![None, Some(Handled { was_visible: true, call: PanelCall::OrderOut })])
    );
    assert!(!m.get_panel("b").unwrap().is_visible());
}

#[test]
fn hide_all_without_windows_does_nothing() {
    let m: SpotlightManager<FakePanel> = SpotlightManager::new(PluginConfig::default());
    assert_eq!(m.hide_all(), Ok(vec![]));
}
