use vstd::prelude::*;

use crate::config::{has_label, PluginConfig, WindowConfig};
use crate::error::Error;

verus! {

/// The native operations that the registry drives on a panel. Nothing is
/// assumed of what they do: the registry only decides which one to call.
pub trait NativePanel {
    /// Whether the panel is on screen now.
    fn is_visible(&self) -> bool;

    /// Brings the panel on screen without activating the application.
    fn show(&self);

    /// Takes the panel off screen.
    fn order_out(&self);
}

/// What a show, hide or toggle request asks for.
#[derive(Debug, Clone, Copy, PartialEq, Eq, Structural)]
pub enum Request {
    Show,
    Hide,
    Toggle,
}

/// The native call that a request comes down to on a panel.
#[derive(Debug, Clone, Copy, PartialEq, Eq, Structural)]
pub enum PanelCall {
    Show,
    OrderOut,
    Nothing,
}

/// How a window is turned into a panel.
#[derive(Debug, Clone, Copy, PartialEq, Eq, Structural)]
pub struct PanelSetup {
    /// The stacking level of the panel.
    pub level: i32,
    /// Whether a focus-loss observer hides the panel.
    pub auto_hide: bool,
}

/// What initializing a window did.
#[derive(Debug, PartialEq)]
pub enum InitOutcome {
    /// No configuration names the window: it stays an ordinary window.
    Unmanaged,
    /// A panel was registered for the label before: nothing was done.
    AlreadyInitialized,
    /// A panel was created and registered; the window's own toggle
    /// shortcut, if any, is to be registered next.
    Created { shortcut: Option<String> },
}

/// One registered panel and the label it is registered under.
pub struct PanelEntry<H> {
    pub label: String,
    pub panel: H,
}

/// The call that brings a panel of visibility `visible` where `req` asks.
pub open spec fn call_for(req: Request, visible: bool) -> PanelCall {
    match req {
        Request::Show => if visible { PanelCall::Nothing } else { PanelCall::Show },
        Request::Hide => if visible { PanelCall::OrderOut } else { PanelCall::Nothing },
        Request::Toggle => if visible { PanelCall::OrderOut } else { PanelCall::Show },
    }
}

/// Decides the native call for a request, from the visibility the panel
/// reports now: no call is made where the panel already is as asked.
pub fn visibility_call(req: Request, visible: bool) -> (r: PanelCall)
    ensures
        r == call_for(req, visible),
{
    match req {
        Request::Show => if visible { PanelCall::Nothing } else { PanelCall::Show },
        Request::Hide => if visible { PanelCall::OrderOut } else { PanelCall::Nothing },
        Request::Toggle => if visible { PanelCall::OrderOut } else { PanelCall::Show },
    }
}

/// Performs `call` on `panel`.
fn apply_call<H: NativePanel>(panel: &H, call: PanelCall) {
    match call {
        PanelCall::Show => panel.show(),
        PanelCall::OrderOut => panel.order_out(),
        PanelCall::Nothing => {},
    }
}

/// What a request found on a registered panel, and the call it made.
#[derive(Debug, Clone, Copy, PartialEq, Eq, Structural)]
pub struct Handled {
    /// The visibility the panel reported before the call.
    pub was_visible: bool,
    /// The call made on the panel.
    pub call: PanelCall,
}

/// Whether `h` is what a request `req` returns on a label that has a panel
/// (`present`) or not: nothing for a label without a panel, else the call
/// that `req` comes down to from the visibility the panel reported.
pub open spec fn handled_as(req: Request, present: bool, h: Option<Handled>) -> bool {
    match h {
        None => !present,
        Some(x) => present && x.call == call_for(req, x.was_visible),
    }
}

/// The configured windows, none when the list is absent.
pub open spec fn configured_windows(c: PluginConfig) -> Seq<WindowConfig> {
    match c.windows_view() {
        Some(ws) => ws,
        None => Seq::empty(),
    }
}

/// Whether `i` is the first entry of `ws` labelled `l`.
pub open spec fn is_first_with_label(ws: Seq<WindowConfig>, i: int, l: Seq<char>) -> bool {
    &&& 0 <= i < ws.len()
    &&& ws[i].label@ == l
    &&& forall|j: int| 0 <= j < i ==> (#[trigger] ws[j]).label@ != l
}

/// Whether some configured window carries the label `l`.
pub open spec fn is_configured(windows: Option<Seq<WindowConfig>>, l: Seq<char>) -> bool {
    match windows {
        Some(ws) => has_label(ws, l),
        None => false,
    }
}

/// Whether initializing `l` creates a panel: it is configured and has none yet.
pub open spec fn init_creates<H>(
    windows: Option<Seq<WindowConfig>>,
    panels: Map<Seq<char>, H>,
    l: Seq<char>,
) -> bool {
    is_configured(windows, l) && !panels.contains_key(l)
}

/// The stacking level of the main menu bar (AppKit's `NSMainMenuWindowLevel`).
pub const MAIN_MENU_WINDOW_LEVEL: i32 = 24;

/// The stacking level of a window: its own, or one above the main menu level.
pub open spec fn level_for(c: WindowConfig) -> i32 {
    match c.macos_window_level {
        Some(v) => v,
        None => (MAIN_MENU_WINDOW_LEVEL + 1) as i32,
    }
}

/// The setup of a panel for the window configured by `c`.
pub open spec fn setup_for(c: WindowConfig) -> PanelSetup {
    PanelSetup { level: level_for(c), auto_hide: c.auto_hide != Some(false) }
}

/// The index of the first entry of `ws` labelled `l`.
pub open spec fn first_index(ws: Seq<WindowConfig>, l: Seq<char>) -> int {
    choose|i: int| is_first_with_label(ws, i, l)
}

/// The configuration that governs the window labelled `l`: the first one
/// with that label.
pub open spec fn window_config_for(windows: Option<Seq<WindowConfig>>, l: Seq<char>) -> WindowConfig {
    windows.unwrap()[first_index(windows.unwrap(), l)]
}

proof fn lemma_first_index(ws: Seq<WindowConfig>, l: Seq<char>, i: int)
    requires
        is_first_with_label(ws, i, l),
    ensures
        first_index(ws, l) == i,
{
    let k = first_index(ws, l);
    assert(is_first_with_label(ws, k, l));
    if k < i {
        assert(ws[k].label@ != l);
    } else if i < k {
        assert(ws[i].label@ != l);
    }
}

/// Computes how the window configured by `c` is turned into a panel.
pub fn panel_setup(c: &WindowConfig) -> (r: PanelSetup)
    ensures
        r == setup_for(*c),
{
    PanelSetup {
        level: match c.macos_window_level {
            Some(v) => v,
            None => MAIN_MENU_WINDOW_LEVEL + 1,
        },
        auto_hide: match c.auto_hide {
            Some(b) => b,
            None => true,
        },
    }
}

/// The map from labels to panels that a list of entries stands for.
pub closed spec fn entries_map<H>(s: Seq<PanelEntry<H>>) -> Map<Seq<char>, H>
    decreases s.len(),
{
    if s.len() == 0 {
        Map::empty()
    } else {
        entries_map(s.drop_last()).insert(s.last().label@, s.last().panel)
    }
}

/// Whether no two entries share a label.
pub closed spec fn labels_unique<H>(s: Seq<PanelEntry<H>>) -> bool {
    forall|i: int, j: int|
        0 <= i < s.len() && 0 <= j < s.len() && i != j ==> (#[trigger] s[i]).label@ != (#[trigger] s[j]).label@
}

/// With distinct labels, each entry is found in the map under its label,
/// and every key of the map is the label of some entry.
proof fn lemma_entries_map<H>(s: Seq<PanelEntry<H>>)
    requires
        labels_unique(s),
    ensures
        forall|i: int|
            0 <= i < s.len() ==> entries_map(s).contains_key((#[trigger] s[i]).label@)
                && entries_map(s)[s[i].label@] == s[i].panel,
        forall|l: Seq<char>|
            #[trigger] entries_map(s).contains_key(l) ==> exists|i: int| 0 <= i < s.len() && (#[trigger] s[i]).label@ == l,
    decreases s.len(),
{
    if s.len() > 0 {
        let t = s.drop_last();
        assert(labels_unique(t)) by {
            assert forall|i: int, j: int|
                0 <= i < t.len() && 0 <= j < t.len() && i != j implies (#[trigger] t[i]).label@ != (#[trigger] t[j]).label@ by {
                assert(t[i] == s[i] && t[j] == s[j]);
            }
        }
        lemma_entries_map(t);
        assert forall|i: int| 0 <= i < s.len() implies entries_map(s).contains_key((#[trigger] s[i]).label@)
            && entries_map(s)[s[i].label@] == s[i].panel by {
            if i < s.len() - 1 {
                assert(t[i] == s[i]);
                assert(s[i].label@ != s[s.len() - 1].label@);
            }
        }
        assert forall|l: Seq<char>| #[trigger] entries_map(s).contains_key(l) implies exists|i: int|
            0 <= i < s.len() && (#[trigger] s[i]).label@ == l by {
            if l == s.last().label@ {
                assert(s[s.len() - 1].label@ == l);
            } else {
                assert(entries_map(t).contains_key(l));
                let i = choose|i: int| 0 <= i < t.len() && (#[trigger] t[i]).label@ == l;
                assert(s[i] == t[i]);
            }
        }
    }
}

/// The panel registry: the configuration, and the panel of each label that
/// has been initialized. Entries are added once and never removed.
pub struct SpotlightManager<H> {
    config: PluginConfig,
    panels: Vec<PanelEntry<H>>,
}

impl<H> View for SpotlightManager<H> {
    type V = Map<Seq<char>, H>;

    closed spec fn view(&self) -> Map<Seq<char>, H> {
        entries_map(self.panels@)
    }
}

impl<H> SpotlightManager<H> {
    /// No label is registered twice.
    pub closed spec fn wf(&self) -> bool {
        labels_unique(self.panels@)
    }

    /// The configuration the registry was made with.
    pub closed spec fn plugin_config(&self) -> PluginConfig {
        self.config
    }

    pub fn config(&self) -> (r: &PluginConfig)
        ensures
            *r == self.plugin_config(),
    {
        &self.config
    }

    /// A registry for `config` with no panel yet.
    pub fn new(config: PluginConfig) -> (r: Self)
        ensures
            r.wf(),
            r.plugin_config() == config,
            r@ == Map::<Seq<char>, H>::empty(),
    {
        SpotlightManager { config, panels: Vec::new() }
    }

    /// The first configured window labelled `label`, if any.
    pub fn get_window_config(&self, label: &str) -> (r: Option<WindowConfig>)
        ensures
            r is None <==> !is_configured(self.plugin_config().windows_view(), label@),
            r is Some ==> exists|i: int|
                is_first_with_label(self.plugin_config().windows_view().unwrap(), i, label@)
                    && self.plugin_config().windows_view().unwrap()[i] == r.unwrap(),
    {
        let key = label.to_owned();
        if let Some(ws) = &self.config.windows {
            let mut i: usize = 0;
            while i < ws.len()
                invariant
                    i <= ws.len(),
                    key@ == label@,
                    self.plugin_config().windows_view() == Some(ws@),
                    forall|j: int| 0 <= j < i ==> (#[trigger] ws@[j]).label@ != label@,
                decreases ws.len() - i,
            {
                if ws[i].label == key {
                    assert(is_first_with_label(ws@, i as int, label@));
                    let c = ws[i].clone();
                    assert(c == ws@[i as int]);
                    assert(is_first_with_label(self.plugin_config().windows_view().unwrap(), i as int, label@)
                        && self.plugin_config().windows_view().unwrap()[i as int] == c);
                    return Some(c);
                }
                i += 1;
            }
        }
        None
    }

    /// The panel registered under `label`.
    pub fn get_panel(&self, label: &str) -> (r: Result<&H, Error>)
        requires
            self.wf(),
        ensures
            match r {
                Ok(h) => self@.contains_key(label@) && *h == self@[label@],
                Err(e) => !self@.contains_key(label@) && e == Error::NotFound,
            },
    {
        let key = label.to_owned();
        let mut i: usize = 0;
        while i < self.panels.len()
            invariant
                i <= self.panels.len(),
                key@ == label@,
                self.wf(),
                forall|j: int| 0 <= j < i ==> (#[trigger] self.panels@[j]).label@ != label@,
            decreases self.panels.len() - i,
        {
            if self.panels[i].label == key {
                proof {
                    lemma_entries_map(self.panels@);
                    assert(self.panels@[i as int].label@ == label@);
                }
                return Ok(&self.panels[i].panel);
            }
            i += 1;
        }
        proof {
            lemma_entries_map(self.panels@);
        }
        Err(Error::NotFound)
    }

    /// Registers `panel` under `label`, which has no panel yet.
    fn insert_new(&mut self, label: String, panel: H)
        requires
            old(self).wf(),
            !old(self)@.contains_key(label@),
        ensures
            final(self).wf(),
            final(self).plugin_config() == old(self).plugin_config(),
            final(self)@ == old(self)@.insert(label@, panel),
    {
        proof {
            lemma_entries_map(self.panels@);
        }
        let ghost s = self.panels@;
        let e = PanelEntry { label, panel };
        self.panels.push(e);
        proof {
            assert(self.panels@.drop_last() == s);
            assert forall|i: int, j: int|
                0 <= i < self.panels@.len() && 0 <= j < self.panels@.len() && i != j implies (#[trigger] self.panels@[i]).label@
                    != (#[trigger] self.panels@[j]).label@ by {
                if i == s.len() {
                    if s[j].label@ == label@ {
                        assert(entries_map(s).contains_key(s[j].label@));
                    }
                } else if j == s.len() {
                    if s[i].label@ == label@ {
                        assert(entries_map(s).contains_key(s[i].label@));
                    }
                }
            }
        }
    }
}

/// Initializing a label a second time creates nothing: once a panel is
/// registered under it, the label is no longer one to create a panel for,
/// and the panel first registered stays.
pub proof fn lemma_init_idempotent<H>(
    windows: Option<Seq<WindowConfig>>,
    panels: Map<Seq<char>, H>,
    l: Seq<char>,
    h: H,
)
    ensures
        !init_creates(windows, panels.insert(l, h), l),
        panels.insert(l, h)[l] == h,
{
}

impl<H: NativePanel> SpotlightManager<H> {
    /// Initializes the window labelled `label` when it becomes ready.
    /// Unconfigured windows and windows that already have a panel are left
    /// alone. Otherwise `make_panel` turns the window into a panel with the
    /// computed setup, and the panel is registered under `label`; the check
    /// and the insertion happen under the one exclusive borrow.
    pub fn init_spotlight_window<F: FnOnce(PanelSetup) -> Result<H, Error>>(
        &mut self,
        label: &str,
        make_panel: F,
    ) -> (r: Result<InitOutcome, Error>)
        requires
            old(self).wf(),
            forall|s: PanelSetup| make_panel.requires((s,)),
        ensures
            final(self).wf(),
            final(self).plugin_config() == old(self).plugin_config(),
            r matches Ok(InitOutcome::Unmanaged) <==> !is_configured(
                old(self).plugin_config().windows_view(),
                label@,
            ),
            r matches Ok(InitOutcome::AlreadyInitialized) <==> is_configured(
                old(self).plugin_config().windows_view(),
                label@,
            ) && old(self)@.contains_key(label@),
            !init_creates(old(self).plugin_config().windows_view(), old(self)@, label@)
                ==> final(self)@ == old(self)@,
            init_creates(old(self).plugin_config().windows_view(), old(self)@, label@) ==> ({
                let c = window_config_for(old(self).plugin_config().windows_view(), label@);
                let setup = setup_for(c);
                match r {
                    Ok(InitOutcome::Created { shortcut }) => shortcut == c.shortcut && exists|h: H|
                        make_panel.ensures((setup,), Ok::<H, Error>(h)) && final(self)@ == old(
                            self,
                        )@.insert(label@, h),
                    Err(e) => make_panel.ensures((setup,), Err::<H, Error>(e)) && final(self)@
                        == old(self)@,
                    _ => false,
                }
            }),
    {
        let c = match self.get_window_config(label) {
            Some(c) => c,
            None => return Ok(InitOutcome::Unmanaged),
        };
        proof {
            let ws = self.plugin_config().windows_view().unwrap();
            let i = choose|i: int| is_first_with_label(ws, i, label@) && ws[i] == c;
            lemma_first_index(ws, label@, i);
        }
        if self.get_panel(label).is_ok() {
            return Ok(InitOutcome::AlreadyInitialized);
        }
        let setup = panel_setup(&c);
        match make_panel(setup) {
            Ok(panel) => {
                self.insert_new(label.to_owned(), panel);
                Ok(InitOutcome::Created { shortcut: c.shortcut })
            },
            Err(e) => Err(e),
        }
    }

    fn request(&self, label: &str, req: Request) -> (r: Result<Option<Handled>, Error>)
        requires
            self.wf(),
        ensures
            r matches Ok(h) && handled_as(req, self@.contains_key(label@), h),
    {
        match self.get_panel(label) {
            Ok(panel) => {
                let was_visible = panel.is_visible();
                let call = visibility_call(req, was_visible);
                apply_call(panel, call);
                Ok(Some(Handled { was_visible, call }))
            },
            Err(_) => Ok(None),
        }
    }

    /// Shows the panel of `label` if it reports itself hidden, and makes no
    /// call if it is visible; a label without a panel is left alone, without
    /// error. Returns what was found and done.
    pub fn show(&self, label: &str) -> (r: Result<Option<Handled>, Error>)
        requires
            self.wf(),
        ensures
            r matches Ok(h) && handled_as(Request::Show, self@.contains_key(label@), h),
    {
        self.request(label, Request::Show)
    }

    /// Hides the panel of `label` if it reports itself visible, and makes no
    /// call if it is hidden; a label without a panel is left alone, without
    /// error. Returns what was found and done.
    pub fn hide_panel(&self, label: &str) -> (r: Result<Option<Handled>, Error>)
        requires
            self.wf(),
        ensures
            r matches Ok(h) && handled_as(Request::Hide, self@.contains_key(label@), h),
    {
        self.request(label, Request::Hide)
    }

    /// Hides the panel of `label` if it reports itself visible, shows it
    /// otherwise; a label without a panel is left alone, without error.
    /// Returns what was found and done.
    pub fn toggle(&self, label: &str) -> (r: Result<Option<Handled>, Error>)
        requires
            self.wf(),
        ensures
            r matches Ok(h) && handled_as(Request::Toggle, self@.contains_key(label@), h),
    {
        self.request(label, Request::Toggle)
    }

    /// Hides the panel of every configured window, in the configured order,
    /// skipping labels without a panel. Entry `i` of the result tells what
    /// was done for the `i`-th configured window.
    pub fn hide_all(&self) -> (r: Result<Vec<Option<Handled>>, Error>)
        requires
            self.wf(),
        ensures
            r matches Ok(hs) && hs@.len() == configured_windows(self.plugin_config()).len()
                && forall|i: int|
                0 <= i < hs@.len() ==> handled_as(
                    Request::Hide,
                    self@.contains_key(configured_windows(self.plugin_config())[i].label@),
                    #[trigger] hs@[i],
                ),
    {
        let mut out: Vec<Option<Handled>> = Vec::new();
        if let Some(ws) = &self.config.windows {
            let mut i: usize = 0;
            while i < ws.len()
                invariant
                    self.wf(),
                    i <= ws.len(),
                    configured_windows(self.plugin_config()) == ws@,
                    out@.len() == i,
                    forall|k: int|
                        0 <= k < i ==> handled_as(
                            Request::Hide,
                            self@.contains_key(ws@[k].label@),
                            #[trigger] out@[k],
                        ),
                decreases ws.len() - i,
            {
                let h = self.request(ws[i].label.as_str(), Request::Hide);
                match h {
                    Ok(h) => out.push(h),
                    Err(_) => out.push(None),
                }
                i += 1;
            }
        }
        Ok(out)
    }
}

} // verus!
