use vstd::prelude::*;

verus! {

/// One overlay window, keyed by its label.
#[derive(Debug, PartialEq, Default)]
pub struct WindowConfig {
    pub label: String,
    pub shortcut: Option<String>,
    pub macos_window_level: Option<i32>,
    pub auto_hide: Option<bool>,
}

/// The plugin's top-level configuration.
#[derive(Debug, PartialEq, Default)]
pub struct PluginConfig {
    pub windows: Option<Vec<WindowConfig>>,
    pub global_close_shortcut: Option<String>,
}

fn clone_opt_string(s: &Option<String>) -> (r: Option<String>)
    ensures
        r == *s,
{
    match s {
        Some(x) => Some(x.clone()),
        None => None,
    }
}

impl Clone for WindowConfig {
    fn clone(&self) -> (r: Self)
        ensures
            r == *self,
    {
        WindowConfig {
            label: self.label.clone(),
            shortcut: clone_opt_string(&self.shortcut),
            macos_window_level: self.macos_window_level,
            auto_hide: self.auto_hide,
        }
    }
}

/// Whether some entry of `ws` carries the label `l`.
pub open spec fn has_label(ws: Seq<WindowConfig>, l: Seq<char>) -> bool {
    exists|j: int| 0 <= j < ws.len() && (#[trigger] ws[j]).label@ == l
}

/// The entries of `extra` whose label `base` does not hold, in their order.
pub open spec fn unseen(base: Seq<WindowConfig>, extra: Seq<WindowConfig>) -> Seq<WindowConfig>
    decreases extra.len(),
{
    if extra.len() == 0 {
        Seq::empty()
    } else {
        let rest = unseen(base, extra.drop_last());
        if has_label(base, extra.last().label@) {
            rest
        } else {
            rest.push(extra.last())
        }
    }
}

/// The window list of a merge: the primary list if present, else the
/// secondary one, followed by the secondary entries with a new label;
/// absent when that comes out empty.
pub open spec fn merged_windows(
    a: Option<Seq<WindowConfig>>,
    b: Option<Seq<WindowConfig>>,
) -> Option<Seq<WindowConfig>> {
    let chosen = match a {
        Some(w) => w,
        None => match b {
            Some(w) => w,
            None => Seq::empty(),
        },
    };
    let extra = match b {
        Some(w) => unseen(chosen, w),
        None => Seq::empty(),
    };
    let all = chosen + extra;
    if all.len() == 0 {
        None
    } else {
        Some(all)
    }
}

/// The close shortcut of a merge: the primary one if present.
pub open spec fn merged_shortcut(a: Option<String>, b: Option<String>) -> Option<String> {
    match a {
        Some(s) => Some(s),
        None => b,
    }
}

impl PluginConfig {
    pub open spec fn windows_view(&self) -> Option<Seq<WindowConfig>> {
        match self.windows {
            Some(w) => Some(w@),
            None => None,
        }
    }

    /// Layers `a` over `b`: `a` takes precedence entry by entry.
    pub fn merge(a: &Self, b: &Self) -> (r: Self)
        ensures
            r.windows_view() == merged_windows(a.windows_view(), b.windows_view()),
            r.global_close_shortcut == merged_shortcut(
                a.global_close_shortcut,
                b.global_close_shortcut,
            ),
    {
        let mut windows: Vec<WindowConfig> = Vec::new();
        if let Some(w) = &a.windows {
            windows = clone_windows(w);
        } else if let Some(w) = &b.windows {
            windows = clone_windows(w);
        }
        let ghost chosen = windows@;
        let n: usize = windows.len();
        if let Some(w) = &b.windows {
            let mut i: usize = 0;
            while i < w.len()
                invariant
                    i <= w.len(),
                    n == chosen.len(),
                    windows@ == chosen + unseen(chosen, w@.take(i as int)),
                decreases w.len() - i,
            {
                let entry = &w[i];
                let present = find_label(&windows, n, &entry.label);
                proof {
                    assert(windows@.take(n as int) == chosen);
                    assert(w@.take(i + 1).drop_last() == w@.take(i as int));
                }
                if !present {
                    windows.push(entry.clone());
                }
                i += 1;
            }
            assert(w@.take(w.len() as int) == w@);
        }
        let shortcut = clone_opt_string(&a.global_close_shortcut);
        let shortcut = match shortcut {
            Some(s) => Some(s),
            None => clone_opt_string(&b.global_close_shortcut),
        };
        PluginConfig {
            windows: if windows.len() == 0 {
                None
            } else {
                Some(windows)
            },
            global_close_shortcut: shortcut,
        }
    }
}

fn clone_windows(w: &Vec<WindowConfig>) -> (r: Vec<WindowConfig>)
    ensures
        r@ == w@,
{
    let mut r: Vec<WindowConfig> = Vec::new();
    let mut i: usize = 0;
    while i < w.len()
        invariant
            i <= w.len(),
            r@ == w@.take(i as int),
        decreases w.len() - i,
    {
        r.push(w[i].clone());
        i += 1;
        assert(r@ == w@.take(i as int));
    }
    assert(w@.take(w.len() as int) == w@);
    r
}

/// Whether one of the first `n` entries of `ws` carries `label`.
fn find_label(ws: &Vec<WindowConfig>, n: usize, label: &String) -> (r: bool)
    requires
        n <= ws.len(),
    ensures
        r == has_label(ws@.take(n as int), label@),
{
    let mut j: usize = 0;
    while j < n
        invariant
            j <= n <= ws.len(),
            forall|k: int| 0 <= k < j ==> ws@[k].label@ != label@,
        decreases n - j,
    {
        if ws[j].label == *label {
            assert(ws@.take(n as int)[j as int] == ws@[j as int]);
            return true;
        }
        j += 1;
    }
    false
}

/// Every entry that `unseen` keeps has a label that `base` lacks.
pub proof fn lemma_unseen_fresh(base: Seq<WindowConfig>, extra: Seq<WindowConfig>)
    ensures
        forall|k: int|
            0 <= k < unseen(base, extra).len() ==> !has_label(base, (#[trigger] unseen(base, extra)[k]).label@),
    decreases extra.len(),
{
    if extra.len() > 0 {
        lemma_unseen_fresh(base, extra.drop_last());
    }
}

/// When `base` holds every label of `extra`, nothing of `extra` is kept.
pub proof fn lemma_unseen_all_seen(base: Seq<WindowConfig>, extra: Seq<WindowConfig>)
    requires
        forall|k: int| 0 <= k < extra.len() ==> has_label(base, (#[trigger] extra[k]).label@),
    ensures
        unseen(base, extra) == Seq::<WindowConfig>::empty(),
    decreases extra.len(),
{
    if extra.len() > 0 {
        assert(has_label(base, extra[extra.len() - 1].label@));
        lemma_unseen_all_seen(base, extra.drop_last());
    }
}

/// When `base` holds no label of `extra`, all of `extra` is kept, in order.
pub proof fn lemma_unseen_none_seen(base: Seq<WindowConfig>, extra: Seq<WindowConfig>)
    requires
        forall|k: int| 0 <= k < extra.len() ==> !has_label(base, (#[trigger] extra[k]).label@),
    ensures
        unseen(base, extra) == extra,
    decreases extra.len(),
{
    if extra.len() > 0 {
        assert(!has_label(base, extra[extra.len() - 1].label@));
        lemma_unseen_none_seen(base, extra.drop_last());
        assert(extra.drop_last().push(extra.last()) == extra);
    }
}

/// Merging with an empty configuration, on either side, gives the other
/// configuration back, provided its window list is not present and empty.
pub proof fn lemma_merge_with_empty(cfg: PluginConfig, empty: PluginConfig)
    requires
        empty.windows_view() is None,
        empty.global_close_shortcut is None,
        cfg.windows_view() != Some(Seq::<WindowConfig>::empty()),
    ensures
        merged_windows(cfg.windows_view(), empty.windows_view()) == cfg.windows_view(),
        merged_shortcut(cfg.global_close_shortcut, empty.global_close_shortcut)
            == cfg.global_close_shortcut,
        merged_windows(empty.windows_view(), cfg.windows_view()) == cfg.windows_view(),
        merged_shortcut(empty.global_close_shortcut, cfg.global_close_shortcut)
            == cfg.global_close_shortcut,
{
    if let Some(w) = cfg.windows_view() {
        assert(w + Seq::<WindowConfig>::empty() == w);
        assert forall|k: int| 0 <= k < w.len() implies has_label(w, (#[trigger] w[k]).label@) by {
            assert(w[k].label@ == w[k].label@);
        }
        lemma_unseen_all_seen(w, w);
    }
}

/// The primary close shortcut, when present, is the merged one.
pub proof fn lemma_merge_shortcut_precedence(a: PluginConfig, b: PluginConfig)
    requires
        a.global_close_shortcut is Some,
    ensures
        merged_shortcut(a.global_close_shortcut, b.global_close_shortcut)
            == a.global_close_shortcut,
{
}

/// Two window lists with no label in common merge into their concatenation.
pub proof fn lemma_merge_disjoint_union(a: PluginConfig, b: PluginConfig)
    requires
        a.windows_view() is Some,
        b.windows_view() is Some,
        forall|k: int|
            0 <= k < b.windows_view().unwrap().len() ==> !has_label(
                a.windows_view().unwrap(),
                (#[trigger] b.windows_view().unwrap()[k]).label@,
            ),
    ensures
        merged_windows(a.windows_view(), b.windows_view()) == (if a.windows_view().unwrap().len()
            + b.windows_view().unwrap().len() == 0 {
            None
        } else {
            Some(a.windows_view().unwrap() + b.windows_view().unwrap())
        }),
{
    lemma_unseen_none_seen(a.windows_view().unwrap(), b.windows_view().unwrap());
}

/// A label that the primary list holds exactly once is held exactly once
/// after the merge, by the primary entry, whatever the secondary list holds.
pub proof fn lemma_merge_primary_entry_wins(a: PluginConfig, b: PluginConfig, i: int)
    requires
        a.windows_view() is Some,
        0 <= i < a.windows_view().unwrap().len(),
        forall|k: int|
            0 <= k < a.windows_view().unwrap().len() && (#[trigger] a.windows_view().unwrap()[k]).label@
                == a.windows_view().unwrap()[i].label@ ==> k == i,
    ensures
        merged_windows(a.windows_view(), b.windows_view()) is Some,
        merged_windows(a.windows_view(), b.windows_view()).unwrap()[i] == a.windows_view().unwrap()[i],
        forall|k: int|
            0 <= k < merged_windows(a.windows_view(), b.windows_view()).unwrap().len() && (#[trigger] merged_windows(
                a.windows_view(),
                b.windows_view(),
            ).unwrap()[k]).label@ == a.windows_view().unwrap()[i].label@ ==> k == i,
{
    let aw = a.windows_view().unwrap();
    let extra = match b.windows_view() {
        Some(w) => unseen(aw, w),
        None => Seq::<WindowConfig>::empty(),
    };
    let r = merged_windows(a.windows_view(), b.windows_view()).unwrap();
    assert(r == aw + extra);
    if let Some(w) = b.windows_view() {
        lemma_unseen_fresh(aw, w);
    }
    assert forall|k: int| 0 <= k < r.len() && (#[trigger] r[k]).label@ == aw[i].label@ implies k == i by {
        if k >= aw.len() {
            assert(r[k] == extra[k - aw.len()]);
            assert(has_label(aw, aw[i].label@));
        } else {
            assert(r[k] == aw[k]);
        }
    }
}

/// Whether no two entries of `ws` share a label.
pub open spec fn labels_distinct(ws: Seq<WindowConfig>) -> bool {
    forall|i: int, j: int|
        0 <= i < ws.len() && 0 <= j < ws.len() && i != j ==> (#[trigger] ws[i]).label@ != (#[trigger] ws[j]).label@
}

/// What `unseen` keeps comes from `extra`, and keeps its labels distinct.
pub proof fn lemma_unseen_distinct(base: Seq<WindowConfig>, extra: Seq<WindowConfig>)
    requires
        labels_distinct(extra),
    ensures
        labels_distinct(unseen(base, extra)),
        forall|k: int|
            0 <= k < unseen(base, extra).len() ==> has_label(extra, (#[trigger] unseen(base, extra)[k]).label@),
    decreases extra.len(),
{
    if extra.len() > 0 {
        let t = extra.drop_last();
        let e = extra.last();
        assert(labels_distinct(t)) by {
            assert forall|i: int, j: int|
                0 <= i < t.len() && 0 <= j < t.len() && i != j implies (#[trigger] t[i]).label@ != (#[trigger] t[j]).label@ by {
                assert(t[i] == extra[i] && t[j] == extra[j]);
            }
        }
        lemma_unseen_distinct(base, t);
        let u = unseen(base, t);
        assert forall|k: int| 0 <= k < u.len() implies has_label(extra, (#[trigger] u[k]).label@)
            && u[k].label@ != e.label@ by {
            let j = choose|j: int| 0 <= j < t.len() && (#[trigger] t[j]).label@ == u[k].label@;
            assert(extra[j] == t[j]);
            assert(extra[extra.len() - 1] == e);
        }
        if !has_label(base, e.label@) {
            let v = u.push(e);
            assert(v == unseen(base, extra));
            assert(has_label(extra, e.label@)) by {
                assert(extra[extra.len() - 1] == e);
            }
            assert forall|i: int, j: int|
                0 <= i < v.len() && 0 <= j < v.len() && i != j implies (#[trigger] v[i]).label@ != (#[trigger] v[j]).label@ by {
                if i < u.len() && j < u.len() {
                    assert(v[i] == u[i] && v[j] == u[j]);
                } else if i < u.len() {
                    assert(v[i] == u[i]);
                } else if j < u.len() {
                    assert(v[j] == u[j]);
                }
            }
            assert forall|k: int| 0 <= k < v.len() implies has_label(extra, (#[trigger] v[k]).label@) by {
                if k < u.len() {
                    assert(v[k] == u[k]);
                }
            }
        }
    }
}

/// Merging two window lists whose labels are distinct gives a list whose
/// labels are distinct.
pub proof fn lemma_merge_labels_distinct(a: PluginConfig, b: PluginConfig)
    requires
        a.windows_view() is Some ==> labels_distinct(a.windows_view().unwrap()),
        b.windows_view() is Some ==> labels_distinct(b.windows_view().unwrap()),
    ensures
        merged_windows(a.windows_view(), b.windows_view()) is Some ==> labels_distinct(
            merged_windows(a.windows_view(), b.windows_view()).unwrap(),
        ),
{
    let chosen = match a.windows_view() {
        Some(w) => w,
        None => match b.windows_view() {
            Some(w) => w,
            None => Seq::<WindowConfig>::empty(),
        },
    };
    let extra = match b.windows_view() {
        Some(w) => unseen(chosen, w),
        None => Seq::<WindowConfig>::empty(),
    };
    if let Some(w) = b.windows_view() {
        lemma_unseen_distinct(chosen, w);
        lemma_unseen_fresh(chosen, w);
    }
    let r = chosen + extra;
    assert forall|i: int, j: int|
        0 <= i < r.len() && 0 <= j < r.len() && i != j implies (#[trigger] r[i]).label@ != (#[trigger] r[j]).label@ by {
        if i < chosen.len() && j < chosen.len() {
            assert(r[i] == chosen[i] && r[j] == chosen[j]);
        } else if i >= chosen.len() && j >= chosen.len() {
            assert(r[i] == extra[i - chosen.len()] && r[j] == extra[j - chosen.len()]);
        } else if i < chosen.len() {
            assert(r[i] == chosen[i] && r[j] == extra[j - chosen.len()]);
            assert(has_label(chosen, chosen[i].label@));
        } else {
            assert(r[j] == chosen[j] && r[i] == extra[i - chosen.len()]);
            assert(has_label(chosen, chosen[j].label@));
        }
    }
}

} // verus!
