//! User settings: their defaults, the checks an update must pass, the order
//! in which an update is applied and what is undone when a step fails.

use vstd::prelude::*;
use crate::network::{normalize_proxy_url, normalized_proxy};
use crate::text::{is_blank, str_eq, text_result, trim};

verus! {

/// The global shortcut used when none is configured.
pub const DEFAULT_SHORTCUT: &'static str = "ctrl+alt+shift+t";

/// The colour theme.
#[derive(Clone, Copy, PartialEq, Eq, Structural, Debug)]
pub enum ThemePreference {
    System,
    Light,
    Dark,
}

/// The user's settings.
#[derive(Debug)]
pub struct AppSettings {
    pub shortcut: String,
    pub theme: ThemePreference,
    pub proxy_url: String,
    pub launch_at_startup: bool,
}

impl Clone for AppSettings {
    fn clone(&self) -> (r: AppSettings)
        ensures
            r.shortcut@ == self.shortcut@,
            r.theme == self.theme,
            r.proxy_url@ == self.proxy_url@,
            r.launch_at_startup == self.launch_at_startup,
    {
        AppSettings {
            shortcut: self.shortcut.clone(),
            theme: self.theme,
            proxy_url: self.proxy_url.clone(),
            launch_at_startup: self.launch_at_startup,
        }
    }
}

impl Default for AppSettings {
    /// The default shortcut, the system theme, no proxy, and no launch at
    /// startup.
    fn default() -> (r: AppSettings)
        ensures
            r.shortcut@ == DEFAULT_SHORTCUT@,
            r.theme == ThemePreference::System,
            r.proxy_url@.len() == 0,
            !r.launch_at_startup,
    {
        AppSettings {
            shortcut: DEFAULT_SHORTCUT.to_owned(),
            theme: ThemePreference::System,
            proxy_url: String::new(),
            launch_at_startup: false,
        }
    }
}

/// What reading the settings file gave.
#[derive(Debug)]
pub enum SettingsRead {
    /// The file's settings.
    Parsed(AppSettings),
    /// The file is not valid settings; the parser's error.
    Damaged(String),
    /// There is no settings file.
    Missing,
    /// Reading failed; the error.
    Failed(String),
}

/// The settings that a read gives: the file's, the defaults when there is no
/// file, an error otherwise.
pub fn load(read: SettingsRead) -> (r: Result<AppSettings, String>)
    ensures
        match read {
            SettingsRead::Parsed(s) => r matches Ok(t) && t == s,
            SettingsRead::Missing => r matches Ok(t) && t.shortcut@ == DEFAULT_SHORTCUT@
                && t.theme == ThemePreference::System && t.proxy_url@.len() == 0
                && !t.launch_at_startup,
            SettingsRead::Damaged(e) => r matches Err(m) && m@ == "The saved settings are damaged: "@
                + e@,
            SettingsRead::Failed(e) => r matches Err(m) && m@ == "Could not read settings: "@ + e@,
        },
{
    match read {
        SettingsRead::Parsed(s) => Ok(s),
        SettingsRead::Missing => Ok(AppSettings::default()),
        SettingsRead::Damaged(e) => Err(crate::text::concat2("The saved settings are damaged: ", e.as_str())),
        SettingsRead::Failed(e) => Err(crate::text::concat2("Could not read settings: ", e.as_str())),
    }
}

/// Checks settings that the user submits: the shortcut must not be blank,
/// and the proxy URL is normalised.
pub fn prepare_update(settings: AppSettings) -> (r: Result<AppSettings, String>)
    ensures
        trim(settings.shortcut@).len() == 0 ==> (r matches Err(m) && m@
            == "Choose at least one modifier and a key."@),
        trim(settings.shortcut@).len() > 0 ==> (match normalized_proxy(settings.proxy_url@) {
            Ok(p) => r matches Ok(t) && t.shortcut@ == settings.shortcut@ && t.theme == settings.theme
                && t.proxy_url@ == p && t.launch_at_startup == settings.launch_at_startup,
            Err(e) => r matches Err(m) && m@ == e,
        }),
{
    if is_blank(settings.shortcut.as_str()) {
        return Err("Choose at least one modifier and a key.".to_owned());
    }
    let proxy_url = match normalize_proxy_url(settings.proxy_url.as_str()) {
        Ok(p) => p,
        Err(e) => return Err(e),
    };
    Ok(AppSettings {
        shortcut: settings.shortcut,
        theme: settings.theme,
        proxy_url,
        launch_at_startup: settings.launch_at_startup,
    })
}

/// A step of applying new settings.
#[derive(Clone, Copy, PartialEq, Eq, Structural, Debug)]
pub enum SettingsStep {
    /// Register the new global shortcut.
    ActivateShortcut,
    /// Turn launch at startup on or off.
    SetLaunchAtStartup,
    /// Write the settings file.
    Save,
}

/// The steps that applying `new` over `old` takes, in order: the shortcut
/// when it changed, launch at startup when it changed, then the save.
pub open spec fn planned_steps(new: AppSettings, old: AppSettings) -> Seq<SettingsStep> {
    let a = if new.shortcut@ != old.shortcut@ {
        seq![SettingsStep::ActivateShortcut]
    } else {
        seq![]
    };
    let b = if new.launch_at_startup != old.launch_at_startup {
        seq![SettingsStep::SetLaunchAtStartup]
    } else {
        seq![]
    };
    a + b + seq![SettingsStep::Save]
}

/// The steps of an update.
pub fn update_steps(new: &AppSettings, old: &AppSettings) -> (r: Vec<SettingsStep>)
    ensures
        r@ == planned_steps(*new, *old),
{
    let mut r: Vec<SettingsStep> = Vec::new();
    if !str_eq(new.shortcut.as_str(), old.shortcut.as_str()) {
        r.push(SettingsStep::ActivateShortcut);
    }
    if new.launch_at_startup != old.launch_at_startup {
        r.push(SettingsStep::SetLaunchAtStartup);
    }
    r.push(SettingsStep::Save);
    assert(r@ =~= planned_steps(*new, *old));
    r
}

/// What is done to undo part of a failed update.
#[derive(Debug)]
pub enum Undo {
    /// Register this shortcut again.
    RestoreShortcut(String),
    /// Set launch at startup back to this.
    RestoreLaunchAtStartup(bool),
}

/// The view of an undo.
pub enum UndoView {
    RestoreShortcut(Seq<char>),
    RestoreLaunchAtStartup(bool),
}

/// The view of a list of undos.
pub open spec fn undo_views(v: Seq<Undo>) -> Seq<UndoView> {
    v.map_values(
        |u: Undo|
            match u {
                Undo::RestoreShortcut(s) => UndoView::RestoreShortcut(s@),
                Undo::RestoreLaunchAtStartup(b) => UndoView::RestoreLaunchAtStartup(b),
            },
    )
}

/// What is undone when `failed` fails: the old shortcut is registered again
/// when the shortcut changed, and, when the save failed, launch at startup
/// is set back when it changed.
pub open spec fn planned_undo(new: AppSettings, old: AppSettings, failed: SettingsStep) -> Seq<UndoView> {
    let shortcut = if new.shortcut@ != old.shortcut@ {
        seq![UndoView::RestoreShortcut(old.shortcut@)]
    } else {
        seq![]
    };
    match failed {
        SettingsStep::ActivateShortcut => seq![UndoView::RestoreShortcut(old.shortcut@)],
        SettingsStep::SetLaunchAtStartup => shortcut,
        SettingsStep::Save => shortcut + if new.launch_at_startup != old.launch_at_startup {
            seq![UndoView::RestoreLaunchAtStartup(old.launch_at_startup)]
        } else {
            seq![]
        },
    }
}

/// The undos after a failed step.
pub fn undo_after_failure(new: &AppSettings, old: &AppSettings, failed: SettingsStep) -> (r: Vec<Undo>)
    ensures
        undo_views(r@) == planned_undo(*new, *old, failed),
{
    let changed = !str_eq(new.shortcut.as_str(), old.shortcut.as_str());
    let mut r: Vec<Undo> = Vec::new();
    match failed {
        SettingsStep::ActivateShortcut => {
            r.push(Undo::RestoreShortcut(old.shortcut.clone()));
        },
        SettingsStep::SetLaunchAtStartup => {
            if changed {
                r.push(Undo::RestoreShortcut(old.shortcut.clone()));
            }
        },
        SettingsStep::Save => {
            if changed {
                r.push(Undo::RestoreShortcut(old.shortcut.clone()));
            }
            if new.launch_at_startup != old.launch_at_startup {
                r.push(Undo::RestoreLaunchAtStartup(old.launch_at_startup));
            }
        },
    }
    assert(undo_views(r@) =~= planned_undo(*new, *old, failed));
    r
}

/// The shortcut and launch-at-startup state that the system holds.
pub struct SystemSettings {
    pub shortcut: Seq<char>,
    pub launch_at_startup: bool,
}

/// The system state after a step that succeeded.
pub open spec fn after_step(s: SystemSettings, step: SettingsStep, new: AppSettings) -> SystemSettings {
    match step {
        SettingsStep::ActivateShortcut => SystemSettings { shortcut: new.shortcut@, ..s },
        SettingsStep::SetLaunchAtStartup => SystemSettings { launch_at_startup: new.launch_at_startup, ..s },
        SettingsStep::Save => s,
    }
}

/// The system state after the steps that succeeded, in order.
pub open spec fn after_steps(s: SystemSettings, steps: Seq<SettingsStep>, new: AppSettings) -> SystemSettings
    decreases steps.len(),
{
    if steps.len() == 0 {
        s
    } else {
        after_steps(after_step(s, steps[0], new), steps.drop_first(), new)
    }
}

/// The system state after an undo.
pub open spec fn after_undo(s: SystemSettings, u: UndoView) -> SystemSettings {
    match u {
        UndoView::RestoreShortcut(k) => SystemSettings { shortcut: k, ..s },
        UndoView::RestoreLaunchAtStartup(b) => SystemSettings { launch_at_startup: b, ..s },
    }
}

/// The system state after the undos, in order.
pub open spec fn after_undos(s: SystemSettings, undos: Seq<UndoView>) -> SystemSettings
    decreases undos.len(),
{
    if undos.len() == 0 {
        s
    } else {
        after_undos(after_undo(s, undos[0]), undos.drop_first())
    }
}

/// A failed update leaves the system as it was: when step `k` of the plan
/// fails after the steps before it succeeded, whatever the failed shortcut
/// registration left registered, and with launch at startup unchanged by its
/// own failure, the undos give back the old shortcut and the old launch at
/// startup.
pub proof fn lemma_failed_update_restores(
    new: AppSettings,
    old: AppSettings,
    k: int,
    left_registered: Seq<char>,
)
    requires
        0 <= k < planned_steps(new, old).len(),
    ensures
        ({
            let steps = planned_steps(new, old);
            let start = SystemSettings { shortcut: old.shortcut@, launch_at_startup: old.launch_at_startup };
            let before = after_steps(start, steps.take(k), new);
            let failed = if steps[k] == SettingsStep::ActivateShortcut {
                SystemSettings { shortcut: left_registered, ..before }
            } else {
                before
            };
            after_undos(failed, planned_undo(new, old, steps[k])) == start
        }),
{
    let steps = planned_steps(new, old);
    let start = SystemSettings { shortcut: old.shortcut@, launch_at_startup: old.launch_at_startup };
    let sc = new.shortcut@ != old.shortcut@;
    let lc = new.launch_at_startup != old.launch_at_startup;
    reveal_with_fuel(after_steps, 3);
    reveal_with_fuel(after_undos, 3);
    if sc && lc {
        assert(steps =~= seq![SettingsStep::ActivateShortcut, SettingsStep::SetLaunchAtStartup, SettingsStep::Save]);
    } else if sc {
        assert(steps =~= seq![SettingsStep::ActivateShortcut, SettingsStep::Save]);
    } else if lc {
        assert(steps =~= seq![SettingsStep::SetLaunchAtStartup, SettingsStep::Save]);
    } else {
        assert(steps =~= seq![SettingsStep::Save]);
    }
    let t = steps.take(k);
    if k == 0 {
        assert(t =~= Seq::<SettingsStep>::empty());
    } else if k == 1 {
        assert(t =~= seq![steps[0]]);
        assert(t.drop_first() =~= Seq::<SettingsStep>::empty());
    } else {
        assert(t =~= seq![steps[0], steps[1]]);
        assert(t.drop_first() =~= seq![steps[1]]);
        assert(t.drop_first().drop_first() =~= Seq::<SettingsStep>::empty());
    }
    let u = planned_undo(new, old, steps[k]);
    if u.len() == 2 {
        assert(u.drop_first() =~= seq![u[1]]);
        assert(u.drop_first().drop_first() =~= Seq::<UndoView>::empty());
    } else if u.len() == 1 {
        assert(u.drop_first() =~= Seq::<UndoView>::empty());
    }
}

/// The settings kept at start-up: a configured shortcut other than the
/// default that cannot be registered falls back to the default; launch at
/// startup follows the system when it can be read.
pub fn startup_settings(active: AppSettings, shortcut_failed: bool, launch_at_startup: Option<bool>) -> (r:
    AppSettings)
    ensures
        r.shortcut@ == (if active.shortcut@ != DEFAULT_SHORTCUT@ && shortcut_failed {
            DEFAULT_SHORTCUT@
        } else {
            active.shortcut@
        }),
        r.theme == active.theme,
        r.proxy_url@ == active.proxy_url@,
        r.launch_at_startup == match launch_at_startup {
            Some(b) => b,
            None => active.launch_at_startup,
        },
{
    let mut active = active;
    if !str_eq(active.shortcut.as_str(), DEFAULT_SHORTCUT) && shortcut_failed {
        active.shortcut = DEFAULT_SHORTCUT.to_owned();
    }
    match launch_at_startup {
        Some(b) => {
            active.launch_at_startup = b;
        },
        None => {},
    }
    active
}

/// Is the configured shortcut registered at start-up? Only when it is not
/// the default one.
pub fn registers_configured_shortcut(active: &AppSettings) -> (r: bool)
    ensures
        r == (active.shortcut@ != DEFAULT_SHORTCUT@),
{
    !str_eq(active.shortcut.as_str(), DEFAULT_SHORTCUT)
}

} // verus!
