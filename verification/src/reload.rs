//! What a changed configuration calls for.

use vstd::prelude::*;

use crate::config;
use crate::config::{Config, ConfigView};
use crate::emit::Release;
use crate::strmap;
use crate::text;
use crate::text::same_text;

verus! {

/// The time between two looks at the configuration, in milliseconds.
pub const CHECK_MS: u128 = 500;

/// What is to become of the scripts.
#[derive(Debug, Clone, Copy, PartialEq, Eq, Structural)]
pub enum Scripts {
    /// They stay.
    Keep,
    /// They are all loaded anew.
    Reload,
    /// They are loaded if their directory can be read by now.
    Retry,
}

/// What is to become of the controller.
#[derive(Debug, Clone, Copy, PartialEq, Eq, Structural)]
pub enum Controller {
    /// It stays as it is.
    Keep,
    /// It is given up, with its mirror.
    Drop,
    /// It is hidden or shown; where that fails it is given up.
    SetHidden(bool),
}

/// What a fresh configuration calls for.
#[derive(Debug, Clone, Copy, PartialEq, Eq, Structural)]
pub struct Reload {
    pub scripts: Scripts,
    pub controller: Controller,
    /// Hiding was asked for and is not allowed.
    pub hiding_ignored: bool,
}

/// Whether the scripts would see another configuration.
pub open spec fn settings_changed(old: ConfigView, fresh: ConfigView) -> bool {
    fresh.values != old.values || fresh.plugin_dir != old.plugin_dir || fresh.plugin_order
        != old.plugin_order
}

/// Whether another controller is asked for.
pub open spec fn source_changed(old: ConfigView, fresh: ConfigView) -> bool {
    fresh.vid != old.vid || fresh.pid != old.pid
}

/// What `fresh` calls for where `old` was in force.
pub open spec fn reload_for(
    old: ConfigView,
    fresh: ConfigView,
    connected: bool,
    scripts_ready: bool,
    may_hide: bool,
) -> Reload {
    let hide_changed = fresh.hide_device != old.hide_device;
    Reload {
        scripts: if settings_changed(old, fresh) {
            Scripts::Reload
        } else if !scripts_ready {
            Scripts::Retry
        } else {
            Scripts::Keep
        },
        controller: if !connected {
            Controller::Keep
        } else if source_changed(old, fresh) {
            Controller::Drop
        } else if hide_changed {
            Controller::SetHidden(fresh.hide_device && may_hide)
        } else {
            Controller::Keep
        },
        hiding_ignored: hide_changed && fresh.hide_device && !may_hide,
    }
}

fn same_list(a: &Vec<String>, b: &Vec<String>) -> (r: bool)
    ensures
        r == (text::string_texts(a@) == text::string_texts(b@)),
{
    let ghost x = text::string_texts(a@);
    let ghost y = text::string_texts(b@);
    if a.len() != b.len() {
        assert(x.len() != y.len());
        return false;
    }
    let mut i: usize = 0;
    while i < a.len()
        invariant
            i <= a@.len(),
            a@.len() == b@.len(),
            x == text::string_texts(a@),
            y == text::string_texts(b@),
            forall|j: int| 0 <= j < i ==> x[j] == y[j],
        decreases a@.len() - i,
    {
        if !same_text(a[i].as_str(), b[i].as_str()) {
            assert(x[i as int] != y[i as int]);
            return false;
        }
        i += 1;
    }
    assert(x =~= y);
    true
}

proof fn lemma_same_values(a: Map<Seq<char>, String>, b: Map<Seq<char>, String>)
    ensures
        strmap::same_values(a, b) == (a.map_values(|v: String| v@) == b.map_values(
            |v: String| v@,
        )),
{
    let x = a.map_values(|v: String| v@);
    let y = b.map_values(|v: String| v@);
    if strmap::same_values(a, b) {
        assert(x =~= y);
    }
    if x == y {
        assert forall|k: Seq<char>|
            #![auto]
            (a.contains_key(k) <==> b.contains_key(k)) && (a.contains_key(k) ==> a[k]@ == b[k]@) by {
            assert(x.contains_key(k) == y.contains_key(k));
            if a.contains_key(k) {
                assert(x[k] == y[k]);
            }
        }
    }
}

/// Decides what `fresh` calls for where `old` was in force: `connected` says
/// whether a controller is connected, `scripts_ready` whether the scripts were
/// loaded, `may_hide` whether the controller may be hidden at all.
pub fn plan_reload(
    old: &Config,
    fresh: &Config,
    connected: bool,
    scripts_ready: bool,
    may_hide: bool,
) -> (r: Reload)
    ensures
        r == reload_for(old@, fresh@, connected, scripts_ready, may_hide),
{
    proof {
        lemma_same_values(fresh.values@, old.values@);
    }
    let source = fresh.vid != old.vid || fresh.pid != old.pid;
    let hide = fresh.hide_device != old.hide_device;
    let settings = !fresh.values.same(&old.values) || !same_text(
        fresh.plugin_dir.as_str(),
        old.plugin_dir.as_str(),
    ) || !same_list(&fresh.plugin_order, &old.plugin_order);
    let scripts = if settings {
        Scripts::Reload
    } else if !scripts_ready {
        Scripts::Retry
    } else {
        Scripts::Keep
    };
    let controller = if source && connected {
        Controller::Drop
    } else if hide && connected {
        Controller::SetHidden(fresh.hide_device && may_hide)
    } else {
        Controller::Keep
    };
    Reload { scripts, controller, hiding_ignored: hide && fresh.hide_device && !may_hide }
}

/// A configuration that did not change touches neither the controller nor
/// scripts that were loaded.
pub proof fn law_same_configuration_keeps(cfg: ConfigView, connected: bool, may_hide: bool)
    ensures
        reload_for(cfg, cfg, connected, true, may_hide) == (Reload {
            scripts: Scripts::Keep,
            controller: Controller::Keep,
            hiding_ignored: false,
        }),
{
}

/// Persisting the ids of another controller and reading the file again gives
/// up the controller that is connected and leaves the scripts alone.
pub proof fn law_persisted_source_reconnects(raw: Seq<char>, vid: u16, pid: u16, may_hide: bool)
    ensures
        ({
            let cfg = config::loaded(text::lines_of(raw));
            let kept = text::text_of(config::with_ids(text::lines_of(raw), vid, pid));
            let fresh = config::loaded(text::lines_of(kept));
            vid != cfg.vid || pid != cfg.pid ==> reload_for(cfg, fresh, true, true, may_hide) == (
            Reload {
                scripts: Scripts::Keep,
                controller: Controller::Drop,
                hiding_ignored: false,
            })
        }),
{
    config::law_persisted_ids_are_loaded(raw, vid, pid);
}

/// Whether the configuration is to be looked at: at once where that was asked
/// for, else every half second.
pub fn check_due(asked: bool, elapsed_ms: u128) -> (due: bool)
    ensures
        due == (asked || elapsed_ms >= 500),
{
    asked || elapsed_ms >= CHECK_MS
}

/// How long to wait for events, in milliseconds: shorter while keys are held.
pub fn poll_timeout(pending: &Vec<Release>) -> (ms: i32)
    ensures
        ms == (if pending@.len() == 0 {
            500int
        } else {
            50int
        }),
{
    if pending.len() == 0 {
        500
    } else {
        50
    }
}

/// The controller is given up exactly where one is connected and another is
/// asked for.
pub proof fn law_controller_is_dropped(
    old: ConfigView,
    fresh: ConfigView,
    connected: bool,
    scripts_ready: bool,
    may_hide: bool,
)
    ensures
        reload_for(old, fresh, connected, scripts_ready, may_hide).controller == Controller::Drop
            <==> connected && (old.vid != fresh.vid || old.pid != fresh.pid),
{
}

/// The controller is hidden or shown exactly where it stays connected and the
/// wish to hide it changed; it is hidden only where that is wished and allowed,
/// and a wish that is not allowed is pointed out.
pub proof fn law_hiding_follows_the_wish(
    old: ConfigView,
    fresh: ConfigView,
    scripts_ready: bool,
    may_hide: bool,
)
    requires
        old.vid == fresh.vid && old.pid == fresh.pid,
    ensures
        ({
            let r = reload_for(old, fresh, true, scripts_ready, may_hide);
            &&& old.hide_device == fresh.hide_device ==> r.controller == Controller::Keep
                && !r.hiding_ignored
            &&& !old.hide_device && fresh.hide_device ==> r.controller == Controller::SetHidden(
                may_hide,
            ) && r.hiding_ignored == !may_hide
            &&& old.hide_device && !fresh.hide_device ==> r.controller == Controller::SetHidden(
                false,
            ) && !r.hiding_ignored
        }),
{
}

/// Without a controller none is touched.
pub proof fn law_no_controller_is_touched(
    old: ConfigView,
    fresh: ConfigView,
    scripts_ready: bool,
    may_hide: bool,
)
    ensures
        reload_for(old, fresh, false, scripts_ready, may_hide).controller == Controller::Keep,
{
}

/// The scripts are loaded anew exactly where their values, their directory or
/// their order changed, and looked for again where they were not loaded yet.
pub proof fn law_scripts_follow_their_settings(
    old: ConfigView,
    fresh: ConfigView,
    connected: bool,
    may_hide: bool,
)
    ensures
        ({
            let changed = old.values != fresh.values || old.plugin_dir != fresh.plugin_dir
                || old.plugin_order != fresh.plugin_order;
            let ready = reload_for(old, fresh, connected, true, may_hide).scripts;
            let waiting = reload_for(old, fresh, connected, false, may_hide).scripts;
            &&& changed ==> ready == Scripts::Reload && waiting == Scripts::Reload
            &&& !changed ==> ready == Scripts::Keep && waiting == Scripts::Retry
        }),
{
}

} // verus!
