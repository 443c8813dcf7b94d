//! The configuration of the hook: a file, overridden by the environment.
use vstd::prelude::*;

use crate::components;
use crate::text;
use crate::workspace_db;

verus! {

broadcast use vstd::string::group_string_axioms;

/// The configuration of the hook.
#[derive(Debug, Clone)]
pub struct SyncConfig {
    /// Whether the hook keeps anything in step.
    pub enabled: bool,
    /// What is logged.
    pub log_level: String,
    /// The delay, in milliseconds, between a write of Zed's and reading the
    /// database; Zed needs more than 200 to commit.
    pub sync_delay_ms: u64,
    /// The least time, in milliseconds, between two syncs of a workspace.
    pub sync_cooldown_ms: u64,
    /// The least time, in seconds, between two discoveries that fail.
    pub discovery_cooldown_s: u64,
}

/// The configuration that holds without a file.
pub open spec fn is_default(c: SyncConfig) -> bool {
    &&& c.enabled
    &&& c.log_level@ == "info"@
    &&& c.sync_delay_ms == 300
    &&& c.sync_cooldown_ms == 1000
    &&& c.discovery_cooldown_s == 30
}

impl Default for SyncConfig {
    fn default() -> (r: Self)
        ensures
            is_default(r),
    {
        SyncConfig {
            enabled: true,
            log_level: "info".to_string(),
            sync_delay_ms: 300,
            sync_cooldown_ms: 1000,
            discovery_cooldown_s: 30,
        }
    }
}

/// The value switches the hook off.
pub open spec fn is_off(v: Seq<char>) -> bool {
    v == "0"@ || v == "off"@ || v == "disabled"@ || v == "false"@
}

impl SyncConfig {
    /// The configuration is the given one, or else the default, with what the
    /// environment overrides.
    pub open spec fn is_loaded(
        self,
        file: Option<SyncConfig>,
        sync_var: Option<Seq<char>>,
        log_var: Option<Seq<char>>,
    ) -> bool {
        &&& match file {
            Some(c) => self.sync_delay_ms == c.sync_delay_ms && self.sync_cooldown_ms
                == c.sync_cooldown_ms && self.discovery_cooldown_s == c.discovery_cooldown_s,
            None => self.sync_delay_ms == 300 && self.sync_cooldown_ms == 1000
                && self.discovery_cooldown_s == 30,
        }
        &&& self.enabled == (match sync_var {
            Some(v) => !is_off(v),
            None => file is None || file->0.enabled,
        })
        &&& self.log_level@ == (if log_var is Some && log_var->0.len() > 0 {
            log_var->0
        } else if file is Some {
            file->0.log_level@
        } else {
            "info"@
        })
    }

    /// Loads the configuration: the variable `ZED_PRJ_WORKSPACE_SYNC` switches the
    /// hook on or off, and `ZED_PRJ_WORKSPACE_SYNC_LOG` says what is logged.
    pub fn load(file: Option<SyncConfig>, sync_var: Option<&str>, log_var: Option<&str>) -> (r: Self)
        ensures
            r.is_loaded(file, text::opt_str(sync_var), text::opt_str(log_var)),
    {
        let mut config = match file {
            Some(c) => c,
            None => SyncConfig::default(),
        };
        if let Some(v) = sync_var {
            let off = text::text_eq(v, "0") || text::text_eq(v, "off") || text::text_eq(
                v,
                "disabled",
            ) || text::text_eq(v, "false");
            config.enabled = !off;
        }
        if let Some(v) = log_var {
            if !v.is_empty() {
                config.log_level = v.to_string();
            }
        }
        config
    }

    /// Loads the configuration of the running program, see `load`.
    pub fn from_env(file: Option<SyncConfig>, sync_var: Option<&str>, log_var: Option<&str>) -> (r:
        Self)
        ensures
            r.is_loaded(file, text::opt_str(sync_var), text::opt_str(log_var)),
    {
        SyncConfig::load(file, sync_var, log_var)
    }

    /// The delay before the database is read, in milliseconds.
    pub fn sync_delay(&self) -> (r: u64)
        ensures
            r == self.sync_delay_ms,
    {
        self.sync_delay_ms
    }

    /// The least time between two syncs of a workspace, in milliseconds.
    pub fn sync_cooldown(&self) -> (r: u64)
        ensures
            r == self.sync_cooldown_ms,
    {
        self.sync_cooldown_ms
    }

    /// The least time between two discoveries that fail, in seconds.
    pub fn discovery_cooldown(&self) -> (r: u64)
        ensures
            r == self.discovery_cooldown_s,
    {
        self.discovery_cooldown_s
    }
}

/// The configuration file of an application below a home directory.
pub open spec fn config_path_in(home: Seq<char>, app_id: Seq<char>) -> Seq<char> {
    components::join(
        components::join(
            components::join(components::join(home, ".config"@), "dylib-hooks"@),
            app_id,
        ),
        "zed-prj-workspace-hook.json"@,
    )
}

/// The configuration file of an application below a home directory, where that is known.
pub fn config_path_of(home: Option<&str>, app_id: &str) -> (r: Option<String>)
    ensures
        match text::opt_str(home) {
            Some(h) => r matches Some(p) && p@ == config_path_in(h, app_id@),
            None => r is None,
        },
{
    match home {
        Some(h) => {
            let config = components::join_path(h, ".config");
            let hooks = components::join_path(config.as_str(), "dylib-hooks");
            let app = components::join_path(hooks.as_str(), app_id);
            Some(components::join_path(app.as_str(), "zed-prj-workspace-hook.json"))
        },
        None => None,
    }
}

/// The configuration file of an application below the user's home directory.
pub fn config_path(app_id: &str) -> (r: Option<String>)
    ensures
        r matches Some(p) ==> exists|home: Seq<char>|
            p@ == #[trigger] config_path_in(home, app_id@),
{
    let home = workspace_db::home_dir();
    config_path_of(text::borrow_opt(&home), app_id)
}

/// The application around the hook.
pub open spec fn app_of(exe: Option<Seq<char>>) -> Seq<char> {
    match exe {
        Some(e) => if text::occurs_in("Zed Preview"@, e) {
            "zed-preview"@
        } else if text::occurs_in("Zed.app"@, e) {
            "zed-stable"@
        } else {
            "zed"@
        },
        None => "zed"@,
    }
}

/// Detects the application around the hook from the path of its executable.
pub fn detect_app_id(exe: Option<&str>) -> (r: String)
    ensures
        r@ == app_of(text::opt_str(exe)),
{
    match exe {
        Some(e) => if text::contains_text(e, "Zed Preview") {
            "zed-preview".to_string()
        } else if text::contains_text(e, "Zed.app") {
            "zed-stable".to_string()
        } else {
            "zed".to_string()
        },
        None => "zed".to_string(),
    }
}

/// The application under which the hook of a channel registers.
pub open spec fn registered_as(channel: Option<Seq<char>>) -> Seq<char> {
    match channel {
        Some(c) => "zed-"@ + c,
        None => "zed"@,
    }
}

/// The application under which the hook registers: that of its channel.
pub fn registry_app_id(channel: Option<&str>) -> (r: String)
    ensures
        r@ == registered_as(text::opt_str(channel)),
{
    match channel {
        Some(c) => text::concat("zed-", c),
        None => "zed".to_string(),
    }
}

} // verus!
