//! What the hook does when Zed loads it.
use vstd::prelude::*;

use crate::hook::config;
use crate::hook::symbols::Place;
use crate::text;

verus! {

broadcast use vstd::string::group_string_axioms;

/// What the hook found in the program around it.
#[derive(Debug)]
pub struct Surroundings {
    /// Whether the configuration enables the hook.
    pub enabled: bool,
    /// Whether the function that prepares statements was found.
    pub prepare: bool,
    /// Whether the function that binds values was found.
    pub bind: bool,
    /// Where the function that sorts the project picker was found.
    pub picker: Option<Place>,
    /// The channel of Zed.
    pub channel: Option<String>,
}

/// What the hook does about it.
#[derive(Debug)]
pub enum Startup {
    /// Nothing: it is switched off.
    Disabled,
    /// Nothing: Zed's writes cannot be seen.
    NotInstalled,
    /// It replaces functions, and listens.
    Install(Installation),
}

/// The functions that are replaced besides the one that prepares statements, and
/// the names under which the hook is known.
#[derive(Debug)]
pub struct Installation {
    /// Whether bound values tell the workspace of a write.
    pub bind: bool,
    /// The function that sorts the project picker.
    pub picker: Option<Place>,
    /// The application in the registry of hooks.
    pub app_id: String,
    /// The channel in the name of the socket.
    pub socket_channel: String,
}

/// The channel in the name of the socket.
pub open spec fn socket_channel(channel: Option<Seq<char>>) -> Seq<char> {
    match channel {
        Some(c) => c,
        None => "unknown"@,
    }
}

/// Decides what the hook does when Zed loads it.
pub fn init_inner(s: Surroundings) -> (r: Startup)
    ensures
        if !s.enabled {
            r is Disabled
        } else if !s.prepare {
            r is NotInstalled
        } else {
            r matches Startup::Install(i) && i.bind == s.bind && i.picker == s.picker && i.app_id@
                == config::registered_as(text::opt(s.channel)) && i.socket_channel@
                == socket_channel(text::opt(s.channel))
        },
{
    if !s.enabled {
        return Startup::Disabled;
    }
    if !s.prepare {
        return Startup::NotInstalled;
    }
    let app_id = config::registry_app_id(text::borrow_opt(&s.channel));
    let socket_channel = match s.channel {
        Some(c) => c,
        None => "unknown".to_string(),
    };
    Startup::Install(Installation { bind: s.bind, picker: s.picker, app_id, socket_channel })
}

} // verus!
