//! What the switcher asks of Windows: starting with the system, and stopping
//! the Battle.net client.
use vstd::prelude::*;

use crate::switcher::BattleNetCore;
use crate::text::{chars_of, string_from_chars};

verus! {

/// What to do to the registry's `Run` key.
pub enum AutoStartChange {
    /// Write the switcher's executable path under its value.
    Register,
    /// Delete the switcher's value.
    Unregister,
}

/// How the registry answered a change.
pub enum RegistryOutcome {
    Done,
    NotFound,
    Failed,
}

/// Whether a change is done, given how the registry answered: writing must
/// succeed; deleting succeeds too when there was nothing to delete.
pub open spec fn auto_start_change_done(change: AutoStartChange, outcome: RegistryOutcome) -> bool {
    match change {
        AutoStartChange::Register => outcome is Done,
        AutoStartChange::Unregister => outcome is Done || outcome is NotFound,
    }
}

pub open spec fn process_image(name: Seq<char>) -> Seq<char> {
    name + ".exe"@
}

impl BattleNetCore {
    /// Whether the switcher starts with Windows, given what the `Run` key
    /// holds under the switcher's value (nothing when the key or the value
    /// could not be read).
    pub fn get_auto_start(&self, registered: Option<String>) -> (r: bool)
        ensures
            r == registered is Some,
    {
        registered.is_some()
    }

    /// The change that switches starting with Windows on or off.
    pub fn set_auto_start(&self, enabled: bool) -> (r: AutoStartChange)
        ensures
            enabled ==> r is Register,
            !enabled ==> r is Unregister,
    {
        if enabled {
            AutoStartChange::Register
        } else {
            AutoStartChange::Unregister
        }
    }

    /// Whether a change of the `Run` key is done, given how the registry
    /// answered.
    pub fn auto_start_changed(&self, change: &AutoStartChange, outcome: RegistryOutcome) -> (r:
        bool)
        ensures
            r == auto_start_change_done(*change, outcome),
    {
        match change {
            AutoStartChange::Register => matches!(outcome, RegistryOutcome::Done),
            AutoStartChange::Unregister => matches!(
                outcome,
                RegistryOutcome::Done | RegistryOutcome::NotFound
            ),
        }
    }
}

/// The name of the switcher's value under the registry's `Run` key.
pub fn auto_start_value_name() -> (r: String)
    ensures
        r@ == "StormSwitch"@,
{
    "StormSwitch".to_owned()
}

/// The processes stopped before the active configuration is replaced: the
/// Battle.net client and its agent.
pub fn battle_net_processes() -> (r: Vec<String>)
    ensures
        r@.len() == 2,
        r@[0]@ == "Battle.net"@,
        r@[1]@ == "Agent"@,
{
    let mut r: Vec<String> = Vec::new();
    r.push("Battle.net".to_owned());
    r.push("Agent".to_owned());
    r
}

/// The image name of process `name`: the name followed by `.exe`.
pub fn process_image_name(name: &str) -> (r: String)
    ensures
        r@ == process_image(name@),
{
    let mut cs = chars_of(name);
    let mut ext = chars_of(".exe");
    cs.append(&mut ext);
    string_from_chars(&cs)
}

/// The arguments of `taskkill` that stop process `name` and the processes
/// it started, by force: `/IM <name>.exe /F /T`.
pub fn kill_process_args(name: &str) -> (r: Vec<String>)
    ensures
        r@.len() == 4,
        r@[0]@ == "/IM"@,
        r@[1]@ == process_image(name@),
        r@[2]@ == "/F"@,
        r@[3]@ == "/T"@,
{
    let mut r: Vec<String> = Vec::new();
    r.push("/IM".to_owned());
    r.push(process_image_name(name));
    r.push("/F".to_owned());
    r.push("/T".to_owned());
    r
}

} // verus!
