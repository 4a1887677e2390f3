//! The operations that alternate work on files, processes and the store
//! with decisions: switching to an account, adding a new login, saving the
//! current login, deleting an account, and deleting a group. Each is a
//! machine: the switcher names the next step, the caller performs it and
//! reports back.
use vstd::prelude::*;

use crate::json::{
    config_single_instance, entry_value, json_document, key_in, lemma_single_instance_reading,
    multiple_instances_enabled, JsonTree,
};
use crate::stamps::{lemma_uuid_text_is_safe_id, new_record_id, uuid_simple_text};
use crate::switcher::BattleNetCore;
use crate::text::{is_safe_id, safe_id};

verus! {

/// What the caller reports after performing a step.
pub enum FlowEvent {
    /// The thing that was looked for is there, or is not.
    Checked(bool),
    /// The active configuration text, or nothing when it could not be read.
    ConfigRead(Option<String>),
    /// The work of the step succeeded, or failed.
    Done(bool),
}

pub enum FlowEventView {
    Checked(bool),
    ConfigRead(Option<Seq<char>>),
    Done(bool),
}

impl View for FlowEvent {
    type V = FlowEventView;

    open spec fn view(&self) -> FlowEventView {
        match self {
            FlowEvent::Checked(b) => FlowEventView::Checked(*b),
            FlowEvent::ConfigRead(c) => FlowEventView::ConfigRead(
                match c {
                    Some(s) => Some(s@),
                    None => None,
                },
            ),
            FlowEvent::Done(b) => FlowEventView::Done(*b),
        }
    }
}

// ---------------------------------------------------------------------------
// Switching to a saved account
// ---------------------------------------------------------------------------

/// The steps of a switch to a saved account.
#[derive(Clone, Copy, PartialEq, Eq, Structural, Debug)]
pub enum SwitchStep {
    /// Look for the account's saved configuration.
    CheckSavedConfig,
    /// Read the active configuration, to learn whether several clients may
    /// run at once.
    ReadActiveConfig,
    /// Stop the running client and wait for it to go.
    StopClient,
    /// Remove the active configuration, if there is one.
    RemoveActiveConfig,
    /// Create the Battle.net configuration directory.
    PrepareConfigDir,
    /// Copy the saved configuration over the active one.
    CopySavedConfig,
    /// Stamp the account as used and store the account list.
    RecordUse,
    /// Start the client.
    LaunchClient,
    /// The switch is over; whether it succeeded.
    Finished(bool),
}

/// The step after `step` once `event` is reported. An event that does not
/// answer the step leaves the machine where it is.
pub open spec fn switch_after(step: SwitchStep, event: FlowEventView) -> SwitchStep {
    match step {
        SwitchStep::CheckSavedConfig => match event {
            FlowEventView::Checked(true) => SwitchStep::ReadActiveConfig,
            FlowEventView::Checked(false) => SwitchStep::Finished(false),
            _ => step,
        },
        SwitchStep::ReadActiveConfig => match event {
            FlowEventView::ConfigRead(c) => if multiple_instances_enabled(c) {
                SwitchStep::RemoveActiveConfig
            } else {
                SwitchStep::StopClient
            },
            _ => step,
        },
        SwitchStep::StopClient => match event {
            FlowEventView::Done(_) => SwitchStep::RemoveActiveConfig,
            _ => step,
        },
        SwitchStep::RemoveActiveConfig => match event {
            FlowEventView::Done(true) => SwitchStep::PrepareConfigDir,
            FlowEventView::Done(false) => SwitchStep::Finished(false),
            _ => step,
        },
        SwitchStep::PrepareConfigDir => match event {
            FlowEventView::Done(true) => SwitchStep::CopySavedConfig,
            FlowEventView::Done(false) => SwitchStep::Finished(false),
            _ => step,
        },
        SwitchStep::CopySavedConfig => match event {
            FlowEventView::Done(true) => SwitchStep::RecordUse,
            FlowEventView::Done(false) => SwitchStep::Finished(false),
            _ => step,
        },
        SwitchStep::RecordUse => match event {
            FlowEventView::Done(_) => SwitchStep::LaunchClient,
            _ => step,
        },
        SwitchStep::LaunchClient => match event {
            FlowEventView::Done(_) => SwitchStep::Finished(true),
            _ => step,
        },
        SwitchStep::Finished(ok) => SwitchStep::Finished(ok),
    }
}

/// Where a switch stands after `events` are reported one by one.
pub open spec fn switch_trace(step: SwitchStep, events: Seq<FlowEventView>) -> SwitchStep
    decreases events.len(),
{
    if events.len() == 0 {
        step
    } else {
        switch_trace(switch_after(step, events[0]), events.drop_first())
    }
}

/// The steps at which the saved configuration is already in place.
pub open spec fn switch_copied(step: SwitchStep) -> bool {
    step == SwitchStep::RecordUse || step == SwitchStep::LaunchClient || step
        == SwitchStep::Finished(true)
}

/// A switch that ends in success had its saved configuration copied over
/// the active one on the way: some step of the run was the copy, and it
/// was reported done.
pub proof fn lemma_switch_success_copies(step: SwitchStep, events: Seq<FlowEventView>)
    requires
        !switch_copied(step),
        switch_trace(step, events) == SwitchStep::Finished(true),
    ensures
        exists|k: int|
            0 <= k < events.len() && switch_trace(step, events.take(k)) == SwitchStep::CopySavedConfig
                && #[trigger] events[k] == FlowEventView::Done(true),
    decreases events.len(),
{
    if events.len() == 0 {
        assert(switch_trace(step, events) == step);
    } else {
        let next = switch_after(step, events[0]);
        assert(events.take(0) =~= Seq::<FlowEventView>::empty());
        if switch_copied(next) {
            assert(step == SwitchStep::CopySavedConfig && events[0] == FlowEventView::Done(true));
            assert(switch_trace(step, events.take(0)) == step);
        } else {
            let rest = events.drop_first();
            lemma_switch_success_copies(next, rest);
            let k = choose|k: int|
                0 <= k < rest.len() && switch_trace(next, rest.take(k)) == SwitchStep::CopySavedConfig
                    && #[trigger] rest[k] == FlowEventView::Done(true);
            assert(events.take(k + 1).drop_first() =~= rest.take(k));
            assert(events.take(k + 1)[0] == events[0]);
            assert(events[k + 1] == rest[k]);
        }
    }
}

/// Once a machine has finished, nothing reported afterwards changes the
/// outcome.
pub proof fn lemma_switch_finished_stays(ok: bool, events: Seq<FlowEventView>)
    ensures
        switch_trace(SwitchStep::Finished(ok), events) == SwitchStep::Finished(ok),
    decreases events.len(),
{
    if events.len() > 0 {
        lemma_switch_finished_stays(ok, events.drop_first());
    }
}

/// Reading the active configuration decides whether the running client is
/// stopped: a switch goes straight to replacing the configuration only when
/// the configuration could be read and its `SingleInstance` setting reads as
/// false. A missing setting, one that reads as true or as nothing, and a
/// configuration that could not be read all stop the client first.
pub proof fn lemma_switch_stops_client_unless_multiple(config: Option<Seq<char>>)
    ensures
        switch_after(SwitchStep::ReadActiveConfig, FlowEventView::ConfigRead(config))
            == SwitchStep::RemoveActiveConfig <==> (config is Some && config_single_instance(
            config->0,
        ) == Some(false)),
        switch_after(SwitchStep::ReadActiveConfig, FlowEventView::ConfigRead(config))
            == SwitchStep::StopClient <==> !(config is Some && config_single_instance(config->0)
            == Some(false)),
        config is None ==> switch_after(SwitchStep::ReadActiveConfig, FlowEventView::ConfigRead(config))
            == SwitchStep::StopClient,
        config matches Some(c) && config_single_instance(c) is None ==> switch_after(
            SwitchStep::ReadActiveConfig,
            FlowEventView::ConfigRead(config),
        ) == SwitchStep::StopClient,
{
}

impl BattleNetCore {
    /// The first step of a switch to account `id`: an id that cannot name
    /// an account directory ends the switch at once, as a failure.
    pub fn switch_account(&self, id: &str) -> (r: SwitchStep)
        ensures
            r == if safe_id(id@) {
                SwitchStep::CheckSavedConfig
            } else {
                SwitchStep::Finished(false)
            },
    {
        if is_safe_id(id) {
            SwitchStep::CheckSavedConfig
        } else {
            SwitchStep::Finished(false)
        }
    }

    /// The step of a switch after `step` once `event` is reported.
    pub fn switch_account_step(&self, step: SwitchStep, event: &FlowEvent) -> (r: SwitchStep)
        ensures
            r == switch_after(step, event@),
    {
        match step {
            SwitchStep::CheckSavedConfig => match event {
                FlowEvent::Checked(true) => SwitchStep::ReadActiveConfig,
                FlowEvent::Checked(false) => SwitchStep::Finished(false),
                _ => step,
            },
            SwitchStep::ReadActiveConfig => match event {
                FlowEvent::ConfigRead(c) => {
                    let config = match c {
                        Some(s) => Some(s.as_str()),
                        None => None,
                    };
                    if self.is_multiple_instances_enabled(config) {
                        SwitchStep::RemoveActiveConfig
                    } else {
                        SwitchStep::StopClient
                    }
                },
                _ => step,
            },
            SwitchStep::StopClient => match event {
                FlowEvent::Done(_) => SwitchStep::RemoveActiveConfig,
                _ => step,
            },
            SwitchStep::RemoveActiveConfig => match event {
                FlowEvent::Done(true) => SwitchStep::PrepareConfigDir,
                FlowEvent::Done(false) => SwitchStep::Finished(false),
                _ => step,
            },
            SwitchStep::PrepareConfigDir => match event {
                FlowEvent::Done(true) => SwitchStep::CopySavedConfig,
                FlowEvent::Done(false) => SwitchStep::Finished(false),
                _ => step,
            },
            SwitchStep::CopySavedConfig => match event {
                FlowEvent::Done(true) => SwitchStep::RecordUse,
                FlowEvent::Done(false) => SwitchStep::Finished(false),
                _ => step,
            },
            SwitchStep::RecordUse => match event {
                FlowEvent::Done(_) => SwitchStep::LaunchClient,
                _ => step,
            },
            SwitchStep::LaunchClient => match event {
                FlowEvent::Done(_) => SwitchStep::Finished(true),
                _ => step,
            },
            SwitchStep::Finished(ok) => SwitchStep::Finished(ok),
        }
    }
}

// ---------------------------------------------------------------------------
// Logging in with a new account
// ---------------------------------------------------------------------------

/// The steps of making room for a new login: the client is restarted
/// without an active configuration.
#[derive(Clone, Copy, PartialEq, Eq, Structural, Debug)]
pub enum AddStep {
    /// Read the active configuration, to learn whether several clients may
    /// run at once.
    ReadActiveConfig,
    /// Stop the running client and wait for it to go.
    StopClient,
    /// Remove the active configuration, if there is one (a failure to remove
    /// it is let pass).
    RemoveActiveConfig,
    /// Start the client.
    LaunchClient,
    /// Over; whether it succeeded.
    Finished(bool),
}

pub open spec fn add_after(step: AddStep, event: FlowEventView) -> AddStep {
    match step {
        AddStep::ReadActiveConfig => match event {
            FlowEventView::ConfigRead(c) => if multiple_instances_enabled(c) {
                AddStep::RemoveActiveConfig
            } else {
                AddStep::StopClient
            },
            _ => step,
        },
        AddStep::StopClient => match event {
            FlowEventView::Done(_) => AddStep::RemoveActiveConfig,
            _ => step,
        },
        AddStep::RemoveActiveConfig => match event {
            FlowEventView::Done(_) => AddStep::LaunchClient,
            _ => step,
        },
        AddStep::LaunchClient => match event {
            FlowEventView::Done(_) => AddStep::Finished(true),
            _ => step,
        },
        AddStep::Finished(ok) => AddStep::Finished(ok),
    }
}

pub open spec fn add_trace(step: AddStep, events: Seq<FlowEventView>) -> AddStep
    decreases events.len(),
{
    if events.len() == 0 {
        step
    } else {
        add_trace(add_after(step, events[0]), events.drop_first())
    }
}

/// Making room for a new login never fails: whatever is reported, the
/// machine never finishes with a failure.
pub proof fn lemma_add_never_fails(step: AddStep, events: Seq<FlowEventView>)
    requires
        step != AddStep::Finished(false),
    ensures
        add_trace(step, events) != AddStep::Finished(false),
    decreases events.len(),
{
    if events.len() > 0 {
        lemma_add_never_fails(add_after(step, events[0]), events.drop_first());
    }
}

/// Reading the active configuration decides whether the running client is
/// stopped before a new login: the configuration is removed at once only
/// when it could be read and its `SingleInstance` setting reads as false;
/// in every other case the client is stopped first.
pub proof fn lemma_add_stops_client_unless_multiple(config: Option<Seq<char>>)
    ensures
        add_after(AddStep::ReadActiveConfig, FlowEventView::ConfigRead(config))
            == AddStep::RemoveActiveConfig <==> (config is Some && config_single_instance(config->0)
            == Some(false)),
        add_after(AddStep::ReadActiveConfig, FlowEventView::ConfigRead(config)) == AddStep::StopClient
            <==> !(config is Some && config_single_instance(config->0) == Some(false)),
{
}

/// A configuration that does not set `SingleInstance` anywhere means a
/// single client: both a switch and a new login stop the running client.
pub proof fn lemma_unset_single_instance_stops_client(content: Seq<char>, t: JsonTree)
    requires
        json_document(content) == Some(t),
        !key_in(t, "SingleInstance"@),
    ensures
        switch_after(SwitchStep::ReadActiveConfig, FlowEventView::ConfigRead(Some(content)))
            == SwitchStep::StopClient,
        add_after(AddStep::ReadActiveConfig, FlowEventView::ConfigRead(Some(content)))
            == AddStep::StopClient,
{
    lemma_single_instance_reading(content, t);
}

/// A configuration whose top object sets `SingleInstance` to a JSON boolean
/// `single`: the running client is stopped exactly when `single` is true.
pub proof fn lemma_boolean_single_instance_decides(
    content: Seq<char>,
    entries: Seq<(Seq<char>, JsonTree)>,
    single: bool,
)
    requires
        json_document(content) == Some(JsonTree::Object(entries)),
        entry_value(entries, "SingleInstance"@) == Some(JsonTree::Bool(single)),
    ensures
        switch_after(SwitchStep::ReadActiveConfig, FlowEventView::ConfigRead(Some(content))) == if single {
            SwitchStep::StopClient
        } else {
            SwitchStep::RemoveActiveConfig
        },
        add_after(AddStep::ReadActiveConfig, FlowEventView::ConfigRead(Some(content))) == if single {
            AddStep::StopClient
        } else {
            AddStep::RemoveActiveConfig
        },
{
    lemma_single_instance_reading(content, JsonTree::Object(entries));
}

// ---------------------------------------------------------------------------
// Saving the current login
// ---------------------------------------------------------------------------

/// The steps of saving the login that is active now as a new account.
pub enum SaveStep {
    /// Look for the active configuration.
    CheckActiveConfig,
    /// Create the directory of the new account with this id.
    CreateAccountDir(String),
    /// Copy the active configuration into the new account's directory.
    CopyActiveConfig(String),
    /// Add the account's record (see
    /// [`BattleNetCore::save_current_account_to_group`]) and store the
    /// account list.
    StoreAccount(String),
    /// Over; whether it succeeded.
    Finished(bool),
}

pub enum SaveStepView {
    CheckActiveConfig,
    CreateAccountDir(Seq<char>),
    CopyActiveConfig(Seq<char>),
    StoreAccount(Seq<char>),
    Finished(bool),
}

impl View for SaveStep {
    type V = SaveStepView;

    open spec fn view(&self) -> SaveStepView {
        match self {
            SaveStep::CheckActiveConfig => SaveStepView::CheckActiveConfig,
            SaveStep::CreateAccountDir(id) => SaveStepView::CreateAccountDir(id@),
            SaveStep::CopyActiveConfig(id) => SaveStepView::CopyActiveConfig(id@),
            SaveStep::StoreAccount(id) => SaveStepView::StoreAccount(id@),
            SaveStep::Finished(ok) => SaveStepView::Finished(*ok),
        }
    }
}

/// The step after `step` once `event` is reported, `fresh_id` being the id
/// given to the new account when its directory is about to be made.
pub open spec fn save_after(step: SaveStepView, event: FlowEventView, fresh_id: Seq<char>) -> SaveStepView {
    match step {
        SaveStepView::CheckActiveConfig => match event {
            FlowEventView::Checked(true) => SaveStepView::CreateAccountDir(fresh_id),
            FlowEventView::Checked(false) => SaveStepView::Finished(false),
            _ => step,
        },
        SaveStepView::CreateAccountDir(id) => match event {
            FlowEventView::Done(true) => SaveStepView::CopyActiveConfig(id),
            FlowEventView::Done(false) => SaveStepView::Finished(false),
            _ => step,
        },
        SaveStepView::CopyActiveConfig(id) => match event {
            FlowEventView::Done(true) => SaveStepView::StoreAccount(id),
            FlowEventView::Done(false) => SaveStepView::Finished(false),
            _ => step,
        },
        SaveStepView::StoreAccount(_) => match event {
            FlowEventView::Done(ok) => SaveStepView::Finished(ok),
            _ => step,
        },
        SaveStepView::Finished(ok) => SaveStepView::Finished(ok),
    }
}

/// Whether the new account's id is made at this step.
pub open spec fn save_makes_id(step: SaveStepView, event: FlowEventView) -> bool {
    step == SaveStepView::CheckActiveConfig && event == FlowEventView::Checked(true)
}

// ---------------------------------------------------------------------------
// Deleting an account
// ---------------------------------------------------------------------------

/// The steps of deleting a saved account.
#[derive(Clone, Copy, PartialEq, Eq, Structural, Debug)]
pub enum DeleteAccountStep {
    /// Load the account list and take the account out of it (see
    /// [`BattleNetCore::remove_account`]); report whether it was there.
    UpdateAccounts,
    /// Store the account list.
    StoreAccounts,
    /// Remove the account's directory, if there is one (a failure is let
    /// pass).
    RemoveAccountDir,
    /// Over; whether it succeeded.
    Finished(bool),
}

pub open spec fn delete_account_after(step: DeleteAccountStep, event: FlowEventView) -> DeleteAccountStep {
    match step {
        DeleteAccountStep::UpdateAccounts => match event {
            FlowEventView::Checked(true) => DeleteAccountStep::StoreAccounts,
            FlowEventView::Checked(false) => DeleteAccountStep::Finished(false),
            _ => step,
        },
        DeleteAccountStep::StoreAccounts => match event {
            FlowEventView::Done(true) => DeleteAccountStep::RemoveAccountDir,
            FlowEventView::Done(false) => DeleteAccountStep::Finished(false),
            _ => step,
        },
        DeleteAccountStep::RemoveAccountDir => match event {
            FlowEventView::Done(_) => DeleteAccountStep::Finished(true),
            _ => step,
        },
        DeleteAccountStep::Finished(ok) => DeleteAccountStep::Finished(ok),
    }
}

/// Where a deletion of an account stands after `events` are reported one by
/// one.
pub open spec fn delete_account_trace(step: DeleteAccountStep, events: Seq<FlowEventView>) -> DeleteAccountStep
    decreases events.len(),
{
    if events.len() == 0 {
        step
    } else {
        delete_account_trace(delete_account_after(step, events[0]), events.drop_first())
    }
}

/// Once the account list without the account has been stored, the deletion
/// succeeds, whatever becomes of the removal of the account's directory:
/// every report of that removal ends the deletion in success, and no run
/// from the storing of the list onwards, the store reported done, ends in
/// failure.
pub proof fn lemma_stored_account_deletion_succeeds(events: Seq<FlowEventView>)
    requires
        events.len() > 0,
        events[0] == FlowEventView::Done(true),
    ensures
        forall|removed: bool|
            delete_account_after(DeleteAccountStep::RemoveAccountDir, FlowEventView::Done(removed))
                == DeleteAccountStep::Finished(true),
        delete_account_trace(DeleteAccountStep::StoreAccounts, events) != DeleteAccountStep::Finished(
            false,
        ),
{
    lemma_removing_dir_never_fails(events.drop_first());
}

proof fn lemma_removing_dir_never_fails(events: Seq<FlowEventView>)
    ensures
        delete_account_trace(DeleteAccountStep::RemoveAccountDir, events) != DeleteAccountStep::Finished(
            false,
        ),
        delete_account_trace(DeleteAccountStep::Finished(true), events) == DeleteAccountStep::Finished(
            true,
        ),
    decreases events.len(),
{
    if events.len() > 0 {
        lemma_removing_dir_never_fails(events.drop_first());
    }
}

/// Storing the account list decides a deletion that got that far: a store
/// that succeeds leads on to removing the directory, one that fails ends
/// the deletion in failure.
pub proof fn lemma_account_deletion_store_decides(ok: bool)
    ensures
        delete_account_after(DeleteAccountStep::StoreAccounts, FlowEventView::Done(ok)) == if ok {
            DeleteAccountStep::RemoveAccountDir
        } else {
            DeleteAccountStep::Finished(false)
        },
{
}

// ---------------------------------------------------------------------------
// Deleting a group
// ---------------------------------------------------------------------------

/// The steps of deleting a group.
#[derive(Clone, Copy, PartialEq, Eq, Structural, Debug)]
pub enum DeleteGroupStep {
    /// Load the group list and take the group out of it (see
    /// [`BattleNetCore::delete_group`]); report whether that was done.
    UpdateGroups,
    /// Store the group list.
    StoreGroups,
    /// Load the account list and file the group's accounts under the default
    /// group (see [`BattleNetCore::reassign_group_accounts`]); report
    /// whether any account moved.
    ReassignAccounts,
    /// Store the account list.
    StoreAccounts,
    /// Over; whether it succeeded.
    Finished(bool),
}

pub open spec fn delete_group_after(step: DeleteGroupStep, event: FlowEventView) -> DeleteGroupStep {
    match step {
        DeleteGroupStep::UpdateGroups => match event {
            FlowEventView::Checked(true) => DeleteGroupStep::StoreGroups,
            FlowEventView::Checked(false) => DeleteGroupStep::Finished(false),
            _ => step,
        },
        DeleteGroupStep::StoreGroups => match event {
            FlowEventView::Done(true) => DeleteGroupStep::ReassignAccounts,
            FlowEventView::Done(false) => DeleteGroupStep::Finished(false),
            _ => step,
        },
        DeleteGroupStep::ReassignAccounts => match event {
            FlowEventView::Checked(true) => DeleteGroupStep::StoreAccounts,
            FlowEventView::Checked(false) => DeleteGroupStep::Finished(true),
            _ => step,
        },
        DeleteGroupStep::StoreAccounts => match event {
            FlowEventView::Done(ok) => DeleteGroupStep::Finished(ok),
            _ => step,
        },
        DeleteGroupStep::Finished(ok) => DeleteGroupStep::Finished(ok),
    }
}

/// Where a deletion of a group stands after `events` are reported one by
/// one.
pub open spec fn delete_group_trace(step: DeleteGroupStep, events: Seq<FlowEventView>) -> DeleteGroupStep
    decreases events.len(),
{
    if events.len() == 0 {
        step
    } else {
        delete_group_trace(delete_group_after(step, events[0]), events.drop_first())
    }
}

/// The steps after the group was found and taken out of the list.
pub open spec fn group_taken_out(step: DeleteGroupStep) -> bool {
    ||| step == DeleteGroupStep::StoreGroups
    ||| step == DeleteGroupStep::ReassignAccounts
    ||| step == DeleteGroupStep::StoreAccounts
    ||| step == DeleteGroupStep::Finished(true)
}

/// Once the group has been taken out of the list, the deletion fails only
/// when storing a list fails: a run in which every store reports success
/// never ends in failure, whether or not accounts had to be moved.
pub proof fn lemma_group_deletion_succeeds_when_stored(step: DeleteGroupStep, events: Seq<FlowEventView>)
    requires
        group_taken_out(step),
        forall|k: int| 0 <= k < events.len() && (#[trigger] events[k]) is Done ==> events[k]
            == FlowEventView::Done(true),
    ensures
        delete_group_trace(step, events) != DeleteGroupStep::Finished(false),
    decreases events.len(),
{
    if events.len() > 0 {
        let rest = events.drop_first();
        assert forall|k: int| 0 <= k < rest.len() && (#[trigger] rest[k]) is Done implies rest[k]
            == FlowEventView::Done(true) by {
            assert(rest[k] == events[k + 1]);
        }
        assert(events[0] is Done ==> events[0] == FlowEventView::Done(true));
        lemma_group_deletion_succeeds_when_stored(delete_group_after(step, events[0]), rest);
    }
}

/// The last store decides a deletion that had accounts to move: the
/// deletion succeeds exactly when the account list was stored. When no
/// account had to move, the deletion succeeds without storing it.
pub proof fn lemma_group_deletion_last_store_decides(ok: bool)
    ensures
        delete_group_after(DeleteGroupStep::StoreAccounts, FlowEventView::Done(ok))
            == DeleteGroupStep::Finished(ok),
        delete_group_after(DeleteGroupStep::ReassignAccounts, FlowEventView::Checked(false))
            == DeleteGroupStep::Finished(true),
        delete_group_after(DeleteGroupStep::StoreGroups, FlowEventView::Done(ok)) == if ok {
            DeleteGroupStep::ReassignAccounts
        } else {
            DeleteGroupStep::Finished(false)
        },
{
}

impl BattleNetCore {
    /// The first step of making room for a new login.
    pub fn add_new_account(&self) -> (r: AddStep)
        ensures
            r == AddStep::ReadActiveConfig,
    {
        AddStep::ReadActiveConfig
    }

    /// The step of making room for a new login after `step` once `event` is
    /// reported.
    pub fn add_new_account_step(&self, step: AddStep, event: &FlowEvent) -> (r: AddStep)
        ensures
            r == add_after(step, event@),
    {
        match step {
            AddStep::ReadActiveConfig => match event {
                FlowEvent::ConfigRead(c) => {
                    let config = match c {
                        Some(s) => Some(s.as_str()),
                        None => None,
                    };
                    if self.is_multiple_instances_enabled(config) {
                        AddStep::RemoveActiveConfig
                    } else {
                        AddStep::StopClient
                    }
                },
                _ => step,
            },
            AddStep::StopClient => match event {
                FlowEvent::Done(_) => AddStep::RemoveActiveConfig,
                _ => step,
            },
            AddStep::RemoveActiveConfig => match event {
                FlowEvent::Done(_) => AddStep::LaunchClient,
                _ => step,
            },
            AddStep::LaunchClient => match event {
                FlowEvent::Done(_) => AddStep::Finished(true),
                _ => step,
            },
            AddStep::Finished(ok) => AddStep::Finished(ok),
        }
    }

    /// The first step of saving the current login.
    pub fn begin_save_current_account(&self) -> (r: SaveStep)
        ensures
            r@ == SaveStepView::CheckActiveConfig,
    {
        SaveStep::CheckActiveConfig
    }

    /// The step of saving the current login after `step` once `event` is
    /// reported, `fresh_id` being the id the new account gets if its
    /// directory is about to be made.
    pub fn save_current_account_step_with(&self, step: SaveStep, event: &FlowEvent, fresh_id: String) -> (r: SaveStep)
        ensures
            r@ == save_after(step@, event@, fresh_id@),
    {
        match step {
            SaveStep::CheckActiveConfig => match event {
                FlowEvent::Checked(true) => SaveStep::CreateAccountDir(fresh_id),
                FlowEvent::Checked(false) => SaveStep::Finished(false),
                _ => SaveStep::CheckActiveConfig,
            },
            SaveStep::CreateAccountDir(id) => match event {
                FlowEvent::Done(true) => SaveStep::CopyActiveConfig(id),
                FlowEvent::Done(false) => SaveStep::Finished(false),
                _ => SaveStep::CreateAccountDir(id),
            },
            SaveStep::CopyActiveConfig(id) => match event {
                FlowEvent::Done(true) => SaveStep::StoreAccount(id),
                FlowEvent::Done(false) => SaveStep::Finished(false),
                _ => SaveStep::CopyActiveConfig(id),
            },
            SaveStep::StoreAccount(id) => match event {
                FlowEvent::Done(ok) => SaveStep::Finished(*ok),
                _ => SaveStep::StoreAccount(id),
            },
            SaveStep::Finished(ok) => SaveStep::Finished(ok),
        }
    }

    /// The step of saving the current login after `step` once `event` is
    /// reported; the new account gets a fresh random id, which can always
    /// name an account directory.
    pub fn save_current_account_step(&self, step: SaveStep, event: &FlowEvent) -> (r: SaveStep)
        ensures
            save_makes_id(step@, event@) ==> (r@ matches SaveStepView::CreateAccountDir(id)
                && uuid_simple_text(id) && safe_id(id)),
            !save_makes_id(step@, event@) ==> r@ == save_after(step@, event@, Seq::empty()),
    {
        let makes_id = match (&step, event) {
            (SaveStep::CheckActiveConfig, FlowEvent::Checked(true)) => true,
            _ => false,
        };
        if makes_id {
            let id = new_record_id();
            proof {
                lemma_uuid_text_is_safe_id(id@);
            }
            self.save_current_account_step_with(step, event, id)
        } else {
            self.save_current_account_step_with(step, event, String::new())
        }
    }

    /// The first step of deleting account `id`: an id that cannot name an
    /// account directory ends the deletion at once, as a failure.
    pub fn delete_account(&self, id: &str) -> (r: DeleteAccountStep)
        ensures
            r == if safe_id(id@) {
                DeleteAccountStep::UpdateAccounts
            } else {
                DeleteAccountStep::Finished(false)
            },
    {
        if is_safe_id(id) {
            DeleteAccountStep::UpdateAccounts
        } else {
            DeleteAccountStep::Finished(false)
        }
    }

    /// The step of deleting an account after `step` once `event` is
    /// reported.
    pub fn delete_account_step(&self, step: DeleteAccountStep, event: &FlowEvent) -> (r: DeleteAccountStep)
        ensures
            r == delete_account_after(step, event@),
    {
        match step {
            DeleteAccountStep::UpdateAccounts => match event {
                FlowEvent::Checked(true) => DeleteAccountStep::StoreAccounts,
                FlowEvent::Checked(false) => DeleteAccountStep::Finished(false),
                _ => step,
            },
            DeleteAccountStep::StoreAccounts => match event {
                FlowEvent::Done(true) => DeleteAccountStep::RemoveAccountDir,
                FlowEvent::Done(false) => DeleteAccountStep::Finished(false),
                _ => step,
            },
            DeleteAccountStep::RemoveAccountDir => match event {
                FlowEvent::Done(_) => DeleteAccountStep::Finished(true),
                _ => step,
            },
            DeleteAccountStep::Finished(ok) => DeleteAccountStep::Finished(ok),
        }
    }

    /// The first step of deleting a group.
    pub fn begin_delete_group(&self) -> (r: DeleteGroupStep)
        ensures
            r == DeleteGroupStep::UpdateGroups,
    {
        DeleteGroupStep::UpdateGroups
    }

    /// The step of deleting a group after `step` once `event` is reported.
    pub fn delete_group_step(&self, step: DeleteGroupStep, event: &FlowEvent) -> (r: DeleteGroupStep)
        ensures
            r == delete_group_after(step, event@),
    {
        match step {
            DeleteGroupStep::UpdateGroups => match event {
                FlowEvent::Checked(true) => DeleteGroupStep::StoreGroups,
                FlowEvent::Checked(false) => DeleteGroupStep::Finished(false),
                _ => step,
            },
            DeleteGroupStep::StoreGroups => match event {
                FlowEvent::Done(true) => DeleteGroupStep::ReassignAccounts,
                FlowEvent::Done(false) => DeleteGroupStep::Finished(false),
                _ => step,
            },
            DeleteGroupStep::ReassignAccounts => match event {
                FlowEvent::Checked(true) => DeleteGroupStep::StoreAccounts,
                FlowEvent::Checked(false) => DeleteGroupStep::Finished(true),
                _ => step,
            },
            DeleteGroupStep::StoreAccounts => match event {
                FlowEvent::Done(ok) => DeleteGroupStep::Finished(*ok),
                _ => step,
            },
            DeleteGroupStep::Finished(ok) => DeleteGroupStep::Finished(ok),
        }
    }
}

} // verus!
