use storm_switch::flows::{AddStep, DeleteAccountStep, DeleteGroupStep, FlowEvent, SaveStep, SwitchStep};
use storm_switch::platform::{
    auto_start_value_name, battle_net_processes, kill_process_args, process_image_name, AutoStartChange,
    RegistryOutcome,
};
use storm_switch::switcher::BattleNetCore;

fn switcher() -> BattleNetCore {
    BattleNetCore::new("app".to_string(), "data".to_string(), "app/Battle.net.config".to_string())
}

const SINGLE: &str = r#"{"Client":{"SingleInstance":true}}"#;
const MULTI: &str = r#"{"Client":{"SingleInstance":"false"}}"#;

#[test]
fn core_keeps_its_paths() {
    let c = switcher();
    assert_eq!(c.app_data_path(), "app");
    assert_eq!(c.data_dir(), "data");
    assert_eq!(c.config_file_path(), "app/Battle.net.config");
}

#[test]
fn switching_with_an_unsafe_id_fails_at_once() {
    assert_eq!(switcher().switch_account("../x"), SwitchStep::Finished(false));
    assert_eq!(switcher().switch_account(""), SwitchStep::Finished(false));
}

#[test]
fn switching_runs_every_step() {
    let c = switcher();
    let mut step = c.switch_account("abc");
    assert_eq!(step, SwitchStep::CheckSavedConfig);
    step = c.switch_account_step(step, &FlowEvent::Checked(true));
    assert_eq!(step, SwitchStep::ReadActiveConfig);
    step = c.switch_account_step(step, &FlowEvent::ConfigRead(Some(SINGLE.to_string())));
    assert_eq!(step, SwitchStep::StopClient);
    step = c.switch_account_step(step, &FlowEvent::Done(true));
    assert_eq!(step, SwitchStep::RemoveActiveConfig);
    for expected in [SwitchStep::PrepareConfigDir, SwitchStep::CopySavedConfig, SwitchStep::RecordUse, SwitchStep::LaunchClient, SwitchStep::Finished(true)] {
        step = c.switch_account_step(step, &FlowEvent::Done(true));
        assert_eq!(step, expected);
    }
}

#[test]
fn switching_skips_stopping_when_several_clients_may_run() {
    let c = switcher();
    let step = c.switch_account_step(SwitchStep::ReadActiveConfig, &FlowEvent::ConfigRead(Some(MULTI.to_string())));
    assert_eq!(step, SwitchStep::RemoveActiveConfig);
    let step = c.switch_account_step(SwitchStep::ReadActiveConfig, &FlowEvent::ConfigRead(None));
    assert_eq!(step, SwitchStep::StopClient);
}

#[test]
fn switching_stops_on_failures() {
    let c = switcher();
    assert_eq!(c.switch_account_step(SwitchStep::CheckSavedConfig, &FlowEvent::Checked(false)), SwitchStep::Finished(false));
    assert_eq!(c.switch_account_step(SwitchStep::RemoveActiveConfig, &FlowEvent::Done(false)), SwitchStep::Finished(false));
    assert_eq!(c.switch_account_step(SwitchStep::PrepareConfigDir, &FlowEvent::Done(false)), SwitchStep::Finished(false));
    assert_eq!(c.switch_account_step(SwitchStep::CopySavedConfig, &FlowEvent::Done(false)), SwitchStep::Finished(false));
    assert_eq!(c.switch_account_step(SwitchStep::RecordUse, &FlowEvent::Done(false)), SwitchStep::LaunchClient);
    assert_eq!(c.switch_account_step(SwitchStep::CheckSavedConfig, &FlowEvent::Done(true)), SwitchStep::CheckSavedConfig);
    assert_eq!(c.switch_account_step(SwitchStep::Finished(false), &FlowEvent::Done(true)), SwitchStep::Finished(false));
}

#[test]
fn adding_a_login_always_succeeds() {
    let c = switcher();
    let mut step = c.add_new_account();
    step = c.add_new_account_step(step, &FlowEvent::ConfigRead(None));
    assert_eq!(step, AddStep::StopClient);
    step = c.add_new_account_step(step, &FlowEvent::Done(false));
    assert_eq!(step, AddStep::RemoveActiveConfig);
    step = c.add_new_account_step(step, &FlowEvent::Done(false));
    assert_eq!(step, AddStep::LaunchClient);
    step = c.add_new_account_step(step, &FlowEvent::Done(false));
    assert_eq!(step, AddStep::Finished(true));
    let step = c.add_new_account_step(AddStep::ReadActiveConfig, &FlowEvent::ConfigRead(Some(MULTI.to_string())));
    assert_eq!(step, AddStep::RemoveActiveConfig);
}

#[test]
fn saving_the_current_login() {
    let c = switcher();
    let step = c.begin_save_current_account();
    assert!(matches!(step, SaveStep::CheckActiveConfig));
    let step = c.save_current_account_step(step, &FlowEvent::Checked(true));
    let id = match &step {
        SaveStep::CreateAccountDir(id) => id.clone(),
        _ => panic!("expected the account directory step"),
    };
    assert_eq!(id.len(), 32);
    let step = c.save_current_account_step(step, &FlowEvent::Done(true));
    assert!(matches!(&step, SaveStep::CopyActiveConfig(x) if *x == id));
    let step = c.save_current_account_step(step, &FlowEvent::Done(true));
    assert!(matches!(&step, SaveStep::StoreAccount(x) if *x == id));
    let step = c.save_current_account_step(step, &FlowEvent::Done(true));
    assert!(matches!(step, SaveStep::Finished(true)));
}

#[test]
fn saving_without_an_active_configuration_fails() {
    let c = switcher();
    let step = c.save_current_account_step(SaveStep::CheckActiveConfig, &FlowEvent::Checked(false));
    assert!(matches!(step, SaveStep::Finished(false)));
    let step = c.save_current_account_step_with(SaveStep::CreateAccountDir("x".to_string()), &FlowEvent::Done(false), String::new());
    assert!(matches!(step, SaveStep::Finished(false)));
    let step = c.save_current_account_step_with(SaveStep::CheckActiveConfig, &FlowEvent::Checked(true), "given".to_string());
    assert!(matches!(&step, SaveStep::CreateAccountDir(x) if x == "given"));
}

#[test]
fn deleting_an_account() {
    let c = switcher();
    assert_eq!(c.delete_account("a/b"), DeleteAccountStep::Finished(false));
    let step = c.delete_account("abc");
    assert_eq!(step, DeleteAccountStep::UpdateAccounts);
    assert_eq!(c.delete_account_step(step, &FlowEvent::Checked(false)), DeleteAccountStep::Finished(false));
    let step = c.delete_account_step(DeleteAccountStep::UpdateAccounts, &FlowEvent::Checked(true));
    assert_eq!(step, DeleteAccountStep::StoreAccounts);
    assert_eq!(c.delete_account_step(DeleteAccountStep::StoreAccounts, &FlowEvent::Done(false)), DeleteAccountStep::Finished(false));
    let step = c.delete_account_step(step, &FlowEvent::Done(true));
    assert_eq!(step, DeleteAccountStep::RemoveAccountDir);
    assert_eq!(c.delete_account_step(step, &FlowEvent::Done(false)), DeleteAccountStep::Finished(true));
}

#[test]
fn deleting_a_group() {
    let c = switcher();
    let step = c.begin_delete_group();
    assert_eq!(step, DeleteGroupStep::UpdateGroups);
    assert_eq!(c.delete_group_step(step, &FlowEvent::Checked(false)), DeleteGroupStep::Finished(false));
    let step = c.delete_group_step(DeleteGroupStep::UpdateGroups, &FlowEvent::Checked(true));
    assert_eq!(step, DeleteGroupStep::StoreGroups);
    let step = c.delete_group_step(step, &FlowEvent::Done(true));
    assert_eq!(step, DeleteGroupStep::ReassignAccounts);
    assert_eq!(c.delete_group_step(DeleteGroupStep::ReassignAccounts, &FlowEvent::Checked(false)), DeleteGroupStep::Finished(true));
    let step = c.delete_group_step(step, &FlowEvent::Checked(true));
    assert_eq!(step, DeleteGroupStep::StoreAccounts);
    assert_eq!(c.delete_group_step(step, &FlowEvent::Done(false)), DeleteGroupStep::Finished(false));
}

#[test]
fn auto_start_decisions() {
    let c = switcher();
    assert!(c.get_auto_start(Some("C:\\app.exe".to_string())));
    assert!(!c.get_auto_start(None));
    let on = c.set_auto_start(true);
    assert!(matches!(on, AutoStartChange::Register));
    assert!(c.auto_start_changed(&on, RegistryOutcome::Done));
    assert!(!c.auto_start_changed(&on, RegistryOutcome::NotFound));
    assert!(!c.auto_start_changed(&on, RegistryOutcome::Failed));
    let off = c.set_auto_start(false);
    assert!(matches!(off, AutoStartChange::Unregister));
    assert!(c.auto_start_changed(&off, RegistryOutcome::Done));
    assert!(c.auto_start_changed(&off, RegistryOutcome::NotFound));
    assert!(!c.auto_start_changed(&off, RegistryOutcome::Failed));
    assert_eq!(auto_start_value_name(), "StormSwitch");
}

#[test]
fn stopping_the_client() {
    assert_eq!(battle_net_processes(), vec!["Battle.net", "Agent"]);
    assert_eq!(process_image_name("Agent"), "Agent.exe");
    assert_eq!(kill_process_args("Battle.net"), vec!["/IM", "Battle.net.exe", "/F", "/T"]);
}
