use eso_addons::promise::PollState;
use eso_addons::settings::{issue_url, MinionButton, Onboard, SettingsEvents, SettingsRequest, SettingsState};
use eso_addons::views::AddonResponseType;

fn quiet() -> SettingsEvents {
    SettingsEvents {
        addon_dir_dialog: PollState::Updating,
        minion_dialog: PollState::Updating,
        minion_import: PollState::Updating,
        backup_dialog: PollState::Updating,
        backup_process: PollState::Updating,
        restore_dialog: PollState::Updating,
        restore_process: PollState::Updating,
    }
}

#[test]
fn minion_import_runs_and_reports_change() {
    let mut s = SettingsState::new();
    assert!(s.minion_button() == MinionButton::Enabled);
    s.open_minion_dialog();
    assert!(s.minion_button() == MinionButton::Disabled);
    let mut ev = quiet();
    ev.minion_dialog = PollState::Success(Some("/tmp/BU-addons.txt".into()));
    // an answer for the import task is not taken: it has not started yet
    ev.minion_import = PollState::Success(());
    let (resp, reqs) = s.poll(ev);
    assert!(resp.response_type == AddonResponseType::NoAction);
    assert!(matches!(reqs.as_slice(), [SettingsRequest::ImportMinion(p)] if p == "/tmp/BU-addons.txt"));
    assert!(s.minion_button() == MinionButton::Importing);
    let mut ev = quiet();
    ev.minion_import = PollState::Success(());
    let (resp, reqs) = s.poll(ev);
    assert!(resp.response_type == AddonResponseType::AddonsChanged);
    assert!(reqs.is_empty());
    assert!(s.minion_button() == MinionButton::Enabled);
}

#[test]
fn dialogs_without_a_pick_do_nothing() {
    let mut s = SettingsState::new();
    s.open_addon_dir_dialog();
    assert!(!s.can_change_addon_dir());
    s.open_backup_dialog();
    s.open_restore_dialog();
    let mut ev = quiet();
    ev.addon_dir_dialog = PollState::Success(Some("/games/AddOns".into()));
    ev.backup_dialog = PollState::Success(None);
    ev.restore_dialog = PollState::Success(Some("/tmp/b.json".into()));
    let (resp, reqs) = s.poll(ev);
    assert!(resp.response_type == AddonResponseType::NoAction);
    assert_eq!(reqs.len(), 2);
    assert!(matches!(&reqs[0], SettingsRequest::SetAddonDir(p) if p == "/games/AddOns"));
    assert!(matches!(&reqs[1], SettingsRequest::Restore(p) if p == "/tmp/b.json"));
    assert!(s.can_change_addon_dir());
    assert!(s.backup_process.is_none() && s.restore_process.is_some());
    let mut ev = quiet();
    ev.restore_process = PollState::Success(());
    let (resp, _) = s.poll(ev);
    assert!(resp.response_type == AddonResponseType::AddonsChanged);
    assert_eq!(issue_url("https://github.com/x/y"), "https://github.com/x/y/issues");
}

#[test]
fn onboarding_needs_a_folder() {
    let mut o = Onboard::new();
    assert!(!o.is_setup_done());
    o.addon_dir_dialog.set();
    assert_eq!(o.poll(PollState::Updating), None);
    assert_eq!(o.poll(PollState::Success(Some("/AddOns".into()))), Some("/AddOns".to_string()));
    assert!(o.is_setup_done());
    o.addon_dir_dialog.set();
    assert_eq!(o.poll(PollState::Success(None)), None);
    assert!(!o.is_setup_done());
}
