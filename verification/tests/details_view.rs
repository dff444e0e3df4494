use eso_addons::deps::{AddonDependencyView, AddonRef, DepStatus, Resolution};
use eso_addons::details::{
    compat_text, dep_tabs, header_buttons, install_all_items, required_by_text, version_text,
    chosen_name, DepAction, DepRequest, DetailView, Details,
};
use eso_addons::promise::{PollState, PromisedValue};
use eso_addons::service::AddonShowDetails;
use eso_addons::views::AddonResponseType;

fn r(id: i32, name: &str) -> AddonRef {
    AddonRef { id, name: name.to_string() }
}

fn addon(installed: Option<&str>, version: &str) -> AddonShowDetails {
    AddonShowDetails {
        id: 42,
        name: "Addon".to_string(),
        author_name: "someone".to_string(),
        category: "Cat".to_string(),
        version: version.to_string(),
        date: "d".to_string(),
        installed: installed.is_some(),
        installed_version: installed.map(|s| s.to_string()),
        download_total: None,
        download_monthly: None,
        favorite_total: None,
        file_info_url: String::new(),
        download: None,
        file_name: None,
        md5: None,
        description: None,
        change_log: None,
        game_compat_version: None,
        game_compat_name: None,
        category_icon: None,
    }
}

fn dep_view() -> AddonDependencyView {
    AddonDependencyView {
        forward: vec![
            DepStatus { dep_dir: "LibA".into(), resolution: Resolution::Installed(r(1, "Lib A")) },
            DepStatus { dep_dir: "LibB".into(), resolution: Resolution::Unresolved { suggestions: vec![r(5, "B1"), r(6, "B2")] } },
            DepStatus { dep_dir: "LibC".into(), resolution: Resolution::Unresolved { suggestions: vec![] } },
            DepStatus { dep_dir: "LibD".into(), resolution: Resolution::Ignored },
            DepStatus { dep_dir: "LibE".into(), resolution: Resolution::Unresolved { suggestions: vec![r(8, "E")] } },
        ],
        dependents: vec![],
        installed_addons: vec![r(1, "Lib A"), r(2, "Other")],
    }
}

#[test]
fn promised_value_lifecycle() {
    let mut p: PromisedValue<i32> = PromisedValue::new();
    assert!(!p.is_polling() && !p.is_ready());
    p.poll(PollState::Success(3));
    assert!(p.get().is_none());
    p.set();
    assert!(p.is_polling() && !p.is_ready());
    p.poll(PollState::Updating);
    assert!(p.is_polling());
    p.poll(PollState::Success(7));
    assert!(!p.is_polling() && p.is_ready());
    assert_eq!(*p.get(), Some(7));
    p.handle();
    assert!(!p.is_ready());
    assert_eq!(*p.get(), Some(7));
}

#[test]
fn promised_value_records_errors_once() {
    let mut p: PromisedValue<i32> = PromisedValue::default();
    p.set();
    let e = p.poll_recording(PollState::Error("boom".into()), "Loading");
    assert_eq!(e, Some(("Loading".to_string(), "boom".to_string())));
    assert!(!p.is_polling() && !p.is_ready());
    assert_eq!(p.poll_recording(PollState::Empty, "Loading"), None);
}

#[test]
fn install_all_takes_first_suggestions() {
    let items = install_all_items(&dep_view());
    assert_eq!(items, vec![("LibB".to_string(), 5), ("LibE".to_string(), 8)]);
}

#[test]
fn dependency_tab_labels() {
    let t = dep_tabs(None);
    assert_eq!((t.deps_label, t.deps_enabled, t.dependents_label, t.dependents_enabled), ("Dependencies", true, "Dependents", true));
    let v = dep_view();
    let t = dep_tabs(Some(&v));
    assert_eq!((t.deps_label, t.deps_enabled, t.dependents_label, t.dependents_enabled), ("Dependencies", true, "No Dependents", false));
}

#[test]
fn header_texts() {
    assert_eq!(version_text(&addon(Some("1.0"), "1.2")), "1.0 ➡ 1.2");
    assert_eq!(version_text(&addon(Some("1.2"), "1.2")), "1.2");
    assert_eq!(version_text(&addon(None, "1.2")), "1.2");
    let mut a = addon(None, "1");
    assert_eq!(compat_text(&a), "⛭ Unknown Version Supported");
    a.game_compat_name = Some("Gold Road".into());
    assert_eq!(compat_text(&a), "⛭ Unknown Version Supported");
    a.game_compat_version = Some("101042".into());
    assert_eq!(compat_text(&a), "⛭ Gold Road (101042) Supported");
    assert_eq!(required_by_text(1), "Required by 1 installed addon:");
    assert_eq!(required_by_text(0), "Required by 0 installed addons:");
    assert_eq!(required_by_text(12), "Required by 12 installed addons:");
}

#[test]
fn header_buttons_follow_state() {
    assert!(header_buttons(&addon(None, "1")) == vec![AddonResponseType::Install]);
    assert!(header_buttons(&addon(Some("1"), "1")) == vec![AddonResponseType::Remove]);
    assert!(header_buttons(&addon(Some("0"), "1")) == vec![AddonResponseType::Update, AddonResponseType::Remove]);
}

#[test]
fn chosen_names() {
    let refs = vec![r(1, "One"), r(2, "Two"), r(2, "Again")];
    assert_eq!(chosen_name(&refs, Some(2)), "Two");
    assert_eq!(chosen_name(&refs, Some(3)), "");
    assert_eq!(chosen_name(&refs, None), "");
}

#[test]
fn details_follow_loading_and_installs() {
    let mut d = Details::new();
    assert!(!d.reset());
    d.set_addon(42);
    assert!(d.view == DetailView::Description);
    assert!(d.details.is_polling() && d.images.is_polling() && d.dep_view.is_polling());

    let out = d.poll(
        PollState::Success(Some(addon(None, "1"))),
        PollState::Error("no images".into()),
        PollState::Success(dep_view()),
        PollState::Empty,
    );
    assert!(out.build_texts);
    assert!(!out.reload_dependencies);
    assert_eq!(out.errors, vec![("Loading addon images".to_string(), "no images".to_string())]);
    assert!(!d.details.is_ready() && d.details.get().is_some());

    let again = d.poll(PollState::Empty, PollState::Empty, PollState::Empty, PollState::Empty);
    assert!(!again.build_texts && again.errors.is_empty());

    let row = d.prepare_row("LibB", Some(5));
    assert_eq!(row.selected_suggestion, Some(5));
    d.choose_suggestion("LibB", 6);
    let row = d.prepare_row("LibB", Some(5));
    assert_eq!(row.selected_suggestion, Some(6));
    match d.install_picked("LibB") {
        Some(DepAction::InstallBatch(items)) => assert_eq!(items, vec![("LibB".to_string(), 6)]),
        _ => panic!("expected an install"),
    }
    assert!(d.install_picked("LibZ").is_none());

    let (resp, req) = d.apply_dep_action(DepAction::InstallBatch(vec![("LibB".to_string(), 6)]));
    assert!(resp.response_type == AddonResponseType::NoAction);
    assert!(matches!(req, Some(DepRequest::InstallSuggestions(ref v)) if v == &vec![("LibB".to_string(), 6)]));
    assert!(d.dep_mutation.is_polling());
    assert!(d.take_addons_changed().is_none());

    let out = d.poll(PollState::Empty, PollState::Empty, PollState::Empty, PollState::Success(()));
    assert!(out.reload_dependencies);
    assert!(d.dep_view.is_polling());
    let changed = d.take_addons_changed();
    assert!(matches!(changed, Some(ref r) if r.response_type == AddonResponseType::AddonsChanged));
    assert!(d.take_addons_changed().is_none());
    // the picks were dropped with the reload
    assert_eq!(d.prepare_row("LibB", Some(5)).selected_suggestion, Some(5));

    let (resp, req) = d.apply_dep_action(DepAction::Navigate(7));
    assert!(resp.response_type == AddonResponseType::AddonName && resp.addon_id == 7 && req.is_none());
    let a = d.choose_satisfied_by("LibC", 2);
    assert!(matches!(a, DepAction::SetSatisfiedBy(ref dir, 2) if dir == "LibC"));
    assert!(d.reset());
}

#[test]
fn promised_value_lifecycle_over_many_polls() {
    let mut pv: PromisedValue<i32> = PromisedValue::new();
    pv.set();
    assert!(pv.is_polling() && !pv.is_ready() && pv.get().is_none());
    pv.poll(PollState::Updating);
    pv.poll(PollState::Empty);
    assert!(pv.is_polling() && !pv.is_ready());
    pv.poll(PollState::Success(7));
    assert!(pv.is_ready() && !pv.is_polling());
    pv.poll(PollState::Error("late".to_string()));
    pv.poll(PollState::Success(9));
    assert!(pv.is_ready());
    assert_eq!(*pv.get(), Some(7));
    pv.handle();
    assert!(!pv.is_ready());
    assert_eq!(*pv.get(), Some(7));

    let mut failing: PromisedValue<i32> = PromisedValue::new();
    failing.set();
    failing.poll(PollState::Updating);
    let rec = failing.poll_recording(PollState::Error("boom".to_string()), "ctx");
    assert_eq!(rec, Some(("ctx".to_string(), "boom".to_string())));
    assert!(!failing.is_polling() && !failing.is_ready() && failing.get().is_none());
}
