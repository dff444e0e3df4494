use eso_addons::control::{AppEvents, AppState, Request};
use eso_addons::promise::PollState;
use eso_addons::service::{AddonDepOption, UpdateResult};
use eso_addons::views::{AddonResponse, AddonResponseType, ViewOpt};

fn quiet(s: &AppState) -> AppEvents {
    AppEvents {
        update: PollState::Updating,
        ttc_pricetable: PollState::Updating,
        hm_data: PollState::Updating,
        installed_addons: PollState::Updating,
        missing_deps: PollState::Updating,
        install_missing_deps: PollState::Updating,
        remove: PollState::Updating,
        update_one: s.update_one.iter().map(|_| PollState::Updating).collect(),
        install_one: s.install_one.iter().map(|_| PollState::Updating).collect(),
    }
}

fn kinds(reqs: &[Request]) -> Vec<&'static str> {
    reqs.iter()
        .map(|r| match r {
            Request::CheckForUpdates => "check",
            Request::UpdatePriceTable => "ttc",
            Request::UpdateHarvestMap => "hm",
            Request::LoadInstalled => "load",
            Request::CheckMissingDeps => "deps",
            Request::Remove(_) => "remove",
            Request::Install(_) => "install",
            Request::Update(_) => "update",
            Request::InstallMissingDeps(_) => "install-deps",
            Request::SelectAddon(_) => "select",
            Request::ShowAuthor(_) => "author",
            Request::ResetViews => "reset",
            Request::ShowInstalled => "show-installed",
            Request::ShowMissingDeps => "show-deps",
        })
        .collect()
}

fn response(t: AddonResponseType, id: i32) -> AddonResponse {
    let mut r = AddonResponse::default();
    r.response_type = t;
    r.addon_id = id;
    r
}

#[test]
fn start_checks_for_updates_then_loads_addons() {
    let (mut s, reqs) = AppState::new(true, false);
    assert_eq!(kinds(&reqs), vec!["check", "ttc"]);
    assert!(s.busy());
    assert!(s.shows_progress());
    assert!(s.view == ViewOpt::Installed);

    let mut ev = quiet(&s);
    ev.update = PollState::Success(UpdateResult { addons_updated: vec![] });
    let reqs = s.poll(ev);
    assert_eq!(kinds(&reqs), vec!["load", "deps"]);
    assert!(s.busy()); // installed addons loading

    let mut ev = quiet(&s);
    ev.installed_addons = PollState::Success(vec![]);
    ev.missing_deps = PollState::Success(vec![AddonDepOption {
        missing_dir: "LibX".into(),
        required_by: "A".into(),
        option_id: None,
        option_name: None,
    }]);
    ev.ttc_pricetable = PollState::Success(());
    let reqs = s.poll(ev);
    assert_eq!(kinds(&reqs), vec!["show-installed", "show-deps"]);
    assert!(!s.busy());
    assert!(s.offers_missing_deps());
    assert!(s.view == ViewOpt::MissingDeps);
    assert!(!s.shows_progress());

    // installing the chosen dependencies closes the view
    let mut r = response(AddonResponseType::InstallMissingDeps, 0);
    r.missing_deps = vec![];
    let reqs = s.handle_response(r, true, false);
    assert_eq!(kinds(&reqs), vec!["install-deps"]);
    assert!(s.view == ViewOpt::Installed);

    let mut ev = quiet(&s);
    ev.install_missing_deps = PollState::Success(());
    let reqs = s.poll(ev);
    assert_eq!(kinds(&reqs), vec!["load", "deps", "reset"]);
}

#[test]
fn updates_and_installs_are_tracked_per_addon() {
    let (mut s, _) = AppState::new(false, true);
    let mut ev = quiet(&s);
    ev.update = PollState::Error("offline".into());
    ev.hm_data = PollState::Success(());
    let reqs = s.poll(ev);
    assert!(reqs.is_empty());
    assert!(!s.hm_running);

    let mut r = response(AddonResponseType::UpdateMultiple, 0);
    r.addon_ids = vec![3, 4, 3];
    let reqs = s.handle_response(r, false, false);
    assert!(matches!(reqs.as_slice(), [Request::Update(3), Request::Update(4), Request::Update(3)]));
    assert_eq!(s.update_one.iter().map(|e| e.0).collect::<Vec<_>>(), vec![3, 4]);
    let reqs = s.handle_response(response(AddonResponseType::Install, 9), false, false);
    assert!(matches!(reqs.as_slice(), [Request::Install(9)]));
    assert!(s.shows_progress());

    let mut ev = quiet(&s);
    ev.update_one = vec![PollState::Updating, PollState::Success(())];
    let reqs = s.poll(ev);
    assert_eq!(kinds(&reqs), vec!["load", "deps", "reset"]);
    assert_eq!(s.update_one.iter().map(|e| e.0).collect::<Vec<_>>(), vec![3]);
    assert_eq!(s.install_one.len(), 1);

    // the installed list is still loading: it is not asked for twice
    let mut ev = quiet(&s);
    ev.install_one = vec![PollState::Success(())];
    ev.update_one = vec![PollState::Success(())];
    let reqs = s.poll(ev);
    assert_eq!(kinds(&reqs), vec!["deps", "reset"]);
    assert!(s.update_one.is_empty() && s.install_one.is_empty());
}

#[test]
fn navigation_goes_back_the_way_it_came() {
    let (mut s, _) = AppState::new(false, false);
    let reqs = s.handle_response(response(AddonResponseType::AddonName, 5), false, false);
    assert!(matches!(reqs.as_slice(), [Request::SelectAddon(5)]));
    assert!(s.view == ViewOpt::Details && s.prev_view == ViewOpt::Installed);
    // already showing details: nothing happens
    let reqs = s.handle_response(response(AddonResponseType::AddonName, 6), false, false);
    assert!(reqs.is_empty());
    let mut r = response(AddonResponseType::AuthorName, 0);
    r.author_name = "someone".into();
    let reqs = s.handle_response(r, false, false);
    assert!(matches!(reqs.as_slice(), [Request::ShowAuthor(n)] if n == "someone"));
    assert!(s.view == ViewOpt::Author);
    s.handle_response(response(AddonResponseType::Close, 0), false, false);
    assert!(s.view == ViewOpt::Details);
    s.handle_response(response(AddonResponseType::Close, 0), false, false);
    assert!(s.view == ViewOpt::Installed);
    assert_eq!(s.view_stack, vec![ViewOpt::Root]);
    let reqs = s.handle_response(response(AddonResponseType::Remove, 2), false, false);
    assert!(matches!(reqs.as_slice(), [Request::Remove(2)]));
    let reqs = s.handle_response(response(AddonResponseType::CheckUpdate, 0), true, true);
    assert_eq!(kinds(&reqs), vec!["check", "ttc", "hm"]);
    let reqs = s.handle_response(response(AddonResponseType::NoAction, 0), true, true);
    assert!(reqs.is_empty());
}
