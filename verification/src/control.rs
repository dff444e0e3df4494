//! The application's bookkeeping between frames: which view is shown and
//! the way back from it, the background tasks it awaits, and what it asks
//! the service and the views to do when a task ends or a view answers.
//! The caller runs the tasks and the views; it hands each poll the state
//! of every task and carries out the requests that come back.

use vstd::prelude::*;
use crate::promise::{
    after_handle, after_poll, after_set, idle_state, polling, ready, PollState, PromiseState,
    PromisedValue,
};
use crate::service::{AddonDepOption, AddonShowDetails, MissingDepView, UpdateResult};
use crate::views::{AddonResponse, AddonResponseType, ViewOpt};

verus! {

/// A request to the caller.
pub enum Request {
    /// Look for updates of the catalogue, without upgrading.
    CheckForUpdates,
    /// Download the price table.
    UpdatePriceTable,
    /// Sync the HarvestMap data.
    UpdateHarvestMap,
    /// Load the installed addons.
    LoadInstalled,
    /// Look for dependencies no installed addon provides.
    CheckMissingDeps,
    Remove(i32),
    Install(i32),
    Update(i32),
    InstallMissingDeps(Vec<MissingDepView>),
    /// Show the details of this addon.
    SelectAddon(i32),
    /// Show this author's addons.
    ShowAuthor(String),
    /// The installed addons changed: the search, detail and author views
    /// load their data again.
    ResetViews,
    /// The installed addons arrived: show them.
    ShowInstalled,
    /// Missing dependencies were found: list them.
    ShowMissingDeps,
}

/// The addon ids of keyed tasks with their states.
pub open spec fn keyed_states(s: Seq<(i32, PromisedValue<()>)>) -> Seq<(i32, PromiseState<()>)> {
    s.map_values(|e: (i32, PromisedValue<()>)| (e.0, e.1@))
}

/// No addon id occurs twice.
pub open spec fn unique_ids(s: Seq<(i32, PromiseState<()>)>) -> bool {
    forall|i: int, j: int| 0 <= i < j < s.len() ==> (#[trigger] s[i]).0 != (#[trigger] s[j]).0
}

/// The position of the task for `id`, or -1.
pub open spec fn position_of(s: Seq<(i32, PromiseState<()>)>, id: i32) -> int
    decreases s.len(),
{
    if s.len() == 0 {
        -1
    } else if s.last().0 == id {
        s.len() - 1
    } else {
        position_of(s.drop_last(), id)
    }
}

/// The keyed tasks after a task for `id` starts: it takes the place of an
/// earlier one for the same addon.
pub open spec fn keyed_started(s: Seq<(i32, PromiseState<()>)>, id: i32) -> Seq<(i32, PromiseState<()>)> {
    let st = after_set(idle_state::<()>());
    if position_of(s, id) >= 0 {
        s.update(position_of(s, id), (id, st))
    } else {
        s.push((id, st))
    }
}

/// The keyed tasks after each is polled with its event: those that
/// finished with success leave, the others stay as polled.
pub open spec fn keyed_polled(s: Seq<(i32, PromiseState<()>)>, evs: Seq<PollState<()>>) -> Seq<(i32, PromiseState<()>)>
    decreases s.len(),
{
    if s.len() == 0 || evs.len() != s.len() {
        Seq::empty()
    } else {
        let rest = keyed_polled(s.drop_last(), evs.drop_last());
        let q = after_poll(s.last().1, evs.last());
        if ready(q) {
            rest
        } else {
            rest.push((s.last().0, q))
        }
    }
}

/// Whether some keyed task finished with success.
pub open spec fn keyed_any_done(s: Seq<(i32, PromiseState<()>)>, evs: Seq<PollState<()>>) -> bool {
    exists|k: int| 0 <= k < s.len() && k < evs.len() && ready(after_poll(s[k].1, #[trigger] evs[k]))
}

/// Whether some keyed task is running.
pub open spec fn keyed_any_polling(s: Seq<(i32, PromiseState<()>)>) -> bool {
    exists|k: int| 0 <= k < s.len() && polling(#[trigger] s[k].1)
}

/// The state after its value is taken, when one is ready.
pub open spec fn handled_if_ready<T>(s: PromiseState<T>) -> PromiseState<T> {
    if ready(s) {
        after_handle(s)
    } else {
        s
    }
}

/// Starting tasks for each of `ids` in turn.
pub open spec fn keyed_started_all(s: Seq<(i32, PromiseState<()>)>, ids: Seq<i32>) -> Seq<(i32, PromiseState<()>)>
    decreases ids.len(),
{
    if ids.len() == 0 {
        s
    } else {
        keyed_started(keyed_started_all(s, ids.drop_last()), ids.last())
    }
}

pub open spec fn update_requests(ids: Seq<i32>) -> Seq<Request> {
    ids.map_values(|id: i32| Request::Update(id))
}

/// Every id of the polled tasks is the id of one of the tasks, in order.
proof fn lemma_keyed_polled_ids(s: Seq<(i32, PromiseState<()>)>, evs: Seq<PollState<()>>)
    requires
        unique_ids(s),
    ensures
        unique_ids(keyed_polled(s, evs)),
        forall|i: int| 0 <= i < keyed_polled(s, evs).len() ==> exists|j: int| 0 <= j < s.len() && #[trigger] keyed_polled(s, evs)[i].0 == s[j].0,
    decreases s.len(),
{
    if s.len() == 0 || evs.len() != s.len() {
    } else {
        let d = s.drop_last();
        assert(unique_ids(d)) by {
            assert forall|i: int, j: int| 0 <= i < j < d.len() implies (#[trigger] d[i]).0 != (#[trigger] d[j]).0 by {
                assert(s[i].0 != s[j].0);
            }
        }
        lemma_keyed_polled_ids(d, evs.drop_last());
        let rest = keyed_polled(d, evs.drop_last());
        let r = keyed_polled(s, evs);
        assert forall|i: int| 0 <= i < r.len() implies exists|j: int| 0 <= j < s.len() && #[trigger] r[i].0 == s[j].0 by {
            if i < rest.len() {
                let j = choose|j: int| 0 <= j < d.len() && rest[i].0 == d[j].0;
                assert(r[i].0 == s[j].0);
            } else {
                assert(r[i].0 == s[s.len() - 1].0);
            }
        }
        assert forall|i: int, j: int| 0 <= i < j < r.len() implies (#[trigger] r[i]).0 != (#[trigger] r[j]).0 by {
            if j < rest.len() {
                assert(rest[i].0 != rest[j].0);
            } else {
                let k = choose|k: int| 0 <= k < d.len() && rest[i].0 == d[k].0;
                assert(s[k].0 != s[s.len() - 1].0);
            }
        }
    }
}

proof fn lemma_position_of(s: Seq<(i32, PromiseState<()>)>, id: i32)
    ensures
        -1 <= position_of(s, id) < s.len(),
        position_of(s, id) >= 0 ==> s[position_of(s, id)].0 == id,
        position_of(s, id) < 0 ==> forall|j: int| 0 <= j < s.len() ==> (#[trigger] s[j]).0 != id,
    decreases s.len(),
{
    if s.len() > 0 {
        let d = s.drop_last();
        lemma_position_of(d, id);
        if position_of(s, id) < 0 {
            assert forall|j: int| 0 <= j < s.len() implies (#[trigger] s[j]).0 != id by {
                if j < d.len() {
                    assert(d[j] == s[j]);
                }
            }
        }
    }
}

/// Starts a task for `id` in a list of keyed tasks.
fn start_keyed(v: &mut Vec<(i32, PromisedValue<()>)>, id: i32)
    requires
        unique_ids(keyed_states(old(v)@)),
    ensures
        unique_ids(keyed_states(final(v)@)),
        keyed_states(final(v)@) == keyed_started(keyed_states(old(v)@), id),
{
    let ghost s = keyed_states(v@);
    proof {
        lemma_position_of(s, id);
    }
    let mut p = PromisedValue::<()>::new();
    p.set();
    let mut i: usize = v.len();
    proof {
        assert(s.take(v@.len() as int) =~= s);
    }
    while i > 0
        invariant
            i <= v@.len(),
            v@ == old(v)@,
            s == keyed_states(v@),
            unique_ids(s),
            p@ == after_set(idle_state::<()>()),
            position_of(s, id) == position_of(s.take(i as int), id),
        decreases i,
    {
        proof {
            assert(s.take(i as int).drop_last() =~= s.take(i - 1));
        }
        if v[i - 1].0 == id {
            proof {
                assert(position_of(s, id) == i - 1);
            }
            v[i - 1] = (id, p);
            proof {
                assert(keyed_states(v@) =~= s.update(i - 1, (id, after_set(idle_state::<()>()))));
                assert(unique_ids(keyed_states(v@))) by {
                    assert forall|a: int, b: int| 0 <= a < b < v@.len() implies (#[trigger] keyed_states(v@)[a]).0
                        != (#[trigger] keyed_states(v@)[b]).0 by {
                        assert(s[a].0 != s[b].0);
                    }
                }
            }
            return;
        }
        i -= 1;
    }
    proof {
        assert(s.take(0) =~= Seq::<(i32, PromiseState<()>)>::empty());
        assert(position_of(s, id) == -1);
    }
    v.push((id, p));
    proof {
        assert(keyed_states(v@) =~= s.push((id, after_set(idle_state::<()>()))));
        assert(unique_ids(keyed_states(v@))) by {
            assert forall|a: int, b: int| 0 <= a < b < v@.len() implies (#[trigger] keyed_states(v@)[a]).0
                != (#[trigger] keyed_states(v@)[b]).0 by {
                if b < s.len() {
                    assert(s[a].0 != s[b].0);
                } else {
                    assert(s[a].0 != id);
                }
            }
        }
    }
}

/// Polls each keyed task with its event; those that finished with success
/// are taken out. Says whether any did.
fn poll_keyed(v: &mut Vec<(i32, PromisedValue<()>)>, evs: Vec<PollState<()>>) -> (done: bool)
    requires
        unique_ids(keyed_states(old(v)@)),
        evs@.len() == old(v)@.len(),
    ensures
        unique_ids(keyed_states(final(v)@)),
        keyed_states(final(v)@) == keyed_polled(keyed_states(old(v)@), evs@),
        done == keyed_any_done(keyed_states(old(v)@), evs@),
{
    let ghost s0 = keyed_states(v@);
    let ghost e0 = evs@;
    let n = v.len();
    let mut src: Vec<(i32, PromisedValue<()>)> = Vec::new();
    std::mem::swap(&mut src, v);
    let mut evs = evs;
    let mut out: Vec<(i32, PromisedValue<()>)> = Vec::new();
    let mut done = false;
    proof {
        assert(s0.take(0) =~= Seq::<(i32, PromiseState<()>)>::empty());
        assert(keyed_states(src@) =~= s0.skip(0));
        assert(evs@ =~= e0.skip(0));
    }
    while src.len() > 0
        invariant
            n == s0.len(),
            e0.len() == n,
            src@.len() == evs@.len(),
            src@.len() <= n,
            keyed_states(src@) == s0.skip(n - src@.len()),
            evs@ == e0.skip(n - src@.len()),
            keyed_states(out@) == keyed_polled(s0.take(n - src@.len()), e0.take(n - src@.len())),
            done == exists|j: int| 0 <= j < n - src@.len() && ready(after_poll(s0[j].1, #[trigger] e0[j])),
        decreases src.len(),
    {
        let ghost k = n - src@.len();
        let ghost old_src = src@;
        let (id, mut p) = src.remove(0);
        let ev = evs.remove(0);
        proof {
            assert(s0.skip(k)[0] == s0[k]);
            assert(e0.skip(k)[0] == e0[k]);
            assert(keyed_states(old_src)[0] == s0[k]);
            assert(src@ =~= old_src.skip(1));
            assert(keyed_states(src@) =~= keyed_states(old_src).skip(1));
            assert(keyed_states(src@) =~= s0.skip(k + 1));
            assert(evs@ =~= e0.skip(k + 1));
            assert(s0.take(k + 1).drop_last() =~= s0.take(k));
            assert(e0.take(k + 1).drop_last() =~= e0.take(k));
        }
        p.poll(ev);
        if p.is_ready() {
            done = true;
        } else {
            out.push((id, p));
            proof {
                assert(keyed_states(out@) =~= keyed_states(out@.drop_last()).push((id, p@)));
            }
        }
    }
    proof {
        assert(s0.take(n as int) =~= s0);
        assert(e0.take(n as int) =~= e0);
        lemma_keyed_polled_ids(s0, e0);
    }
    *v = out;
    done
}

/// The bookkeeping of the application window.
pub struct AppState {
    /// The view shown.
    pub view: ViewOpt,
    /// The view shown before the last change.
    pub prev_view: ViewOpt,
    /// The views to go back to, last on top.
    pub view_stack: Vec<ViewOpt>,
    pub remove: PromisedValue<()>,
    pub update_one: Vec<(i32, PromisedValue<()>)>,
    pub install_one: Vec<(i32, PromisedValue<()>)>,
    pub installed_addons: PromisedValue<Vec<AddonShowDetails>>,
    pub update: PromisedValue<UpdateResult>,
    pub ttc_pricetable: PromisedValue<()>,
    /// A HarvestMap sync is running.
    pub hm_running: bool,
    pub missing_deps: PromisedValue<Vec<AddonDepOption>>,
    pub install_missing_deps: PromisedValue<()>,
}

/// The state of every task the window awaits, as polled this frame.
pub struct AppEvents {
    pub update: PollState<UpdateResult>,
    pub ttc_pricetable: PollState<()>,
    pub hm_data: PollState<()>,
    pub installed_addons: PollState<Vec<AddonShowDetails>>,
    pub missing_deps: PollState<Vec<AddonDepOption>>,
    pub install_missing_deps: PollState<()>,
    pub remove: PollState<()>,
    /// One per task of `update_one`, in its order.
    pub update_one: Vec<PollState<()>>,
    /// One per task of `install_one`, in its order.
    pub install_one: Vec<PollState<()>>,
}

/// The requests that checking for updates makes: the catalogue always,
/// the price table and the HarvestMap data when the settings ask for them.
pub open spec fn check_update_requests(ttc: bool, hm: bool) -> Seq<Request> {
    seq![Request::CheckForUpdates] + (if ttc { seq![Request::UpdatePriceTable] } else { Seq::empty() }) + (if hm {
        seq![Request::UpdateHarvestMap]
    } else {
        Seq::empty()
    })
}

impl AppState {
    pub open spec fn wf(&self) -> bool {
        &&& unique_ids(keyed_states(self.update_one@))
        &&& unique_ids(keyed_states(self.install_one@))
    }

    /// A window showing the installed addons, with the root to go back to,
    /// and checking for updates.
    pub fn new(update_ttc: bool, update_hm: bool) -> (r: (AppState, Vec<Request>))
        ensures
            r.0.wf(),
            r.0.view == ViewOpt::Installed,
            r.0.prev_view == ViewOpt::Root,
            r.0.view_stack@ == seq![ViewOpt::Root],
            r.0.update@ == after_set(idle_state::<UpdateResult>()),
            r.0.ttc_pricetable@ == (if update_ttc { after_set(idle_state::<()>()) } else { idle_state::<()>() }),
            r.0.hm_running == update_hm,
            r.0.remove@ == idle_state::<()>(),
            r.0.installed_addons@ == idle_state::<Vec<AddonShowDetails>>(),
            r.0.missing_deps@ == idle_state::<Vec<AddonDepOption>>(),
            r.0.install_missing_deps@ == idle_state::<()>(),
            r.0.update_one@.len() == 0,
            r.0.install_one@.len() == 0,
            r.1@ == check_update_requests(update_ttc, update_hm),
    {
        let mut stack: Vec<ViewOpt> = Vec::new();
        stack.push(ViewOpt::Root);
        let mut s = AppState {
            view: ViewOpt::Installed,
            prev_view: ViewOpt::Root,
            view_stack: stack,
            remove: PromisedValue::new(),
            update_one: Vec::new(),
            install_one: Vec::new(),
            installed_addons: PromisedValue::new(),
            update: PromisedValue::new(),
            ttc_pricetable: PromisedValue::new(),
            hm_running: false,
            missing_deps: PromisedValue::new(),
            install_missing_deps: PromisedValue::new(),
        };
        let mut reqs: Vec<Request> = Vec::new();
        s.check_update(update_ttc, update_hm, &mut reqs);
        proof {
            assert(keyed_states(s.update_one@) =~= Seq::<(i32, PromiseState<()>)>::empty());
            assert(keyed_states(s.install_one@) =~= Seq::<(i32, PromiseState<()>)>::empty());
            assert(reqs@ =~= check_update_requests(update_ttc, update_hm));
        }
        (s, reqs)
    }

    /// Checks for updates without upgrading anything.
    pub fn check_update(&mut self, update_ttc: bool, update_hm: bool, reqs: &mut Vec<Request>)
        ensures
            final(reqs)@ == old(reqs)@ + check_update_requests(update_ttc, update_hm),
            final(self).update@ == after_set(old(self).update@),
            final(self).ttc_pricetable@ == (if update_ttc {
                after_set(old(self).ttc_pricetable@)
            } else {
                old(self).ttc_pricetable@
            }),
            final(self).hm_running == (old(self).hm_running || update_hm),
            *final(self) == (AppState {
                update: final(self).update,
                ttc_pricetable: final(self).ttc_pricetable,
                hm_running: final(self).hm_running,
                ..*old(self)
            }),
    {
        self.update.set();
        reqs.push(Request::CheckForUpdates);
        if update_ttc {
            self.ttc_pricetable.set();
            reqs.push(Request::UpdatePriceTable);
        }
        if update_hm {
            self.hm_running = true;
            reqs.push(Request::UpdateHarvestMap);
        }
        proof {
            assert(reqs@ =~= old(reqs)@ + check_update_requests(update_ttc, update_hm));
        }
    }

    /// Shows `view`, remembering the current one to go back to.
    pub fn change_view(&mut self, view: ViewOpt)
        ensures
            final(self).view == view,
            final(self).prev_view == old(self).view,
            final(self).view_stack@ == old(self).view_stack@.push(old(self).view),
            *final(self) == (AppState {
                view: final(self).view,
                prev_view: final(self).prev_view,
                view_stack: final(self).view_stack,
                ..*old(self)
            }),
    {
        self.view_stack.push(self.view);
        self.prev_view = self.view;
        self.view = view;
    }

    /// Goes back to the view shown before.
    pub fn close_view(&mut self)
        requires
            old(self).view_stack@.len() > 0,
        ensures
            final(self).view == old(self).view_stack@.last(),
            final(self).view_stack@ == old(self).view_stack@.drop_last(),
            *final(self) == (AppState { view: final(self).view, view_stack: final(self).view_stack, ..*old(self) }),
    {
        let v = self.view_stack.pop().unwrap();
        self.view = v;
    }

    /// Loads the installed addons, unless they are being loaded already.
    fn get_installed_addons(&mut self, reqs: &mut Vec<Request>)
        ensures
            polling(old(self).installed_addons@) ==> final(self).installed_addons@ == old(self).installed_addons@
                && final(reqs)@ == old(reqs)@,
            !polling(old(self).installed_addons@) ==> final(self).installed_addons@ == after_set(
                old(self).installed_addons@,
            ) && final(reqs)@ == old(reqs)@.push(Request::LoadInstalled),
            *final(self) == (AppState { installed_addons: final(self).installed_addons, ..*old(self) }),
    {
        if self.installed_addons.is_polling() {
            return;
        }
        self.installed_addons.set();
        reqs.push(Request::LoadInstalled);
    }

    /// Looks for missing dependencies.
    fn check_missing_deps(&mut self, reqs: &mut Vec<Request>)
        ensures
            final(self).missing_deps@ == after_set(old(self).missing_deps@),
            final(reqs)@ == old(reqs)@.push(Request::CheckMissingDeps),
            *final(self) == (AppState { missing_deps: final(self).missing_deps, ..*old(self) }),
    {
        self.missing_deps.set();
        reqs.push(Request::CheckMissingDeps);
    }

    /// The installed addons changed: load them again, look for missing
    /// dependencies, and have the views reload.
    pub fn handle_addons_changed(&mut self, reqs: &mut Vec<Request>)
        ensures
            final(self).installed_addons@ == (if polling(old(self).installed_addons@) {
                old(self).installed_addons@
            } else {
                after_set(old(self).installed_addons@)
            }),
            final(self).missing_deps@ == after_set(old(self).missing_deps@),
            final(reqs)@ == old(reqs)@ + (if polling(old(self).installed_addons@) {
                Seq::empty()
            } else {
                seq![Request::LoadInstalled]
            }) + seq![Request::CheckMissingDeps, Request::ResetViews],
            *final(self) == (AppState {
                installed_addons: final(self).installed_addons,
                missing_deps: final(self).missing_deps,
                ..*old(self)
            }),
    {
        self.get_installed_addons(reqs);
        self.check_missing_deps(reqs);
        reqs.push(Request::ResetViews);
        proof {
            if polling(old(self).installed_addons@) {
                assert(reqs@ =~= old(reqs)@ + Seq::<Request>::empty() + seq![Request::CheckMissingDeps, Request::ResetViews]);
            } else {
                assert(reqs@ =~= old(reqs)@ + seq![Request::LoadInstalled] + seq![Request::CheckMissingDeps, Request::ResetViews]);
            }
        }
    }

    /// Takes in the state of every task this frame. An update of the
    /// catalogue that finished, while the installed addons are not being
    /// loaded, loads them and looks for missing dependencies; tasks started
    /// that way have not run yet, so what was polled for the ones they
    /// replace is not taken. Loaded addons are shown; found missing
    /// dependencies are listed and their view is opened. A HarvestMap sync
    /// ends with success or error. When an install of missing
    /// dependencies, a removal, an update or an install finished, the
    /// installed addons changed (see `handle_addons_changed`). Finished
    /// updates and installs leave their lists.
    pub fn poll(&mut self, ev: AppEvents) -> (reqs: Vec<Request>)
        requires
            old(self).wf(),
            ev.update_one@.len() == old(self).update_one@.len(),
            ev.install_one@.len() == old(self).install_one@.len(),
            old(self).hm_running ==> !(ev.hm_data is Empty),
        ensures
            final(self).wf(),
            ({
                let s = *old(self);
                let u = after_poll(s.update@, ev.update);
                let go = ready(u) && !polling(s.installed_addons@);
                let i2 = if go { after_set(s.installed_addons@) } else { after_poll(s.installed_addons@, ev.installed_addons) };
                let show = ready(i2);
                let i3 = handled_if_ready(i2);
                let m1 = if go { after_set(s.missing_deps@) } else { after_poll(s.missing_deps@, ev.missing_deps) };
                let found = ready(m1) && (m1.value matches Some(v) && v@.len() > 0);
                let im = after_poll(s.install_missing_deps@, ev.install_missing_deps);
                let rm = after_poll(s.remove@, ev.remove);
                let changed = ready(im) || ready(rm) || keyed_any_done(keyed_states(s.update_one@), ev.update_one@)
                    || keyed_any_done(keyed_states(s.install_one@), ev.install_one@);
                &&& final(self).update@ == (if go { after_handle(u) } else { u })
                &&& final(self).ttc_pricetable@ == handled_if_ready(after_poll(s.ttc_pricetable@, ev.ttc_pricetable))
                &&& final(self).hm_running == (s.hm_running && ev.hm_data is Updating)
                &&& final(self).installed_addons@ == (if changed && !polling(i3) { after_set(i3) } else { i3 })
                &&& final(self).missing_deps@ == (if changed { after_set(handled_if_ready(m1)) } else { handled_if_ready(m1) })
                &&& final(self).install_missing_deps@ == handled_if_ready(im)
                &&& final(self).remove@ == handled_if_ready(rm)
                &&& keyed_states(final(self).update_one@) == keyed_polled(keyed_states(s.update_one@), ev.update_one@)
                &&& keyed_states(final(self).install_one@) == keyed_polled(keyed_states(s.install_one@), ev.install_one@)
                &&& final(self).view == (if found { ViewOpt::MissingDeps } else { s.view })
                &&& final(self).prev_view == (if found { s.view } else { s.prev_view })
                &&& final(self).view_stack@ == (if found { s.view_stack@.push(s.view) } else { s.view_stack@ })
                &&& reqs@ == (if go { seq![Request::LoadInstalled, Request::CheckMissingDeps] } else { Seq::empty() })
                    + (if show { seq![Request::ShowInstalled] } else { Seq::empty() })
                    + (if found { seq![Request::ShowMissingDeps] } else { Seq::empty() })
                    + (if changed {
                        (if polling(i3) { Seq::empty() } else { seq![Request::LoadInstalled] })
                            + seq![Request::CheckMissingDeps, Request::ResetViews]
                    } else {
                        Seq::empty()
                    })
            }),
    {
        let AppEvents {
            update,
            ttc_pricetable,
            hm_data,
            installed_addons,
            missing_deps,
            install_missing_deps,
            remove,
            update_one,
            install_one,
        } = ev;
        let mut reqs: Vec<Request> = Vec::new();
        let mut changed = false;

        self.update.poll(update);
        let go = self.update.is_ready() && !self.installed_addons.is_polling();
        if go {
            self.update.handle();
            self.get_installed_addons(&mut reqs);
            self.check_missing_deps(&mut reqs);
        }
        let ghost r1 = reqs@;
        self.ttc_pricetable.poll(ttc_pricetable);
        if self.ttc_pricetable.is_ready() {
            self.ttc_pricetable.handle();
        }
        if self.hm_running {
            match hm_data {
                PollState::Updating => {},
                _ => {
                    self.hm_running = false;
                },
            }
        }
        if !go {
            self.installed_addons.poll(installed_addons);
        }
        let show = self.installed_addons.is_ready();
        if show {
            self.installed_addons.handle();
            reqs.push(Request::ShowInstalled);
        }
        let ghost r2 = reqs@;
        if !go {
            self.missing_deps.poll(missing_deps);
        }
        let mut found = false;
        if self.missing_deps.is_ready() {
            self.missing_deps.handle();
            found = match self.missing_deps.get() {
                Some(v) => v.len() > 0,
                None => false,
            };
            if found {
                reqs.push(Request::ShowMissingDeps);
                self.change_view(ViewOpt::MissingDeps);
            }
        }
        let ghost r3 = reqs@;
        self.install_missing_deps.poll(install_missing_deps);
        if self.install_missing_deps.is_ready() {
            self.install_missing_deps.handle();
            changed = true;
        }
        self.remove.poll(remove);
        if self.remove.is_ready() {
            self.remove.handle();
            changed = true;
        }
        if poll_keyed(&mut self.update_one, update_one) {
            changed = true;
        }
        if poll_keyed(&mut self.install_one, install_one) {
            changed = true;
        }
        if changed {
            self.handle_addons_changed(&mut reqs);
        }
        proof {
            let s = *old(self);
            let u = after_poll(s.update@, update);
            assert(go == (ready(u) && !polling(s.installed_addons@)));
            assert(r1 == (if go { seq![Request::LoadInstalled, Request::CheckMissingDeps] } else { Seq::<Request>::empty() }));
            assert(r2 =~= r1 + (if show { seq![Request::ShowInstalled] } else { Seq::<Request>::empty() }));
            assert(r3 =~= r2 + (if found { seq![Request::ShowMissingDeps] } else { Seq::<Request>::empty() }));
        }
        reqs
    }

    /// Carries out a view's answer: open an addon (unless its details are
    /// shown already) or an author; check for updates; go back; install the
    /// missing dependencies chosen and go back; update, install or remove
    /// addons; or react to changed addons.
    pub fn handle_response(&mut self, r: AddonResponse, update_ttc: bool, update_hm: bool) -> (reqs: Vec<Request>)
        requires
            old(self).wf(),
            r.response_type == AddonResponseType::Close || r.response_type == AddonResponseType::InstallMissingDeps
                ==> old(self).view_stack@.len() > 0,
        ensures
            final(self).wf(),
            match r.response_type {
                AddonResponseType::AddonName => if old(self).view == ViewOpt::Details {
                    *final(self) == *old(self) && reqs@.len() == 0
                } else {
                    &&& reqs@ == seq![Request::SelectAddon(r.addon_id)]
                    &&& final(self).view == ViewOpt::Details
                    &&& final(self).view_stack@ == old(self).view_stack@.push(old(self).view)
                    &&& final(self).prev_view == old(self).view
                },
                AddonResponseType::AuthorName => {
                    &&& reqs@ == seq![Request::ShowAuthor(r.author_name)]
                    &&& final(self).view == ViewOpt::Author
                    &&& final(self).view_stack@ == old(self).view_stack@.push(old(self).view)
                    &&& final(self).prev_view == old(self).view
                },
                AddonResponseType::CheckUpdate => {
                    &&& reqs@ == check_update_requests(update_ttc, update_hm)
                    &&& final(self).update@ == after_set(old(self).update@)
                    &&& final(self).ttc_pricetable@ == (if update_ttc {
                        after_set(old(self).ttc_pricetable@)
                    } else {
                        old(self).ttc_pricetable@
                    })
                    &&& final(self).hm_running == (old(self).hm_running || update_hm)
                },
                AddonResponseType::Close => {
                    &&& reqs@.len() == 0
                    &&& final(self).view == old(self).view_stack@.last()
                    &&& final(self).view_stack@ == old(self).view_stack@.drop_last()
                },
                AddonResponseType::InstallMissingDeps => {
                    &&& reqs@ == seq![Request::InstallMissingDeps(r.missing_deps)]
                    &&& final(self).install_missing_deps@ == after_set(old(self).install_missing_deps@)
                    &&& final(self).view == old(self).view_stack@.last()
                    &&& final(self).view_stack@ == old(self).view_stack@.drop_last()
                },
                AddonResponseType::Update => {
                    &&& reqs@ == seq![Request::Update(r.addon_id)]
                    &&& keyed_states(final(self).update_one@) == keyed_started(keyed_states(old(self).update_one@), r.addon_id)
                },
                AddonResponseType::UpdateMultiple => {
                    &&& reqs@ == update_requests(r.addon_ids@)
                    &&& keyed_states(final(self).update_one@) == keyed_started_all(keyed_states(old(self).update_one@), r.addon_ids@)
                },
                AddonResponseType::Install => {
                    &&& reqs@ == seq![Request::Install(r.addon_id)]
                    &&& keyed_states(final(self).install_one@) == keyed_started(keyed_states(old(self).install_one@), r.addon_id)
                },
                AddonResponseType::Remove => {
                    &&& reqs@ == seq![Request::Remove(r.addon_id)]
                    &&& final(self).remove@ == after_set(idle_state::<()>())
                },
                AddonResponseType::AddonsChanged => {
                    &&& final(self).installed_addons@ == (if polling(old(self).installed_addons@) {
                        old(self).installed_addons@
                    } else {
                        after_set(old(self).installed_addons@)
                    })
                    &&& final(self).missing_deps@ == after_set(old(self).missing_deps@)
                    &&& reqs@ == (if polling(old(self).installed_addons@) {
                        Seq::empty()
                    } else {
                        seq![Request::LoadInstalled]
                    }) + seq![Request::CheckMissingDeps, Request::ResetViews]
                },
                AddonResponseType::NoAction => *final(self) == *old(self) && reqs@.len() == 0,
            },
    {
        let mut reqs: Vec<Request> = Vec::new();
        match r.response_type {
            AddonResponseType::AddonName => {
                if self.view != ViewOpt::Details {
                    reqs.push(Request::SelectAddon(r.addon_id));
                    self.change_view(ViewOpt::Details);
                }
            },
            AddonResponseType::AuthorName => {
                reqs.push(Request::ShowAuthor(r.author_name));
                self.change_view(ViewOpt::Author);
            },
            AddonResponseType::CheckUpdate => {
                self.check_update(update_ttc, update_hm, &mut reqs);
                proof {
                    assert(reqs@ =~= check_update_requests(update_ttc, update_hm));
                }
            },
            AddonResponseType::Close => {
                self.close_view();
            },
            AddonResponseType::InstallMissingDeps => {
                self.install_missing_deps.set();
                reqs.push(Request::InstallMissingDeps(r.missing_deps));
                self.close_view();
            },
            AddonResponseType::Update => {
                start_keyed(&mut self.update_one, r.addon_id);
                reqs.push(Request::Update(r.addon_id));
            },
            AddonResponseType::UpdateMultiple => {
                let ids = r.addon_ids;
                let mut k: usize = 0;
                while k < ids.len()
                    invariant
                        k <= ids@.len(),
                        unique_ids(keyed_states(self.update_one@)),
                        unique_ids(keyed_states(self.install_one@)),
                        keyed_states(self.update_one@) == keyed_started_all(keyed_states(old(self).update_one@), ids@.take(k as int)),
                        reqs@ == update_requests(ids@.take(k as int)),
                    decreases ids.len() - k,
                {
                    proof {
                        assert(ids@.take(k + 1).drop_last() =~= ids@.take(k as int));
                    }
                    start_keyed(&mut self.update_one, ids[k]);
                    reqs.push(Request::Update(ids[k]));
                    proof {
                        assert(reqs@ =~= update_requests(ids@.take(k + 1)));
                    }
                    k += 1;
                }
                proof {
                    assert(ids@.take(k as int) =~= ids@);
                }
            },
            AddonResponseType::Install => {
                start_keyed(&mut self.install_one, r.addon_id);
                reqs.push(Request::Install(r.addon_id));
            },
            AddonResponseType::Remove => {
                let mut p = PromisedValue::<()>::new();
                p.set();
                self.remove = p;
                reqs.push(Request::Remove(r.addon_id));
            },
            AddonResponseType::AddonsChanged => {
                self.handle_addons_changed(&mut reqs);
                proof {
                    assert(reqs@ =~= (if polling(old(self).installed_addons@) {
                        Seq::<Request>::empty()
                    } else {
                        seq![Request::LoadInstalled]
                    }) + seq![Request::CheckMissingDeps, Request::ResetViews]);
                }
            },
            AddonResponseType::NoAction => {},
        }
        reqs
    }

    /// While checking for updates or loading the installed addons the
    /// window shows only a spinner.
    pub fn busy(&self) -> (r: bool)
        ensures
            r == (polling(self.update@) || polling(self.installed_addons@)),
    {
        self.update.is_polling() || self.installed_addons.is_polling()
    }

    /// The missing dependencies tab is offered when some were found.
    pub fn offers_missing_deps(&self) -> (r: bool)
        ensures
            r == (self.missing_deps@.value matches Some(v) && v@.len() > 0),
    {
        match self.missing_deps.get() {
            Some(v) => v.len() > 0,
            None => false,
        }
    }

    /// The side panel shows progress while an update, a download, a sync or
    /// an install is running.
    pub fn shows_progress(&self) -> (r: bool)
        ensures
            r == (polling(self.update@) || polling(self.ttc_pricetable@) || self.hm_running
                || keyed_any_polling(keyed_states(self.install_one@)) || keyed_any_polling(
                keyed_states(self.update_one@),
            )),
    {
        if self.update.is_polling() || self.ttc_pricetable.is_polling() || self.hm_running {
            return true;
        }
        any_polling(&self.install_one) || any_polling(&self.update_one)
    }
}

fn any_polling(v: &Vec<(i32, PromisedValue<()>)>) -> (r: bool)
    ensures
        r == keyed_any_polling(keyed_states(v@)),
{
    let mut k: usize = 0;
    while k < v.len()
        invariant
            k <= v@.len(),
            forall|j: int| 0 <= j < k ==> !polling(#[trigger] keyed_states(v@)[j].1),
        decreases v.len() - k,
    {
        if v[k].1.is_polling() {
            proof {
                assert(polling(keyed_states(v@)[k as int].1));
            }
            return true;
        }
        k += 1;
    }
    false
}

} // verus!
