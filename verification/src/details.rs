//! The addon detail view's decisions: which texts its header shows, which
//! dependency rows offer what, what a click on a dependency asks of the
//! service, and how the view follows the tasks that load its data.

use vstd::prelude::*;
use crate::cli::{nat_text, push_nat};
use crate::config::{find_key, keyed_map, unique_keys, upsert};
use crate::deps::{AddonDependencyView, AddonRef, DepStatus, Resolution};
use crate::promise::{
    after_handle, after_poll, after_set, idle_state, ready, PollState, PromiseState, PromisedValue,
};
use crate::service::{upgradable, AddonImageResult, AddonShowDetails};
use crate::text::{push_str, str_eq};
use crate::views::{AddonResponse, AddonResponseType};

verus! {

/// The tabs of the detail view.
#[derive(Clone, Copy, Debug, PartialEq, Eq, Structural)]
pub enum DetailView {
    Description,
    ChangeLog,
    Pictures,
    FileInfo,
    Dependencies,
    Dependents,
}

impl Default for DetailView {
    fn default() -> (r: DetailView)
        ensures
            r == DetailView::Description,
    {
        DetailView::Description
    }
}

/// What a dependency directory and an addon id stand for.
pub open spec fn pairs_model(v: Seq<(String, i32)>) -> Seq<(Seq<char>, i32)> {
    v.map_values(|p: (String, i32)| (p.0@, p.1))
}

/// For each unresolved dependency that has a suggestion, in order: its
/// directory and the first suggested addon.
pub open spec fn install_all_spec(s: Seq<DepStatus>) -> Seq<(Seq<char>, i32)>
    decreases s.len(),
{
    if s.len() == 0 {
        Seq::empty()
    } else {
        let rest = install_all_spec(s.drop_last());
        match s.last().resolution {
            Resolution::Unresolved { suggestions } => if suggestions@.len() > 0 {
                rest.push((s.last().dep_dir@, suggestions@[0].id))
            } else {
                rest
            },
            _ => rest,
        }
    }
}

/// What "Install All" installs.
pub fn install_all_items(view: &AddonDependencyView) -> (r: Vec<(String, i32)>)
    ensures
        pairs_model(r@) == install_all_spec(view.forward@),
{
    let mut r: Vec<(String, i32)> = Vec::new();
    let mut k: usize = 0;
    while k < view.forward.len()
        invariant
            k <= view.forward@.len(),
            pairs_model(r@) == install_all_spec(view.forward@.take(k as int)),
        decreases view.forward.len() - k,
    {
        let d = &view.forward[k];
        proof {
            assert(view.forward@.take(k + 1).drop_last() =~= view.forward@.take(k as int));
        }
        match &d.resolution {
            Resolution::Unresolved { suggestions } => {
                if suggestions.len() > 0 {
                    let id = suggestions[0].id;
                    r.push((d.dep_dir.clone(), id));
                    proof {
                        assert(pairs_model(r@) =~= pairs_model(r@.drop_last()).push((d.dep_dir@, id)));
                    }
                }
            },
            _ => {},
        }
        k += 1;
    }
    proof {
        assert(view.forward@.take(k as int) =~= view.forward@);
    }
    r
}

/// The labels of the two dependency tabs and whether they can be opened.
pub struct DepTabs {
    pub deps_label: &'static str,
    pub deps_enabled: bool,
    pub dependents_label: &'static str,
    pub dependents_enabled: bool,
}

/// Before the dependencies are known both tabs are open under their plain
/// names; afterwards an empty list disables its tab and says so.
pub fn dep_tabs(view: Option<&AddonDependencyView>) -> (t: DepTabs)
    ensures
        match view {
            Some(v) => {
                &&& t.deps_enabled == (v.forward@.len() > 0)
                &&& t.deps_label@ == (if v.forward@.len() > 0 { "Dependencies"@ } else { "No Dependencies"@ })
                &&& t.dependents_enabled == (v.dependents@.len() > 0)
                &&& t.dependents_label@ == (if v.dependents@.len() > 0 { "Dependents"@ } else { "No Dependents"@ })
            },
            None => {
                &&& t.deps_enabled && t.dependents_enabled
                &&& t.deps_label@ == "Dependencies"@
                &&& t.dependents_label@ == "Dependents"@
            },
        },
{
    match view {
        Some(v) => DepTabs {
            deps_label: if v.forward.len() == 0 { "No Dependencies" } else { "Dependencies" },
            deps_enabled: v.forward.len() > 0,
            dependents_label: if v.dependents.len() == 0 { "No Dependents" } else { "Dependents" },
            dependents_enabled: v.dependents.len() > 0,
        },
        None => DepTabs {
            deps_label: "Dependencies",
            deps_enabled: true,
            dependents_label: "Dependents",
            dependents_enabled: true,
        },
    }
}

/// The version line: the catalogue version, preceded by the installed one
/// and an arrow when they differ.
pub open spec fn version_text_spec(a: AddonShowDetails) -> Seq<char> {
    match a.installed_version {
        Some(v) => if v@ != a.version@ {
            v@ + " ➡ "@ + a.version@
        } else {
            a.version@
        },
        None => a.version@,
    }
}

pub fn version_text(a: &AddonShowDetails) -> (r: String)
    ensures
        r@ == version_text_spec(*a),
{
    let mut out = String::new();
    match &a.installed_version {
        Some(v) => {
            if !str_eq(v.as_str(), a.version.as_str()) {
                push_str(&mut out, v.as_str());
                push_str(&mut out, " ➡ ");
            }
        },
        None => {},
    }
    push_str(&mut out, a.version.as_str());
    proof {
        match &a.installed_version {
            Some(v) => if v@ != a.version@ {
                assert(out@ =~= v@ + " ➡ "@ + a.version@);
            } else {
                assert(out@ =~= a.version@);
            },
            None => {
                assert(out@ =~= a.version@);
            },
        }
    }
    out
}

/// The supported game version line.
pub open spec fn compat_text_spec(a: AddonShowDetails) -> Seq<char> {
    match (a.game_compat_name, a.game_compat_version) {
        (Some(name), Some(ver)) => "⛭ "@ + name@ + " ("@ + ver@ + ") Supported"@,
        _ => "⛭ Unknown Version Supported"@,
    }
}

pub fn compat_text(a: &AddonShowDetails) -> (r: String)
    ensures
        r@ == compat_text_spec(*a),
{
    let mut out = String::new();
    match (&a.game_compat_name, &a.game_compat_version) {
        (Some(name), Some(ver)) => {
            push_str(&mut out, "⛭ ");
            push_str(&mut out, name.as_str());
            push_str(&mut out, " (");
            push_str(&mut out, ver.as_str());
            push_str(&mut out, ") Supported");
            proof {
                assert(out@ =~= "⛭ "@ + name@ + " ("@ + ver@ + ") Supported"@);
            }
        },
        _ => {
            push_str(&mut out, "⛭ Unknown Version Supported");
            proof {
                assert(out@ =~= "⛭ Unknown Version Supported"@);
            }
        },
    }
    out
}

/// The heading of the dependents tab.
pub open spec fn required_by_spec(count: nat) -> Seq<char> {
    "Required by "@ + nat_text(count) + " installed addon"@ + (if count == 1 { Seq::empty() } else { "s"@ }) + ":"@
}

pub fn required_by_text(count: usize) -> (r: String)
    ensures
        r@ == required_by_spec(count as nat),
{
    let mut out = String::new();
    push_str(&mut out, "Required by ");
    let n: u64 = count as u64;
    assert(n as nat == count as nat);
    push_nat(&mut out, n);
    push_str(&mut out, " installed addon");
    let ghost head = out@;
    assert(head =~= "Required by "@ + nat_text(count as nat) + " installed addon"@);
    if count != 1 {
        push_str(&mut out, "s");
        assert(out@ =~= head + "s"@);
    } else {
        assert(out@ =~= head + Seq::<char>::empty());
    }
    push_str(&mut out, ":");
    proof {
        assert(out@ =~= required_by_spec(count as nat));
    }
    out
}

/// The buttons of the detail header, left to right: update when the addon
/// can be upgraded, then install or remove.
pub open spec fn header_buttons_spec(a: AddonShowDetails) -> Seq<AddonResponseType> {
    let tail = if a.installed { AddonResponseType::Remove } else { AddonResponseType::Install };
    if upgradable(a) {
        seq![AddonResponseType::Update, tail]
    } else {
        seq![tail]
    }
}

pub fn header_buttons(a: &AddonShowDetails) -> (r: Vec<AddonResponseType>)
    ensures
        r@ == header_buttons_spec(*a),
{
    let mut r: Vec<AddonResponseType> = Vec::new();
    if a.is_upgradable() {
        r.push(AddonResponseType::Update);
    }
    if a.installed {
        r.push(AddonResponseType::Remove);
    } else {
        r.push(AddonResponseType::Install);
    }
    proof {
        assert(r@ =~= header_buttons_spec(*a));
    }
    r
}

/// The response of a header button for the addon shown.
pub fn header_response(a: &AddonShowDetails, button: AddonResponseType) -> (r: AddonResponse)
    ensures
        r.response_type == button,
        r.addon_id == a.id,
        r.addon_ids@.len() == 0,
        r.author_name@.len() == 0,
        r.missing_deps@.len() == 0,
{
    let mut r = AddonResponse::default();
    r.response_type = button;
    r.addon_id = a.id;
    r
}

/// The response to a click on the author's name.
pub fn author_response(a: &AddonShowDetails) -> (r: AddonResponse)
    ensures
        r.response_type == AddonResponseType::AuthorName,
        r.author_name@ == a.author_name@,
        r.addon_id == 0,
        r.addon_ids@.len() == 0,
        r.missing_deps@.len() == 0,
{
    let mut r = AddonResponse::default();
    r.response_type = AddonResponseType::AuthorName;
    r.author_name = a.author_name.clone();
    r
}

/// The name of the first addon with the given id, or nothing.
pub open spec fn name_for(refs: Seq<AddonRef>, id: i32, k: int) -> Seq<char>
    decreases refs.len() - k,
{
    if k < 0 || k >= refs.len() {
        Seq::empty()
    } else if refs[k].id == id {
        refs[k].name@
    } else {
        name_for(refs, id, k + 1)
    }
}

/// The text of a choice box: the name of the chosen addon, or empty.
pub fn chosen_name(refs: &Vec<AddonRef>, chosen: Option<i32>) -> (r: String)
    ensures
        r@ == match chosen {
            Some(id) => name_for(refs@, id, 0),
            None => Seq::empty(),
        },
{
    let mut out = String::new();
    match chosen {
        Some(id) => {
            let mut k: usize = 0;
            while k < refs.len()
                invariant
                    k <= refs@.len(),
                    chosen == Some(id),
                    out@ == Seq::<char>::empty(),
                    name_for(refs@, id, 0) == name_for(refs@, id, k as int),
                decreases refs.len() - k,
            {
                if refs[k].id == id {
                    push_str(&mut out, refs[k].name.as_str());
                    proof {
                        assert(out@ =~= refs@[k as int].name@);
                        assert(name_for(refs@, id, k as int) == refs@[k as int].name@);
                    }
                    return out;
                }
                k += 1;
            }
            proof {
                assert(out@ =~= Seq::<char>::empty());
            }
            out
        },
        None => {
            proof {
                assert(out@ =~= Seq::<char>::empty());
            }
            out
        },
    }
}

/// What the user picked on an unresolved dependency row.
#[derive(Clone, Copy)]
pub struct DepRowState {
    pub selected_suggestion: Option<i32>,
    pub selected_satisfied_by: Option<i32>,
}

impl Default for DepRowState {
    fn default() -> (r: DepRowState)
        ensures
            r.selected_suggestion is None,
            r.selected_satisfied_by is None,
    {
        DepRowState { selected_suggestion: None, selected_satisfied_by: None }
    }
}

/// A click in the dependency tab.
pub enum DepAction {
    /// Open another addon's details.
    Navigate(i32),
    /// Go without the dependency in this directory.
    SetIgnored(String),
    /// Count the dependency in this directory as provided by an addon.
    SetSatisfiedBy(String, i32),
    /// Drop the choice recorded for this directory.
    Revoke(String),
    /// Install these suggestions, each for its directory.
    InstallBatch(Vec<(String, i32)>),
}

/// What the service is asked to do for a dependency click.
pub enum DepRequest {
    SetIgnored(String),
    SetSatisfiedBy(String, i32),
    Revoke(String),
    InstallSuggestions(Vec<(String, i32)>),
}

/// The state of the detail view.
pub struct Details {
    pub addon_id: i32,
    pub details: PromisedValue<Option<AddonShowDetails>>,
    pub view: DetailView,
    pub show_raw_text: bool,
    pub images: PromisedValue<Vec<AddonImageResult>>,
    pub selected_image: String,
    pub dep_view: PromisedValue<AddonDependencyView>,
    pub dep_mutation: PromisedValue<()>,
    /// The formatted description and change log are current.
    pub texts_built: bool,
    pub dep_mutation_was_install: bool,
    pub pending_addons_changed: bool,
    pub row_state: Vec<(String, DepRowState)>,
}

/// What one poll of the detail view asks of its caller.
pub struct DetailsPoll {
    /// Errors to record, each with what was being done.
    pub errors: Vec<(String, String)>,
    /// Format the description and change log of the loaded addon.
    pub build_texts: bool,
    /// Load the dependency view of the addon again.
    pub reload_dependencies: bool,
}

/// The error a poll leaves, with its context.
pub open spec fn poll_error<T>(s: PromiseState<T>, p: PollState<T>, context: Seq<char>) -> Seq<(Seq<char>, Seq<char>)> {
    match after_poll(s, p).error {
        Some(e) => seq![(context, e)],
        None => Seq::empty(),
    }
}

/// A state after a poll whose error was taken, and the value handled when
/// it was ready.
pub open spec fn polled_and_handled<T>(s: PromiseState<T>, p: PollState<T>) -> PromiseState<T> {
    let q = PromiseState { error: None, ..after_poll(s, p) };
    if ready(q) {
        after_handle(q)
    } else {
        q
    }
}

impl Details {
    pub open spec fn wf(&self) -> bool {
        unique_keys(self.row_state@)
    }

    /// What the rows picked, by dependency directory.
    pub open spec fn rows(&self) -> Map<Seq<char>, DepRowState> {
        keyed_map(self.row_state@)
    }

    /// A detail view showing nothing yet.
    pub fn new() -> (d: Details)
        ensures
            d.wf(),
            d.addon_id == 0,
            d.details@ == idle_state::<Option<AddonShowDetails>>(),
            d.images@ == idle_state::<Vec<AddonImageResult>>(),
            d.dep_view@ == idle_state::<AddonDependencyView>(),
            d.dep_mutation@ == idle_state::<()>(),
            d.view == DetailView::Description,
            !d.show_raw_text,
            d.selected_image@.len() == 0,
            !d.texts_built,
            !d.dep_mutation_was_install,
            !d.pending_addons_changed,
            d.rows() == Map::<Seq<char>, DepRowState>::empty(),
            d.row_state@.len() == 0,
    {
        let d = Details {
            addon_id: 0,
            details: PromisedValue::new(),
            view: DetailView::Description,
            show_raw_text: false,
            images: PromisedValue::new(),
            selected_image: String::new(),
            dep_view: PromisedValue::new(),
            dep_mutation: PromisedValue::new(),
            texts_built: false,
            dep_mutation_was_install: false,
            pending_addons_changed: false,
            row_state: Vec::new(),
        };
        proof {
            assert(d.row_state@ =~= Seq::<(String, DepRowState)>::empty());
        }
        d
    }

    /// Shows another addon: its details, images and dependencies are loaded
    /// anew (the caller starts those tasks) and everything picked for the
    /// previous addon is dropped.
    pub fn set_addon(&mut self, addon_id: i32)
        ensures
            final(self).wf(),
            final(self).addon_id == addon_id,
            final(self).details@ == after_set(old(self).details@),
            final(self).images@ == after_set(old(self).images@),
            final(self).dep_view@ == after_set(old(self).dep_view@),
            final(self).dep_mutation@ == old(self).dep_mutation@,
            final(self).view == DetailView::Description,
            final(self).show_raw_text == old(self).show_raw_text,
            final(self).selected_image@.len() == 0,
            !final(self).texts_built,
            !final(self).dep_mutation_was_install,
            !final(self).pending_addons_changed,
            final(self).rows() == Map::<Seq<char>, DepRowState>::empty(),
    {
        self.addon_id = addon_id;
        self.details.set();
        self.images.set();
        self.dep_view.set();
        self.view = DetailView::Description;
        self.selected_image = String::new();
        self.texts_built = false;
        self.row_state = Vec::new();
        self.dep_mutation_was_install = false;
        self.pending_addons_changed = false;
        proof {
            assert(self.row_state@ =~= Seq::<(String, DepRowState)>::empty());
        }
    }

    /// Loads the same addon again, when one is shown: its details and
    /// dependencies (the caller starts those tasks when `true` comes back).
    pub fn reset(&mut self) -> (started: bool)
        requires
            old(self).wf(),
        ensures
            final(self).wf(),
            started == (old(self).addon_id != 0),
            !started ==> *final(self) == *old(self),
            started ==> {
                &&& final(self).addon_id == old(self).addon_id
                &&& final(self).details@ == after_set(old(self).details@)
                &&& final(self).dep_view@ == after_set(old(self).dep_view@)
                &&& final(self).images@ == old(self).images@
                &&& final(self).dep_mutation@ == old(self).dep_mutation@
                &&& final(self).view == old(self).view
                &&& final(self).show_raw_text == old(self).show_raw_text
                &&& final(self).selected_image@ == old(self).selected_image@
                &&& !final(self).texts_built
                &&& final(self).dep_mutation_was_install == old(self).dep_mutation_was_install
                &&& final(self).pending_addons_changed == old(self).pending_addons_changed
                &&& final(self).rows() == Map::<Seq<char>, DepRowState>::empty()
            },
    {
        if self.addon_id == 0 {
            return false;
        }
        self.details.set();
        self.dep_view.set();
        self.row_state = Vec::new();
        self.texts_built = false;
        proof {
            assert(self.row_state@ =~= Seq::<(String, DepRowState)>::empty());
        }
        true
    }

    /// Takes in the states of the four tasks the view follows. Errors are
    /// handed back for recording; a loaded addon asks for its texts to be
    /// formatted once; a finished change to the dependencies asks for them
    /// to be loaded again, drops the rows' picks, and, after an install,
    /// leaves word that the installed addons changed.
    pub fn poll(
        &mut self,
        details: PollState<Option<AddonShowDetails>>,
        images: PollState<Vec<AddonImageResult>>,
        deps: PollState<AddonDependencyView>,
        mutation: PollState<()>,
    ) -> (out: DetailsPoll)
        requires
            old(self).wf(),
        ensures
            final(self).wf(),
            ({
                let dq = PromiseState { error: None, ..after_poll(old(self).details@, details) };
                let mq = PromiseState { error: None, ..after_poll(old(self).dep_mutation@, mutation) };
                let changed = ready(mq);
                &&& final(self).details@ == polled_and_handled(old(self).details@, details)
                &&& final(self).images@ == PromiseState { error: None, ..after_poll(old(self).images@, images) }
                &&& final(self).dep_mutation@ == polled_and_handled(old(self).dep_mutation@, mutation)
                &&& final(self).dep_view@ == (if changed {
                    after_set(polled_and_handled(old(self).dep_view@, deps))
                } else {
                    polled_and_handled(old(self).dep_view@, deps)
                })
                &&& out.build_texts == (ready(dq) && !old(self).texts_built && dq.value matches Some(Some(_)))
                &&& final(self).texts_built == (old(self).texts_built || out.build_texts)
                &&& out.reload_dependencies == changed
                &&& final(self).rows() == (if changed { Map::empty() } else { old(self).rows() })
                &&& final(self).dep_mutation_was_install == (old(self).dep_mutation_was_install && !changed)
                &&& final(self).pending_addons_changed == (old(self).pending_addons_changed
                    || (changed && old(self).dep_mutation_was_install))
                &&& pairs_errors(out.errors@) == poll_error(old(self).details@, details, "Loading addon details"@)
                    + poll_error(old(self).images@, images, "Loading addon images"@)
                    + poll_error(old(self).dep_view@, deps, "Loading addon dependencies"@)
                    + poll_error(old(self).dep_mutation@, mutation, "Updating addon dependencies"@)
            }),
            final(self).addon_id == old(self).addon_id,
            final(self).view == old(self).view,
            final(self).show_raw_text == old(self).show_raw_text,
            final(self).selected_image@ == old(self).selected_image@,
    {
        let mut errors: Vec<(String, String)> = Vec::new();
        let e1 = self.details.poll_recording(details, "Loading addon details");
        push_error(&mut errors, e1);
        let mut build_texts = false;
        if self.details.is_ready() {
            self.details.handle();
            if !self.texts_built {
                match self.details.get() {
                    Some(Some(_)) => {
                        build_texts = true;
                        self.texts_built = true;
                    },
                    _ => {},
                }
            }
        }
        let e2 = self.images.poll_recording(images, "Loading addon images");
        push_error(&mut errors, e2);
        let e3 = self.dep_view.poll_recording(deps, "Loading addon dependencies");
        push_error(&mut errors, e3);
        if self.dep_view.is_ready() {
            self.dep_view.handle();
        }
        let e4 = self.dep_mutation.poll_recording(mutation, "Updating addon dependencies");
        push_error(&mut errors, e4);
        let mut reload = false;
        if self.dep_mutation.is_ready() {
            self.dep_mutation.handle();
            self.dep_view.set();
            self.row_state = Vec::new();
            reload = true;
            if self.dep_mutation_was_install {
                self.dep_mutation_was_install = false;
                self.pending_addons_changed = true;
            }
        }
        proof {
            if reload {
                assert(self.row_state@ =~= Seq::<(String, DepRowState)>::empty());
            }
        }
        DetailsPoll { errors, build_texts, reload_dependencies: reload }
    }

    /// Word that the installed addons changed, once: the view then answers
    /// with that before anything else.
    pub fn take_addons_changed(&mut self) -> (r: Option<AddonResponse>)
        ensures
            !final(self).pending_addons_changed,
            old(self).pending_addons_changed ==> (r matches Some(resp) && (resp.response_type
                == AddonResponseType::AddonsChanged && resp.addon_id == 0)),
            !old(self).pending_addons_changed ==> r is None,
            *final(self) == (Details { pending_addons_changed: false, ..*old(self) }),
    {
        if self.pending_addons_changed {
            self.pending_addons_changed = false;
            let mut r = AddonResponse::default();
            r.response_type = AddonResponseType::AddonsChanged;
            Some(r)
        } else {
            None
        }
    }

    /// The picks of the row for `dir`, creating it when missing; a row with
    /// no suggestion picked takes the first one offered.
    pub fn prepare_row(&mut self, dir: &str, first_suggestion: Option<i32>) -> (r: DepRowState)
        requires
            old(self).wf(),
        ensures
            final(self).wf(),
            final(self).rows() == old(self).rows().insert(dir@, r),
            r.selected_satisfied_by == (if old(self).rows().contains_key(dir@) {
                old(self).rows()[dir@].selected_satisfied_by
            } else {
                None
            }),
            r.selected_suggestion == (if old(self).rows().contains_key(dir@)
                && old(self).rows()[dir@].selected_suggestion is Some {
                old(self).rows()[dir@].selected_suggestion
            } else {
                first_suggestion
            }),
    {
        let mut row = match find_key(&self.row_state, dir) {
            Some(i) => self.row_state[i].1,
            None => DepRowState::default(),
        };
        if row.selected_suggestion.is_none() {
            row.selected_suggestion = first_suggestion;
        }
        upsert(&mut self.row_state, dir.to_string(), row);
        row
    }

    /// Picks the addon that provides the dependency in `dir`.
    pub fn choose_satisfied_by(&mut self, dir: &str, id: i32) -> (a: DepAction)
        requires
            old(self).wf(),
        ensures
            final(self).wf(),
            final(self).rows() == old(self).rows().insert(dir@, DepRowState {
                selected_satisfied_by: Some(id),
                selected_suggestion: if old(self).rows().contains_key(dir@) {
                    old(self).rows()[dir@].selected_suggestion
                } else {
                    None
                },
            }),
            a matches DepAction::SetSatisfiedBy(d, i) && d@ == dir@ && i == id,
    {
        let mut row = match find_key(&self.row_state, dir) {
            Some(i) => self.row_state[i].1,
            None => DepRowState::default(),
        };
        row.selected_satisfied_by = Some(id);
        upsert(&mut self.row_state, dir.to_string(), row);
        DepAction::SetSatisfiedBy(dir.to_string(), id)
    }

    /// Picks the suggestion to install for `dir`.
    pub fn choose_suggestion(&mut self, dir: &str, id: i32)
        requires
            old(self).wf(),
        ensures
            final(self).wf(),
            final(self).rows() == old(self).rows().insert(dir@, DepRowState {
                selected_suggestion: Some(id),
                selected_satisfied_by: if old(self).rows().contains_key(dir@) {
                    old(self).rows()[dir@].selected_satisfied_by
                } else {
                    None
                },
            }),
    {
        let mut row = match find_key(&self.row_state, dir) {
            Some(i) => self.row_state[i].1,
            None => DepRowState::default(),
        };
        row.selected_suggestion = Some(id);
        upsert(&mut self.row_state, dir.to_string(), row);
    }

    /// The install button of the row for `dir`: installs the picked
    /// suggestion, if one is picked.
    pub fn install_picked(&self, dir: &str) -> (a: Option<DepAction>)
        requires
            self.wf(),
        ensures
            match a {
                Some(DepAction::InstallBatch(items)) => {
                    &&& self.rows().contains_key(dir@)
                    &&& (self.rows()[dir@].selected_suggestion matches Some(id) && pairs_model(items@)
                        == seq![(dir@, id)])
                },
                Some(_) => false,
                None => !(self.rows().contains_key(dir@) && self.rows()[dir@].selected_suggestion is Some),
            },
    {
        match find_key(&self.row_state, dir) {
            Some(i) => match self.row_state[i].1.selected_suggestion {
                Some(id) => {
                    let mut items: Vec<(String, i32)> = Vec::new();
                    items.push((dir.to_string(), id));
                    proof {
                        assert(pairs_model(items@) =~= seq![(dir@, id)]);
                    }
                    Some(DepAction::InstallBatch(items))
                },
                None => None,
            },
            None => None,
        }
    }

    /// Carries out a click in the dependency tab: opening another addon
    /// answers with its id; anything else starts a change of the
    /// dependencies (the caller sends the request back), and an install
    /// is remembered so that its end can report changed addons.
    pub fn apply_dep_action(&mut self, action: DepAction) -> (r: (AddonResponse, Option<DepRequest>))
        ensures
            match action {
                DepAction::Navigate(id) => {
                    &&& r.0.response_type == AddonResponseType::AddonName
                    &&& r.0.addon_id == id
                    &&& r.1 is None
                    &&& *final(self) == *old(self)
                },
                _ => {
                    &&& r.0.response_type == AddonResponseType::NoAction
                    &&& final(self).dep_mutation@ == after_set(old(self).dep_mutation@)
                    &&& final(self).dep_mutation_was_install == (old(self).dep_mutation_was_install
                        || action is InstallBatch)
                    &&& *final(self) == (Details {
                        dep_mutation: final(self).dep_mutation,
                        dep_mutation_was_install: final(self).dep_mutation_was_install,
                        ..*old(self)
                    })
                    &&& match (action, r.1) {
                        (DepAction::SetIgnored(d), Some(DepRequest::SetIgnored(e))) => d@ == e@,
                        (DepAction::SetSatisfiedBy(d, i), Some(DepRequest::SetSatisfiedBy(e, j))) => d@ == e@ && i == j,
                        (DepAction::Revoke(d), Some(DepRequest::Revoke(e))) => d@ == e@,
                        (DepAction::InstallBatch(v), Some(DepRequest::InstallSuggestions(w))) => v@ == w@,
                        _ => false,
                    }
                },
            },
    {
        let mut response = AddonResponse::default();
        match action {
            DepAction::Navigate(id) => {
                response.addon_id = id;
                response.response_type = AddonResponseType::AddonName;
                (response, None)
            },
            DepAction::SetIgnored(dir) => {
                self.dep_mutation.set();
                (response, Some(DepRequest::SetIgnored(dir)))
            },
            DepAction::SetSatisfiedBy(dir, id) => {
                self.dep_mutation.set();
                (response, Some(DepRequest::SetSatisfiedBy(dir, id)))
            },
            DepAction::Revoke(dir) => {
                self.dep_mutation.set();
                (response, Some(DepRequest::Revoke(dir)))
            },
            DepAction::InstallBatch(items) => {
                self.dep_mutation.set();
                self.dep_mutation_was_install = true;
                (response, Some(DepRequest::InstallSuggestions(items)))
            },
        }
    }
}

/// Errors as plain values.
pub open spec fn pairs_errors(v: Seq<(String, String)>) -> Seq<(Seq<char>, Seq<char>)> {
    v.map_values(|p: (String, String)| (p.0@, p.1@))
}

fn push_error(errors: &mut Vec<(String, String)>, e: Option<(String, String)>)
    ensures
        pairs_errors(final(errors)@) == pairs_errors(old(errors)@) + match e {
            Some(p) => seq![(p.0@, p.1@)],
            None => Seq::empty(),
        },
{
    match e {
        Some(p) => {
            errors.push(p);
            proof {
                assert(pairs_errors(errors@) =~= pairs_errors(old(errors)@) + seq![(p.0@, p.1@)]);
            }
        },
        None => {
            proof {
                assert(pairs_errors(errors@) =~= pairs_errors(old(errors)@) + Seq::<(Seq<char>, Seq<char>)>::empty());
            }
        },
    }
}

} // verus!
