//! The settings and onboarding views' bookkeeping: the file dialogs they
//! open, the imports, backups and restores those start, and what the
//! application hears when one ends. The dialogs and tasks run outside;
//! each poll hands their states in.

use vstd::prelude::*;
use crate::promise::{
    after_handle, after_poll, after_set, idle_state, polling, ready, PollState, PromiseState,
    PromisedValue,
};
use crate::text::push_str;
use crate::views::{AddonResponse, AddonResponseType};

verus! {

/// What the caller is asked to do with a path a dialog gave.
pub enum SettingsRequest {
    /// Make this the addon folder and save the settings.
    SetAddonDir(String),
    /// Install the addons a Minion backup file lists.
    ImportMinion(String),
    /// Write a backup to this file.
    Backup(String),
    /// Restore the backup in this file.
    Restore(String),
}

/// The states of the dialogs and tasks of the settings view, as polled.
pub struct SettingsEvents {
    pub addon_dir_dialog: PollState<Option<String>>,
    pub minion_dialog: PollState<Option<String>>,
    pub minion_import: PollState<()>,
    pub backup_dialog: PollState<Option<String>>,
    pub backup_process: PollState<()>,
    pub restore_dialog: PollState<Option<String>>,
    pub restore_process: PollState<()>,
}

/// A dialog that was polled and, when it gave its answer, handled; and the
/// path it gave, if it gave one this poll.
pub open spec fn dialog_after<T>(s: PromiseState<T>, p: PollState<T>) -> PromiseState<T> {
    if ready(after_poll(s, p)) {
        after_handle(after_poll(s, p))
    } else {
        after_poll(s, p)
    }
}

pub open spec fn dialog_path(s: PromiseState<Option<String>>, p: PollState<Option<String>>) -> Option<Seq<char>> {
    if ready(after_poll(s, p)) {
        match after_poll(s, p).value {
            Some(Some(path)) => Some(path@),
            _ => None,
        }
    } else {
        None
    }
}

/// A task held while it runs: after this poll it is gone when it ended
/// with success; one just started has not run yet.
pub open spec fn process_after(
    s: Option<PromiseState<()>>,
    started: bool,
    p: PollState<()>,
) -> (Option<PromiseState<()>>, bool) {
    if started {
        (Some(after_set(idle_state::<()>())), false)
    } else {
        match s {
            Some(t) => if ready(after_poll(t, p)) {
                (None, true)
            } else {
                (Some(after_poll(t, p)), false)
            },
            None => (None, false),
        }
    }
}

pub open spec fn opt_state(p: Option<PromisedValue<()>>) -> Option<PromiseState<()>> {
    match p {
        Some(v) => Some(v@),
        None => None,
    }
}

/// The settings view's dialogs and tasks.
pub struct SettingsState {
    pub addon_dir_dialog: PromisedValue<Option<String>>,
    pub minion_dialog: PromisedValue<Option<String>>,
    pub minion_import: Option<PromisedValue<()>>,
    pub backup_dialog: PromisedValue<Option<String>>,
    pub backup_process: Option<PromisedValue<()>>,
    pub restore_dialog: PromisedValue<Option<String>>,
    pub restore_process: Option<PromisedValue<()>>,
}

/// How the Minion import button shows.
#[derive(Clone, Copy, Debug, PartialEq, Eq, Structural)]
pub enum MinionButton {
    /// Opens the file dialog.
    Enabled,
    /// The file dialog is open.
    Disabled,
    /// An import runs.
    Importing,
}

fn started_task() -> (p: PromisedValue<()>)
    ensures
        p@ == after_set(idle_state::<()>()),
{
    let mut p = PromisedValue::<()>::new();
    p.set();
    p
}

/// Polls a running task; says whether it ended with success, in which
/// case it is dropped.
fn poll_process(slot: &mut Option<PromisedValue<()>>, p: PollState<()>) -> (done: bool)
    ensures
        (opt_state(*final(slot)), done) == process_after(opt_state(*old(slot)), false, p),
{
    match slot {
        Some(t) => {
            t.poll(p);
            if t.is_ready() {
                *slot = None;
                true
            } else {
                false
            }
        },
        None => false,
    }
}

/// Polls a dialog: when it answered, the answer is handled and the path it
/// gave, if any, comes back.
fn poll_dialog(d: &mut PromisedValue<Option<String>>, p: PollState<Option<String>>) -> (path: Option<String>)
    ensures
        final(d)@ == dialog_after(old(d)@, p),
        match path {
            Some(x) => dialog_path(old(d)@, p) == Some(x@),
            None => dialog_path(old(d)@, p) is None,
        },
{
    d.poll(p);
    if d.is_ready() {
        d.handle();
        match d.get() {
            Some(Some(path)) => Some(path.clone()),
            _ => None,
        }
    } else {
        None
    }
}

impl SettingsState {
    pub fn new() -> (s: SettingsState)
        ensures
            s.addon_dir_dialog@ == idle_state::<Option<String>>(),
            s.minion_dialog@ == idle_state::<Option<String>>(),
            s.minion_import is None,
            s.backup_dialog@ == idle_state::<Option<String>>(),
            s.backup_process is None,
            s.restore_dialog@ == idle_state::<Option<String>>(),
            s.restore_process is None,
    {
        SettingsState {
            addon_dir_dialog: PromisedValue::new(),
            minion_dialog: PromisedValue::new(),
            minion_import: None,
            backup_dialog: PromisedValue::new(),
            backup_process: None,
            restore_dialog: PromisedValue::new(),
            restore_process: None,
        }
    }

    /// Takes in the dialogs' answers and the tasks' states. A folder picked
    /// becomes the addon folder; a Minion file picked starts its import; a
    /// file picked for a backup or a restore starts it. Tasks started now
    /// have not run yet. The view answers that the installed addons changed
    /// when an import or a restore ended.
    pub fn poll(&mut self, ev: SettingsEvents) -> (r: (AddonResponse, Vec<SettingsRequest>))
        ensures
            ({
                let s = *old(self);
                let dir = dialog_path(s.addon_dir_dialog@, ev.addon_dir_dialog);
                let minion = dialog_path(s.minion_dialog@, ev.minion_dialog);
                let backup = dialog_path(s.backup_dialog@, ev.backup_dialog);
                let restore = dialog_path(s.restore_dialog@, ev.restore_dialog);
                let m = process_after(opt_state(s.minion_import), minion is Some, ev.minion_import);
                let b = process_after(opt_state(s.backup_process), backup is Some, ev.backup_process);
                let rs = process_after(opt_state(s.restore_process), restore is Some, ev.restore_process);
                &&& final(self).addon_dir_dialog@ == dialog_after(s.addon_dir_dialog@, ev.addon_dir_dialog)
                &&& final(self).minion_dialog@ == dialog_after(s.minion_dialog@, ev.minion_dialog)
                &&& final(self).backup_dialog@ == dialog_after(s.backup_dialog@, ev.backup_dialog)
                &&& final(self).restore_dialog@ == dialog_after(s.restore_dialog@, ev.restore_dialog)
                &&& opt_state(final(self).minion_import) == m.0
                &&& opt_state(final(self).backup_process) == b.0
                &&& opt_state(final(self).restore_process) == rs.0
                &&& r.0.response_type == (if m.1 || rs.1 {
                    AddonResponseType::AddonsChanged
                } else {
                    AddonResponseType::NoAction
                })
                &&& r.0.addon_id == 0
                &&& requests_model(r.1@) == opt_request(0, dir) + opt_request(1, minion) + opt_request(2, backup)
                    + opt_request(3, restore)
            }),
    {
        let SettingsEvents {
            addon_dir_dialog,
            minion_dialog,
            minion_import,
            backup_dialog,
            backup_process,
            restore_dialog,
            restore_process,
        } = ev;
        let mut response = AddonResponse::default();
        let mut reqs: Vec<SettingsRequest> = Vec::new();
        let mut changed = false;

        let dir = poll_dialog(&mut self.addon_dir_dialog, addon_dir_dialog);
        match dir {
            Some(path) => reqs.push(SettingsRequest::SetAddonDir(path)),
            None => {},
        }
        let ghost r1 = requests_model(reqs@);

        let minion = poll_dialog(&mut self.minion_dialog, minion_dialog);
        match minion {
            Some(path) => {
                reqs.push(SettingsRequest::ImportMinion(path));
                self.minion_import = Some(started_task());
            },
            None => {
                if poll_process(&mut self.minion_import, minion_import) {
                    changed = true;
                }
            },
        }
        let ghost r2 = requests_model(reqs@);

        let backup = poll_dialog(&mut self.backup_dialog, backup_dialog);
        match backup {
            Some(path) => {
                reqs.push(SettingsRequest::Backup(path));
                self.backup_process = Some(started_task());
            },
            None => {
                poll_process(&mut self.backup_process, backup_process);
            },
        }
        let ghost r3 = requests_model(reqs@);

        let restore = poll_dialog(&mut self.restore_dialog, restore_dialog);
        match restore {
            Some(path) => {
                reqs.push(SettingsRequest::Restore(path));
                self.restore_process = Some(started_task());
            },
            None => {
                if poll_process(&mut self.restore_process, restore_process) {
                    changed = true;
                }
            },
        }
        if changed {
            response.response_type = AddonResponseType::AddonsChanged;
        }
        proof {
            let s = *old(self);
            assert(r1 =~= opt_request(0, dialog_path(s.addon_dir_dialog@, addon_dir_dialog)));
            assert(r2 =~= r1 + opt_request(1, dialog_path(s.minion_dialog@, minion_dialog)));
            assert(r3 =~= r2 + opt_request(2, dialog_path(s.backup_dialog@, backup_dialog)));
            assert(requests_model(reqs@) =~= r3 + opt_request(3, dialog_path(s.restore_dialog@, restore_dialog)));
        }
        (response, reqs)
    }

    /// The button that changes the addon folder is disabled while its
    /// dialog is open.
    pub fn can_change_addon_dir(&self) -> (r: bool)
        ensures
            r == !polling(self.addon_dir_dialog@),
    {
        !self.addon_dir_dialog.is_polling()
    }

    pub fn minion_button(&self) -> (r: MinionButton)
        ensures
            r == (if self.minion_import is Some {
                MinionButton::Importing
            } else if polling(self.minion_dialog@) {
                MinionButton::Disabled
            } else {
                MinionButton::Enabled
            }),
    {
        if self.minion_import.is_some() {
            MinionButton::Importing
        } else if self.minion_dialog.is_polling() {
            MinionButton::Disabled
        } else {
            MinionButton::Enabled
        }
    }

    /// The folder dialog was opened.
    pub fn open_addon_dir_dialog(&mut self)
        ensures
            final(self).addon_dir_dialog@ == after_set(old(self).addon_dir_dialog@),
    {
        self.addon_dir_dialog.set();
    }

    /// The Minion file dialog was opened.
    pub fn open_minion_dialog(&mut self)
        ensures
            final(self).minion_dialog@ == after_set(old(self).minion_dialog@),
    {
        self.minion_dialog.set();
    }

    /// The backup file dialog was opened.
    pub fn open_backup_dialog(&mut self)
        ensures
            final(self).backup_dialog@ == after_set(old(self).backup_dialog@),
    {
        self.backup_dialog.set();
    }

    /// The restore file dialog was opened.
    pub fn open_restore_dialog(&mut self)
        ensures
            final(self).restore_dialog@ == after_set(old(self).restore_dialog@),
    {
        self.restore_dialog.set();
    }
}

/// A request as plain values: its kind (0 to 3, in the order of the enum)
/// and its path.
pub open spec fn request_model(r: SettingsRequest) -> (int, Seq<char>) {
    match r {
        SettingsRequest::SetAddonDir(p) => (0, p@),
        SettingsRequest::ImportMinion(p) => (1, p@),
        SettingsRequest::Backup(p) => (2, p@),
        SettingsRequest::Restore(p) => (3, p@),
    }
}

pub open spec fn requests_model(s: Seq<SettingsRequest>) -> Seq<(int, Seq<char>)> {
    s.map_values(|r: SettingsRequest| request_model(r))
}

pub open spec fn opt_request(kind: int, path: Option<Seq<char>>) -> Seq<(int, Seq<char>)> {
    match path {
        Some(p) => seq![(kind, p)],
        None => Seq::empty(),
    }
}

/// Where issues with the application are reported.
pub fn issue_url(repo: &str) -> (r: String)
    ensures
        r@ == repo@ + "/issues"@,
{
    let mut out = String::new();
    push_str(&mut out, repo);
    push_str(&mut out, "/issues");
    proof {
        assert(out@ =~= repo@ + "/issues"@);
    }
    out
}

/// The onboarding view: it waits for the user to pick the addon folder.
pub struct Onboard {
    pub addon_dir_dialog: PromisedValue<Option<String>>,
    pub addon_dir_set: bool,
}

impl Onboard {
    pub open spec fn setup_done(&self) -> bool {
        self.addon_dir_set
    }

    pub fn new() -> (o: Onboard)
        ensures
            o.addon_dir_dialog@ == idle_state::<Option<String>>(),
            !o.setup_done(),
    {
        Onboard { addon_dir_dialog: PromisedValue::new(), addon_dir_set: false }
    }

    /// Takes in the folder dialog's answer: a folder picked becomes the
    /// addon folder (the caller saves it) and completes the setup; a
    /// dialog closed without one leaves the setup undone.
    pub fn poll(&mut self, p: PollState<Option<String>>) -> (r: Option<String>)
        ensures
            final(self).addon_dir_dialog@ == dialog_after(old(self).addon_dir_dialog@, p),
            match r {
                Some(x) => dialog_path(old(self).addon_dir_dialog@, p) == Some(x@),
                None => dialog_path(old(self).addon_dir_dialog@, p) is None,
            },
            final(self).setup_done() == (if ready(after_poll(old(self).addon_dir_dialog@, p)) {
                r is Some
            } else {
                old(self).setup_done()
            }),
    {
        self.addon_dir_dialog.poll(p);
        if self.addon_dir_dialog.is_ready() {
            self.addon_dir_dialog.handle();
            match self.addon_dir_dialog.get() {
                Some(Some(path)) => {
                    self.addon_dir_set = true;
                    Some(path.clone())
                },
                _ => {
                    self.addon_dir_set = false;
                    None
                },
            }
        } else {
            None
        }
    }

    pub fn is_setup_done(&self) -> (r: bool)
        ensures
            r == self.setup_done(),
    {
        self.addon_dir_set
    }
}

} // verus!
