//! The physical device record, and hiding its event node from Android: after
//! its identity and mode are saved, the node is hard-linked under a private
//! `/dev/.keyforge-input-*` name and its public name is removed; it is linked
//! back later only if the same device still sits there. States saved by
//! permission-based hiding (the node's mode cleared) are still restored.
use vstd::prelude::*;

verus! {

/// Declares `std::io::Error`, which the hiding procedure hands back unchanged.
#[verifier::external_type_specification]
#[verifier::external_body]
pub struct ExIoError(std::io::Error);

/// `std::io::Error::last_os_error`: the error of the last failed system call
/// of this thread. It depends on the machine's state; nothing is claimed.
#[verifier::external_body]
fn last_os_error() -> std::io::Error {
    std::io::Error::last_os_error()
}

/// `std::io::Error::raw_os_error`: the operating system's error code that `e`
/// carries, if it carries one. Nothing is claimed of the code.
#[verifier::external_body]
fn raw_os_error(e: &std::io::Error) -> Option<i32> {
    e.raw_os_error()
}

/// The `errno` of the last failed system call, 0 when there is none.
pub fn get_errno() -> i32 {
    match raw_os_error(&last_os_error()) {
        Some(code) => code,
        None => 0,
    }
}

/// What the file system reports of a node: its permission bits and identity.
#[derive(Clone, Copy, Debug, PartialEq, Eq)]
pub struct FileMeta {
    pub mode: u32,
    pub dev: u64,
    pub ino: u64,
    pub rdev: u64,
}

/// The last component of a path: what follows its last `/`.
pub open spec fn base_name(p: Seq<char>) -> Seq<char>
    decreases p.len(),
{
    if p.len() == 0 {
        seq![]
    } else if p.last() == '/' {
        seq![]
    } else {
        base_name(p.drop_last()).push(p.last())
    }
}

/// The private name a hidden node at `p` is linked under:
/// `/dev/.keyforge-input-` followed by the node's own name.
pub open spec fn private_node(p: Seq<char>) -> Seq<char> {
    "/dev/.keyforge-input-"@ + base_name(p)
}

/// The private name a hidden node at `path` is linked under; see
/// `private_node`.
pub fn private_node_path(path: &str) -> (r: String)
    ensures
        r@ == private_node(path@),
{
    let p = crate::text::chars_of(path);
    let mut base: Vec<char> = Vec::new();
    let mut i: usize = 0;
    while i < p.len()
        invariant
            i <= p@.len(),
            p@ == path@,
            base@ == base_name(p@.take(i as int)),
        decreases p@.len() - i,
    {
        assert(p@.take(i + 1).drop_last() =~= p@.take(i as int));
        if p[i] == '/' {
            base = Vec::new();
        } else {
            base.push(p[i]);
        }
        i = i + 1;
    }
    assert(p@.take(i as int) =~= p@);
    let mut name = crate::text::chars_of("/dev/.keyforge-input-");
    let ghost prefix = name@;
    name.append(&mut base);
    assert(name@ =~= prefix + base_name(path@));
    crate::text::string_from_chars(name.as_slice())
}

/// The identity and original permissions of a hidden device node, and the
/// private name it is linked under while hidden, as saved in the state file.
pub struct HiddenDeviceState {
    pub path: String,
    /// The private name of the node while it is hidden; `None` for a state
    /// saved by permission-based hiding, which cleared the node's mode.
    pub private: Option<String>,
    pub mode: u32,
    pub dev: u64,
    pub ino: u64,
    pub rdev: u64,
}

impl HiddenDeviceState {
    /// The state of the node at `path` with metadata `meta`, to be linked
    /// under `private`: its identity and its permission bits (the low twelve
    /// bits of the mode).
    pub fn capture(path: String, private: String, meta: FileMeta) -> (r: HiddenDeviceState)
        ensures
            r == captured(path, private, meta),
    {
        HiddenDeviceState {
            path,
            private: Some(private),
            mode: meta.mode & 0o7777,
            dev: meta.dev,
            ino: meta.ino,
            rdev: meta.rdev,
        }
    }

    /// Whether `meta` describes the node this state was captured from.
    pub open spec fn matches_spec(&self, meta: FileMeta) -> bool {
        self.dev == meta.dev && self.ino == meta.ino && self.rdev == meta.rdev
    }

    /// Whether `meta` describes the node this state was captured from: same
    /// device, inode and special-file device number.
    pub fn matches(&self, meta: &FileMeta) -> (r: bool)
        ensures
            r == self.matches_spec(*meta),
    {
        self.dev == meta.dev && self.ino == meta.ino && self.rdev == meta.rdev
    }

    /// An equal copy.
    pub fn duplicate(&self) -> (r: HiddenDeviceState)
        ensures
            r == *self,
    {
        HiddenDeviceState {
            path: self.path.clone(),
            private: match &self.private {
                Some(q) => Some(q.clone()),
                None => None,
            },
            mode: self.mode,
            dev: self.dev,
            ino: self.ino,
            rdev: self.rdev,
        }
    }
}

/// Why hiding or unhiding failed.
pub enum HideError {
    /// A file-system operation failed with this error.
    Io(std::io::Error),
    /// Hiding was asked for while no physical device is connected.
    NoDevice,
    /// Hiding was asked for but no state-file path was given.
    NoStatePath,
}

/// A file-system operation that the hiding procedure asks for.
pub enum FsAction {
    /// Whether the path exists.
    CheckExists(String),
    /// The metadata of the path.
    Stat(String),
    /// Set the permission bits of the path back to the given mode.
    Restore(String, u32),
    /// Hard-link the node at the first path under the second name.
    Link(String, String),
    /// Remove the name (a file or a link to a node) at the path.
    Remove(String),
    /// Read and decode the state file at the path.
    Load(String),
    /// Encode and write the state to the path, readable by the owner only.
    Save(String, HiddenDeviceState),
    /// The procedure is over, with this result.
    Finish(Result<bool, HideError>),
}

/// What a file-system operation gave.
pub enum FsOutcome {
    /// The answer to `CheckExists`.
    Exists(bool),
    /// The answer to `Stat`.
    Meta(FileMeta),
    /// The answer to `Load`.
    Loaded(HiddenDeviceState),
    /// A `Restore`, `Link`, `Remove` or `Save` succeeded.
    Done,
    /// The operation failed because the path does not exist.
    Missing(std::io::Error),
    /// The operation failed otherwise.
    Failed(std::io::Error),
}

/// Which procedure a task runs.
#[derive(Clone, Copy, Debug, PartialEq, Eq, Structural)]
pub enum HidePurpose {
    /// Restore from a state file left behind (`Device::restore_hidden_state`).
    RestoreFile,
    /// Make the device visible again (`Device::begin_set_hidden(false)`).
    Unhide,
    /// Hide the device (`Device::begin_set_hidden(true)`).
    Hide,
}

/// Where the restore of a captured state leads.
#[derive(Clone, Copy, Debug, PartialEq, Eq, Structural)]
pub enum RestoreFor {
    /// Unhiding with the state held by the device.
    Unhide,
    /// Restoring from the state file.
    File,
}

/// The step a task is at: which answer it awaits.
pub enum HidePhase {
    /// A permission-based state `st`: awaits the metadata of its node.
    RestoreStat { st: HiddenDeviceState, then: RestoreFor },
    /// Awaits the restore of the captured node's mode.
    RestoreMode { then: RestoreFor },
    /// A linked state `st`: awaits the metadata of its private name.
    RelinkStatPrivate { st: HiddenDeviceState, then: RestoreFor },
    /// Awaits the metadata of the public name of the linked state `st`.
    RelinkStatPublic { st: HiddenDeviceState, then: RestoreFor },
    /// Awaits the linking of the private name back to the public one.
    RelinkLink { st: HiddenDeviceState, then: RestoreFor },
    /// Awaits the removal of the private name; the node was put back when
    /// `restored`.
    RelinkUnlinkPrivate { restored: bool, then: RestoreFor },
    /// Awaits whether the state file exists.
    FileExists,
    /// Awaits the loaded state file.
    FileLoad,
    /// Awaits the removal of the state file after a restore that gave `restored`.
    FileRemove { restored: bool },
    /// Unhiding without a held state: awaits whether the state file exists.
    UnhideExists,
    /// Unhiding: the held state was restored; awaits removal of the state file.
    UnhideRemove,
    /// Hiding: awaits whether a stale state file exists.
    HideExists,
    /// Hiding: awaits the metadata of the device node.
    HideStat,
    /// Hiding: awaits the saving of the captured state `st`.
    HideSave { st: HiddenDeviceState },
    /// Hiding: awaits the linking of the node, captured as `st`, under its
    /// private name.
    HideLink { st: HiddenDeviceState },
    /// Hiding: awaits the removal of the node's public name.
    HideUnlink { st: HiddenDeviceState },
    /// Hiding failed with `err` after the private link was made; awaits its
    /// removal.
    HideUndoLink { st: HiddenDeviceState, err: std::io::Error },
    /// Hiding failed with `err`; awaits the removal of the state file.
    HideCleanup { err: std::io::Error },
    /// Finished.
    Over,
}

/// A hiding, unhiding or restoring procedure in progress. The caller performs
/// each `FsAction` that `step` hands out and feeds back what it gave.
pub struct HideTask {
    pub purpose: HidePurpose,
    pub phase: HidePhase,
    /// The device node (the device's `path` when the task began).
    pub device_path: Option<String>,
    /// Where the state file lives.
    pub state_path: Option<String>,
    /// The state of the hidden device, handed back to the device at the end.
    pub hidden: Option<HiddenDeviceState>,
    /// The private name the device node is linked under when hiding.
    pub private_path: Option<String>,
}

/// Whether `o` is an answer that a task in phase `p` can take.
pub open spec fn accepts(p: HidePhase, o: FsOutcome) -> bool {
    match p {
        HidePhase::RestoreStat { .. }
        | HidePhase::HideStat
        | HidePhase::RelinkStatPrivate { .. }
        | HidePhase::RelinkStatPublic { .. } => o is Meta || o is Missing || o is Failed,
        HidePhase::FileLoad => o is Loaded || o is Missing || o is Failed,
        HidePhase::FileExists | HidePhase::UnhideExists | HidePhase::HideExists => o is Exists,
        HidePhase::Over => false,
        _ => o is Done || o is Missing || o is Failed,
    }
}

/// An upper bound on the operations a task in phase `p` still asks for.
pub open spec fn work_left(p: HidePhase) -> nat {
    match p {
        HidePhase::HideExists => 20,
        HidePhase::UnhideExists => 20,
        HidePhase::FileExists => 19,
        HidePhase::FileLoad => 18,
        HidePhase::RestoreStat { .. } => 17,
        HidePhase::RelinkStatPrivate { .. } => 17,
        HidePhase::RestoreMode { .. } => 16,
        HidePhase::RelinkStatPublic { .. } => 16,
        HidePhase::RelinkLink { .. } => 15,
        HidePhase::RelinkUnlinkPrivate { .. } => 14,
        HidePhase::FileRemove { .. } => 13,
        HidePhase::UnhideRemove => 13,
        HidePhase::HideStat => 12,
        HidePhase::HideSave { .. } => 11,
        HidePhase::HideLink { .. } => 10,
        HidePhase::HideUnlink { .. } => 9,
        HidePhase::HideUndoLink { .. } => 8,
        HidePhase::HideCleanup { .. } => 7,
        HidePhase::Over => 0,
    }
}

/// The error of a failed operation.
pub open spec fn outcome_error(o: FsOutcome) -> std::io::Error {
    match o {
        FsOutcome::Missing(e) => e,
        FsOutcome::Failed(e) => e,
        _ => arbitrary(),
    }
}

/// The state captured from the node at `path` with metadata `m`, linked under
/// `private` while hidden.
pub open spec fn captured(path: String, private: String, m: FileMeta) -> HiddenDeviceState {
    HiddenDeviceState {
        path,
        private: Some(private),
        mode: m.mode & 0o7777,
        dev: m.dev,
        ino: m.ino,
        rdev: m.rdev,
    }
}

/// Whether the task's fields fit its phase: the paths that the phase needs
/// are there, and the phase belongs to the task's purpose.
pub open spec fn wf(t: HideTask) -> bool {
    match t.phase {
        HidePhase::RestoreStat { then, .. }
        | HidePhase::RestoreMode { then }
        | HidePhase::RelinkUnlinkPrivate { then, .. } => restore_for_ok(t, then),
        HidePhase::RelinkStatPrivate { st, then }
        | HidePhase::RelinkStatPublic { st, then }
        | HidePhase::RelinkLink { st, then } => restore_for_ok(t, then) && st.private is Some,
        HidePhase::FileExists | HidePhase::FileLoad | HidePhase::FileRemove { .. } => t.state_path
            is Some && file_caller_ok(t),
        HidePhase::UnhideExists => t.purpose == HidePurpose::Unhide && t.state_path is Some
            && t.hidden is None,
        HidePhase::UnhideRemove => t.purpose == HidePurpose::Unhide && t.state_path is Some,
        HidePhase::HideExists | HidePhase::HideStat | HidePhase::HideCleanup { .. } => hiding_ok(t),
        HidePhase::HideSave { st }
        | HidePhase::HideLink { st }
        | HidePhase::HideUnlink { st }
        | HidePhase::HideUndoLink { st, .. } => hiding_ok(t) && st.path == t.device_path->0
            && st.private == t.private_path,
        HidePhase::Over => true,
    }
}

/// A hiding task has the paths it needs and holds no state yet.
pub open spec fn hiding_ok(t: HideTask) -> bool {
    t.purpose == HidePurpose::Hide && t.state_path is Some && t.device_path is Some
        && t.private_path is Some && t.hidden is None
}

/// A restore of a captured state fits the task it serves.
pub open spec fn restore_for_ok(t: HideTask, then: RestoreFor) -> bool {
    match then {
        RestoreFor::Unhide => t.purpose == HidePurpose::Unhide && t.hidden is Some,
        RestoreFor::File => t.state_path is Some && file_caller_ok(t),
    }
}

/// A restore from the state file runs for a standalone restore, for an unhide
/// without held state, or before a hide; the latter two hold no state.
pub open spec fn file_caller_ok(t: HideTask) -> bool {
    t.purpose == HidePurpose::Hide ==> hiding_ok(t)
}

/// The task with a new phase.
pub open spec fn at(t: HideTask, phase: HidePhase) -> HideTask {
    HideTask { phase, ..t }
}

/// The finished task with the given held state.
pub open spec fn over(t: HideTask, hidden: Option<HiddenDeviceState>) -> HideTask {
    HideTask { phase: HidePhase::Over, hidden, ..t }
}

/// What follows the restore of the state file's contents, with result `r`.
pub open spec fn after_file(t: HideTask, r: Result<bool, std::io::Error>) -> (HideTask, FsAction) {
    match t.purpose {
        HidePurpose::RestoreFile => (
            over(t, t.hidden),
            FsAction::Finish(
                match r {
                    Ok(b) => Ok(b),
                    Err(e) => Err(HideError::Io(e)),
                },
            ),
        ),
        HidePurpose::Unhide => (
            over(t, None),
            FsAction::Finish(
                match r {
                    Ok(_) => Ok(false),
                    Err(e) => Err(HideError::Io(e)),
                },
            ),
        ),
        HidePurpose::Hide => match r {
            Ok(_) => (at(t, HidePhase::HideStat), FsAction::Stat(t.device_path->0)),
            Err(e) => (over(t, t.hidden), FsAction::Finish(Err(HideError::Io(e)))),
        },
    }
}

/// What follows the restore of a captured state, with result `r`.
pub open spec fn after_restore(t: HideTask, then: RestoreFor, r: Result<bool, std::io::Error>) -> (
    HideTask,
    FsAction,
) {
    match then {
        RestoreFor::Unhide => match r {
            Ok(_) => match t.state_path {
                Some(sp) => (at(t, HidePhase::UnhideRemove), FsAction::Remove(sp)),
                None => (over(t, None), FsAction::Finish(Ok(false))),
            },
            Err(e) => (over(t, None), FsAction::Finish(Err(HideError::Io(e)))),
        },
        RestoreFor::File => match r {
            Ok(b) => (at(t, HidePhase::FileRemove { restored: b }), FsAction::Remove(t.state_path->0)),
            Err(e) => after_file(t, Err(e)),
        },
    }
}

/// How the restore of the captured state `st` begins: a linked state asks
/// for the metadata of its private name, a permission-based one for that of
/// its node.
pub open spec fn begin_restore(t: HideTask, st: HiddenDeviceState, then: RestoreFor) -> (
    HideTask,
    FsAction,
) {
    match st.private {
        Some(q) => (at(t, HidePhase::RelinkStatPrivate { st, then }), FsAction::Stat(q)),
        None => (at(t, HidePhase::RestoreStat { st, then }), FsAction::Stat(st.path)),
    }
}

/// One step of a task: the task after the answer `o`, and the next operation.
///
/// Restoring a linked state checks that its private name still holds the
/// captured node (else it is left alone and nothing is restored); if the
/// public name is free, the node is linked back under it; the private name is
/// then removed, and the node counts as restored if the public name holds it.
/// Restoring a permission-based state asks for the node's metadata; a missing
/// node counts as not restored, a node of another identity is left alone, the
/// original one gets its mode back. Restoring from the state file checks that
/// it exists, loads it, restores it, and removes the file after a restore that
/// did not fail (a file that is already gone is fine). Unhiding restores the
/// held state (then removes the state file) or, without one, the state file;
/// the held state is dropped unless removing the file failed. Hiding restores
/// a stale state file first, captures the node, saves the state, links the
/// node under its private name and only then removes its public name. If the
/// link fails the state file is removed again; if the removal fails the
/// private link and the state file are removed again.
pub open spec fn next(t: HideTask, o: FsOutcome) -> (HideTask, FsAction) {
    match t.phase {
        HidePhase::RelinkStatPrivate { st, then } => match o {
            FsOutcome::Meta(m) => if st.matches_spec(m) {
                (at(t, HidePhase::RelinkStatPublic { st, then }), FsAction::Stat(st.path))
            } else {
                after_restore(t, then, Ok(false))
            },
            FsOutcome::Missing(_) => after_restore(t, then, Ok(false)),
            _ => after_restore(t, then, Err(outcome_error(o))),
        },
        HidePhase::RelinkStatPublic { st, then } => match o {
            FsOutcome::Missing(_) => (
                at(t, HidePhase::RelinkLink { st, then }),
                FsAction::Link(st.private->0, st.path),
            ),
            FsOutcome::Meta(m) => (
                at(t, HidePhase::RelinkUnlinkPrivate { restored: st.matches_spec(m), then }),
                FsAction::Remove(st.private->0),
            ),
            _ => after_restore(t, then, Err(outcome_error(o))),
        },
        HidePhase::RelinkLink { st, then } => match o {
            FsOutcome::Done => (
                at(t, HidePhase::RelinkUnlinkPrivate { restored: true, then }),
                FsAction::Remove(st.private->0),
            ),
            _ => after_restore(t, then, Err(outcome_error(o))),
        },
        HidePhase::RelinkUnlinkPrivate { restored, then } => match o {
            FsOutcome::Failed(e) => after_restore(t, then, Err(e)),
            _ => after_restore(t, then, Ok(restored)),
        },
        HidePhase::RestoreStat { st, then } => match o {
            FsOutcome::Meta(m) => if st.matches_spec(m) {
                (at(t, HidePhase::RestoreMode { then }), FsAction::Restore(st.path, st.mode))
            } else {
                after_restore(t, then, Ok(false))
            },
            FsOutcome::Missing(_) => after_restore(t, then, Ok(false)),
            _ => after_restore(t, then, Err(outcome_error(o))),
        },
        HidePhase::RestoreMode { then } => match o {
            FsOutcome::Done => after_restore(t, then, Ok(true)),
            _ => after_restore(t, then, Err(outcome_error(o))),
        },
        HidePhase::FileExists => match o {
            FsOutcome::Exists(true) => (at(t, HidePhase::FileLoad), FsAction::Load(t.state_path->0)),
            _ => after_file(t, Ok(false)),
        },
        HidePhase::FileLoad => match o {
            FsOutcome::Loaded(st) => begin_restore(t, st, RestoreFor::File),
            _ => after_file(t, Err(outcome_error(o))),
        },
        HidePhase::FileRemove { restored } => match o {
            FsOutcome::Failed(e) => after_file(t, Err(e)),
            _ => after_file(t, Ok(restored)),
        },
        HidePhase::UnhideExists => match o {
            FsOutcome::Exists(true) => (
                at(t, HidePhase::FileExists),
                FsAction::CheckExists(t.state_path->0),
            ),
            _ => (over(t, None), FsAction::Finish(Ok(false))),
        },
        HidePhase::UnhideRemove => match o {
            FsOutcome::Failed(e) => (over(t, t.hidden), FsAction::Finish(Err(HideError::Io(e)))),
            _ => (over(t, None), FsAction::Finish(Ok(false))),
        },
        HidePhase::HideExists => match o {
            FsOutcome::Exists(true) => (
                at(t, HidePhase::FileExists),
                FsAction::CheckExists(t.state_path->0),
            ),
            _ => (at(t, HidePhase::HideStat), FsAction::Stat(t.device_path->0)),
        },
        HidePhase::HideStat => match o {
            FsOutcome::Meta(m) => {
                let st = captured(t.device_path->0, t.private_path->0, m);
                (at(t, HidePhase::HideSave { st }), FsAction::Save(t.state_path->0, st))
            },
            _ => (over(t, t.hidden), FsAction::Finish(Err(HideError::Io(outcome_error(o))))),
        },
        HidePhase::HideSave { st } => match o {
            FsOutcome::Done => (
                at(t, HidePhase::HideLink { st }),
                FsAction::Link(t.device_path->0, t.private_path->0),
            ),
            _ => (over(t, t.hidden), FsAction::Finish(Err(HideError::Io(outcome_error(o))))),
        },
        HidePhase::HideLink { st } => match o {
            FsOutcome::Done => (at(t, HidePhase::HideUnlink { st }), FsAction::Remove(t.device_path->0)),
            _ => (
                at(t, HidePhase::HideCleanup { err: outcome_error(o) }),
                FsAction::Remove(t.state_path->0),
            ),
        },
        HidePhase::HideUnlink { st } => match o {
            FsOutcome::Done => (over(t, Some(st)), FsAction::Finish(Ok(false))),
            _ => (
                at(t, HidePhase::HideUndoLink { st, err: outcome_error(o) }),
                FsAction::Remove(t.private_path->0),
            ),
        },
        HidePhase::HideUndoLink { err, .. } => (
            at(t, HidePhase::HideCleanup { err }),
            FsAction::Remove(t.state_path->0),
        ),
        HidePhase::HideCleanup { err } => (
            over(t, t.hidden),
            FsAction::Finish(Err(HideError::Io(err))),
        ),
        HidePhase::Over => (t, FsAction::Finish(Ok(false))),
    }
}

/// Clones an optional string that is known to be there.
fn some_string(s: &Option<String>) -> (r: String)
    requires
        s is Some,
    ensures
        r == s->0,
{
    match s {
        Some(v) => v.clone(),
        None => String::new(),
    }
}

/// The error of a failed operation.
fn take_error(o: FsOutcome) -> (e: std::io::Error)
    requires
        o is Missing || o is Failed,
    ensures
        e == outcome_error(o),
{
    error_of(o).unwrap()
}

/// The error of a failed operation, if it failed.
fn error_of(o: FsOutcome) -> (r: Option<std::io::Error>)
    ensures
        (o is Missing || o is Failed) ==> r == Some(outcome_error(o)),
{
    match o {
        FsOutcome::Missing(e) => Some(e),
        FsOutcome::Failed(e) => Some(e),
        _ => None,
    }
}

impl HideTask {
    /// A task that restores from the state file at `state_path`
    /// (`Device::restore_hidden_state`); its first operation.
    pub fn restore_file(state_path: String) -> (r: (HideTask, FsAction))
        ensures
            r.0 == (HideTask {
                purpose: HidePurpose::RestoreFile,
                phase: HidePhase::FileExists,
                device_path: None,
                state_path: Some(state_path),
                hidden: None,
                private_path: None,
            }),
            r.1 == FsAction::CheckExists(state_path),
            wf(r.0),
    {
        let sp = state_path.clone();
        (
            HideTask {
                purpose: HidePurpose::RestoreFile,
                phase: HidePhase::FileExists,
                device_path: None,
                state_path: Some(state_path),
                hidden: None,
                private_path: None,
            },
            FsAction::CheckExists(sp),
        )
    }

    /// `after_file`, performed.
    fn after_file(&mut self, r: Result<bool, std::io::Error>) -> (a: FsAction)
        requires
            file_caller_ok(*old(self)),
            old(self).state_path is Some,
        ensures
            (*final(self), a) == after_file(*old(self), r),
            wf(*final(self)),
    {
        match self.purpose {
            HidePurpose::RestoreFile => {
                self.phase = HidePhase::Over;
                FsAction::Finish(
                    match r {
                        Ok(b) => Ok(b),
                        Err(e) => Err(HideError::Io(e)),
                    },
                )
            },
            HidePurpose::Unhide => {
                self.phase = HidePhase::Over;
                self.hidden = None;
                FsAction::Finish(
                    match r {
                        Ok(_) => Ok(false),
                        Err(e) => Err(HideError::Io(e)),
                    },
                )
            },
            HidePurpose::Hide => match r {
                Ok(_) => {
                    self.phase = HidePhase::HideStat;
                    FsAction::Stat(some_string(&self.device_path))
                },
                Err(e) => {
                    self.phase = HidePhase::Over;
                    FsAction::Finish(Err(HideError::Io(e)))
                },
            },
        }
    }

    /// `after_restore`, performed.
    fn after_restore(&mut self, then: RestoreFor, r: Result<bool, std::io::Error>) -> (a: FsAction)
        requires
            restore_for_ok(*old(self), then),
        ensures
            (*final(self), a) == after_restore(*old(self), then, r),
            wf(*final(self)),
    {
        match then {
            RestoreFor::Unhide => match r {
                Ok(_) => {
                    if self.state_path.is_some() {
                        self.phase = HidePhase::UnhideRemove;
                        FsAction::Remove(some_string(&self.state_path))
                    } else {
                        self.phase = HidePhase::Over;
                        self.hidden = None;
                        FsAction::Finish(Ok(false))
                    }
                },
                Err(e) => {
                    self.phase = HidePhase::Over;
                    self.hidden = None;
                    FsAction::Finish(Err(HideError::Io(e)))
                },
            },
            RestoreFor::File => match r {
                Ok(b) => {
                    self.phase = HidePhase::FileRemove { restored: b };
                    FsAction::Remove(some_string(&self.state_path))
                },
                Err(e) => self.after_file(Err(e)),
            },
        }
    }

    /// `begin_restore`, performed.
    fn begin_restore(&mut self, st: HiddenDeviceState, then: RestoreFor) -> (a: FsAction)
        requires
            restore_for_ok(*old(self), then),
        ensures
            (*final(self), a) == begin_restore(*old(self), st, then),
            wf(*final(self)),
    {
        match &st.private {
            Some(q) => {
                let q = q.clone();
                self.phase = HidePhase::RelinkStatPrivate { st, then };
                FsAction::Stat(q)
            },
            None => {
                let path = st.path.clone();
                self.phase = HidePhase::RestoreStat { st, then };
                FsAction::Stat(path)
            },
        }
    }

    /// Whether the task can take the answer `o`; see `accepts`.
    pub fn accepts(&self, o: &FsOutcome) -> (r: bool)
        ensures
            r == accepts(self.phase, *o),
    {
        match self.phase {
            HidePhase::RestoreStat { .. }
            | HidePhase::HideStat
            | HidePhase::RelinkStatPrivate { .. }
            | HidePhase::RelinkStatPublic { .. } => match o {
                FsOutcome::Meta(_) | FsOutcome::Missing(_) | FsOutcome::Failed(_) => true,
                _ => false,
            },
            HidePhase::FileLoad => match o {
                FsOutcome::Loaded(_) | FsOutcome::Missing(_) | FsOutcome::Failed(_) => true,
                _ => false,
            },
            HidePhase::FileExists | HidePhase::UnhideExists | HidePhase::HideExists => match o {
                FsOutcome::Exists(_) => true,
                _ => false,
            },
            HidePhase::Over => false,
            _ => match o {
                FsOutcome::Done | FsOutcome::Missing(_) | FsOutcome::Failed(_) => true,
                _ => false,
            },
        }
    }

    /// Takes the answer `o` to the last operation and hands out the next one;
    /// see `next`.
    pub fn step(&mut self, o: FsOutcome) -> (a: FsAction)
        requires
            wf(*old(self)),
            accepts(old(self).phase, o),
        ensures
            (*final(self), a) == next(*old(self), o),
            wf(*final(self)),
    {
        let mut phase = HidePhase::Over;
        std::mem::swap(&mut phase, &mut self.phase);
        match phase {
            HidePhase::RelinkStatPrivate { st, then } => match o {
                FsOutcome::Meta(m) => {
                    if st.matches(&m) {
                        let path = st.path.clone();
                        self.phase = HidePhase::RelinkStatPublic { st, then };
                        FsAction::Stat(path)
                    } else {
                        self.after_restore(then, Ok(false))
                    }
                },
                FsOutcome::Missing(_) => self.after_restore(then, Ok(false)),
                _ => {
                    let e = take_error(o);
                    self.after_restore(then, Err(e))
                },
            },
            HidePhase::RelinkStatPublic { st, then } => match o {
                FsOutcome::Missing(_) => {
                    let q = some_string(&st.private);
                    let path = st.path.clone();
                    self.phase = HidePhase::RelinkLink { st, then };
                    FsAction::Link(q, path)
                },
                FsOutcome::Meta(m) => {
                    let q = some_string(&st.private);
                    let restored = st.matches(&m);
                    self.phase = HidePhase::RelinkUnlinkPrivate { restored, then };
                    FsAction::Remove(q)
                },
                _ => {
                    let e = take_error(o);
                    self.after_restore(then, Err(e))
                },
            },
            HidePhase::RelinkLink { st, then } => match o {
                FsOutcome::Done => {
                    let q = some_string(&st.private);
                    self.phase = HidePhase::RelinkUnlinkPrivate { restored: true, then };
                    FsAction::Remove(q)
                },
                _ => {
                    let e = take_error(o);
                    self.after_restore(then, Err(e))
                },
            },
            HidePhase::RelinkUnlinkPrivate { restored, then } => match o {
                FsOutcome::Failed(e) => self.after_restore(then, Err(e)),
                _ => self.after_restore(then, Ok(restored)),
            },
            HidePhase::RestoreStat { st, then } => match o {
                FsOutcome::Meta(m) => {
                    if st.matches(&m) {
                        let path = st.path.clone();
                        let mode = st.mode;
                        self.phase = HidePhase::RestoreMode { then };
                        FsAction::Restore(path, mode)
                    } else {
                        self.after_restore(then, Ok(false))
                    }
                },
                FsOutcome::Missing(_) => self.after_restore(then, Ok(false)),
                _ => {
                    let e = take_error(o);
                    self.after_restore(then, Err(e))
                },
            },
            HidePhase::RestoreMode { then } => match o {
                FsOutcome::Done => self.after_restore(then, Ok(true)),
                _ => {
                    let e = take_error(o);
                    self.after_restore(then, Err(e))
                },
            },
            HidePhase::FileExists => match o {
                FsOutcome::Exists(true) => {
                    self.phase = HidePhase::FileLoad;
                    FsAction::Load(some_string(&self.state_path))
                },
                _ => self.after_file(Ok(false)),
            },
            HidePhase::FileLoad => match o {
                FsOutcome::Loaded(st) => self.begin_restore(st, RestoreFor::File),
                _ => {
                    let e = take_error(o);
                    self.after_file(Err(e))
                },
            },
            HidePhase::FileRemove { restored } => match o {
                FsOutcome::Failed(e) => self.after_file(Err(e)),
                _ => self.after_file(Ok(restored)),
            },
            HidePhase::UnhideExists => match o {
                FsOutcome::Exists(true) => {
                    self.phase = HidePhase::FileExists;
                    FsAction::CheckExists(some_string(&self.state_path))
                },
                _ => {
                    self.hidden = None;
                    FsAction::Finish(Ok(false))
                },
            },
            HidePhase::UnhideRemove => match o {
                FsOutcome::Failed(e) => FsAction::Finish(Err(HideError::Io(e))),
                _ => {
                    self.hidden = None;
                    FsAction::Finish(Ok(false))
                },
            },
            HidePhase::HideExists => match o {
                FsOutcome::Exists(true) => {
                    self.phase = HidePhase::FileExists;
                    FsAction::CheckExists(some_string(&self.state_path))
                },
                _ => {
                    self.phase = HidePhase::HideStat;
                    FsAction::Stat(some_string(&self.device_path))
                },
            },
            HidePhase::HideStat => match o {
                FsOutcome::Meta(m) => {
                    let st = HiddenDeviceState::capture(
                        some_string(&self.device_path),
                        some_string(&self.private_path),
                        m,
                    );
                    let saved = st.duplicate();
                    self.phase = HidePhase::HideSave { st };
                    FsAction::Save(some_string(&self.state_path), saved)
                },
                _ => {
                    let e = take_error(o);
                    FsAction::Finish(Err(HideError::Io(e)))
                },
            },
            HidePhase::HideSave { st } => match o {
                FsOutcome::Done => {
                    self.phase = HidePhase::HideLink { st };
                    FsAction::Link(some_string(&self.device_path), some_string(&self.private_path))
                },
                _ => {
                    let e = take_error(o);
                    FsAction::Finish(Err(HideError::Io(e)))
                },
            },
            HidePhase::HideLink { st } => match o {
                FsOutcome::Done => {
                    self.phase = HidePhase::HideUnlink { st };
                    FsAction::Remove(some_string(&self.device_path))
                },
                _ => {
                    let e = take_error(o);
                    self.phase = HidePhase::HideCleanup { err: e };
                    FsAction::Remove(some_string(&self.state_path))
                },
            },
            HidePhase::HideUnlink { st } => match o {
                FsOutcome::Done => {
                    self.hidden = Some(st);
                    FsAction::Finish(Ok(false))
                },
                _ => {
                    let e = take_error(o);
                    self.phase = HidePhase::HideUndoLink { st, err: e };
                    FsAction::Remove(some_string(&self.private_path))
                },
            },
            HidePhase::HideUndoLink { err, .. } => {
                self.phase = HidePhase::HideCleanup { err };
                FsAction::Remove(some_string(&self.state_path))
            },
            HidePhase::HideCleanup { err } => FsAction::Finish(Err(HideError::Io(err))),
            HidePhase::Over => {
                proof {
                    assert(false);
                }
                FsAction::Finish(Ok(false))
            },
        }
    }
}

/// The physical controller: its evdev and uinput descriptors, its node, the
/// last stick positions and whether they changed since the last report, and
/// the hiding of its node.
pub struct Device {
    pub fd: i32,
    pub ufd: i32,
    pub path: Option<String>,
    pub lx: i32,
    pub ly: i32,
    pub rx: i32,
    pub ry: i32,
    pub ld: bool,
    pub rd: bool,
    /// Where the hidden-device state file lives.
    pub hide_state_path: Option<String>,
    /// The state of the node while it is hidden.
    pub hidden: Option<HiddenDeviceState>,
}

/// How `Device::begin_set_hidden` starts, for a device `d`, where `private`
/// is the private name the device node is linked under when hiding.
///
/// Unhiding restores the held state, or else checks for a state file, or else
/// is already done. Hiding an already hidden device is done at once; without
/// a connected device or a state-file path it fails at once; otherwise it
/// first checks for a stale state file.
pub open spec fn start(d: Device, hide: bool, private: Option<String>) -> (HideTask, FsAction) {
    let base = HideTask {
        purpose: if hide {
            HidePurpose::Hide
        } else {
            HidePurpose::Unhide
        },
        phase: HidePhase::Over,
        device_path: d.path,
        state_path: d.hide_state_path,
        hidden: d.hidden,
        private_path: private,
    };
    if !hide {
        match d.hidden {
            Some(st) => begin_restore(base, st, RestoreFor::Unhide),
            None => match d.hide_state_path {
                Some(sp) => (at(base, HidePhase::UnhideExists), FsAction::CheckExists(sp)),
                None => (base, FsAction::Finish(Ok(false))),
            },
        }
    } else if d.hidden is Some {
        (base, FsAction::Finish(Ok(false)))
    } else if d.path is None {
        (base, FsAction::Finish(Err(HideError::NoDevice)))
    } else if d.hide_state_path is None {
        (base, FsAction::Finish(Err(HideError::NoStatePath)))
    } else {
        (at(base, HidePhase::HideExists), FsAction::CheckExists(d.hide_state_path->0))
    }
}

impl Device {
    /// A disconnected device: no descriptors, no node, sticks at rest, not hidden.
    pub fn new(hide_state_path: Option<String>) -> (r: Device)
        ensures
            r == (Device {
                fd: -1i32,
                ufd: -1i32,
                path: None,
                lx: 0,
                ly: 0,
                rx: 0,
                ry: 0,
                ld: false,
                rd: false,
                hide_state_path,
                hidden: None,
            }),
    {
        Device {
            fd: -1,
            ufd: -1,
            path: None,
            lx: 0,
            ly: 0,
            rx: 0,
            ry: 0,
            ld: false,
            rd: false,
            hide_state_path,
            hidden: None,
        }
    }

    /// Starts restoring from the state file at `state_path`: the node it names
    /// is linked back under its name (or, for a permission-based state, gets
    /// its mode back) if it is still the same device, and the file is removed.
    /// The task finishes with whether the node was restored.
    pub fn restore_hidden_state(state_path: &str) -> (r: (HideTask, FsAction))
        ensures
            r.0.purpose == HidePurpose::RestoreFile,
            r.0.phase is FileExists,
            r.0.device_path is None,
            r.0.hidden is None,
            r.0.state_path matches Some(p) && p@ == state_path@ && r.1 == FsAction::CheckExists(p),
            r.0 == restore_task(r.0.state_path->0),
            wf(r.0),
    {
        HideTask::restore_file(state_path.to_owned())
    }

    /// Starts hiding (`hide`) or unhiding the device's node; the device hands
    /// its held state to the task until `end_set_hidden`. Hiding links the
    /// node under `private_node` of its path.
    pub fn begin_set_hidden(&mut self, hide: bool) -> (r: (HideTask, FsAction))
        ensures
            r == start(*old(self), hide, r.0.private_path),
            hide && old(self).path is Some ==> (r.0.private_path matches Some(q) && q@
                == private_node(old(self).path->0@)),
            !(hide && old(self).path is Some) ==> r.0.private_path is None,
            *final(self) == (Device { hidden: None, ..*old(self) }),
            wf(r.0),
    {
        let mut held: Option<HiddenDeviceState> = None;
        std::mem::swap(&mut held, &mut self.hidden);
        let purpose = if hide {
            HidePurpose::Hide
        } else {
            HidePurpose::Unhide
        };
        let device_path = match &self.path {
            Some(p) => Some(p.clone()),
            None => None,
        };
        let state_path = match &self.hide_state_path {
            Some(p) => Some(p.clone()),
            None => None,
        };
        let private_path = if hide {
            match &self.path {
                Some(p) => Some(private_node_path(p.as_str())),
                None => None,
            }
        } else {
            None
        };
        if !hide {
            match held {
                Some(st) => {
                    let kept = st.duplicate();
                    let mut task = HideTask {
                        purpose,
                        phase: HidePhase::Over,
                        device_path,
                        state_path,
                        hidden: Some(kept),
                        private_path,
                    };
                    let action = task.begin_restore(st, RestoreFor::Unhide);
                    (task, action)
                },
                None => {
                    let action = match &state_path {
                        Some(sp) => FsAction::CheckExists(sp.clone()),
                        None => FsAction::Finish(Ok(false)),
                    };
                    let phase = if state_path.is_some() {
                        HidePhase::UnhideExists
                    } else {
                        HidePhase::Over
                    };
                    (
                        HideTask { purpose, phase, device_path, state_path, hidden: None, private_path },
                        action,
                    )
                },
            }
        } else if held.is_some() {
            (
                HideTask {
                    purpose,
                    phase: HidePhase::Over,
                    device_path,
                    state_path,
                    hidden: held,
                    private_path,
                },
                FsAction::Finish(Ok(false)),
            )
        } else if device_path.is_none() {
            (
                HideTask {
                    purpose,
                    phase: HidePhase::Over,
                    device_path,
                    state_path,
                    hidden: held,
                    private_path,
                },
                FsAction::Finish(Err(HideError::NoDevice)),
            )
        } else if state_path.is_none() {
            (
                HideTask {
                    purpose,
                    phase: HidePhase::Over,
                    device_path,
                    state_path,
                    hidden: held,
                    private_path,
                },
                FsAction::Finish(Err(HideError::NoStatePath)),
            )
        } else {
            let sp = some_string(&state_path);
            (
                HideTask {
                    purpose,
                    phase: HidePhase::HideExists,
                    device_path,
                    state_path,
                    hidden: held,
                    private_path,
                },
                FsAction::CheckExists(sp),
            )
        }
    }

    /// Takes back the held state from a finished task.
    pub fn end_set_hidden(&mut self, task: HideTask)
        ensures
            *final(self) == (Device { hidden: task.hidden, ..*old(self) }),
    {
        self.hidden = task.hidden;
    }

    /// Forgets the descriptors and the node. Returns the uinput descriptor to
    /// destroy and close and the evdev descriptor to release and close, for
    /// those that are open.
    pub fn release(&mut self) -> (r: (Option<i32>, Option<i32>))
        ensures
            r.0 == (if old(self).ufd >= 0 {
                Some(old(self).ufd)
            } else {
                None
            }),
            r.1 == (if old(self).fd >= 0 {
                Some(old(self).fd)
            } else {
                None
            }),
            *final(self) == (Device {
                ufd: if old(self).ufd >= 0 {
                    -1i32
                } else {
                    old(self).ufd
                },
                fd: if old(self).fd >= 0 {
                    -1i32
                } else {
                    old(self).fd
                },
                path: None,
                ..*old(self)
            }),
    {
        let u = if self.ufd >= 0 {
            let u = self.ufd;
            self.ufd = -1;
            Some(u)
        } else {
            None
        };
        let f = if self.fd >= 0 {
            let f = self.fd;
            self.fd = -1;
            Some(f)
        } else {
            None
        };
        self.path = None;
        (u, f)
    }
}

/// A node's mode is restored only after its metadata showed the identity that
/// was captured, and then to the captured mode: a node that was replaced is
/// never changed.
pub proof fn lemma_restore_only_same_node(t: HideTask, o: FsOutcome)
    requires
        next(t, o).1 is Restore,
    ensures
        t.phase matches HidePhase::RestoreStat { st, .. } && o matches FsOutcome::Meta(m)
            && st.matches_spec(m) && next(t, o).1 == FsAction::Restore(st.path, st.mode),
{
}

/// Links are made only in two places: a hide links the device node under its
/// private name once the state is saved, and a restore links the private name
/// back under the public one only when that name is free and the private name
/// was found holding the captured node.
pub proof fn lemma_links(t: HideTask, o: FsOutcome)
    requires
        next(t, o).1 is Link,
    ensures
        t.phase is HideSave ==> o is Done && next(t, o).1 == FsAction::Link(
            t.device_path->0,
            t.private_path->0,
        ),
        !(t.phase is HideSave) ==> (t.phase matches HidePhase::RelinkStatPublic { st, .. }
            && o is Missing && next(t, o).1 == FsAction::Link(st.private->0, st.path)),
{
}

/// A restore reaches the public name only after the private name showed the
/// captured identity.
pub proof fn lemma_relink_checks_private(t: HideTask, o: FsOutcome)
    requires
        next(t, o).0.phase is RelinkStatPublic,
    ensures
        t.phase matches HidePhase::RelinkStatPrivate { st, .. } && o matches FsOutcome::Meta(m)
            && st.matches_spec(m),
{
}

/// The public name of the device node is removed only right after the node
/// was linked under its private name, which in turn happens only right after
/// the state was saved.
pub proof fn lemma_unlink_after_link(t: HideTask, o: FsOutcome)
    ensures
        next(t, o).0.phase is HideUnlink ==> t.phase is HideLink && o is Done && next(t, o).1
            == FsAction::Remove(t.device_path->0),
        next(t, o).0.phase is HideLink ==> t.phase is HideSave && o is Done,
{
}

/// Hiding saves exactly the state captured from the device node, with its
/// private name.
pub proof fn lemma_save_captures_device(t: HideTask, o: FsOutcome)
    requires
        next(t, o).1 is Save,
    ensures
        t.phase is HideStat,
        o matches FsOutcome::Meta(m) && next(t, o).1 == FsAction::Save(
            t.state_path->0,
            captured(t.device_path->0, t.private_path->0, m),
        ),
{
}

/// A task holds a hidden state only once the public name was removed; it
/// never holds one that is still visible.
pub proof fn lemma_hidden_only_when_unlinked(t: HideTask, o: FsOutcome)
    requires
        t.hidden is None,
        next(t, o).0.hidden is Some,
    ensures
        t.phase is HideUnlink,
        o is Done,
{
}

/// Unhiding that succeeds leaves no held state; hiding that succeeds holds one.
pub proof fn lemma_success_settles_hidden(t: HideTask, o: FsOutcome)
    requires
        wf(t),
        accepts(t.phase, o),
        next(t, o).1 matches FsAction::Finish(Ok(_)),
    ensures
        t.purpose == HidePurpose::Unhide ==> next(t, o).0.hidden is None,
        t.purpose == HidePurpose::Hide ==> next(t, o).0.hidden is Some,
{
}

/// Every step either finishes the task or moves it to a phase with less work
/// left, so each procedure ends after a bounded number of operations.
pub proof fn lemma_progress(t: HideTask, o: FsOutcome)
    requires
        wf(t),
        accepts(t.phase, o),
    ensures
        next(t, o).1 is Finish <==> next(t, o).0.phase is Over,
        !(next(t, o).1 is Finish) ==> work_left(next(t, o).0.phase) < work_left(t.phase),
{
}

/// What a name in the file system holds, as the hiding operations see it: a
/// device node with its metadata (a hard link shares its node's), or a record
/// file with the state it holds.
pub ghost enum FsEntry {
    Node(FileMeta),
    Record(HiddenDeviceState),
}

/// The names that the hiding operations act on, and what each holds.
pub ghost struct FsView {
    pub names: Map<Seq<char>, FsEntry>,
}

/// What operation `a` does to the names in `fs`, and what it answers, as the
/// caller performs it (`std::fs`): a link needs a node at its source and a
/// free target; saving writes (or replaces) a record file; a failure carries
/// an unspecified error, and the metadata of a record file is unspecified.
pub open spec fn fs_do(fs: FsView, a: FsAction) -> (FsView, FsOutcome) {
    match a {
        FsAction::CheckExists(p) => (fs, FsOutcome::Exists(fs.names.contains_key(p@))),
        FsAction::Stat(p) => if !fs.names.contains_key(p@) {
            (fs, FsOutcome::Missing(arbitrary()))
        } else {
            match fs.names[p@] {
                FsEntry::Node(m) => (fs, FsOutcome::Meta(m)),
                FsEntry::Record(_) => (fs, FsOutcome::Meta(arbitrary())),
            }
        },
        FsAction::Restore(p, mode) => if !fs.names.contains_key(p@) {
            (fs, FsOutcome::Missing(arbitrary()))
        } else {
            match fs.names[p@] {
                FsEntry::Node(m) => (
                    FsView {
                        names: fs.names.insert(
                            p@,
                            FsEntry::Node(
                                FileMeta { mode: (m.mode - m.mode % 4096 + mode % 4096) as u32, ..m },
                            ),
                        ),
                    },
                    FsOutcome::Done,
                ),
                FsEntry::Record(_) => (fs, FsOutcome::Done),
            }
        },
        FsAction::Link(from, to) => if !fs.names.contains_key(from@) {
            (fs, FsOutcome::Missing(arbitrary()))
        } else if fs.names.contains_key(to@) {
            (fs, FsOutcome::Failed(arbitrary()))
        } else {
            match fs.names[from@] {
                FsEntry::Node(m) => (
                    FsView { names: fs.names.insert(to@, FsEntry::Node(m)) },
                    FsOutcome::Done,
                ),
                FsEntry::Record(_) => (fs, FsOutcome::Failed(arbitrary())),
            }
        },
        FsAction::Remove(p) => if fs.names.contains_key(p@) {
            (FsView { names: fs.names.remove(p@) }, FsOutcome::Done)
        } else {
            (fs, FsOutcome::Missing(arbitrary()))
        },
        FsAction::Load(p) => if !fs.names.contains_key(p@) {
            (fs, FsOutcome::Missing(arbitrary()))
        } else {
            match fs.names[p@] {
                FsEntry::Record(st) => (fs, FsOutcome::Loaded(st)),
                FsEntry::Node(_) => (fs, FsOutcome::Failed(arbitrary())),
            }
        },
        FsAction::Save(p, st) => (
            FsView { names: fs.names.insert(p@, FsEntry::Record(st)) },
            FsOutcome::Done,
        ),
        FsAction::Finish(_) => (fs, FsOutcome::Done),
    }
}

/// Task `t`, with next operation `a`, carried out on `fs` for at most `fuel`
/// operations: the task at the end, its result if it finished, and the names
/// left behind.
pub open spec fn run_on(t: HideTask, a: FsAction, fs: FsView, fuel: nat) -> (
    HideTask,
    Option<Result<bool, HideError>>,
    FsView,
)
    decreases fuel,
{
    match a {
        FsAction::Finish(r) => (t, Some(r), fs),
        _ => if fuel == 0 {
            (t, None, fs)
        } else {
            let (fs2, o) = fs_do(fs, a);
            let (t2, a2) = next(t, o);
            run_on(t2, a2, fs2, (fuel - 1) as nat)
        },
    }
}

/// Whether a hiding task is in the part that restores a record left behind
/// (or checks for one): what comes before it captures the device node.
pub open spec fn hide_prelude(p: HidePhase) -> bool {
    match p {
        HidePhase::HideExists | HidePhase::FileExists | HidePhase::FileLoad => true,
        HidePhase::FileRemove { .. } => true,
        HidePhase::RestoreStat { then, .. }
        | HidePhase::RestoreMode { then }
        | HidePhase::RelinkStatPrivate { then, .. }
        | HidePhase::RelinkStatPublic { then, .. }
        | HidePhase::RelinkLink { then, .. }
        | HidePhase::RelinkUnlinkPrivate { then, .. } => then == RestoreFor::File,
        _ => false,
    }
}

/// A hiding run that succeeds passes through the capture of the device node:
/// from the prelude it reaches `HideStat` asking for the node's metadata, on
/// some names, with the task's other fields unchanged.
proof fn lemma_prelude_reaches_capture(t: HideTask, a: FsAction, fs: FsView, fuel: nat)
    requires
        t.purpose == HidePurpose::Hide,
        t.device_path is Some,
        hide_prelude(t.phase),
        !(a is Finish),
        run_on(t, a, fs, fuel).1 matches Some(Ok(_)),
    ensures
        exists|fs2: FsView, n: nat|
            n <= fuel && run_on(t, a, fs, fuel) == #[trigger] run_on(
                at(t, HidePhase::HideStat),
                FsAction::Stat(t.device_path->0),
                fs2,
                n,
            ),
    decreases fuel,
{
    if fuel == 0 {
        assert(false);
    }
    let (fs2, o) = fs_do(fs, a);
    let (t2, a2) = next(t, o);
    assert(run_on(t, a, fs, fuel) == run_on(t2, a2, fs2, (fuel - 1) as nat));
    assert(t2 == at(t, t2.phase) || a2 is Finish);
    if t2.phase is HideStat {
        assert(t2 == at(t, HidePhase::HideStat));
        assert(a2 == FsAction::Stat(t.device_path->0));
    } else if a2 is Finish {
        assert(a2 matches FsAction::Finish(Err(_)));
    } else {
        assert(hide_prelude(t2.phase));
        lemma_prelude_reaches_capture(t2, a2, fs2, (fuel - 1) as nat);
        let (fs3, n) = choose|fs3: FsView, n: nat|
            n <= fuel - 1 && run_on(t2, a2, fs2, (fuel - 1) as nat) == #[trigger] run_on(
                at(t2, HidePhase::HideStat),
                FsAction::Stat(t2.device_path->0),
                fs3,
                n,
            );
        assert(at(t2, HidePhase::HideStat) == at(t, HidePhase::HideStat));
    }
}

/// From the capture of the device node on, a hiding run that succeeds has
/// captured the node `m` at the device path, recorded it, linked it under its
/// private name and removed its public name.
proof fn lemma_capture_succeeds(t: HideTask, fs: FsView, fuel: nat)
    requires
        hiding_ok(t),
        t.phase is HideStat,
        run_on(t, FsAction::Stat(t.device_path->0), fs, fuel).1 matches Some(Ok(_)),
    ensures
        ({
            let p = t.device_path->0;
            let q = t.private_path->0;
            let sp = t.state_path->0;
            let (t1, r, fs1) = run_on(t, FsAction::Stat(p), fs, fuel);
            exists|m: FileMeta|
                #![trigger captured(p, q, m)]
                t1.hidden == Some(captured(p, q, m)) && fs1.names.contains_key(q@) && fs1.names[q@]
                    == FsEntry::Node(m) && !fs1.names.contains_key(p@) && fs1.names.contains_key(sp@)
                    && fs1.names[sp@] == FsEntry::Record(captured(p, q, m))
        }),
{
    let p = t.device_path->0;
    let q = t.private_path->0;
    let sp = t.state_path->0;
    let a0 = FsAction::Stat(p);
    assert(fuel > 0);
    let (fs1, o1) = fs_do(fs, a0);
    let (t1, a1) = next(t, o1);
    assert(run_on(t, a0, fs, fuel) == run_on(t1, a1, fs1, (fuel - 1) as nat));
    if !(o1 is Meta) {
        assert(a1 matches FsAction::Finish(Err(_)));
        assert(false);
    }
    let m = o1->Meta_0;
    assert(fs.names.contains_key(p@));
    let st = captured(p, q, m);
    assert(a1 == FsAction::Save(sp, st));
    assert(fuel > 1);
    let (fs2, o2) = fs_do(fs1, a1);
    let (t2, a2) = next(t1, o2);
    assert(run_on(t1, a1, fs1, (fuel - 1) as nat) == run_on(t2, a2, fs2, (fuel - 2) as nat));
    assert(a2 == FsAction::Link(p, q));
    assert(fuel > 2);
    let (fs3, o3) = fs_do(fs2, a2);
    let (t3, a3) = next(t2, o3);
    assert(run_on(t2, a2, fs2, (fuel - 2) as nat) == run_on(t3, a3, fs3, (fuel - 3) as nat));
    if !(o3 is Done) {
        assert(t3.phase is HideCleanup);
        assert(a3 == FsAction::Remove(sp));
        if fuel == 3 {
            assert(false);
        }
        let (fs4, o4) = fs_do(fs3, a3);
        let (t4, a4) = next(t3, o4);
        assert(run_on(t3, a3, fs3, (fuel - 3) as nat) == run_on(t4, a4, fs4, (fuel - 4) as nat));
        assert(a4 matches FsAction::Finish(Err(_)));
        assert(false);
    }
    assert(a3 == FsAction::Remove(p));
    assert(fuel > 3);
    let (fs4, o4) = fs_do(fs3, a3);
    let (t4, a4) = next(t3, o4);
    assert(run_on(t3, a3, fs3, (fuel - 3) as nat) == run_on(t4, a4, fs4, (fuel - 4) as nat));
    if !(o4 is Done) {
        assert(t4.phase is HideUndoLink);
        if fuel == 4 {
            assert(false);
        }
        let (fs5, o5) = fs_do(fs4, a4);
        let (t5, a5) = next(t4, o5);
        assert(run_on(t4, a4, fs4, (fuel - 4) as nat) == run_on(t5, a5, fs5, (fuel - 5) as nat));
        assert(t5.phase is HideCleanup);
        if fuel == 5 {
            assert(false);
        }
        let (fs6, o6) = fs_do(fs5, a5);
        let (t6, a6) = next(t5, o6);
        assert(run_on(t5, a5, fs5, (fuel - 5) as nat) == run_on(t6, a6, fs6, (fuel - 6) as nat));
        assert(a6 matches FsAction::Finish(Err(_)));
        assert(false);
    }
    assert(a4 == FsAction::Finish(Ok::<bool, HideError>(false)));
    assert(t4.hidden == Some(st));
    assert(fs2.names[sp@] == FsEntry::Record(st));
    assert(fs2.names.contains_key(p@) && !fs2.names.contains_key(q@));
    assert(fs4.names[q@] == FsEntry::Node(m));
    assert(fs4.names[sp@] == FsEntry::Record(st));
}

/// Whenever hiding a device succeeds, whatever the names held before (a
/// record left behind is restored first): the device holds the state
/// captured from the node `m` that sat at its path, the node is reachable
/// only under its private name, and the record file holds that state.
pub proof fn lemma_hide_success(d: Device, private: String, fs: FsView, fuel: nat)
    requires
        d.hidden is None,
        d.path is Some,
        d.hide_state_path is Some,
        private@ == private_node(d.path->0@),
        run_on(start(d, true, Some(private)).0, start(d, true, Some(private)).1, fs, fuel).1 matches Some(
            Ok(_),
        ),
    ensures
        ({
            let p = d.path->0;
            let sp = d.hide_state_path->0;
            let (t, r, fs1) = run_on(
                start(d, true, Some(private)).0,
                start(d, true, Some(private)).1,
                fs,
                fuel,
            );
            exists|m: FileMeta|
                #![trigger captured(p, private, m)]
                t.hidden == Some(captured(p, private, m)) && fs1.names.contains_key(private@)
                    && fs1.names[private@] == FsEntry::Node(m) && !fs1.names.contains_key(p@)
                    && fs1.names.contains_key(sp@) && fs1.names[sp@] == FsEntry::Record(
                    captured(p, private, m),
                )
        }),
{
    let (t0, a0) = start(d, true, Some(private));
    lemma_prelude_reaches_capture(t0, a0, fs, fuel);
    let (fs2, n) = choose|fs2: FsView, n: nat|
        n <= fuel && run_on(t0, a0, fs, fuel) == #[trigger] run_on(
            at(t0, HidePhase::HideStat),
            FsAction::Stat(t0.device_path->0),
            fs2,
            n,
        );
    lemma_capture_succeeds(at(t0, HidePhase::HideStat), fs2, n);
}

/// Unhiding a device that holds a linked state `st` (this is also what
/// releasing the device runs first): if the private name still holds the
/// captured node, the public name is free and the record file is there, the
/// unhide succeeds, the node is back under its public name with its metadata
/// (mode included), the private name and the record file are gone, and the
/// device holds no state.
pub proof fn lemma_unhide_relinks(d: Device, fs: FsView)
    requires
        d.hidden matches Some(st) && st.private is Some,
        d.hide_state_path is Some,
        ({
            let st = d.hidden->0;
            let q = st.private->0;
            let sp = d.hide_state_path->0;
            &&& fs.names.contains_key(q@)
            &&& fs.names[q@] matches FsEntry::Node(m) && st.matches_spec(m)
            &&& !fs.names.contains_key(st.path@)
            &&& fs.names.contains_key(sp@)
            &&& fs.names[sp@] is Record
        }),
    ensures
        ({
            let st = d.hidden->0;
            let q = st.private->0;
            let sp = d.hide_state_path->0;
            let (t, r, fs2) = run_on(start(d, false, None).0, start(d, false, None).1, fs, 7);
            &&& r == Some(Ok::<bool, HideError>(false))
            &&& t.hidden is None
            &&& fs2.names == fs.names.remove(q@).remove(sp@).insert(st.path@, fs.names[q@])
        }),
{
    let st = d.hidden->0;
    let q = st.private->0;
    let p = st.path;
    let sp = d.hide_state_path->0;
    let m = fs.names[q@]->Node_0;
    assert(q@ != sp@);
    let (t0, a0) = start(d, false, None);
    assert(a0 == FsAction::Stat(q));
    let (fs1, o1) = fs_do(fs, a0);
    assert(o1 == FsOutcome::Meta(m));
    let (t1, a1) = next(t0, o1);
    assert(a1 == FsAction::Stat(p));
    let (fs2, o2) = fs_do(fs1, a1);
    assert(o2 is Missing);
    let (t2, a2) = next(t1, o2);
    assert(a2 == FsAction::Link(q, p));
    let (fs3, o3) = fs_do(fs2, a2);
    assert(o3 == FsOutcome::Done);
    let (t3, a3) = next(t2, o3);
    assert(a3 == FsAction::Remove(q));
    let (fs4, o4) = fs_do(fs3, a3);
    assert(o4 == FsOutcome::Done);
    let (t4, a4) = next(t3, o4);
    assert(a4 == FsAction::Remove(sp));
    let (fs5, o5) = fs_do(fs4, a4);
    assert(o5 == FsOutcome::Done);
    let (t5, a5) = next(t4, o5);
    assert(a5 == FsAction::Finish(Ok::<bool, HideError>(false)));
    assert(t5.hidden is None);
    assert(run_on(t0, a0, fs, 7) == run_on(t1, a1, fs1, 6));
    assert(run_on(t1, a1, fs1, 6) == run_on(t2, a2, fs2, 5));
    assert(run_on(t2, a2, fs2, 5) == run_on(t3, a3, fs3, 4));
    assert(run_on(t3, a3, fs3, 4) == run_on(t4, a4, fs4, 3));
    assert(run_on(t4, a4, fs4, 3) == run_on(t5, a5, fs5, 2));
    assert(fs5.names =~= fs.names.remove(q@).remove(sp@).insert(p@, FsEntry::Node(m)));
}

/// Whenever hiding a device succeeds, unhiding it (or releasing it) right
/// after, with nothing else touching the names in between, succeeds too: the
/// node is back under its path with the metadata it had when it was hidden
/// (its identity and mode), no private name and no record file remain, and
/// the device holds no state.
pub proof fn lemma_hide_unhide_round_trip(d: Device, private: String, fs: FsView, fuel: nat)
    requires
        d.hidden is None,
        d.path is Some,
        d.hide_state_path is Some,
        private@ == private_node(d.path->0@),
        run_on(start(d, true, Some(private)).0, start(d, true, Some(private)).1, fs, fuel).1 matches Some(
            Ok(_),
        ),
    ensures
        ({
            let p = d.path->0;
            let sp = d.hide_state_path->0;
            let (t1, r1, fs1) = run_on(
                start(d, true, Some(private)).0,
                start(d, true, Some(private)).1,
                fs,
                fuel,
            );
            let d2 = Device { hidden: t1.hidden, ..d };
            let (t2, r2, fs2) = run_on(start(d2, false, None).0, start(d2, false, None).1, fs1, 7);
            &&& r2 == Some(Ok::<bool, HideError>(false))
            &&& t2.hidden is None
            &&& exists|m: FileMeta|
                #![trigger captured(p, private, m)]
                t1.hidden == Some(captured(p, private, m)) && fs1.names.contains_key(private@)
                    && fs1.names[private@] == FsEntry::Node(m) && fs2.names == fs1.names.remove(
                    private@,
                ).remove(sp@).insert(p@, FsEntry::Node(m))
            &&& fs2.names.contains_key(p@)
            &&& !fs2.names.contains_key(private@)
            &&& !fs2.names.contains_key(sp@)
        }),
{
    lemma_hide_success(d, private, fs, fuel);
    let p = d.path->0;
    let sp = d.hide_state_path->0;
    let (t1, r1, fs1) = run_on(start(d, true, Some(private)).0, start(d, true, Some(private)).1, fs, fuel);
    let m = choose|m: FileMeta|
        #![trigger captured(p, private, m)]
        t1.hidden == Some(captured(p, private, m)) && fs1.names.contains_key(private@)
            && fs1.names[private@] == FsEntry::Node(m) && !fs1.names.contains_key(p@)
            && fs1.names.contains_key(sp@) && fs1.names[sp@] == FsEntry::Record(captured(p, private, m));
    let d2 = Device { hidden: t1.hidden, ..d };
    lemma_unhide_relinks(d2, fs1);
    let (t2, r2, fs2) = run_on(start(d2, false, None).0, start(d2, false, None).1, fs1, 7);
    assert(fs2.names.contains_key(p@));
    assert(private@ != sp@);
}

/// With the private name and the record path free and nothing else touched,
/// hiding then unhiding gives back the names exactly as they were.
pub proof fn lemma_hide_unhide_restores_names(d: Device, private: String, fs: FsView)
    requires
        d.hidden is None,
        d.path is Some,
        d.hide_state_path is Some,
        private@ == private_node(d.path->0@),
        fs.names.contains_key(d.path->0@),
        fs.names[d.path->0@] is Node,
        !fs.names.contains_key(private@),
        !fs.names.contains_key(d.hide_state_path->0@),
        d.hide_state_path->0@ != private@,
    ensures
        ({
            let (t1, r1, fs1) = run_on(
                start(d, true, Some(private)).0,
                start(d, true, Some(private)).1,
                fs,
                6,
            );
            let d2 = Device { hidden: t1.hidden, ..d };
            let (t2, r2, fs2) = run_on(start(d2, false, None).0, start(d2, false, None).1, fs1, 7);
            &&& r1 == Some(Ok::<bool, HideError>(false))
            &&& r2 == Some(Ok::<bool, HideError>(false))
            &&& t2.hidden is None
            &&& fs2 == fs
        }),
{
    let p = d.path->0;
    let sp = d.hide_state_path->0;
    let (t0, a0) = start(d, true, Some(private));
    assert(a0 == FsAction::CheckExists(sp));
    let (f1, o1) = fs_do(fs, a0);
    let (s1, b1) = next(t0, o1);
    assert(b1 == FsAction::Stat(p));
    assert(run_on(t0, a0, fs, 6) == run_on(s1, b1, f1, 5));
    assert(s1 == at(t0, HidePhase::HideStat));
    let m = fs.names[p@]->Node_0;
    let (f2, o2) = fs_do(f1, b1);
    assert(o2 == FsOutcome::Meta(m));
    let (s2, b2) = next(s1, o2);
    assert(b2 == FsAction::Save(sp, captured(p, private, m)));
    let (f3, o3) = fs_do(f2, b2);
    let (s3, b3) = next(s2, o3);
    assert(b3 == FsAction::Link(p, private));
    let (f4, o4) = fs_do(f3, b3);
    assert(o4 == FsOutcome::Done);
    let (s4, b4) = next(s3, o4);
    assert(b4 == FsAction::Remove(p));
    let (f5, o5) = fs_do(f4, b4);
    assert(o5 == FsOutcome::Done);
    let (s5, b5) = next(s4, o5);
    assert(run_on(s1, b1, f1, 5) == run_on(s2, b2, f2, 4));
    assert(run_on(s2, b2, f2, 4) == run_on(s3, b3, f3, 3));
    assert(run_on(s3, b3, f3, 3) == run_on(s4, b4, f4, 2));
    assert(run_on(s4, b4, f4, 2) == run_on(s5, b5, f5, 1));
    assert(b5 == FsAction::Finish(Ok::<bool, HideError>(false)));
    lemma_hide_unhide_round_trip(d, private, fs, 6);
    let (t1, r1, fs1) = run_on(t0, a0, fs, 6);
    let (t2, r2, fs2) = run_on(
        start(Device { hidden: t1.hidden, ..d }, false, None).0,
        start(Device { hidden: t1.hidden, ..d }, false, None).1,
        fs1,
        7,
    );
    assert(t1.hidden == Some(captured(p, private, m)));
    assert(fs1 == f5);
    assert(f5.names[private@] == FsEntry::Node(m));
    assert(fs2.names =~= fs.names);
}

/// The name a saved state's node is reached under while hidden: its private
/// name for a linked state, its own path for a permission-based one.
pub open spec fn hidden_name(st: HiddenDeviceState) -> String {
    match st.private {
        Some(q) => q,
        None => st.path,
    }
}

/// The task that `Device::restore_hidden_state(sp)` starts.
pub open spec fn restore_task(sp: String) -> HideTask {
    HideTask {
        purpose: HidePurpose::RestoreFile,
        phase: HidePhase::FileExists,
        device_path: None,
        state_path: Some(sp),
        hidden: None,
        private_path: None,
    }
}

/// Restoring a record whose node is gone (the controller was unplugged) is no
/// error: nothing is restored, and the record file is removed, so that later
/// runs do not meet it again; nothing else changes.
pub proof fn lemma_restore_without_node(sp: String, st: HiddenDeviceState, fs: FsView)
    requires
        fs.names.contains_key(sp@),
        fs.names[sp@] == FsEntry::Record(st),
        !fs.names.contains_key(hidden_name(st)@),
    ensures
        run_on(restore_task(sp), FsAction::CheckExists(sp), fs, 5).1 == Some(
            Ok::<bool, HideError>(false),
        ),
        run_on(restore_task(sp), FsAction::CheckExists(sp), fs, 5).2.names == fs.names.remove(sp@),
{
    let t0 = restore_task(sp);
    let a0 = FsAction::CheckExists(sp);
    let (f1, o1) = fs_do(fs, a0);
    let (t1, a1) = next(t0, o1);
    assert(a1 == FsAction::Load(sp));
    let (f2, o2) = fs_do(f1, a1);
    assert(o2 == FsOutcome::Loaded(st));
    let (t2, a2) = next(t1, o2);
    assert(a2 == FsAction::Stat(hidden_name(st)));
    let (f3, o3) = fs_do(f2, a2);
    assert(o3 is Missing);
    let (t3, a3) = next(t2, o3);
    assert(a3 == FsAction::Remove(sp));
    let (f4, o4) = fs_do(f3, a3);
    let (t4, a4) = next(t3, o4);
    assert(a4 == FsAction::Finish(Ok::<bool, HideError>(false)));
    assert(run_on(t0, a0, fs, 5) == run_on(t1, a1, f1, 4));
    assert(run_on(t1, a1, f1, 4) == run_on(t2, a2, f2, 3));
    assert(run_on(t2, a2, f2, 3) == run_on(t3, a3, f3, 2));
    assert(run_on(t3, a3, f3, 2) == run_on(t4, a4, f4, 1));
    assert(f4.names =~= fs.names.remove(sp@));
}

/// Restoring a permission-based record gives the node back the saved mode
/// (its other mode bits kept) when it is the saved node, and reports that;
/// a node of another identity at that path is left alone. Either way the
/// record file is removed and nothing else changes.
pub proof fn lemma_restore_permission_record(sp: String, st: HiddenDeviceState, fs: FsView)
    requires
        st.private is None,
        fs.names.contains_key(sp@),
        fs.names[sp@] == FsEntry::Record(st),
        fs.names.contains_key(st.path@),
        fs.names[st.path@] is Node,
    ensures
        ({
            let m = fs.names[st.path@]->Node_0;
            let (t, r, fs2) = run_on(restore_task(sp), FsAction::CheckExists(sp), fs, 6);
            &&& st.matches_spec(m) ==> r == Some(Ok::<bool, HideError>(true)) && fs2.names
                == fs.names.remove(sp@).insert(
                st.path@,
                FsEntry::Node(
                    FileMeta { mode: (m.mode - m.mode % 4096 + st.mode % 4096) as u32, ..m },
                ),
            )
            &&& !st.matches_spec(m) ==> r == Some(Ok::<bool, HideError>(false)) && fs2.names
                == fs.names.remove(sp@)
        }),
{
    let m = fs.names[st.path@]->Node_0;
    let t0 = restore_task(sp);
    let a0 = FsAction::CheckExists(sp);
    let (f1, o1) = fs_do(fs, a0);
    let (t1, a1) = next(t0, o1);
    let (f2, o2) = fs_do(f1, a1);
    assert(o2 == FsOutcome::Loaded(st));
    let (t2, a2) = next(t1, o2);
    assert(a2 == FsAction::Stat(st.path));
    let (f3, o3) = fs_do(f2, a2);
    assert(o3 == FsOutcome::Meta(m));
    let (t3, a3) = next(t2, o3);
    assert(run_on(t0, a0, fs, 6) == run_on(t1, a1, f1, 5));
    assert(run_on(t1, a1, f1, 5) == run_on(t2, a2, f2, 4));
    assert(run_on(t2, a2, f2, 4) == run_on(t3, a3, f3, 3));
    if st.matches_spec(m) {
        assert(a3 == FsAction::Restore(st.path, st.mode));
        let (f4, o4) = fs_do(f3, a3);
        let (t4, a4) = next(t3, o4);
        assert(a4 == FsAction::Remove(sp));
        let (f5, o5) = fs_do(f4, a4);
        let (t5, a5) = next(t4, o5);
        assert(a5 == FsAction::Finish(Ok::<bool, HideError>(true)));
        assert(run_on(t3, a3, f3, 3) == run_on(t4, a4, f4, 2));
        assert(run_on(t4, a4, f4, 2) == run_on(t5, a5, f5, 1));
        assert(f5.names =~= fs.names.remove(sp@).insert(
            st.path@,
            FsEntry::Node(FileMeta { mode: (m.mode - m.mode % 4096 + st.mode % 4096) as u32, ..m }),
        ));
    } else {
        assert(a3 == FsAction::Remove(sp));
        let (f4, o4) = fs_do(f3, a3);
        let (t4, a4) = next(t3, o4);
        assert(a4 == FsAction::Finish(Ok::<bool, HideError>(false)));
        assert(run_on(t3, a3, f3, 3) == run_on(t4, a4, f4, 2));
        assert(f4.names =~= fs.names.remove(sp@));
    }
}

/// Unhiding a device whose hidden node is gone is no error either: nothing
/// is restored, the record file is removed and the device holds no state.
pub proof fn lemma_unhide_without_node(d: Device, fs: FsView)
    requires
        d.hidden is Some,
        d.hide_state_path is Some,
        !fs.names.contains_key(hidden_name(d.hidden->0)@),
        fs.names.contains_key(d.hide_state_path->0@),
    ensures
        ({
            let (t, r, fs2) = run_on(start(d, false, None).0, start(d, false, None).1, fs, 3);
            &&& r == Some(Ok::<bool, HideError>(false))
            &&& t.hidden is None
            &&& fs2.names == fs.names.remove(d.hide_state_path->0@)
        }),
{
    let sp = d.hide_state_path->0;
    let (t0, a0) = start(d, false, None);
    assert(a0 == FsAction::Stat(hidden_name(d.hidden->0)));
    let (f1, o1) = fs_do(fs, a0);
    assert(o1 is Missing);
    let (t1, a1) = next(t0, o1);
    assert(a1 == FsAction::Remove(sp));
    let (f2, o2) = fs_do(f1, a1);
    let (t2, a2) = next(t1, o2);
    assert(a2 == FsAction::Finish(Ok::<bool, HideError>(false)));
    assert(run_on(t0, a0, fs, 3) == run_on(t1, a1, f1, 2));
    assert(run_on(t1, a1, f1, 2) == run_on(t2, a2, f2, 1));
    assert(f2.names =~= fs.names.remove(sp@));
}

} // verus!
