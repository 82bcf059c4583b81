use keyforge::device::{
    private_node_path, Device, FileMeta, FsAction, FsOutcome, HiddenDeviceState, HideError, HideTask,
};
use std::collections::HashMap;
use std::io::{Error, ErrorKind};

/// A small file system: names of nodes with their metadata (a hard link shares
/// it), and saved state files.
#[derive(Default)]
struct FakeFs {
    nodes: HashMap<String, FileMeta>,
    states: HashMap<String, HiddenDeviceState>,
    fail_link: bool,
    fail_node_remove: bool,
    fail_state_remove: bool,
    log: Vec<String>,
}

impl FakeFs {
    fn perform(&mut self, action: FsAction) -> Result<FsOutcome, Result<bool, HideError>> {
        Ok(match action {
            FsAction::CheckExists(p) => {
                self.log.push(format!("exists {p}"));
                FsOutcome::Exists(self.nodes.contains_key(&p) || self.states.contains_key(&p))
            }
            FsAction::Stat(p) => {
                self.log.push(format!("stat {p}"));
                match self.nodes.get(&p) {
                    Some(m) => FsOutcome::Meta(*m),
                    None => FsOutcome::Missing(Error::new(ErrorKind::NotFound, "no node")),
                }
            }
            FsAction::Restore(p, mode) => {
                self.log.push(format!("restore {p} {mode:o}"));
                let m = self.nodes.get_mut(&p).unwrap();
                m.mode = (m.mode & !0o7777) | mode;
                FsOutcome::Done
            }
            FsAction::Link(from, to) => {
                self.log.push(format!("link {from} {to}"));
                if self.fail_link {
                    FsOutcome::Failed(Error::new(ErrorKind::PermissionDenied, "read-only"))
                } else if self.nodes.contains_key(&to) || self.states.contains_key(&to) {
                    FsOutcome::Failed(Error::new(ErrorKind::AlreadyExists, "taken"))
                } else {
                    match self.nodes.get(&from) {
                        Some(m) => {
                            let m = *m;
                            self.nodes.insert(to, m);
                            FsOutcome::Done
                        }
                        None => FsOutcome::Missing(Error::new(ErrorKind::NotFound, "no node")),
                    }
                }
            }
            FsAction::Remove(p) => {
                self.log.push(format!("remove {p}"));
                if self.nodes.contains_key(&p) {
                    if self.fail_node_remove {
                        FsOutcome::Failed(Error::new(ErrorKind::PermissionDenied, "busy"))
                    } else {
                        self.nodes.remove(&p);
                        FsOutcome::Done
                    }
                } else if self.states.contains_key(&p) {
                    if self.fail_state_remove {
                        FsOutcome::Failed(Error::new(ErrorKind::PermissionDenied, "busy"))
                    } else {
                        self.states.remove(&p);
                        FsOutcome::Done
                    }
                } else {
                    FsOutcome::Missing(Error::new(ErrorKind::NotFound, "gone"))
                }
            }
            FsAction::Load(p) => {
                self.log.push(format!("load {p}"));
                match self.states.get(&p) {
                    Some(s) => FsOutcome::Loaded(s.duplicate()),
                    None => FsOutcome::Missing(Error::new(ErrorKind::NotFound, "no state")),
                }
            }
            FsAction::Save(p, st) => {
                self.log.push(format!("save {p}"));
                self.states.insert(p, st);
                FsOutcome::Done
            }
            FsAction::Finish(r) => return Err(r),
        })
    }

    fn run(&mut self, mut task: HideTask, mut action: FsAction) -> (HideTask, Result<bool, HideError>) {
        loop {
            match self.perform(action) {
                Ok(outcome) => {
                    assert!(task.accepts(&outcome));
                    action = task.step(outcome);
                }
                Err(r) => return (task, r),
            }
        }
    }
}

/// A state as permission-based hiding saved it: captured, without a private name.
fn legacy(path: &str, m: FileMeta) -> HiddenDeviceState {
    let mut st = HiddenDeviceState::capture(path.to_string(), private_node_path(path), m);
    st.private = None;
    st
}

fn meta(mode: u32, ino: u64) -> FileMeta {
    FileMeta { mode: 0o020000 | mode, dev: 5, ino, rdev: 0x0d47 }
}

#[test]
fn hidden_state_restores_original_mode() {
    let mut fs = FakeFs::default();
    let device = String::from("dir/event7");
    let state_path = String::from("dir/hidden.json");
    fs.nodes.insert(device.clone(), meta(0o640, 7));
    let state = legacy(&device, fs.nodes[&device]);
    assert_eq!(state.mode, 0o640);
    fs.states.insert(state_path.clone(), state);
    fs.nodes.get_mut(&device).unwrap().mode = meta(0o000, 7).mode;

    let (task, first) = Device::restore_hidden_state(&state_path);
    let (_, result) = fs.run(task, first);
    assert!(matches!(result, Ok(true)));
    assert_eq!(fs.nodes[&device].mode & 0o7777, 0o640);
    assert!(!fs.states.contains_key(&state_path));
}

#[test]
fn hidden_state_never_changes_a_replaced_node() {
    let mut fs = FakeFs::default();
    let device = String::from("dir/event7");
    let state_path = String::from("dir/hidden.json");
    fs.nodes.insert(device.clone(), meta(0o640, 7));
    let state = legacy(&device, fs.nodes[&device]);
    fs.states.insert(state_path.clone(), state);
    // The replacement has its own inode and mode.
    fs.nodes.insert(device.clone(), meta(0o600, 8));

    let (task, first) = Device::restore_hidden_state(&state_path);
    let (_, result) = fs.run(task, first);
    assert!(matches!(result, Ok(false)));
    assert_eq!(fs.nodes[&device].mode & 0o7777, 0o600);
    assert!(!fs.states.contains_key(&state_path));
    assert!(!fs.log.iter().any(|l| l.starts_with("restore")));
}

#[test]
fn restoring_without_a_state_file_does_nothing() {
    let mut fs = FakeFs::default();
    let (task, first) = Device::restore_hidden_state("none.json");
    let (_, result) = fs.run(task, first);
    assert!(matches!(result, Ok(false)));
    assert_eq!(fs.log, vec!["exists none.json"]);
}

#[test]
fn restoring_a_linked_state_puts_the_node_back() {
    let mut fs = FakeFs::default();
    fs.nodes.insert(String::from("/dev/.keyforge-input-event3"), meta(0o660, 3));
    let st = HiddenDeviceState::capture(
        String::from("/dev/input/event3"),
        String::from("/dev/.keyforge-input-event3"),
        meta(0o660, 3),
    );
    fs.states.insert(String::from("state.json"), st);
    let (task, first) = Device::restore_hidden_state("state.json");
    let (_, result) = fs.run(task, first);
    assert!(matches!(result, Ok(true)));
    assert_eq!(fs.nodes["/dev/input/event3"], meta(0o660, 3));
    assert!(!fs.nodes.contains_key("/dev/.keyforge-input-event3"));
    assert!(fs.states.is_empty());
}

#[test]
fn restoring_a_linked_state_leaves_a_new_node_alone() {
    let mut fs = FakeFs::default();
    fs.nodes.insert(String::from("/dev/.keyforge-input-event3"), meta(0o660, 3));
    fs.nodes.insert(String::from("/dev/input/event3"), meta(0o600, 8));
    let st = HiddenDeviceState::capture(
        String::from("/dev/input/event3"),
        String::from("/dev/.keyforge-input-event3"),
        meta(0o660, 3),
    );
    fs.states.insert(String::from("state.json"), st);
    let (task, first) = Device::restore_hidden_state("state.json");
    let (_, result) = fs.run(task, first);
    assert!(matches!(result, Ok(false)));
    assert_eq!(fs.nodes["/dev/input/event3"], meta(0o600, 8));
    assert!(!fs.nodes.contains_key("/dev/.keyforge-input-event3"));
    assert!(fs.states.is_empty());
}

#[test]
fn private_names_follow_the_node_name() {
    assert_eq!(private_node_path("/dev/input/event3"), "/dev/.keyforge-input-event3");
    assert_eq!(private_node_path("event12"), "/dev/.keyforge-input-event12");
    assert_eq!(private_node_path("/dev/input/"), "/dev/.keyforge-input-");
}

#[test]
fn new_device_is_disconnected() {
    let d = Device::new(Some(String::from("state.json")));
    assert_eq!((d.fd, d.ufd), (-1, -1));
    assert!(d.path.is_none());
    assert_eq!((d.lx, d.ly, d.rx, d.ry, d.ld, d.rd), (0, 0, 0, 0, false, false));
    assert_eq!(d.hide_state_path.as_deref(), Some("state.json"));
    assert!(d.hidden.is_none());
}

fn connected(fs: &mut FakeFs) -> Device {
    let mut d = Device::new(Some(String::from("state.json")));
    d.path = Some(String::from("/dev/input/event3"));
    fs.nodes.insert(String::from("/dev/input/event3"), meta(0o660, 3));
    d
}

fn set_hidden(fs: &mut FakeFs, d: &mut Device, hide: bool) -> Result<bool, HideError> {
    let (task, first) = d.begin_set_hidden(hide);
    let (task, result) = fs.run(task, first);
    d.end_set_hidden(task);
    result
}

#[test]
fn hide_then_unhide_round_trip() {
    let mut fs = FakeFs::default();
    let mut d = connected(&mut fs);
    assert!(set_hidden(&mut fs, &mut d, true).is_ok());
    assert!(!fs.nodes.contains_key("/dev/input/event3"));
    assert_eq!(fs.nodes["/dev/.keyforge-input-event3"], meta(0o660, 3));
    assert!(d.hidden.is_some());
    assert_eq!(fs.states["state.json"].mode, 0o660);
    assert_eq!(fs.states["state.json"].private.as_deref(), Some("/dev/.keyforge-input-event3"));
    assert_eq!(
        fs.log,
        vec![
            "exists state.json",
            "stat /dev/input/event3",
            "save state.json",
            "link /dev/input/event3 /dev/.keyforge-input-event3",
            "remove /dev/input/event3",
        ]
    );
    // Hiding again does nothing.
    fs.log.clear();
    assert!(set_hidden(&mut fs, &mut d, true).is_ok());
    assert!(fs.log.is_empty());

    assert!(set_hidden(&mut fs, &mut d, false).is_ok());
    assert_eq!(fs.nodes["/dev/input/event3"], meta(0o660, 3));
    assert!(!fs.nodes.contains_key("/dev/.keyforge-input-event3"));
    assert!(d.hidden.is_none());
    assert!(fs.states.is_empty());
}

#[test]
fn hiding_needs_a_device_and_a_state_path() {
    let mut fs = FakeFs::default();
    let mut d = Device::new(Some(String::from("state.json")));
    assert!(matches!(set_hidden(&mut fs, &mut d, true), Err(HideError::NoDevice)));
    let mut d = Device::new(None);
    d.path = Some(String::from("/dev/input/event3"));
    assert!(matches!(set_hidden(&mut fs, &mut d, true), Err(HideError::NoStatePath)));
    assert!(fs.log.is_empty());
}

#[test]
fn hiding_restores_a_stale_state_first() {
    let mut fs = FakeFs::default();
    let mut d = connected(&mut fs);
    fs.nodes.insert(String::from("/dev/input/event9"), meta(0o000, 9));
    let stale = legacy("/dev/input/event9", meta(0o640, 9));
    fs.states.insert(String::from("state.json"), stale);
    assert!(set_hidden(&mut fs, &mut d, true).is_ok());
    assert_eq!(fs.nodes["/dev/input/event9"].mode & 0o7777, 0o640);
    assert!(!fs.nodes.contains_key("/dev/input/event3"));
    assert_eq!(fs.states["state.json"].path, "/dev/input/event3");
}

#[test]
fn a_failed_link_removes_the_saved_state() {
    let mut fs = FakeFs::default();
    let mut d = connected(&mut fs);
    fs.fail_link = true;
    match set_hidden(&mut fs, &mut d, true) {
        Err(HideError::Io(e)) => assert_eq!(e.kind(), ErrorKind::PermissionDenied),
        _ => panic!("expected the link error"),
    }
    assert!(d.hidden.is_none());
    assert!(fs.states.is_empty());
    assert_eq!(fs.nodes["/dev/input/event3"], meta(0o660, 3));
}

#[test]
fn a_failed_unlink_undoes_the_private_link() {
    let mut fs = FakeFs::default();
    let mut d = connected(&mut fs);
    fs.fail_node_remove = true;
    assert!(matches!(set_hidden(&mut fs, &mut d, true), Err(HideError::Io(_))));
    assert!(d.hidden.is_none());
    assert!(fs.states.is_empty());
    assert_eq!(fs.nodes["/dev/input/event3"], meta(0o660, 3));
    // The private link could not be removed either (node removal fails).
    assert_eq!(fs.log.last().map(String::as_str), Some("remove state.json"));
}

#[test]
fn unhiding_keeps_the_state_when_the_file_cannot_be_removed() {
    let mut fs = FakeFs::default();
    let mut d = connected(&mut fs);
    assert!(set_hidden(&mut fs, &mut d, true).is_ok());
    fs.fail_state_remove = true;
    assert!(matches!(set_hidden(&mut fs, &mut d, false), Err(HideError::Io(_))));
    assert!(d.hidden.is_some());
    assert_eq!(fs.nodes["/dev/input/event3"], meta(0o660, 3));
}

#[test]
fn unhiding_from_a_state_file_left_behind() {
    let mut fs = FakeFs::default();
    let mut d = connected(&mut fs);
    fs.nodes.get_mut("/dev/input/event3").unwrap().mode = meta(0, 3).mode;
    let st = legacy("/dev/input/event3", meta(0o640, 3));
    fs.states.insert(String::from("state.json"), st);
    assert!(set_hidden(&mut fs, &mut d, false).is_ok());
    assert_eq!(fs.nodes["/dev/input/event3"].mode & 0o7777, 0o640);
    assert!(fs.states.is_empty());
}

#[test]
fn release_hands_back_the_open_descriptors() {
    let mut d = Device::new(None);
    d.fd = 7;
    d.ufd = 9;
    d.path = Some(String::from("/dev/input/event1"));
    assert_eq!(d.release(), (Some(9), Some(7)));
    assert_eq!((d.fd, d.ufd), (-1, -1));
    assert!(d.path.is_none());
    assert_eq!(d.release(), (None, None));
}

#[test]
fn matches_compares_identity_only() {
    let st = HiddenDeviceState::capture(String::from("p"), String::from("q"), meta(0o640, 7));
    assert!(st.matches(&meta(0o000, 7)));
    assert!(!st.matches(&meta(0o640, 8)));
    assert!(!st.matches(&FileMeta { dev: 6, ..meta(0o640, 7) }));
}
