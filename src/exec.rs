//! Removing a file into the registry, one step at a time, and the log text
//! of a batch of removals.
use vstd::prelude::*;
use crate::command::Error;
use crate::config::{join, join_spec};
use crate::select::Entry;

verus! {

/// The number of characters of a registry alias.
pub const ALIAS_LENGTH: usize = 25;

pub open spec fn is_alnum(c: char) -> bool {
    ('A' <= c && c <= 'Z') || ('a' <= c && c <= 'z') || ('0' <= c && c <= '9')
}

/// Relies on rand's `Alphanumeric` distribution, sampled from `thread_rng`
/// by `DistString::sample_string`: `n` characters, each an ASCII letter or
/// digit.
#[verifier::external_body]
fn random_alias(n: usize) -> (r: String)
    ensures
        r@.len() == n,
        forall|i: int| 0 <= i < n ==> is_alnum(#[trigger] r@[i]),
{
    rand::distributions::DistString::sample_string(
        &rand::distributions::Alphanumeric,
        &mut rand::thread_rng(),
        n,
    )
}

/// A fresh alias for a registry directory.
pub fn generate_random_dirname() -> (r: String)
    ensures
        r@.len() == ALIAS_LENGTH,
        forall|i: int| 0 <= i < ALIAS_LENGTH ==> is_alnum(#[trigger] r@[i]),
{
    random_alias(ALIAS_LENGTH)
}

/// Where the removal of one file stands.
#[derive(Debug)]
pub enum RemovalState {
    /// The file as named.
    Pending(String),
    /// Its absolute path; the registry directory is to be created.
    Validated(String),
    /// The registry directory exists; the metadata is to be recorded.
    Created(String),
    /// The metadata is recorded; the file is to be moved.
    Staged(String),
    /// The file is in the registry.
    Committed(Entry),
    Failed(Error),
}

/// What to do next.
#[derive(Debug, PartialEq, Eq)]
pub enum RemovalAction {
    /// Make the name absolute; answer with `Resolved`.
    Resolve(String),
    /// Create this directory; answer with `Created`.
    CreateDir(String),
    /// Record the metadata of `file` into `meta`; answer with `Recorded`.
    RecordMeta { file: String, meta: String },
    /// Move `from` to `to`; answer with `Moved`.
    Move { from: String, to: String },
    /// Remove this directory and all it holds, undoing a partial removal.
    RemoveDir(String),
    /// Only tell what would be done: create `dir`, record into `meta`,
    /// move `from` to `to`.
    Describe { dir: String, meta: String, from: String, to: String },
    Done,
}

/// What the last action came to.
#[derive(Debug)]
pub enum RemovalEvent {
    Resolved(Option<String>),
    Created(bool),
    Recorded(Option<Error>),
    Moved(bool),
}

/// The fixed facts of one removal: the registry, the alias chosen for the
/// file, the time of removal, and whether this is a dry run.
#[derive(Debug)]
pub struct Removal {
    pub registry: String,
    pub alias: String,
    pub timestamp: u64,
    pub sandbox: bool,
}

impl Removal {
    pub open spec fn dir_spec(&self) -> Seq<char> {
        join_spec(self.registry@, self.alias@)
    }

    pub open spec fn file_spec(&self) -> Seq<char> {
        join_spec(self.dir_spec(), "file"@)
    }

    pub open spec fn meta_spec(&self) -> Seq<char> {
        join_spec(self.dir_spec(), "meta"@)
    }

    /// The event answers the action that led to the state.
    pub open spec fn fits(state: &RemovalState, event: &RemovalEvent) -> bool {
        match (state, event) {
            (RemovalState::Pending(_), RemovalEvent::Resolved(_)) => true,
            (RemovalState::Validated(_), RemovalEvent::Created(_)) => true,
            (RemovalState::Created(_), RemovalEvent::Recorded(_)) => true,
            (RemovalState::Staged(_), RemovalEvent::Moved(_)) => true,
            _ => false,
        }
    }

    /// The first step: resolve the name.
    pub fn start(&self, name: String) -> (r: (RemovalState, RemovalAction))
        ensures
            r.0 matches RemovalState::Pending(n) && n@ == name@,
            r.1 matches RemovalAction::Resolve(n) && n@ == name@,
    {
        let copy = name.clone();
        (RemovalState::Pending(name), RemovalAction::Resolve(copy))
    }

    /// The next state and action, given what the last action came to. A
    /// missing file, a directory that cannot be created, metadata that
    /// cannot be recorded and a file that cannot be moved each fail this
    /// file alone; the last two undo the directory. A dry run stops after
    /// resolving, describing the rest.
    pub fn step(&self, state: RemovalState, event: RemovalEvent) -> (r: (RemovalState, RemovalAction))
        requires
            Self::fits(&state, &event),
        ensures
            match (state, event) {
                (RemovalState::Pending(name), RemovalEvent::Resolved(None)) => (r.0 matches RemovalState::Failed(Error::FileDoesNotExist(n)) && n@ == name@) && r.1 is Done,
                (RemovalState::Pending(_), RemovalEvent::Resolved(Some(path))) => if self.sandbox {
                    (r.0 matches RemovalState::Failed(e) && e is SandBoxed) && (r.1 matches RemovalAction::Describe { dir, meta, from, to } && dir@ == self.dir_spec() && meta@ == self.meta_spec() && from@ == path@ && to@ == self.file_spec())
                } else {
                    (r.0 matches RemovalState::Validated(p) && p@ == path@) && (r.1 matches RemovalAction::CreateDir(d) && d@ == self.dir_spec())
                },
                (RemovalState::Validated(_), RemovalEvent::Created(false)) => (r.0 matches RemovalState::Failed(Error::CouldNotCreateDir(d)) && d@ == self.dir_spec()) && r.1 is Done,
                (RemovalState::Validated(path), RemovalEvent::Created(true)) => (r.0 matches RemovalState::Created(p) && p@ == path@) && (r.1 matches RemovalAction::RecordMeta { file, meta } && file@ == path@ && meta@ == self.meta_spec()),
                (RemovalState::Created(_), RemovalEvent::Recorded(Some(err))) => r.0 == RemovalState::Failed(err) && (r.1 matches RemovalAction::RemoveDir(d) && d@ == self.dir_spec()),
                (RemovalState::Created(path), RemovalEvent::Recorded(None)) => (r.0 matches RemovalState::Staged(p) && p@ == path@) && (r.1 matches RemovalAction::Move { from, to } && from@ == path@ && to@ == self.file_spec()),
                (RemovalState::Staged(path), RemovalEvent::Moved(false)) => (r.0 matches RemovalState::Failed(Error::CouldNotMove(a, b)) && a@ == path@ && b@ == self.file_spec()) && (r.1 matches RemovalAction::RemoveDir(d) && d@ == self.dir_spec()),
                (RemovalState::Staged(path), RemovalEvent::Moved(true)) => (r.0 matches RemovalState::Committed(e) && e.name@ == path@ && e.alias@ == self.alias@ && e.timestamp == self.timestamp) && r.1 is Done,
                _ => false,
            },
    {
        let dir = join(self.registry.as_str(), self.alias.as_str());
        match (state, event) {
            (RemovalState::Pending(name), RemovalEvent::Resolved(None)) => (
                RemovalState::Failed(Error::FileDoesNotExist(name)),
                RemovalAction::Done,
            ),
            (RemovalState::Pending(_), RemovalEvent::Resolved(Some(path))) => {
                if self.sandbox {
                    let meta = join(dir.as_str(), "meta");
                    let file = join(dir.as_str(), "file");
                    (
                        RemovalState::Failed(Error::SandBoxed),
                        RemovalAction::Describe { dir, meta, from: path, to: file },
                    )
                } else {
                    (RemovalState::Validated(path), RemovalAction::CreateDir(dir))
                }
            },
            (RemovalState::Validated(_), RemovalEvent::Created(false)) => (
                RemovalState::Failed(Error::CouldNotCreateDir(dir)),
                RemovalAction::Done,
            ),
            (RemovalState::Validated(path), RemovalEvent::Created(true)) => {
                let meta = join(dir.as_str(), "meta");
                let file = path.clone();
                (RemovalState::Created(path), RemovalAction::RecordMeta { file, meta })
            },
            (RemovalState::Created(_), RemovalEvent::Recorded(Some(err))) => (
                RemovalState::Failed(err),
                RemovalAction::RemoveDir(dir),
            ),
            (RemovalState::Created(path), RemovalEvent::Recorded(None)) => {
                let to = join(dir.as_str(), "file");
                let from = path.clone();
                (RemovalState::Staged(path), RemovalAction::Move { from, to })
            },
            (RemovalState::Staged(path), RemovalEvent::Moved(false)) => {
                let to = join(dir.as_str(), "file");
                (RemovalState::Failed(Error::CouldNotMove(path, to)), RemovalAction::RemoveDir(dir))
            },
            (RemovalState::Staged(path), RemovalEvent::Moved(true)) => (
                RemovalState::Committed(
                    Entry { name: path, alias: self.alias.clone(), timestamp: self.timestamp },
                ),
                RemovalAction::Done,
            ),
            (state, _) => (state, RemovalAction::Done),
        }
    }
}

} // verus!
