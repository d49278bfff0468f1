//! The options of a run: what to watch, and how far a watch reaches.
use crate::path::{
    lemma_starts_with_itself, lemma_starts_with_parent, spec_paths, spec_starts_with,
    spec_under_any, under_any, SEPARATOR,
};
use vstd::prelude::*;

verus! {

/// The events that are watched where none are named.
pub const DEFAULT_EVENTS: &'static str =
    "FAN_ACCESS,FAN_MODIFY,FAN_CLOSE_WRITE,FAN_CLOSE_NOWRITE,FAN_OPEN,FAN_ONDIR,FAN_EVENT_ON_CHILD";

/// How far the mark on a path reaches.
#[derive(Clone, Copy, Debug, PartialEq, Eq, Structural)]
pub enum Scope {
    /// The path itself.
    Inode,
    /// The mount that the path lies on.
    Mount,
    /// The filesystem that the path lies on.
    Filesystem,
}

/// The options of a run.
#[derive(Debug)]
pub struct Opt {
    /// The names of the events to watch, with commas between them.
    pub events: Option<String>,
    /// The process whose filesystem namespace the paths are meant in.
    pub namespace: Option<u32>,
    /// Whether everything below the paths is watched.
    pub recursive: bool,
    /// Whether the mounts of the paths are watched.
    pub mount: bool,
    /// Whether the filesystems of the paths are watched.
    pub filesystem: bool,
    /// The watched paths.
    pub paths: Vec<Vec<u8>>,
}

impl Opt {
    /// Whether events are dropped that lie below none of the watched paths:
    /// where the watch is recursive and the paths are meant in the namespace
    /// of this process.
    pub open spec fn spec_filters(&self) -> bool {
        self.recursive && self.namespace is None
    }

    /// Whether an event on `path` is reported.
    pub open spec fn spec_admits(&self, path: Seq<u8>) -> bool {
        !self.spec_filters() || spec_under_any(path, spec_paths(self.paths@))
    }

    /// Completes the options as they were given.
    ///
    /// Where no events were named, the default list is taken. A watch on the
    /// filesystem implies one on the mount, one on the mount is recursive, and
    /// a recursive watch is one on the mount. Nothing else changes.
    pub fn from_args_with_default(given: Opt) -> (opt: Opt)
        ensures
            opt.events matches Some(list) && list@ == (match given.events {
                Some(named) => named@,
                None => DEFAULT_EVENTS@,
            }),
            opt.namespace == given.namespace,
            opt.filesystem == given.filesystem,
            opt.mount == (given.filesystem || given.mount || given.recursive),
            opt.recursive == (given.filesystem || given.mount || given.recursive),
            opt.paths == given.paths,
    {
        let wide = given.filesystem || given.mount || given.recursive;
        let events = match given.events {
            Some(named) => named,
            None => DEFAULT_EVENTS.to_owned(),
        };
        Opt {
            events: Some(events),
            namespace: given.namespace,
            recursive: wide,
            mount: wide,
            filesystem: given.filesystem,
            paths: given.paths,
        }
    }

    /// Whether the paths are meant in the namespace of this process, so that
    /// they are made absolute before they are watched.
    pub fn resolves_paths(&self) -> (local: bool)
        ensures
            local == (self.namespace is None),
    {
        self.namespace.is_none()
    }

    /// How far the mark on each path reaches: the filesystem where that was
    /// asked for, else the mount where that was asked for, else the path.
    pub fn scope(&self) -> (scope: Scope)
        ensures
            scope == if self.filesystem {
                Scope::Filesystem
            } else if self.mount {
                Scope::Mount
            } else {
                Scope::Inode
            },
    {
        if self.filesystem {
            Scope::Filesystem
        } else if self.mount {
            Scope::Mount
        } else {
            Scope::Inode
        }
    }

    /// Whether an event on `path` is reported.
    ///
    /// Where events are filtered, the path has to be one of the watched paths
    /// or lie below one of them, compared name by name. Otherwise every event
    /// is reported.
    pub fn admits(&self, path: &[u8]) -> (admitted: bool)
        ensures
            admitted == self.spec_admits(path@),
    {
        if self.recursive && self.namespace.is_none() {
            under_any(path, &self.paths)
        } else {
            true
        }
    }
}

/// Every watched path is admitted, and so is everything that is named behind
/// a watched path and a separator.
pub proof fn lemma_admits_what_lies_below(opt: Opt, i: int, rest: Seq<u8>)
    requires
        0 <= i < opt.paths@.len(),
    ensures
        opt.spec_admits(opt.paths@[i]@),
        opt.spec_admits(opt.paths@[i]@ + seq![SEPARATOR] + rest),
{
    let bases = spec_paths(opt.paths@);
    let base = opt.paths@[i]@;
    assert(bases[i] == base);
    lemma_starts_with_itself(base);
    lemma_starts_with_parent(base, rest);
    assert(spec_starts_with(base, bases[i]));
    assert(spec_starts_with(base + seq![SEPARATOR] + rest, bases[i]));
}

} // verus!
