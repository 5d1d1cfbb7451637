//! Projects and the list of recently opened ones.
//!
//! A project is a directory the viewer works in.  The manager keeps the
//! most recently opened projects, newest first, capped at a fixed count;
//! reopening a project moves it to the front instead of duplicating it.
//! Reading and writing the on-disk list is the surrounding shell's job.

use vstd::prelude::*;

use crate::text::{file_name_of, spec_file_name, str_eq};

verus! {

/// One recently opened project: its display name, its path, and when it
/// was last opened (seconds since the Unix epoch).
#[derive(Debug, Clone)]
pub struct ProjectInfo {
    pub name: String,
    pub path: String,
    pub last_opened: u64,
}

/// The recently opened projects, most recent first.
#[derive(Debug, Clone)]
pub struct ProjectManager {
    pub recent_projects: Vec<ProjectInfo>,
}

/// How many recent projects are remembered.
pub const RECENT_LIMIT: usize = 10;

/// The list with every entry at `path` taken out, order preserved.
pub open spec fn spec_without_path(s: Seq<ProjectInfo>, path: Seq<char>) -> Seq<ProjectInfo>
    decreases s.len(),
{
    if s.len() == 0 {
        s
    } else {
        let rest = spec_without_path(s.drop_last(), path);
        if s.last().path@ == path {
            rest
        } else {
            rest.push(s.last())
        }
    }
}

/// Relies on std::time::SystemTime::now: the seconds since the Unix
/// epoch, or zero when the clock reads earlier than the epoch.  Nothing
/// further can be promised of a clock reading.
#[verifier::external_body]
fn now_unix_secs() -> u64 {
    match std::time::SystemTime::now().duration_since(std::time::UNIX_EPOCH) {
        Ok(d) => d.as_secs(),
        Err(_) => 0,
    }
}

impl ProjectManager {
    /// A manager remembering nothing yet.
    pub fn new() -> (m: ProjectManager)
        ensures
            m.recent_projects@.len() == 0,
    {
        ProjectManager { recent_projects: Vec::new() }
    }

    /// Records that a project was opened at a given time: any earlier
    /// entry with the same path is dropped, the project goes to the
    /// front with its name taken from the last path component, and the
    /// list is truncated to the newest entries.
    pub fn add_project_at(&mut self, path: String, now: u64)
        ensures
            ({
                let kept = spec_without_path(old(self).recent_projects@, path@);
                &&& final(self).recent_projects@.len() == (if kept.len() + 1 <= RECENT_LIMIT {
                    kept.len() + 1
                } else {
                    RECENT_LIMIT as nat
                })
                &&& final(self).recent_projects@[0].path@ == path@
                &&& final(self).recent_projects@[0].name@ == spec_file_name(path@)
                &&& final(self).recent_projects@[0].last_opened == now
                &&& forall|i: int|
                    1 <= i < final(self).recent_projects@.len()
                        ==> #[trigger] final(self).recent_projects@[i] == kept[i - 1]
            }),
    {
        let ghost full = self.recent_projects@;
        let mut kept: Vec<ProjectInfo> = Vec::new();
        let ghost mut done: Seq<ProjectInfo> = Seq::empty();
        proof {
            assert(kept@ =~= spec_without_path(done, path@));
            assert(done + self.recent_projects@ =~= full);
        }
        while self.recent_projects.len() > 0
            invariant
                kept@ == spec_without_path(done, path@),
                done + self.recent_projects@ == full,
            decreases self.recent_projects@.len(),
        {
            let p = self.recent_projects.remove(0);
            let ghost pv = p;
            let matches_path = str_eq(p.path.as_str(), path.as_str());
            if !matches_path {
                kept.push(p);
            }
            proof {
                assert(done.push(pv).drop_last() =~= done);
                assert(done.push(pv).last() == pv);
                if matches_path {
                    assert(kept@ =~= spec_without_path(done.push(pv), path@));
                } else {
                    assert(kept@ =~= spec_without_path(done, path@).push(pv));
                    assert(kept@ =~= spec_without_path(done.push(pv), path@));
                }
                done = done.push(pv);
                assert(done + self.recent_projects@ =~= full);
            }
        }
        proof {
            assert(done =~= full);
        }
        let name = file_name_of(path.as_str());
        let info = ProjectInfo { name, path, last_opened: now };
        kept.insert(0, info);
        kept.truncate(RECENT_LIMIT);
        self.recent_projects = kept;
    }

    /// Records that a project was opened now, by the system clock.
    pub fn add_project(&mut self, path: String)
        ensures
            ({
                let kept = spec_without_path(old(self).recent_projects@, path@);
                &&& final(self).recent_projects@.len() == (if kept.len() + 1 <= RECENT_LIMIT {
                    kept.len() + 1
                } else {
                    RECENT_LIMIT as nat
                })
                &&& final(self).recent_projects@[0].path@ == path@
                &&& final(self).recent_projects@[0].name@ == spec_file_name(path@)
                &&& forall|i: int|
                    1 <= i < final(self).recent_projects@.len()
                        ==> #[trigger] final(self).recent_projects@[i] == kept[i - 1]
            }),
    {
        let now = now_unix_secs();
        self.add_project_at(path, now);
    }

    /// Forgets the entry at an index; an index past the end changes
    /// nothing.
    pub fn remove_project(&mut self, index: usize)
        ensures
            index < old(self).recent_projects@.len() ==> final(self).recent_projects@ == old(
                self,
            ).recent_projects@.remove(index as int),
            index >= old(self).recent_projects@.len() ==> final(self).recent_projects@ == old(
                self,
            ).recent_projects@,
    {
        if index < self.recent_projects.len() {
            self.recent_projects.remove(index);
        }
    }
}

impl Default for ProjectManager {
    /// A manager remembering nothing yet.
    fn default() -> (m: ProjectManager)
        ensures
            m.recent_projects@.len() == 0,
    {
        ProjectManager::new()
    }
}

/// The project a session is working in.
#[derive(Debug)]
pub struct Project {
    pub path: String,
    pub name: String,
}

impl Project {
    /// A project at a path, named after the path's last component.
    pub fn new(path: String) -> (p: Project)
        ensures
            p.path@ == path@,
            p.name@ == spec_file_name(path@),
    {
        let name = file_name_of(path.as_str());
        Project { path, name }
    }
}

/// The project currently shown, as the display side tracks it.
#[derive(Debug)]
pub struct CurrentProject {
    pub path: String,
    pub name: String,
}

impl CurrentProject {
    /// A descriptor for the project at a path, named after the path's
    /// last component.
    pub fn new(path: String) -> (p: CurrentProject)
        ensures
            p.path@ == path@,
            p.name@ == spec_file_name(path@),
    {
        let name = file_name_of(path.as_str());
        CurrentProject { path, name }
    }
}

} // verus!
