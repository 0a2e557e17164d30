//! The branch lifecycle manager: the user verbs — `init`, `create`,
//! `delete`, `use`, `stop`, `resume`, `delete-project` — as transitions
//! over a model of everything a project owns on the host: its metadata
//! document, its backing image, its mount, its subvolumes and its
//! containers.
//!
//! The commands that realize a transition (the privileged mount and
//! subvolume tools, the container runtime) run outside this crate; the
//! shell around it performs one verb by calling the model first and then
//! issuing the commands the new state calls for.

use vstd::prelude::*;

use crate::config::Config;
use crate::errors::AppError;
use crate::text::str_eq;

verus! {

/// Whether the list of names holds `name`.
pub open spec fn names_contain(s: Seq<String>, name: Seq<char>) -> bool {
    exists|i: int| 0 <= i < s.len() && s[i]@ == name
}

/// The branch names of a document, in order.
pub open spec fn branch_names(c: Config) -> Seq<Seq<char>> {
    c.branches@.map_values(|b: crate::config::Branch| b.name@)
}

/// The names in a list, each as its characters.
pub open spec fn name_views(s: Seq<String>) -> Seq<Seq<char>> {
    s.map_values(|n: String| n@)
}

/// One provisioned project and everything it owns on the host.
pub struct Project {
    /// The metadata document.
    pub config: Config,
    /// Whether the backing image file is reserved on disk.
    pub image_exists: bool,
    /// Whether the project filesystem is mounted.
    pub mounted: bool,
    /// The subvolume names present in the project filesystem.
    pub subvols: Vec<String>,
    /// The branches whose containers are running.
    pub running: Vec<String>,
}

impl Project {
    /// What every reachable project state keeps: a well-formed document; a
    /// mount only over a reserved image; on a mounted project, a subvolume
    /// for every branch the document knows; containers only for known
    /// branches, one per branch.
    pub open spec fn inv(self) -> bool {
        &&& self.config.wf()
        &&& self.mounted ==> self.image_exists
        &&& forall|i: int|
            0 <= i < self.config.branches@.len() ==> names_contain(
                self.subvols@,
                (#[trigger] self.config.branches@[i]).name@,
            )
    }
}

/// The branch names of a document, for membership tests.
pub open spec fn name_views_as_strings(c: Config) -> Seq<String> {
    c.branches@.map_values(|b: crate::config::Branch| b.name)
}

/// The whole installation as the verbs see it: at most one project.
pub struct SystemState {
    /// The provisioned project, when one exists.
    pub project: Option<Project>,
}

impl SystemState {
    /// Every reachable state keeps its project's invariant.
    pub open spec fn inv(self) -> bool {
        self.project matches Some(p) ==> p.inv()
    }

    /// A fresh installation: no project.
    pub fn new() -> (r: SystemState)
        ensures
            r.inv(),
            r.project is None,
    {
        SystemState { project: None }
    }

    /// Provision a project: reserve and mount the image, create the main
    /// subvolume, start the main container, record the metadata.  Fails
    /// without change when a project already exists.
    pub fn init(&mut self, name: String, main_port: u16) -> (r: Result<(), AppError>)
        requires
            old(self).inv(),
            7000 <= main_port <= 7999,
        ensures
            final(self).inv(),
            match r {
                Ok(()) => {
                    &&& old(self).project is None
                    &&& final(self).project matches Some(p)
                    &&& p.config.name@ == name@
                    &&& p.config.wf()
                    &&& p.image_exists
                    &&& p.mounted
                    &&& p.subvols@.len() == 1 && p.subvols@[0]@ == "main"@
                    &&& p.running@.len() == 1 && p.running@[0]@ == "main"@
                    &&& p.config.branches@.len() == 1 && p.config.branches@[0].port == main_port
                },
                Err(e) => {
                    &&& *final(self) == *old(self)
                    &&& old(self).project is Some
                    &&& e matches AppError::ProjectAlreadyExists { name: n } && n@ == name@
                },
            },
    {
        if self.project.is_some() {
            return Err(AppError::ProjectAlreadyExists { name });
        }
        let config = Config::new(name, main_port);
        let mut subvols: Vec<String> = Vec::new();
        subvols.push(String::from_str("main"));
        let mut running: Vec<String> = Vec::new();
        running.push(String::from_str("main"));
        let p = Project { config, image_exists: true, mounted: true, subvols, running };
        proof {
            assert(p.config.branches@[0].name@ == "main"@);
            assert(p.subvols@[0]@ == "main"@);
        }
        self.project = Some(p);
        Ok(())
    }

    /// Create a branch: ensure the project is mounted, snapshot the main
    /// subvolume under the branch name, start its container, record it.
    /// The caller hands in a fresh port from the window, found by probing.
    pub fn create(&mut self, branch_name: String, port: u16) -> (r: Result<(), AppError>)
        requires
            old(self).inv(),
            old(self).project matches Some(p) ==> p.config.port_min <= port
                <= p.config.port_max && !(exists|i: int|
                0 <= i < p.config.branches@.len() && (#[trigger] p.config.branches@[i]).port
                    == port),
        ensures
            final(self).inv(),
            match r {
                Ok(()) => {
                    &&& old(self).project matches Some(p)
                    &&& final(self).project matches Some(q)
                    &&& q.mounted
                    &&& q.config.branches@.len() == p.config.branches@.len() + 1
                    &&& q.config.branches@.drop_last() == p.config.branches@
                    &&& q.config.branches@.last().name@ == branch_name@
                    &&& q.config.branches@.last().port == port
                    &&& !q.config.branches@.last().is_main
                    &&& q.subvols@.len() == p.subvols@.len() + 1
                    &&& q.subvols@.drop_last() == p.subvols@
                    &&& q.subvols@.last()@ == branch_name@
                    &&& q.running@.len() == p.running@.len() + 1
                    &&& q.running@.drop_last() == p.running@
                    &&& q.running@.last()@ == branch_name@
                    &&& q.config.active_branch == p.config.active_branch
                    &&& q.config.name == p.config.name
                },
                Err(e) => {
                    &&& *final(self) == *old(self)
                    &&& match old(self).project {
                        None => e is DefaultProjectNotFound,
                        Some(p) => {
                            if names_contain(name_views_as_strings(p.config), branch_name@)
                                || branch_name@ == "main"@ {
                                e matches AppError::BranchAlreadyExists { name: n } && n@
                                    == branch_name@
                            } else {
                                !p.image_exists && e matches AppError::DiskMount { .. }
                            }
                        },
                    }
                },
            },
    {
        match &mut self.project {
            None => Err(AppError::DefaultProjectNotFound),
            Some(p) => {
                if str_eq(branch_name.as_str(), "main") {
                    proof {
                        let w = choose|i: int|
                            0 <= i < p.config.branches@.len() && (
                            #[trigger] p.config.branches@[i]).is_main;
                        crate::config::lemma_main_count_one(p.config.branches@);
                        assert(p.config.branches@[w].name@ == "main"@);
                        assert(name_views_as_strings(p.config)[w]@ == "main"@);
                    }
                    return Err(AppError::BranchAlreadyExists { name: branch_name });
                }
                if p.config.branch_port(branch_name.as_str()).is_some() {
                    proof {
                        let w = choose|i: int|
                            0 <= i < p.config.branches@.len() && (
                            #[trigger] p.config.branches@[i]).name@ == branch_name@;
                        assert(name_views_as_strings(p.config)[w]@ == branch_name@);
                    }
                    return Err(AppError::BranchAlreadyExists { name: branch_name });
                }
                if !p.image_exists {
                    return Err(
                        AppError::DiskMount {
                            message: String::from_str("the backing image is gone"),
                        },
                    );
                }
                p.mounted = true;
                let ghost pre = *p;
                p.subvols.push(branch_name.clone());
                p.running.push(branch_name.clone());
                p.config.create_branch(branch_name, port);
                proof {
                    let q = *p;
                    assert(q.config.branches@.drop_last() == pre.config.branches@);
                    assert(q.subvols@.drop_last() =~= pre.subvols@);
                    assert(q.running@.drop_last() =~= pre.running@);
                    assert forall|i: int|
                        0 <= i < q.config.branches@.len() implies names_contain(
                        q.subvols@,
                        (#[trigger] q.config.branches@[i]).name@,
                    ) by {
                        if i < q.config.branches@.len() - 1 {
                            assert(q.config.branches@[i] == pre.config.branches@[i]);
                            assert(names_contain(pre.subvols@, q.config.branches@[i].name@));
                            let w = choose|k: int|
                                0 <= k < pre.subvols@.len() && pre.subvols@[k]@
                                    == q.config.branches@[i].name@;
                            assert(q.subvols@[w]@ == q.config.branches@[i].name@);
                        } else {
                            assert(q.subvols@.last()@ == q.config.branches@[i].name@);
                            assert(q.subvols@[q.subvols@.len() - 1]@
                                == q.config.branches@[i].name@);
                        }
                    }
                }
                Ok(())
            },
        }
    }

    /// Switch the proxy's target.  Naming `main` clears the selection;
    /// naming an unknown branch changes nothing and reports it.
    pub fn use_branch(&mut self, branch_name: String) -> (r: Result<(), AppError>)
        requires
            old(self).inv(),
        ensures
            final(self).inv(),
            match old(self).project {
                None => r is Err && *final(self) == *old(self),
                Some(p) => {
                    &&& final(self).project is Some
                    &&& ({
                        let known = (exists|i: int|
                            0 <= i < p.config.branches@.len() && (
                            #[trigger] p.config.branches@[i]).name@ == branch_name@)
                            || branch_name@ == "main"@;
                        let q = final(self).project->Some_0;
                        &&& known ==> r is Ok && (if branch_name@ == "main"@ {
                            q.config.active_branch is None
                        } else {
                            q.config.active_branch matches Some(n) && n@ == branch_name@
                        }) && q.config.branches == p.config.branches && q.running == p.running
                            && q.subvols == p.subvols && q.mounted == p.mounted
                        &&& !known ==> *final(self) == *old(self) && (r matches Err(e)
                            && e matches AppError::BranchNotFound { name: n } && n@ == branch_name@)
                    })
                },
            },
    {
        match &mut self.project {
            None => Err(AppError::DefaultProjectNotFound),
            Some(p) => p.config.set_active_branch(branch_name),
        }
    }

    /// Remove a branch: its container, its subvolume, and its record.
    /// The main branch is never removed.
    pub fn delete(&mut self, branch_name: &str) -> (r: Result<(), AppError>)
        requires
            old(self).inv(),
        ensures
            final(self).inv(),
            match old(self).project {
                None => *final(self) == *old(self) && (r matches Err(e)
                    && e is DefaultProjectNotFound),
                Some(p) => {
                    &&& final(self).project is Some
                    &&& ({
                        let q = final(self).project->Some_0;
                        match r {
                            Ok(()) => {
                                &&& branch_name@ != "main"@
                                &&& exists|i: int|
                                    {
                                        &&& 0 <= i < p.config.branches@.len()
                                        &&& (#[trigger] p.config.branches@[i]).name@
                                            == branch_name@
                                        &&& q.config.branches@ == p.config.branches@.remove(i)
                                    }
                                &&& first_removed(p.subvols@, q.subvols@, branch_name@)
                                &&& first_removed(p.running@, q.running@, branch_name@)
                                &&& q.config.name == p.config.name
                                &&& q.config.active_branch == p.config.active_branch
                                &&& q.mounted == p.mounted
                                &&& q.image_exists == p.image_exists
                            },
                            Err(e) => {
                                &&& *final(self) == *old(self)
                                &&& if branch_name@ == "main"@ {
                                    e is Permission
                                } else {
                                    &&& !names_contain(
                                        name_views_as_strings(p.config),
                                        branch_name@,
                                    )
                                    &&& (e matches AppError::BranchNotFound { name: n } && n@
                                        == branch_name@)
                                }
                            },
                        }
                    })
                },
            },
    {
        match &mut self.project {
            None => Err(AppError::DefaultProjectNotFound),
            Some(p) => {
                let ghost pre = *p;
                match p.config.remove_branch(branch_name) {
                    Err(e) => {
                        proof {
                            if branch_name@ != "main"@ {
                                assert forall|k: int|
                                    0 <= k < name_views_as_strings(pre.config).len() implies (
                                #[trigger] name_views_as_strings(pre.config)[k])@
                                    != branch_name@ by {
                                    assert(pre.config.branches@[k].name@ != branch_name@);
                                }
                            }
                        }
                        Err(e)
                    },
                    Ok(()) => {
                        let ghost mid = *p;
                        let ghost i = choose|i: int|
                            {
                                &&& 0 <= i < pre.config.branches@.len()
                                &&& (#[trigger] pre.config.branches@[i]).name@ == branch_name@
                                &&& mid.config.branches@ == pre.config.branches@.remove(i)
                            };
                        remove_name(&mut p.subvols, branch_name);
                        remove_name(&mut p.running, branch_name);
                        proof {
                            let q = *p;
                            assert forall|j: int|
                                0 <= j < q.config.branches@.len() implies names_contain(
                                q.subvols@,
                                (#[trigger] q.config.branches@[j]).name@,
                            ) by {
                                let j0: int = if j < i {
                                    j
                                } else {
                                    j + 1
                                };
                                lemma_remove_index_any(pre.config.branches@, i, j);
                                assert(q.config.branches@[j] == pre.config.branches@[j0]);
                                assert(names_contain(
                                    pre.subvols@,
                                    pre.config.branches@[j0].name@,
                                ));
                                assert(pre.config.branches@[j0].name@ != branch_name@);
                                if names_contain(pre.subvols@, branch_name@) {
                                    let m = choose|m: int|
                                        {
                                            &&& 0 <= m < pre.subvols@.len()
                                            &&& pre.subvols@[m]@ == branch_name@
                                            &&& forall|k: int|
                                                0 <= k < m ==> (#[trigger] pre.subvols@[k])@
                                                    != branch_name@
                                            &&& q.subvols@ == pre.subvols@.remove(m)
                                        };
                                    lemma_contain_after_remove(
                                        pre.subvols@,
                                        m,
                                        pre.config.branches@[j0].name@,
                                    );
                                } else {
                                    assert(q.subvols@ == pre.subvols@);
                                }
                            }
                        }
                        Ok(())
                    },
                }
            },
        }
    }

    /// Stop every branch container.  Port assignments, subvolumes and the
    /// metadata stay untouched; a missing project is tolerated.
    pub fn stop(&mut self) -> (r: Result<(), AppError>)
        requires
            old(self).inv(),
        ensures
            final(self).inv(),
            r is Ok,
            match old(self).project {
                None => *final(self) == *old(self),
                Some(p) => final(self).project matches Some(q) && stop_step(p, q),
            },
    {
        match &mut self.project {
            None => Ok(()),
            Some(p) => {
                p.running.clear();
                Ok(())
            },
        }
    }

    /// Start a container for every branch, remounting the project first
    /// when it is unmounted.  Port assignments stay untouched.
    pub fn resume(&mut self) -> (r: Result<(), AppError>)
        requires
            old(self).inv(),
        ensures
            final(self).inv(),
            match old(self).project {
                None => *final(self) == *old(self) && (r matches Err(e)
                    && e is DefaultProjectNotFound),
                Some(p) => {
                    &&& final(self).project is Some
                    &&& ({
                        let q = final(self).project->Some_0;
                        match r {
                            Ok(()) => resume_step(p, q),
                            Err(e) => *final(self) == *old(self) && !p.image_exists
                                && e matches AppError::DiskMount { .. },
                        }
                    })
                },
            },
    {
        match &mut self.project {
            None => Err(AppError::DefaultProjectNotFound),
            Some(p) => {
                if !p.image_exists {
                    return Err(
                        AppError::DiskMount {
                            message: String::from_str("the backing image is gone"),
                        },
                    );
                }
                p.mounted = true;
                let mut fresh: Vec<String> = Vec::new();
                let mut i: usize = 0;
                while i < p.config.branches.len()
                    invariant
                        i <= p.config.branches@.len(),
                        fresh@.len() == i,
                        forall|k: int|
                            0 <= k < i ==> (#[trigger] fresh@[k])@
                                == p.config.branches@[k].name@,
                    decreases p.config.branches@.len() - i,
                {
                    fresh.push(p.config.branches[i].name.clone());
                    i += 1;
                }
                p.running = fresh;
                proof {
                    assert(name_views(p.running@) =~~= branch_names(p.config));
                }
                Ok(())
            },
        }
    }

    /// Tear the project down: containers removed, subvolumes deleted, the
    /// filesystem unmounted, the image dropped, the metadata gone.  With no
    /// project, succeeds and changes nothing, so a second run of the same
    /// command is harmless.
    pub fn delete_project(&mut self, name: &str) -> (r: Result<(), AppError>)
        requires
            old(self).inv(),
        ensures
            final(self).inv(),
            delete_project_step(*old(self), *final(self), name@, r is Ok),
            r matches Err(e) ==> e matches AppError::ProjectNotFound { name: n } && n@ == name@,
    {
        if self.project.is_none() {
            return Ok(());
        }
        let same = match &self.project {
            Some(p) => str_eq(p.config.name.as_str(), name),
            None => false,
        };
        if same {
            self.project = None;
            Ok(())
        } else {
            Err(AppError::ProjectNotFound { name: name.to_owned() })
        }
    }
}

/// What `stop` does to a project: the containers end, the rest stays.
pub open spec fn stop_step(pre: Project, post: Project) -> bool {
    &&& post.config == pre.config
    &&& post.image_exists == pre.image_exists
    &&& post.mounted == pre.mounted
    &&& post.subvols == pre.subvols
    &&& post.running@ == Seq::<String>::empty()
}

/// What `resume` does to a project: remounted, one container per branch,
/// the metadata untouched.
pub open spec fn resume_step(pre: Project, post: Project) -> bool {
    &&& post.config == pre.config
    &&& post.image_exists == pre.image_exists
    &&& post.mounted
    &&& post.subvols == pre.subvols
    &&& name_views(post.running@) == branch_names(post.config)
}

/// What `delete-project` does to the installation, by whether it reports
/// success: a missing project is tolerated unchanged, a matching one is
/// torn down, a mismatched name changes nothing.
pub open spec fn delete_project_step(
    pre: SystemState,
    post: SystemState,
    name: Seq<char>,
    ok: bool,
) -> bool {
    match pre.project {
        None => ok && post == pre,
        Some(p) => if p.config.name@ == name {
            ok && post.project is None
        } else {
            !ok && post == pre
        },
    }
}

/// Stopping and then resuming a project whose containers were all running
/// leaves the set of running containers and every port assignment
/// unchanged.
pub proof fn lemma_stop_resume_preserves(pre: Project, mid: Project, post: Project)
    requires
        pre.inv(),
        stop_step(pre, mid),
        resume_step(mid, post),
        name_views(pre.running@) == branch_names(pre.config),
    ensures
        name_views(post.running@) == name_views(pre.running@),
        post.config.branches@ == pre.config.branches@,
{
}

/// A second `delete-project` of the same name succeeds with no state
/// change.
pub proof fn lemma_delete_project_idempotent(
    pre: SystemState,
    mid: SystemState,
    post: SystemState,
    name: Seq<char>,
    ok1: bool,
    ok2: bool,
)
    requires
        delete_project_step(pre, mid, name, ok1),
        ok1,
        delete_project_step(mid, post, name, ok2),
    ensures
        ok2,
        post == mid,
{
}

/// For every branch the store knows, either the project is unmounted or
/// the branch's subvolume exists on disk.
pub proof fn lemma_branch_has_subvolume(s: SystemState, i: int)
    requires
        s.inv(),
        s.project matches Some(p) && 0 <= i < p.config.branches@.len(),
    ensures
        s.project matches Some(p) ==> (!p.mounted || names_contain(
            p.subvols@,
            p.config.branches@[i].name@,
        )),
{
}

/// Whether `post` is `pre` with its first occurrence of `name` dropped,
/// or `pre` unchanged when `name` does not occur.
pub open spec fn first_removed(pre: Seq<String>, post: Seq<String>, name: Seq<char>) -> bool {
    if names_contain(pre, name) {
        exists|i: int|
            {
                &&& 0 <= i < pre.len()
                &&& pre[i]@ == name
                &&& forall|k: int| 0 <= k < i ==> (#[trigger] pre[k])@ != name
                &&& post == pre.remove(i)
            }
    } else {
        post == pre
    }
}

/// Drop the first occurrence of `name` from the list, when present.
fn remove_name(v: &mut Vec<String>, name: &str) -> (found: bool)
    ensures
        found == names_contain(old(v)@, name@),
        first_removed(old(v)@, final(v)@, name@),
{
    let mut i: usize = 0;
    while i < v.len()
        invariant
            i <= v@.len(),
            v@ == old(v)@,
            forall|k: int| 0 <= k < i ==> (#[trigger] v@[k])@ != name@,
        decreases v@.len() - i,
    {
        if str_eq(v[i].as_str(), name) {
            v.remove(i);
            return true;
        }
        i += 1;
    }
    false
}

/// Where each element of a list stands after one is removed.
pub proof fn lemma_remove_index_any<A>(t: Seq<A>, i: int, k: int)
    requires
        0 <= i < t.len(),
        0 <= k < t.len() - 1,
    ensures
        t.remove(i)[k] == if k < i {
            t[k]
        } else {
            t[k + 1]
        },
{
    if k < i {
        assert(t.remove(i)[k] == t.subrange(0, i)[k]);
    } else {
        assert(t.remove(i)[k] == t.subrange(i + 1, t.len() as int)[k - i]);
    }
}

/// A name a list holds is still held after an entry with another name is
/// removed.
pub proof fn lemma_contain_after_remove(s: Seq<String>, m: int, name: Seq<char>)
    requires
        0 <= m < s.len(),
        names_contain(s, name),
        s[m]@ != name,
    ensures
        names_contain(s.remove(m), name),
{
    let w = choose|w: int| 0 <= w < s.len() && (#[trigger] s[w])@ == name;
    if w < m {
        lemma_remove_index_any(s, m, w);
        assert(s.remove(m)[w]@ == name);
    } else {
        lemma_remove_index_any(s, m, w - 1);
        assert(s.remove(m)[w - 1]@ == name);
    }
}

} // verus!
