//! The project metadata: branches, ports, credentials and the active
//! branch.  One document per installation; the persisted file is the source
//! of truth and `codec` gives its exact text form.
//!
//! Well-formedness carries the system's metadata invariants: exactly one
//! branch is flagged main, branch ports are pairwise distinct and lie in
//! the window, and branch names are unique.

use vstd::prelude::*;

use crate::clock::now_timestamp;
use crate::errors::AppError;
use crate::text::str_eq;
use crate::timestamp::Timestamp;

verus! {

/// How the project's disk is provisioned.  The persisted spellings are
/// `NEW_DISK` and `EXISTING_DISK`; no other spelling is accepted on load.
#[derive(Debug, Clone, Copy, PartialEq, Eq, Structural)]
pub enum Approach {
    /// A fresh image is reserved and formatted.
    NewDisk,
    /// An already-provisioned disk is used.
    ExistingDisk,
}

impl Approach {
    /// The persisted spelling of this variant.
    pub open spec fn spec_spelling(self) -> Seq<char> {
        match self {
            Approach::NewDisk => "NEW_DISK"@,
            Approach::ExistingDisk => "EXISTING_DISK"@,
        }
    }

    /// The persisted spelling of this variant.
    pub fn spelling(&self) -> (r: &'static str)
        ensures
            r@ == self.spec_spelling(),
    {
        match self {
            Approach::NewDisk => "NEW_DISK",
            Approach::ExistingDisk => "EXISTING_DISK",
        }
    }
}

/// The PostgreSQL credentials a project's containers start with.
#[derive(Debug, Clone)]
pub struct PostgresConfig {
    /// The superuser name.
    pub user: String,
    /// The superuser password.
    pub password: String,
    /// The initial database name; the runtime default applies when absent.
    pub database: Option<String>,
}

/// One branch: a named clone of the project's data directory, served by its
/// own container on a dedicated port.
#[derive(Debug, Clone)]
pub struct Branch {
    /// The branch name, unique within the project.
    pub name: String,
    /// The host port its container publishes, unique within the project.
    pub port: u16,
    /// Whether this is the main branch.
    pub is_main: bool,
    /// When the branch was created.
    pub created_at: Timestamp,
}

/// How many branches of the list are flagged main.
pub open spec fn main_count(s: Seq<Branch>) -> int
    decreases s.len(),
{
    if s.len() == 0 {
        0
    } else {
        main_count(s.drop_last()) + if s.last().is_main {
            1int
        } else {
            0int
        }
    }
}

/// A list with no main flag anywhere has main count zero, and conversely.
pub proof fn lemma_main_count_zero(s: Seq<Branch>)
    requires
        main_count(s) == 0,
    ensures
        forall|i: int| 0 <= i < s.len() ==> !(#[trigger] s[i]).is_main,
    decreases s.len(),
{
    if s.len() > 0 {
        lemma_main_count_nonneg(s.drop_last());
        lemma_main_count_zero(s.drop_last());
        assert forall|i: int| 0 <= i < s.len() implies !(#[trigger] s[i]).is_main by {
            if i < s.len() - 1 {
                assert(s[i] == s.drop_last()[i]);
            }
        }
    }
}

/// The main count is never negative.
pub proof fn lemma_main_count_nonneg(s: Seq<Branch>)
    ensures
        main_count(s) >= 0,
    decreases s.len(),
{
    if s.len() > 0 {
        lemma_main_count_nonneg(s.drop_last());
    }
}

/// A main count of one means one main branch exists and no second one does.
pub proof fn lemma_main_count_one(s: Seq<Branch>)
    requires
        main_count(s) == 1,
    ensures
        exists|i: int| 0 <= i < s.len() && (#[trigger] s[i]).is_main,
        forall|i: int, j: int|
            0 <= i < s.len() && 0 <= j < s.len() && (#[trigger] s[i]).is_main && (
            #[trigger] s[j]).is_main ==> i == j,
    decreases s.len(),
{
    if s.last().is_main {
        lemma_main_count_nonneg(s.drop_last());
        lemma_main_count_zero(s.drop_last());
        assert(s[s.len() - 1].is_main);
        assert forall|i: int, j: int|
            0 <= i < s.len() && 0 <= j < s.len() && (#[trigger] s[i]).is_main && (
            #[trigger] s[j]).is_main implies i == j by {
            if i < s.len() - 1 {
                assert(s[i] == s.drop_last()[i]);
            }
            if j < s.len() - 1 {
                assert(s[j] == s.drop_last()[j]);
            }
        }
    } else {
        lemma_main_count_one(s.drop_last());
        let w = choose|i: int| 0 <= i < s.drop_last().len() && (#[trigger] s.drop_last()[i]).is_main;
        assert(s[w].is_main);
        assert forall|i: int, j: int|
            0 <= i < s.len() && 0 <= j < s.len() && (#[trigger] s[i]).is_main && (
            #[trigger] s[j]).is_main implies i == j by {
            assert(i < s.len() - 1 && j < s.len() - 1);
            assert(s.drop_last()[i].is_main && s.drop_last()[j].is_main);
        }
    }
}

/// The whole configuration document of one installation.
#[derive(Debug, Clone)]
pub struct Config {
    /// The project name.
    pub name: String,
    /// The port of the management API.
    pub api_port: u16,
    /// The port the connection proxy listens on.
    pub proxy_port: u16,
    /// When the project was created.
    pub created_at: Timestamp,
    /// How the project's disk is provisioned.
    pub approach: Approach,
    /// The lower bound of the branch port window.
    pub port_min: u16,
    /// The upper bound of the branch port window.
    pub port_max: u16,
    /// The root under which project filesystems are mounted.
    pub mount_point: String,
    /// The branch the proxy routes new connections to; absent means main.
    pub active_branch: Option<String>,
    /// The PostgreSQL credentials.
    pub postgres_config: Option<PostgresConfig>,
    /// Every branch of the project.
    pub branches: Vec<Branch>,
}

impl Config {
    /// Branch ports are pairwise distinct.
    pub open spec fn ports_distinct(self) -> bool {
        forall|i: int, j: int|
            0 <= i < j < self.branches@.len() ==> (#[trigger] self.branches@[i]).port != (
            #[trigger] self.branches@[j]).port
    }

    /// Branch names are pairwise distinct.
    pub open spec fn names_distinct(self) -> bool {
        forall|i: int, j: int|
            0 <= i < j < self.branches@.len() ==> (#[trigger] self.branches@[i]).name@ != (
            #[trigger] self.branches@[j]).name@
    }

    /// Every branch port lies in the window.
    pub open spec fn ports_in_window(self) -> bool {
        forall|i: int|
            0 <= i < self.branches@.len() ==> self.port_min <= (
            #[trigger] self.branches@[i]).port <= self.port_max
    }

    /// The metadata invariants every stored document keeps.
    pub open spec fn wf(self) -> bool {
        &&& main_count(self.branches@) == 1
        &&& forall|i: int|
            0 <= i < self.branches@.len() ==> ((#[trigger] self.branches@[i]).is_main
                ==> self.branches@[i].name@ == "main"@)
        &&& self.ports_distinct()
        &&& self.names_distinct()
        &&& self.ports_in_window()
        &&& self.port_min <= self.port_max
        &&& !(self.port_min <= self.proxy_port <= self.port_max)
        &&& !(self.port_min <= self.api_port <= self.port_max)
        &&& self.created_at.valid()
        &&& forall|i: int| 0 <= i < self.branches@.len() ==> (#[trigger] self.branches@[i]).created_at.valid()
    }

    /// A fresh document with the built-in defaults: proxy port 5432, API
    /// port 8000, window 7000 to 7999, mount root `/mnt/dbranch`, and one
    /// main branch on the given port.
    pub fn new(name: String, main_port: u16) -> (r: Config)
        requires
            7000 <= main_port <= 7999,
        ensures
            r.wf(),
            r.name@ == name@,
            r.api_port == 8000,
            r.proxy_port == 5432,
            r.approach == Approach::ExistingDisk,
            r.port_min == 7000,
            r.port_max == 7999,
            r.mount_point@ == "/mnt/dbranch"@,
            r.active_branch is None,
            r.postgres_config matches Some(p) && p.user@ == "dbranch_user"@ && p.password@
                == "dbranch_password"@ && p.database is None,
            r.branches@.len() == 1,
            r.branches@[0].name@ == "main"@,
            r.branches@[0].port == main_port,
            r.branches@[0].is_main,
    {
        let created_at = now_timestamp();
        let main_branch = Branch {
            name: String::from_str("main"),
            port: main_port,
            is_main: true,
            created_at: now_timestamp(),
        };
        let mut branches: Vec<Branch> = Vec::new();
        branches.push(main_branch);
        let r = Config {
            name,
            api_port: 8000,
            proxy_port: 5432,
            created_at,
            approach: Approach::ExistingDisk,
            port_min: 7000,
            port_max: 7999,
            mount_point: String::from_str("/mnt/dbranch"),
            active_branch: None,
            postgres_config: Some(
                PostgresConfig {
                    user: String::from_str("dbranch_user"),
                    password: String::from_str("dbranch_password"),
                    database: None,
                },
            ),
            branches,
        };
        proof {
            assert(r.branches@.len() == 1);
            assert(r.branches@.drop_last() =~= Seq::<Branch>::empty());
            assert(main_count(Seq::<Branch>::empty()) == 0);
            assert(r.branches@.last().is_main);
            assert(main_count(r.branches@) == 1);
        }
        r
    }

    /// Record a new branch: appended to the list, not flagged main, stamped
    /// with the clock.  The caller supplies a fresh name and a fresh port
    /// from the window.
    pub fn create_branch(&mut self, branch_name: String, valid_port: u16)
        requires
            old(self).wf(),
            old(self).port_min <= valid_port <= old(self).port_max,
            forall|i: int|
                0 <= i < old(self).branches@.len() ==> (#[trigger] old(self).branches@[i]).port
                    != valid_port,
            forall|i: int|
                0 <= i < old(self).branches@.len() ==> (#[trigger] old(self).branches@[i]).name@
                    != branch_name@,
        ensures
            final(self).wf(),
            final(self).branches@.len() == old(self).branches@.len() + 1,
            final(self).branches@.drop_last() == old(self).branches@,
            final(self).branches@.last().name@ == branch_name@,
            final(self).branches@.last().port == valid_port,
            !final(self).branches@.last().is_main,
            final(self).branches@.last().created_at.valid(),
            final(self).name == old(self).name,
            final(self).api_port == old(self).api_port,
            final(self).proxy_port == old(self).proxy_port,
            final(self).created_at == old(self).created_at,
            final(self).approach == old(self).approach,
            final(self).port_min == old(self).port_min,
            final(self).port_max == old(self).port_max,
            final(self).mount_point == old(self).mount_point,
            final(self).active_branch == old(self).active_branch,
    {
        let b = Branch {
            name: branch_name,
            port: valid_port,
            is_main: false,
            created_at: now_timestamp(),
        };
        self.branches.push(b);
        proof {
            let s = self.branches@;
            assert(s.drop_last() =~= old(self).branches@);
            assert(main_count(s) == main_count(old(self).branches@));
            assert forall|i: int, j: int| 0 <= i < j < s.len() implies (#[trigger] s[i]).port != (
            #[trigger] s[j]).port && s[i].name@ != s[j].name@ by {
                if j < s.len() - 1 {
                    assert(s[i] == old(self).branches@[i] && s[j] == old(self).branches@[j]);
                } else {
                    assert(s[i] == old(self).branches@[i]);
                }
            }
        }
    }

    /// Set the branch the proxy routes new connections to.  Naming `main`
    /// is recorded as "no active branch".  Naming a branch the document
    /// does not hold changes nothing and reports it.
    pub fn set_active_branch(&mut self, branch_name: String) -> (r: Result<(), AppError>)
        ensures
            ({
                let known = (exists|i: int|
                    0 <= i < old(self).branches@.len() && (#[trigger] old(
                        self,
                    ).branches@[i]).name@ == branch_name@) || branch_name@ == "main"@;
                &&& known ==> {
                    &&& r is Ok
                    &&& if branch_name@ == "main"@ {
                        final(self).active_branch is None
                    } else {
                        final(self).active_branch matches Some(n) && n@ == branch_name@
                    }
                    &&& final(self).branches == old(self).branches
                    &&& final(self).name == old(self).name
                    &&& final(self).port_min == old(self).port_min
                    &&& final(self).port_max == old(self).port_max
                    &&& final(self).proxy_port == old(self).proxy_port
                    &&& final(self).api_port == old(self).api_port
                    &&& final(self).mount_point == old(self).mount_point
                    &&& final(self).created_at == old(self).created_at
                    &&& final(self).approach == old(self).approach
                }
                &&& !known ==> {
                    &&& *final(self) == *old(self)
                    &&& r matches Err(e) && e matches AppError::BranchNotFound { name } && name@
                        == branch_name@
                }
            }),
            old(self).wf() ==> final(self).wf(),
    {
        let mut found: bool = false;
        let mut i: usize = 0;
        while i < self.branches.len()
            invariant
                i <= self.branches@.len(),
                found == exists|k: int|
                    0 <= k < i && (#[trigger] self.branches@[k]).name@ == branch_name@,
            decreases self.branches@.len() - i,
        {
            if str_eq(self.branches[i].name.as_str(), branch_name.as_str()) {
                found = true;
            }
            i += 1;
        }
        let is_main_name = str_eq(branch_name.as_str(), "main");
        if found || is_main_name {
            if is_main_name {
                self.active_branch = None;
            } else {
                self.active_branch = Some(branch_name);
            }
            Ok(())
        } else {
            Err(AppError::BranchNotFound { name: branch_name })
        }
    }

    /// Drop one branch from the document.  The main branch is never
    /// removed; a name the document does not hold changes nothing.
    pub fn remove_branch(&mut self, branch_name: &str) -> (r: Result<(), AppError>)
        requires
            old(self).wf(),
        ensures
            final(self).wf(),
            match r {
                Ok(()) => {
                    &&& branch_name@ != "main"@
                    &&& exists|i: int|
                        {
                            &&& 0 <= i < old(self).branches@.len()
                            &&& (#[trigger] old(self).branches@[i]).name@ == branch_name@
                            &&& final(self).branches@ == old(self).branches@.remove(i)
                        }
                    &&& final(self).name == old(self).name
                    &&& final(self).active_branch == old(self).active_branch
                    &&& final(self).port_min == old(self).port_min
                    &&& final(self).port_max == old(self).port_max
                    &&& final(self).proxy_port == old(self).proxy_port
                    &&& final(self).api_port == old(self).api_port
                    &&& final(self).mount_point == old(self).mount_point
                    &&& final(self).created_at == old(self).created_at
                    &&& final(self).approach == old(self).approach
                },
                Err(e) => {
                    &&& *final(self) == *old(self)
                    &&& if branch_name@ == "main"@ {
                        e is Permission
                    } else {
                        &&& !(exists|i: int|
                            0 <= i < old(self).branches@.len() && (#[trigger] old(
                                self,
                            ).branches@[i]).name@ == branch_name@)
                        &&& (e matches AppError::BranchNotFound { name } && name@ == branch_name@)
                    }
                },
            },
    {
        if str_eq(branch_name, "main") {
            return Err(
                AppError::Permission {
                    message: String::from_str("the main branch is never deleted"),
                },
            );
        }
        let mut i: usize = 0;
        while i < self.branches.len()
            invariant
                i <= self.branches@.len(),
                *self == *old(self),
                old(self).wf(),
                branch_name@ != "main"@,
                forall|k: int|
                    0 <= k < i ==> (#[trigger] self.branches@[k]).name@ != branch_name@,
            decreases self.branches@.len() - i,
        {
            if str_eq(self.branches[i].name.as_str(), branch_name) {
                proof {
                    lemma_main_count_remove(self.branches@, i as int);
                    assert(self.branches@ == old(self).branches@);
                    assert(forall|k: int|
                        0 <= k < old(self).branches@.len() ==> ((#[trigger] old(
                            self,
                        ).branches@[k]).is_main ==> old(self).branches@[k].name@ == "main"@));
                    assert(!old(self).branches@[i as int].is_main) by {
                        if old(self).branches@[i as int].is_main {
                            assert(old(self).branches@[i as int].name@ == "main"@);
                        }
                    }
                }
                self.branches.remove(i);
                proof {
                    let s = self.branches@;
                    let t = old(self).branches@;
                    assert(s == t.remove(i as int));
                    assert forall|a: int, b: int| 0 <= a < b < s.len() implies (
                    #[trigger] s[a]).port != (#[trigger] s[b]).port && s[a].name@ != s[b].name@ by {
                        let a0: int = if a < i { a } else { a + 1 };
                        let b0: int = if b < i { b } else { b + 1 };
                        lemma_remove_index(t, i as int, a);
                        lemma_remove_index(t, i as int, b);
                        assert(s[a] == t[a0] && s[b] == t[b0]);
                    }
                    assert forall|k: int| 0 <= k < s.len() implies ((#[trigger] s[k]).is_main
                        ==> s[k].name@ == "main"@) && s[k].created_at.valid() && self.port_min
                        <= s[k].port <= self.port_max by {
                        let k0: int = if k < i {
                            k
                        } else {
                            k + 1
                        };
                        lemma_remove_index(t, i as int, k);
                        assert(s[k] == t[k0]);
                    }
                }
                return Ok(());
            }
            i += 1;
        }
        Err(AppError::BranchNotFound { name: branch_name.to_owned() })
    }

    /// Whether any branch already holds this port.
    pub fn port_used(&self, port: u16) -> (r: bool)
        ensures
            r == exists|i: int|
                0 <= i < self.branches@.len() && (#[trigger] self.branches@[i]).port == port,
    {
        let mut i: usize = 0;
        while i < self.branches.len()
            invariant
                i <= self.branches@.len(),
                forall|k: int| 0 <= k < i ==> (#[trigger] self.branches@[k]).port != port,
            decreases self.branches@.len() - i,
        {
            if self.branches[i].port == port {
                return true;
            }
            i += 1;
        }
        false
    }

    /// The port of the named branch, when the document holds it.
    pub fn branch_port(&self, branch_name: &str) -> (r: Option<u16>)
        ensures
            match r {
                Some(p) => exists|i: int|
                    0 <= i < self.branches@.len() && (#[trigger] self.branches@[i]).name@
                        == branch_name@ && self.branches@[i].port == p,
                None => forall|i: int|
                    0 <= i < self.branches@.len() ==> (#[trigger] self.branches@[i]).name@
                        != branch_name@,
            },
    {
        let mut i: usize = 0;
        while i < self.branches.len()
            invariant
                i <= self.branches@.len(),
                forall|k: int|
                    0 <= k < i ==> (#[trigger] self.branches@[k]).name@ != branch_name@,
            decreases self.branches@.len() - i,
        {
            if str_eq(self.branches[i].name.as_str(), branch_name) {
                return Some(self.branches[i].port);
            }
            i += 1;
        }
        None
    }
}

/// For every pair of branches of a well-formed document, the ports
/// differ.
pub proof fn lemma_ports_pairwise_distinct(c: Config, i: int, j: int)
    requires
        c.wf(),
        0 <= i < c.branches@.len(),
        0 <= j < c.branches@.len(),
        i != j,
    ensures
        c.branches@[i].port != c.branches@[j].port,
{
}

/// For every well-formed document, exactly one branch is flagged main.
pub proof fn lemma_exactly_one_main(c: Config)
    requires
        c.wf(),
    ensures
        exists|i: int| 0 <= i < c.branches@.len() && (#[trigger] c.branches@[i]).is_main,
        forall|i: int, j: int|
            0 <= i < c.branches@.len() && 0 <= j < c.branches@.len() && (
            #[trigger] c.branches@[i]).is_main && (#[trigger] c.branches@[j]).is_main ==> i == j,
{
    lemma_main_count_one(c.branches@);
}

/// Where each element of a list stands after one is removed.
pub proof fn lemma_remove_index(t: Seq<Branch>, i: int, k: int)
    requires
        0 <= i < t.len(),
        0 <= k < t.len() - 1,
    ensures
        t.remove(i)[k] == if k < i {
            t[k]
        } else {
            t[k + 1]
        },
{
    if k < i {
        assert(t.remove(i)[k] == t.subrange(0, i)[k]);
    } else {
        assert(t.remove(i)[k] == t.subrange(i + 1, t.len() as int)[k - i]);
    }
}

/// Removing one branch lowers the main count by one exactly when that
/// branch was flagged main.
pub proof fn lemma_main_count_remove(s: Seq<Branch>, i: int)
    requires
        0 <= i < s.len(),
    ensures
        main_count(s.remove(i)) == main_count(s) - if s[i].is_main {
            1int
        } else {
            0int
        },
    decreases s.len(),
{
    if i == s.len() - 1 {
        assert(s.remove(i) =~= s.drop_last());
    } else {
        lemma_main_count_remove(s.drop_last(), i);
        assert(s.remove(i).drop_last() =~= s.drop_last().remove(i));
        assert(s.remove(i).last() == s.last());
    }
}

} // verus!
