//! The container orchestrator's decisions: the names it forms, the exact
//! reading of the runtime's answers, and the full specification of the
//! container each branch runs.
//!
//! The runtime commands themselves — run, stop, rm, inspect, the network
//! listing — are issued outside this crate from the values built here.

use vstd::prelude::*;

use crate::config::Config;
use crate::errors::AppError;
use crate::text::{chars_of, contains_chars, spec_contains_seq, string_from_chars};

verus! {

/// The concrete PostgreSQL runner.
pub struct PostgresOperator {}

impl PostgresOperator {
    /// A fresh runner; it holds no state of its own.
    pub fn new() -> (r: PostgresOperator) {
        PostgresOperator {  }
    }
}

/// The stable container name of one branch: `<project>_<branch>`.
pub open spec fn spec_container_name(project: Seq<char>, branch: Seq<char>) -> Seq<char> {
    project + seq!['_'] + branch
}

/// Form the container name of one branch.
pub fn container_name(project: &str, branch: &str) -> (r: String)
    ensures
        r@ == spec_container_name(project@, branch@),
{
    let mut v = chars_of(project);
    v.push('_');
    let mut tail = chars_of(branch);
    v.append(&mut tail);
    proof {
        assert(v@ =~= spec_container_name(project@, branch@));
    }
    string_from_chars(&v)
}

/// Whether the network listing, filtered by name, shows the network: the
/// name literal stands somewhere in the output.
pub fn network_listing_has(stdout: &str, network: &str) -> (r: bool)
    ensures
        r == spec_contains_seq(stdout@, network@),
{
    let text = chars_of(stdout);
    let pat = chars_of(network);
    contains_chars(&text, &pat)
}

/// Whether an inspect payload reports the container running: it holds a
/// `Running` field set to true, with or without a space after the colon.
pub fn inspect_reports_running(stdout: &str) -> (r: bool)
    ensures
        r == (spec_contains_seq(stdout@, "\"Running\":true"@) || spec_contains_seq(
            stdout@,
            "\"Running\": true"@,
        )),
{
    let text = chars_of(stdout);
    let tight = chars_of("\"Running\":true");
    let spaced = chars_of("\"Running\": true");
    contains_chars(&text, &tight) || contains_chars(&text, &spaced)
}

/// Everything the runtime needs to start one branch's container.
#[derive(Debug, Clone)]
pub struct ContainerSpec {
    /// The image to run.
    pub image: String,
    /// The container name, `<project>_<branch>`.
    pub container_name: String,
    /// The host port to publish.
    pub host_port: u16,
    /// The container port it maps to.
    pub container_port: u16,
    /// The shared user-defined network.
    pub network: String,
    /// The uid:gid the container runs as.
    pub user: String,
    /// The host directory bound into the container.
    pub volume_host: String,
    /// Where the volume is bound inside the container.
    pub volume_container: String,
    /// The `POSTGRES_USER` value.
    pub env_user: String,
    /// The `POSTGRES_PASSWORD` value.
    pub env_password: String,
    /// The `POSTGRES_DB` value.
    pub env_db: String,
    /// The `PGDATA` value.
    pub pgdata: String,
    /// The restart policy.
    pub restart: String,
    /// Whether the container detaches.
    pub detach: bool,
}

/// The host directory bound into a branch's container:
/// `<mount_point>/<project>/<branch>/data`.
pub open spec fn spec_volume_host(
    mount_point: Seq<char>,
    project: Seq<char>,
    branch: Seq<char>,
) -> Seq<char> {
    mount_point + seq!['/'] + project + seq!['/'] + branch + "/data"@
}

/// Build the full container specification for one branch: the PostgreSQL
/// image on the shared network, uid 1000, the branch's data directory
/// bound at the PostgreSQL data path, the credentials from the document,
/// the database name defaulting when absent, restart off, detached.
pub fn build_container_spec(config: &Config, port: u16, name: &str) -> (r: ContainerSpec)
    requires
        config.postgres_config is Some,
    ensures
        r.image@ == "postgres:17-alpine"@,
        r.container_name@ == spec_container_name(config.name@, name@),
        r.host_port == port,
        r.container_port == 5432,
        r.network@ == "dbranch-network"@,
        r.user@ == "1000:1000"@,
        r.volume_host@ == spec_volume_host(config.mount_point@, config.name@, name@),
        r.volume_container@ == "/var/lib/postgresql/data"@,
        r.env_user@ == config.postgres_config->Some_0.user@,
        r.env_password@ == config.postgres_config->Some_0.password@,
        r.env_db@ == (match config.postgres_config->Some_0.database {
            Some(db) => db@,
            None => "dbranch"@,
        }),
        r.pgdata@ == "/var/lib/postgresql/data/pgdata"@,
        r.restart@ == "no"@,
        r.detach,
{
    let mut vol = chars_of(config.mount_point.as_str());
    vol.push('/');
    let mut project_part = chars_of(config.name.as_str());
    vol.append(&mut project_part);
    vol.push('/');
    let mut branch_part = chars_of(name);
    vol.append(&mut branch_part);
    let mut data_part = chars_of("/data");
    vol.append(&mut data_part);
    proof {
        assert(vol@ =~= spec_volume_host(config.mount_point@, config.name@, name@));
    }
    let creds = match &config.postgres_config {
        Some(c) => c,
        None => {
            proof {
                assert(false);
            }
            return ContainerSpec {
                image: String::new(),
                container_name: String::new(),
                host_port: port,
                container_port: 5432,
                network: String::new(),
                user: String::new(),
                volume_host: String::new(),
                volume_container: String::new(),
                env_user: String::new(),
                env_password: String::new(),
                env_db: String::new(),
                pgdata: String::new(),
                restart: String::new(),
                detach: true,
            };
        },
    };
    let env_db = match &creds.database {
        Some(db) => db.clone(),
        None => String::from_str("dbranch"),
    };
    ContainerSpec {
        image: String::from_str("postgres:17-alpine"),
        container_name: container_name(config.name.as_str(), name),
        host_port: port,
        container_port: 5432,
        network: String::from_str("dbranch-network"),
        user: String::from_str("1000:1000"),
        volume_host: string_from_chars(&vol),
        volume_container: String::from_str("/var/lib/postgresql/data"),
        env_user: creds.user.clone(),
        env_password: creds.password.clone(),
        env_db,
        pgdata: String::from_str("/var/lib/postgresql/data/pgdata"),
        restart: String::from_str("no"),
        detach: true,
    }
}

} // verus!
