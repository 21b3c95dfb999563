//! Env-driven runtime config (three-struct pattern).
//!
//! [`EnvConfigBuilder`] holds the raw values read from the environment: every
//! field is an optional string. It lowers into [`ConfigBuilder`] (still all
//! optional, so reading the environment never fails on a missing variable),
//! which finally [`build`](ConfigBuilder::build)s into the [`Config`] the rest
//! of the program uses, unwrapping the one required variable
//! (`OBJECTIVEAI_STATE_DIR`).
use vstd::prelude::*;

verus! {

/// The raw environment reading.
pub struct EnvConfigBuilder {
    /// `OBJECTIVEAI_STATE_DIR`: root of the CLI's filesystem state tree.
    /// Required; unwrapped at `ConfigBuilder::build`.
    pub state_dir: Option<String>,
    /// `OBJECTIVEAI_BIN_DIR`: dir holding the plugin's binaries. Optional.
    pub bin_dir: Option<String>,
    /// `OBJECTIVEAI_POSTGRES_URL`. Optional.
    pub postgres_url: Option<String>,
    /// `OBJECTIVEAI_AGENT_INSTANCE_HIERARCHY`. Optional.
    pub objectiveai_agent_instance_hierarchy: Option<String>,
    /// `OBJECTIVEAI_RESPONSE_ID`. Optional.
    pub objectiveai_response_id: Option<String>,
    /// `OBJECTIVEAI_RESPONSE_IDS`. Optional.
    pub objectiveai_response_ids: Option<String>,
    /// `OBJECTIVEAI_AGENT_ID`. Optional.
    pub objectiveai_agent_id: Option<String>,
    /// `OBJECTIVEAI_AGENT_FULL_ID`. Optional.
    pub objectiveai_agent_full_id: Option<String>,
    /// `OBJECTIVEAI_AGENT_REMOTE`. Optional.
    pub objectiveai_agent_remote: Option<String>,
}

/// The all-optional intermediate config.
pub struct ConfigBuilder {
    pub state_dir: Option<String>,
    pub bin_dir: Option<String>,
    pub postgres_url: Option<String>,
    pub objectiveai_agent_instance_hierarchy: Option<String>,
    pub objectiveai_response_id: Option<String>,
    pub objectiveai_response_ids: Option<String>,
    pub objectiveai_agent_id: Option<String>,
    pub objectiveai_agent_full_id: Option<String>,
    pub objectiveai_agent_remote: Option<String>,
}

/// The runtime config.
#[derive(Debug, Clone)]
pub struct Config {
    /// Root of the CLI's filesystem state tree (`OBJECTIVEAI_STATE_DIR`),
    /// as a path. Assumed to already exist. The only required field.
    pub state_dir: String,
    /// Dir holding the plugin's binaries (`OBJECTIVEAI_BIN_DIR`), as a path.
    pub bin_dir: Option<String>,
    /// Postgres connection URL (`OBJECTIVEAI_POSTGRES_URL`).
    pub postgres_url: Option<String>,
    /// The launching agent instance's hierarchy; unused, since per-request
    /// identity is read from headers.
    pub objectiveai_agent_instance_hierarchy: Option<String>,
    pub objectiveai_response_id: Option<String>,
    pub objectiveai_response_ids: Option<String>,
    pub objectiveai_agent_id: Option<String>,
    pub objectiveai_agent_full_id: Option<String>,
    pub objectiveai_agent_remote: Option<String>,
}

impl EnvConfigBuilder {
    /// Lower the raw reading into a [`ConfigBuilder`], field for field.
    pub fn build(self) -> (r: ConfigBuilder)
        ensures
            r.state_dir == self.state_dir,
            r.bin_dir == self.bin_dir,
            r.postgres_url == self.postgres_url,
            r.objectiveai_agent_instance_hierarchy == self.objectiveai_agent_instance_hierarchy,
            r.objectiveai_response_id == self.objectiveai_response_id,
            r.objectiveai_response_ids == self.objectiveai_response_ids,
            r.objectiveai_agent_id == self.objectiveai_agent_id,
            r.objectiveai_agent_full_id == self.objectiveai_agent_full_id,
            r.objectiveai_agent_remote == self.objectiveai_agent_remote,
    {
        ConfigBuilder {
            state_dir: self.state_dir,
            bin_dir: self.bin_dir,
            postgres_url: self.postgres_url,
            objectiveai_agent_instance_hierarchy: self.objectiveai_agent_instance_hierarchy,
            objectiveai_response_id: self.objectiveai_response_id,
            objectiveai_response_ids: self.objectiveai_response_ids,
            objectiveai_agent_id: self.objectiveai_agent_id,
            objectiveai_agent_full_id: self.objectiveai_agent_full_id,
            objectiveai_agent_remote: self.objectiveai_agent_remote,
        }
    }
}

/// Every field of a [`ConfigBuilder`] is unset.
pub open spec fn all_unset(b: ConfigBuilder) -> bool {
    &&& b.state_dir is None
    &&& b.bin_dir is None
    &&& b.postgres_url is None
    &&& b.objectiveai_agent_instance_hierarchy is None
    &&& b.objectiveai_response_id is None
    &&& b.objectiveai_response_ids is None
    &&& b.objectiveai_agent_id is None
    &&& b.objectiveai_agent_full_id is None
    &&& b.objectiveai_agent_remote is None
}

impl Default for ConfigBuilder {
    fn default() -> (r: Self)
        ensures
            all_unset(r),
    {
        ConfigBuilder {
            state_dir: None,
            bin_dir: None,
            postgres_url: None,
            objectiveai_agent_instance_hierarchy: None,
            objectiveai_response_id: None,
            objectiveai_response_ids: None,
            objectiveai_agent_id: None,
            objectiveai_agent_full_id: None,
            objectiveai_agent_remote: None,
        }
    }
}

/// `c` is what building `b` yields: the state dir unwrapped, everything else
/// carried over.
pub open spec fn built_from(c: Config, b: ConfigBuilder) -> bool {
    &&& b.state_dir == Some(c.state_dir)
    &&& c.bin_dir == b.bin_dir
    &&& c.postgres_url == b.postgres_url
    &&& c.objectiveai_agent_instance_hierarchy == b.objectiveai_agent_instance_hierarchy
    &&& c.objectiveai_response_id == b.objectiveai_response_id
    &&& c.objectiveai_response_ids == b.objectiveai_response_ids
    &&& c.objectiveai_agent_id == b.objectiveai_agent_id
    &&& c.objectiveai_agent_full_id == b.objectiveai_agent_full_id
    &&& c.objectiveai_agent_remote == b.objectiveai_agent_remote
}

impl ConfigBuilder {
    /// Build the [`Config`]. The state root is the one hard requirement: the
    /// caller must have it set (the program refuses to start without it).
    pub fn build(self) -> (r: Config)
        requires
            self.state_dir is Some,
        ensures
            built_from(r, self),
    {
        Config {
            state_dir: self.state_dir.unwrap(),
            bin_dir: self.bin_dir,
            postgres_url: self.postgres_url,
            objectiveai_agent_instance_hierarchy: self.objectiveai_agent_instance_hierarchy,
            objectiveai_response_id: self.objectiveai_response_id,
            objectiveai_response_ids: self.objectiveai_response_ids,
            objectiveai_agent_id: self.objectiveai_agent_id,
            objectiveai_agent_full_id: self.objectiveai_agent_full_id,
            objectiveai_agent_remote: self.objectiveai_agent_remote,
        }
    }
}

impl Default for Config {
    fn default() -> (r: Self)
        ensures
            r.state_dir@ == Seq::<char>::empty(),
            r.bin_dir is None,
            r.postgres_url is None,
            r.objectiveai_agent_instance_hierarchy is None,
            r.objectiveai_response_id is None,
            r.objectiveai_response_ids is None,
            r.objectiveai_agent_id is None,
            r.objectiveai_agent_full_id is None,
            r.objectiveai_agent_remote is None,
    {
        Config {
            state_dir: String::new(),
            bin_dir: None,
            postgres_url: None,
            objectiveai_agent_instance_hierarchy: None,
            objectiveai_response_id: None,
            objectiveai_response_ids: None,
            objectiveai_agent_id: None,
            objectiveai_agent_full_id: None,
            objectiveai_agent_remote: None,
        }
    }
}

impl Config {
    /// The state root. All state files live directly under it.
    pub fn state_dir(&self) -> (r: String)
        ensures
            r@ == self.state_dir@,
    {
        self.state_dir.clone()
    }
}

/// Build the runtime config from what reading the environment gave (`None`
/// when the reading failed, which counts as an all-unset reading). The state
/// root must be among what was read.
pub fn load_config(read: Option<ConfigBuilder>) -> (r: Config)
    requires
        read matches Some(b) && b.state_dir is Some,
    ensures
        read matches Some(b) && built_from(r, b),
{
    read.unwrap().build()
}

} // verus!
