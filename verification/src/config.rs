//! Configuration of a driver: model endpoints, MCP servers and tasks.

use vstd::prelude::*;
use vstd::string::*;

use crate::text::{lemma_shows_between, same_text, shows};

verus! {

/// An MCP server that the driver can spawn.
#[derive(Debug, Clone)]
pub struct McpServerConfig {
    pub name: String,
    pub command: String,
    pub args: Vec<String>,
    pub env: Vec<(String, String)>,
}

/// A model endpoint that the driver can talk to.
#[derive(Debug, Clone)]
pub struct ModelConfig {
    pub name: String,
    pub base_url: String,
    /// What stands in the `model` field of a chat request.
    pub model_id: String,
    /// The environment variable that holds the API key.
    pub api_key_env: Option<String>,
    pub strip_thinking_tags: bool,
    /// `first_user_turn`, or anything else for a system message.
    pub system_prompt_strategy: String,
    pub max_tokens: u32,
    pub mcp_servers: Vec<String>,
    pub tool_filter: Vec<String>,
    pub tool_call_parser: Option<String>,
    pub reasoning_parser: Option<String>,
    pub auto_tool_choice: bool,
    pub system_prompt_files: Vec<String>,
}

/// A task to run.
#[derive(Debug, Clone)]
pub struct Task {
    pub name: String,
    /// The name of a model of the configuration.
    pub model: String,
    /// Servers to use in place of the model's.
    pub mcp_servers: Option<Vec<String>>,
    pub system_prompt: Option<String>,
    pub user_prompt: String,
    pub max_iterations: u32,
    /// Filter to use in place of the model's.
    pub tool_filter: Option<Vec<String>>,
}

/// All that the driver knows.
#[derive(Debug, Clone)]
pub struct DriverConfig {
    pub mcp_servers: Vec<McpServerConfig>,
    pub models: Vec<ModelConfig>,
}

/// A name that the configuration does not have.
#[derive(Debug)]
pub enum ConfigError {
    UnknownModel(String),
    UnknownServer(String),
}

/// The message for a model that is not configured.
pub open spec fn unknown_model_text(name: Seq<char>) -> Seq<char> {
    "model '"@ + name + "' not found in config"@
}

/// The message for a server that is not configured.
pub open spec fn unknown_server_text(name: Seq<char>) -> Seq<char> {
    "MCP server '"@ + name + "' not found in config"@
}

impl ConfigError {
    /// The message for the log.
    pub fn message(&self) -> (text: String)
        ensures
            text@ == (match *self {
                ConfigError::UnknownModel(name) => unknown_model_text(name@),
                ConfigError::UnknownServer(name) => unknown_server_text(name@),
            }),
    {
        match self {
            ConfigError::UnknownModel(name) => "model '".to_owned().concat(name.as_str()).concat(
                "' not found in config",
            ),
            ConfigError::UnknownServer(name) => "MCP server '".to_owned().concat(
                name.as_str(),
            ).concat("' not found in config"),
        }
    }
}

/// The model at this index is the first one of this name.
pub open spec fn first_model(models: Seq<ModelConfig>, name: Seq<char>, i: int) -> bool {
    &&& 0 <= i < models.len()
    &&& models[i].name@ == name
    &&& forall|k: int| 0 <= k < i ==> (#[trigger] models[k]).name@ != name
}

/// The server at this index is the first one of this name.
pub open spec fn first_server(servers: Seq<McpServerConfig>, name: Seq<char>, i: int) -> bool {
    &&& 0 <= i < servers.len()
    &&& servers[i].name@ == name
    &&& forall|k: int| 0 <= k < i ==> (#[trigger] servers[k]).name@ != name
}

impl DriverConfig {
    /// Some model has this name.
    pub open spec fn has_model(self, name: Seq<char>) -> bool {
        exists|i: int| 0 <= i < self.models@.len() && (#[trigger] self.models@[i]).name@ == name
    }

    /// Some server has this name.
    pub open spec fn has_server(self, name: Seq<char>) -> bool {
        exists|i: int|
            0 <= i < self.mcp_servers@.len() && (#[trigger] self.mcp_servers@[i]).name@ == name
    }

    /// The model with this name, the first one where there are more.
    pub fn find_model(&self, name: &str) -> (found: Result<&ModelConfig, ConfigError>)
        ensures
            found is Ok <==> self.has_model(name@),
            found matches Ok(model) ==> exists|i: int|
                #[trigger] first_model(self.models@, name@, i) && *model == self.models@[i],
            found matches Err(e) ==> (e matches ConfigError::UnknownModel(n) && n@ == name@),
    {
        let mut i: usize = 0;
        while i < self.models.len()
            invariant
                i <= self.models@.len(),
                forall|k: int| 0 <= k < i ==> (#[trigger] self.models@[k]).name@ != name@,
            decreases self.models@.len() - i,
        {
            if same_text(self.models[i].name.as_str(), name) {
                assert(first_model(self.models@, name@, i as int));
                return Ok(&self.models[i]);
            }
            i += 1;
        }
        Err(ConfigError::UnknownModel(name.to_owned()))
    }

    /// The server with this name, the first one where there are more.
    pub fn find_server(&self, name: &str) -> (found: Result<&McpServerConfig, ConfigError>)
        ensures
            found is Ok <==> self.has_server(name@),
            found matches Ok(server) ==> exists|i: int|
                #[trigger] first_server(self.mcp_servers@, name@, i) && *server
                    == self.mcp_servers@[i],
            found matches Err(e) ==> (e matches ConfigError::UnknownServer(n) && n@ == name@),
    {
        let mut i: usize = 0;
        while i < self.mcp_servers.len()
            invariant
                i <= self.mcp_servers@.len(),
                forall|k: int| 0 <= k < i ==> (#[trigger] self.mcp_servers@[k]).name@ != name@,
            decreases self.mcp_servers@.len() - i,
        {
            if same_text(self.mcp_servers[i].name.as_str(), name) {
                assert(first_server(self.mcp_servers@, name@, i as int));
                return Ok(&self.mcp_servers[i]);
            }
            i += 1;
        }
        Err(ConfigError::UnknownServer(name.to_owned()))
    }
}

/// The message for a name that is not configured shows the name.
pub proof fn law_unknown_name_is_shown(name: Seq<char>)
    ensures
        shows(unknown_model_text(name), "model '"@ + name + "'"@),
        shows(unknown_server_text(name), "server '"@ + name + "'"@),
{
    reveal_strlit("'");
    reveal_strlit("' not found in config");
    reveal_strlit(" not found in config");
    reveal_strlit("MCP server '");
    reveal_strlit("MCP ");
    reveal_strlit("server '");
    let model = "model '"@ + name + "'"@;
    let server = "server '"@ + name + "'"@;
    let end = " not found in config"@;
    assert(unknown_model_text(name) =~= Seq::empty() + model + end);
    assert(unknown_server_text(name) =~= "MCP "@ + server + end);
    lemma_shows_between(Seq::empty(), model, end, unknown_model_text(name));
    lemma_shows_between("MCP "@, server, end, unknown_server_text(name));
}

} // verus!
