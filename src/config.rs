use crate::document::{first_string, get, kdl_document, lookup, parse_document, Node, Span};
use vstd::prelude::*;

verus! {

/// Connection settings for the remote host.
#[derive(Debug, Clone, PartialEq, Eq)]
pub struct GitLabConfig {
    pub host: String,
    pub token: String,
}

/// Settings for the local machine.
#[derive(Debug, Clone, PartialEq, Eq)]
pub struct LocalConfig {
    pub project_dir: String,
}

/// The resolved configuration of one invocation.
#[derive(Debug, Clone, PartialEq, Eq)]
pub struct Config {
    pub gitlab: GitLabConfig,
    pub local: LocalConfig,
}

/// Why a configuration or layout document was refused.
#[derive(Debug)]
pub enum ConfigError {
    /// The text is not a well-formed document.
    Syntax(kdl::KdlError),
    /// A required top-level node is absent.
    MissingNode { node: String },
    /// A node that must hold children has none.
    EmptyNode { node: String, span: Span },
    /// A required child node is absent; `span` locates its parent.
    MissingChild { child: String, span: Span },
    /// A child node has no string value; `span` locates the child.
    MissingValue { child: String, span: Span },
    /// No default location for the configuration file could be found.
    NoConfigPath,
}

/// What a `ConfigError` says, with its names as sequences.
pub enum Fault {
    Syntax,
    MissingNode(Seq<char>),
    EmptyNode(Seq<char>, Span),
    MissingChild(Seq<char>, Span),
    MissingValue(Seq<char>, Span),
    NoConfigPath,
}

impl ConfigError {
    pub open spec fn fault(&self) -> Fault {
        match self {
            ConfigError::Syntax(_) => Fault::Syntax,
            ConfigError::MissingNode { node } => Fault::MissingNode(node@),
            ConfigError::EmptyNode { node, span } => Fault::EmptyNode(node@, *span),
            ConfigError::MissingChild { child, span } => Fault::MissingChild(child@, *span),
            ConfigError::MissingValue { child, span } => Fault::MissingValue(child@, *span),
            ConfigError::NoConfigPath => Fault::NoConfigPath,
        }
    }
}

pub open spec fn deref_node(node: Option<&Node>) -> Option<Node> {
    match node {
        Some(n) => Some(*n),
        None => None,
    }
}

/// The string value of the child `name` of a block located at `block`.
pub open spec fn value_spec(doc: Seq<Node>, block: Span, name: Seq<char>) -> Result<
    Seq<char>,
    Fault,
> {
    match lookup(doc, name) {
        None => Err(Fault::MissingChild(name, block)),
        Some(n) => match first_string(n) {
            Some(v) => Ok(v),
            None => Err(Fault::MissingValue(name, n.span)),
        },
    }
}

/// The child naming the remote host: `host` where it is given, else `url`.
pub open spec fn host_key(doc: Seq<Node>) -> Seq<char> {
    if lookup(doc, "host"@) is Some {
        "host"@
    } else {
        "url"@
    }
}

/// Host and token read from a `gitlab` node.
pub open spec fn gitlab_spec(node: Option<Node>) -> Result<(Seq<char>, Seq<char>), Fault> {
    match node {
        None => Err(Fault::MissingNode("gitlab"@)),
        Some(n) => match n.children {
            None => Err(Fault::EmptyNode("gitlab"@, n.span)),
            Some(doc) => match value_spec(doc@, n.span, host_key(doc@)) {
                Err(f) => Err(f),
                Ok(host) => match value_spec(doc@, n.span, "token"@) {
                    Err(f) => Err(f),
                    Ok(token) => Ok((host, token)),
                },
            },
        },
    }
}

/// Project root read from a `local` node.
pub open spec fn local_spec(node: Option<Node>) -> Result<Seq<char>, Fault> {
    match node {
        None => Err(Fault::MissingNode("local"@)),
        Some(n) => match n.children {
            None => Err(Fault::EmptyNode("local"@, n.span)),
            Some(doc) => value_spec(doc@, n.span, "project_dir"@),
        },
    }
}

/// Host, token and project root read from a configuration document.
pub open spec fn config_spec(doc: Seq<Node>) -> Result<(Seq<char>, Seq<char>, Seq<char>), Fault> {
    match gitlab_spec(lookup(doc, "gitlab"@)) {
        Err(f) => Err(f),
        Ok((host, token)) => match local_spec(lookup(doc, "local"@)) {
            Err(f) => Err(f),
            Ok(dir) => Ok((host, token, dir)),
        },
    }
}

pub open spec fn text_outcome(r: Result<String, ConfigError>) -> Result<Seq<char>, Fault> {
    match r {
        Ok(s) => Ok(s@),
        Err(e) => Err(e.fault()),
    }
}

pub open spec fn gitlab_outcome(r: Result<GitLabConfig, ConfigError>) -> Result<
    (Seq<char>, Seq<char>),
    Fault,
> {
    match r {
        Ok(c) => Ok((c.host@, c.token@)),
        Err(e) => Err(e.fault()),
    }
}

pub open spec fn local_outcome(r: Result<LocalConfig, ConfigError>) -> Result<Seq<char>, Fault> {
    match r {
        Ok(c) => Ok(c.project_dir@),
        Err(e) => Err(e.fault()),
    }
}

pub open spec fn config_outcome(r: Result<Config, ConfigError>) -> Result<
    (Seq<char>, Seq<char>, Seq<char>),
    Fault,
> {
    match r {
        Ok(c) => Ok((c.gitlab.host@, c.gitlab.token@, c.local.project_dir@)),
        Err(e) => Err(e.fault()),
    }
}

/// The string value of the child `name` of a block located at `block`.
pub fn get_value_or_error(doc: &Vec<Node>, block: Span, name: &str) -> (r: Result<
    String,
    ConfigError,
>)
    ensures
        text_outcome(r) == value_spec(doc@, block, name@),
{
    match get(doc, name) {
        Some(node) => {
            if node.entries.len() > 0 {
                if let Some(value) = &node.entries[0] {
                    return Ok(value.clone());
                }
            }
            Err(ConfigError::MissingValue { child: name.to_owned(), span: node.span })
        },
        None => Err(ConfigError::MissingChild { child: name.to_owned(), span: block }),
    }
}

/// Reads host and token from the `gitlab` node.
pub fn parse_gitlab_config(node: Option<&Node>) -> (r: Result<GitLabConfig, ConfigError>)
    ensures
        gitlab_outcome(r) == gitlab_spec(deref_node(node)),
{
    let node = match node {
        Some(node) => node,
        None => {
            return Err(ConfigError::MissingNode { node: "gitlab".to_owned() });
        },
    };
    let doc = match &node.children {
        Some(doc) => doc,
        None => {
            return Err(ConfigError::EmptyNode { node: "gitlab".to_owned(), span: node.span });
        },
    };
    let host_name = if get(doc, "host").is_some() {
        "host"
    } else {
        "url"
    };
    let host = match get_value_or_error(doc, node.span, host_name) {
        Ok(host) => host,
        Err(e) => {
            return Err(e);
        },
    };
    let token = match get_value_or_error(doc, node.span, "token") {
        Ok(token) => token,
        Err(e) => {
            return Err(e);
        },
    };
    Ok(GitLabConfig { host, token })
}

/// Reads the project root from the `local` node.
pub fn parse_local_config(node: Option<&Node>) -> (r: Result<LocalConfig, ConfigError>)
    ensures
        local_outcome(r) == local_spec(deref_node(node)),
{
    let node = match node {
        Some(node) => node,
        None => {
            return Err(ConfigError::MissingNode { node: "local".to_owned() });
        },
    };
    let doc = match &node.children {
        Some(doc) => doc,
        None => {
            return Err(ConfigError::EmptyNode { node: "local".to_owned(), span: node.span });
        },
    };
    match get_value_or_error(doc, node.span, "project_dir") {
        Ok(project_dir) => Ok(LocalConfig { project_dir }),
        Err(e) => Err(e),
    }
}

/// Reads the whole configuration from a parsed document.
pub fn config_from_document(doc: &Vec<Node>) -> (r: Result<Config, ConfigError>)
    ensures
        config_outcome(r) == config_spec(doc@),
{
    let gitlab = match parse_gitlab_config(get(doc, "gitlab")) {
        Ok(gitlab) => gitlab,
        Err(e) => {
            return Err(e);
        },
    };
    match parse_local_config(get(doc, "local")) {
        Ok(local) => Ok(Config { gitlab, local }),
        Err(e) => Err(e),
    }
}

/// Reads the configuration from the text of a configuration file.
pub fn parse_config(text: &str) -> (r: Result<Config, ConfigError>)
    ensures
        match kdl_document(text@) {
            None => r matches Err(e) && e.fault() == Fault::Syntax,
            Some(doc) => config_outcome(r) == config_spec(doc),
        },
{
    match parse_document(text) {
        Ok(doc) => config_from_document(&doc),
        Err(e) => Err(e),
    }
}

/// Whether `s` ends with `suffix`.
pub open spec fn ends_with(s: Seq<char>, suffix: Seq<char>) -> bool {
    s.len() >= suffix.len() && s.subrange(s.len() - suffix.len(), s.len() as int) == suffix
}

/// Relies on xdg's `BaseDirectories::with_prefix(prefix).get_config_file(file)`:
/// where a configuration home is known, the file `prefix/file` under it. The
/// configuration home comes from the environment, so nothing more is stated.
#[verifier::external_body]
fn xdg_config_file(prefix: &str, file: &str) -> (r: Option<String>)
    requires
        prefix@.len() > 0,
        file@.len() > 0,
        !prefix@.contains('/'),
        !file@.contains('/'),
    ensures
        r matches Some(p) ==> ends_with(p@, seq!['/'] + prefix@ + seq!['/'] + file@),
{
    let path = xdg::BaseDirectories::with_prefix(prefix).get_config_file(file)?;
    path.into_os_string().into_string().ok()
}

/// The configuration file to read: the one named by the caller, else
/// `glazy/config.kdl` under the user's configuration home.
pub fn config_file_path(file_name_candidate: Option<String>) -> (r: Result<String, ConfigError>)
    ensures
        file_name_candidate matches Some(f) ==> r matches Ok(p) && p@ == f@,
        file_name_candidate is None ==> match r {
            Ok(p) => ends_with(p@, "/glazy/config.kdl"@),
            Err(e) => e.fault() == Fault::NoConfigPath,
        },
{
    match file_name_candidate {
        Some(file_name) => Ok(file_name),
        None => {
            proof {
                reveal_strlit("glazy");
                reveal_strlit("config.kdl");
                reveal_strlit("/glazy/config.kdl");
            }
            match xdg_config_file("glazy", "config.kdl") {
                Some(path) => {
                    assert(seq!['/'] + "glazy"@ + seq!['/'] + "config.kdl"@ =~= "/glazy/config.kdl"@);
                    Ok(path)
                },
                None => Err(ConfigError::NoConfigPath),
            }
        },
    }
}

/// A `gitlab` block whose `host` (or, where there is no `host`, `url`) and
/// `token` children both hold a string as first value is read as exactly
/// those strings; one that lacks either child is refused.
pub proof fn lemma_gitlab_values_verbatim(n: Node, doc: Seq<Node>)
    requires
        n.children matches Some(c) && c@ == doc,
    ensures
        ({
            let host = lookup(doc, "host"@);
            let token = lookup(doc, "token"@);
            host is Some && first_string(host->0) is Some && token is Some && first_string(
                token->0,
            ) is Some ==> gitlab_spec(Some(n)) == Ok::<_, Fault>(
                (first_string(host->0)->0, first_string(token->0)->0),
            )
        }),
        ({
            let url = lookup(doc, "url"@);
            let token = lookup(doc, "token"@);
            lookup(doc, "host"@) is None && url is Some && first_string(url->0) is Some && token is Some
                && first_string(token->0) is Some ==> gitlab_spec(Some(n)) == Ok::<_, Fault>(
                (first_string(url->0)->0, first_string(token->0)->0),
            )
        }),
        lookup(doc, "url"@) is None && lookup(doc, "host"@) is None ==> gitlab_spec(Some(n)) is Err,
        lookup(doc, "token"@) is None ==> gitlab_spec(Some(n)) is Err,
{
}

} // verus!
