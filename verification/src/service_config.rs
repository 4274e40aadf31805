//! Configuration plumbing: which sources a service's configuration is read
//! from and in what precedence, and the host's own listen configuration.
//! Reading files and the environment is the collaborator's work; the library
//! fixes the plan it must follow.

use vstd::prelude::*;

use vstd::string::StringExecFns;

verus! {

/// Whether a service reads a configuration file besides its environment
/// variables, and whether that file may be absent.
#[derive(Debug)]
pub enum ConfigFileType {
    NoFile,
    File { filename: String, required: bool },
}

/// One source of configuration values. Sources later in a plan override
/// earlier ones.
#[derive(Debug)]
pub enum ConfigSource {
    /// Environment variables carrying the given prefix.
    Environment { prefix: String },
    /// A configuration file by name; a missing optional file contributes
    /// nothing, a missing required file fails the load.
    File { filename: String, required: bool },
}

/// The view of a configuration source.
pub ghost struct ConfigSourceView {
    pub is_file: bool,
    pub name: Seq<char>,
    pub required: bool,
}

impl View for ConfigSource {
    type V = ConfigSourceView;

    open spec fn view(&self) -> ConfigSourceView {
        match self {
            ConfigSource::Environment { prefix } => ConfigSourceView {
                is_file: false,
                name: prefix@,
                required: true,
            },
            ConfigSource::File { filename, required } => ConfigSourceView {
                is_file: true,
                name: filename@,
                required: *required,
            },
        }
    }
}

/// The views of a sequence of sources.
pub open spec fn source_views(sources: Seq<ConfigSource>) -> Seq<ConfigSourceView> {
    sources.map_values(|s: ConfigSource| s@)
}

/// The plan a service's configuration is loaded by: the file first when one
/// is named, then the prefixed environment, so that environment variables
/// override file values.
pub fn config_sources(env_prefix: &str, config_file: &ConfigFileType) -> (r: Vec<ConfigSource>)
    ensures
        match config_file {
            ConfigFileType::NoFile => source_views(r@) =~= seq![
                ConfigSourceView { is_file: false, name: env_prefix@, required: true },
            ],
            ConfigFileType::File { filename, required } => source_views(r@) =~= seq![
                ConfigSourceView { is_file: true, name: filename@, required: *required },
                ConfigSourceView { is_file: false, name: env_prefix@, required: true },
            ],
        },
{
    let mut sources: Vec<ConfigSource> = Vec::new();
    match config_file {
        ConfigFileType::NoFile => {},
        ConfigFileType::File { filename, required } => {
            sources.push(ConfigSource::File { filename: filename.clone(), required: *required });
        },
    }
    sources.push(ConfigSource::Environment { prefix: env_prefix.to_owned() });
    sources
}

/// The host's own configuration: where to listen and where the static
/// content lives.
#[derive(Debug)]
pub struct ServiceConfig {
    pub listen_address: String,
    pub listen_port: String,
    pub static_content: String,
}

impl ServiceConfig {
    /// The endpoint the host binds: address and port joined by a colon.
    pub fn listen(&self) -> (r: String)
        ensures
            r@ == self.listen_address@ + ":"@ + self.listen_port@,
    {
        let joined = self.listen_address.clone().concat(":").concat(self.listen_port.as_str());
        joined
    }
}

} // verus!
