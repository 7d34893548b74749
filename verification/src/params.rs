//! Shared command-line parameters of the core commands, and the pure
//! decisions taken over them: which chain key to load a specification
//! under, and which base path to work in.

use vstd::prelude::*;

verus! {

/// `std::path::PathBuf` carried through opaquely; only the choice between a
/// custom path and a platform default is decided here.
#[verifier::external_type_specification]
#[verifier::external_body]
pub struct ExPathBuf(std::path::PathBuf);

/// Shared parameters used by all core commands.
#[derive(Debug, Clone)]
pub struct SharedParams {
    /// The chain specification to use (one of dev, local or staging).
    pub chain: Option<String>,
    /// Whether the development chain is selected.
    pub dev: bool,
    /// A custom base path, in place of the platform's application root.
    pub base_path: Option<std::path::PathBuf>,
    /// A custom logging filter.
    pub log: Option<String>,
}

impl SharedParams {
    /// The key under which the chain specification is resolved: the explicit
    /// `chain` value when one is given; `"dev"` when the development chain
    /// is selected; the empty key otherwise.
    pub open spec fn chain_key_spec(&self) -> Seq<char> {
        match self.chain {
            Some(c) => c@,
            None => if self.dev {
                "dev"@
            } else {
                ""@
            },
        }
    }

    /// Computes the chain key that the specification factory is asked for.
    pub fn chain_key(&self) -> (r: String)
        ensures
            r@ == self.chain_key_spec(),
    {
        match &self.chain {
            Some(chain) => chain.clone(),
            None => if self.dev {
                "dev".to_owned()
            } else {
                "".to_owned()
            },
        }
    }

    /// Whether no custom base path was given, so the platform's
    /// application root must be looked up in its place.
    pub fn needs_default_base_path(&self) -> (r: bool)
        ensures
            r == (self.base_path is None),
    {
        self.base_path.is_none()
    }

    /// Chooses the base path: the custom one when it was given, and the
    /// caller's platform default otherwise.
    pub fn base_path_or(self, default: std::path::PathBuf) -> (r: std::path::PathBuf)
        ensures
            r == match self.base_path {
                Some(p) => p,
                None => default,
            },
    {
        match self.base_path {
            Some(p) => p,
            None => default,
        }
    }
}

/// The three defaulting decisions taken while a service configuration is
/// updated from the shared parameters: whether to load the chain
/// specification from the JSON file named by the chain key (the factory
/// yielded none), whether to set the configuration directory from the base
/// path (none was set), and whether to point the database at the path under
/// the chain's configuration directory (none was configured).
pub fn update_config_decisions(
    factory_found_spec: bool,
    has_config_dir: bool,
    has_database: bool,
) -> (r: (bool, bool, bool))
    ensures
        r.0 == !factory_found_spec,
        r.1 == !has_config_dir,
        r.2 == !has_database,
{
    (!factory_found_spec, !has_config_dir, !has_database)
}

} // verus!
