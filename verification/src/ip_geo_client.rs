//! The pluggable geolocation capability.
//!
//! A provider maps addresses to country metadata.  Two families exist: a
//! remote lookup service spoken to over HTTP by the caller, and an offline
//! database reader (`crate::mmdb_client`).  Which one a run uses is chosen
//! once, at startup, through the configuration.

use vstd::prelude::*;

use crate::configs_parser::Config;

verus! {

/// What every concrete provider offers at construction time.
pub trait NewProvider: Sized {
    /// Create a new instance of the provider from the configuration.
    fn new(config: &Config) -> Self;

    /// The provider's display name.
    fn get_provider_type(&self) -> String;
}

/// Which geolocation provider a run uses.
#[derive(Clone, Copy, Debug, PartialEq, Eq, Structural)]
pub enum IpGeoProviderType {
    IpApi,
    MMDB,
    Disabled,
}

impl Default for IpGeoProviderType {
    fn default() -> (r: Self)
        ensures
            r == IpGeoProviderType::MMDB,
    {
        IpGeoProviderType::MMDB
    }
}

impl IpGeoProviderType {
    /// The display name of the provider type.
    pub fn name(&self) -> (r: &'static str)
        ensures
            *self == IpGeoProviderType::IpApi ==> r@ == "IP-API"@,
            *self == IpGeoProviderType::MMDB ==> r@ == "MMDB"@,
            *self == IpGeoProviderType::Disabled ==> r@ == "None"@,
    {
        match *self {
            IpGeoProviderType::IpApi => "IP-API",
            IpGeoProviderType::MMDB => "MMDB",
            IpGeoProviderType::Disabled => "None",
        }
    }
}

/// A provider wrapper: the capability the orchestration depends on, however
/// the concrete lookup is implemented.
#[derive(Clone, Debug)]
pub struct IpGeoProvider<T>(pub T);

impl<T: NewProvider + Clone> IpGeoProvider<T> {
    pub fn new(provider: T) -> (r: Self)
        ensures
            r.0 == provider,
    {
        IpGeoProvider(provider)
    }

    pub fn get_provider_type(&self) -> String {
        self.0.get_provider_type()
    }
}

/// Builds a provider of the chosen concrete type from the configuration.
#[derive(Clone, Debug)]
pub struct IpGeoClient;

impl IpGeoClient {
    pub fn with_provider<T: NewProvider + Clone>(config: &Config) -> IpGeoProvider<T> {
        IpGeoProvider(T::new(config))
    }
}

} // verus!
