//! What a plugin declares about itself: where it may be installed and what it needs.

use vstd::prelude::*;

verus! {

/// Where a plugin may be installed.
#[derive(Debug, Clone, Copy, PartialEq, Eq, Default, Hash, Structural)]
pub enum PluginScope {
    /// In the root scope and in child scopes.
    #[default]
    Any,
    /// In the root scope only.
    Root,
    /// In child scopes only.
    Child,
}

impl PluginScope {
    /// Whether a plugin that declares `self` may be installed in a scope of kind `actual`.
    pub open spec fn admits(self, actual: PluginScope) -> bool {
        self == PluginScope::Any || self == actual
    }

    /// The name of the variant.
    pub open spec fn text(self) -> Seq<char> {
        match self {
            PluginScope::Any => "Any"@,
            PluginScope::Root => "Root"@,
            PluginScope::Child => "Child"@,
        }
    }

    /// The name of the variant.
    pub fn label(self) -> (s: &'static str)
        ensures
            s@ == self.text(),
    {
        match self {
            PluginScope::Any => "Any",
            PluginScope::Root => "Root",
            PluginScope::Child => "Child",
        }
    }
}

/// The key of a service slot: a number per service type, and the type's readable name.
///
/// Two keys name the same slot exactly when their numbers are equal; the name only serves
/// error messages.
#[derive(Debug, Clone, Copy, PartialEq, Eq, Hash)]
pub struct ServiceKey {
    pub id: u64,
    pub name: &'static str,
}

impl ServiceKey {
    /// The key with the given number and name.
    pub fn new(id: u64, name: &'static str) -> (key: ServiceKey)
        ensures
            key == (ServiceKey { id, name }),
    {
        ServiceKey { id, name }
    }
}

/// A declared dependency on a service.
#[derive(Debug, Clone, Copy, PartialEq, Eq, Hash)]
pub struct Dependency {
    /// The number of the service's slot.
    pub type_id: u64,
    /// The readable name of the service's type.
    pub name: &'static str,
    /// Whether the service may be absent.
    pub optional: bool,
}

impl Dependency {
    /// A dependency on a service that must be present.
    pub fn of(service: ServiceKey) -> (d: Dependency)
        ensures
            d == (Dependency { type_id: service.id, name: service.name, optional: false }),
    {
        Dependency { type_id: service.id, name: service.name, optional: false }
    }

    /// A dependency on a service that may be absent.
    pub fn optional_of(service: ServiceKey) -> (d: Dependency)
        ensures
            d == (Dependency { type_id: service.id, name: service.name, optional: true }),
    {
        Dependency { type_id: service.id, name: service.name, optional: true }
    }
}

/// A declared dependency on another plugin.
#[derive(Debug, Clone, Copy, PartialEq, Eq, Hash)]
pub struct PluginDependency {
    /// The name of the plugin that is needed.
    pub plugin_name: &'static str,
    /// Whether that plugin may be absent.
    pub optional: bool,
}

impl PluginDependency {
    /// A dependency on a plugin that must be present.
    pub fn of(plugin_name: &'static str) -> (d: PluginDependency)
        ensures
            d == (PluginDependency { plugin_name, optional: false }),
    {
        PluginDependency { plugin_name, optional: false }
    }

    /// A dependency on a plugin that may be absent.
    pub fn optional_of(plugin_name: &'static str) -> (d: PluginDependency)
        ensures
            d == (PluginDependency { plugin_name, optional: true }),
    {
        PluginDependency { plugin_name, optional: true }
    }
}

} // verus!
