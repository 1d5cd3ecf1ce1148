//! Capability providers and their descriptors.

use vstd::prelude::*;
use vstd::string::*;
use crate::runtime::CapabilityHandler;

verus! {

/// What a capability provider says about itself when it is loaded.
#[derive(Clone, Debug)]
pub struct CapabilityDescriptor {
    /// The capability id, e.g. `wascc:http_server`.
    pub id: String,
    /// A human-friendly provider name.
    pub name: String,
    /// The provider's version string.
    pub version: String,
    /// A monotonically increasing revision number.
    pub revision: u32,
}

/// The mathematical content of a [`CapabilityDescriptor`].
#[verifier::ext_equal]
pub ghost struct DescriptorView {
    pub id: Seq<char>,
    pub name: Seq<char>,
    pub version: Seq<char>,
    pub revision: u32,
}

impl View for CapabilityDescriptor {
    type V = DescriptorView;

    open spec fn view(&self) -> DescriptorView {
        DescriptorView {
            id: self.id@,
            name: self.name@,
            version: self.version@,
            revision: self.revision,
        }
    }
}

impl CapabilityDescriptor {
    /// Builds a descriptor.
    pub fn new(id: String, name: String, version: String, revision: u32) -> (r:
        CapabilityDescriptor)
        ensures
            r@.id == id@,
            r@.name == name@,
            r@.version == version@,
            r@.revision == revision,
    {
        CapabilityDescriptor { id, name, version, revision }
    }

    /// An exact copy of this descriptor.
    pub fn duplicate(&self) -> (r: CapabilityDescriptor)
        ensures
            r@ == self@,
    {
        let r = CapabilityDescriptor {
            id: self.id.clone(),
            name: self.name.clone(),
            version: self.version.clone(),
            revision: self.revision,
        };
        proof {
            assert(r@ =~= self@);
        }
        r
    }
}

/// A loaded native capability provider: a plugin handler together with its
/// descriptor and the binding name it was loaded under.
pub struct NativeCapability<P: CapabilityHandler> {
    /// The loaded plugin handler.
    pub handler: P,
    /// What the plugin says about itself.
    pub descriptor: CapabilityDescriptor,
    /// The binding name; `default` when none was given.
    pub binding_name: String,
}

impl<P: CapabilityHandler> NativeCapability<P> {
    /// Wraps a loaded plugin handler under the given binding name, or under
    /// the default binding name when none is given.
    pub fn new(handler: P, descriptor: CapabilityDescriptor, binding_name: Option<String>) -> (r:
        NativeCapability<P>)
        ensures
            r.descriptor@ == descriptor@,
            match binding_name {
                Some(b) => r.binding_name@ == b@,
                None => r.binding_name@ == "default"@,
            },
    {
        let binding = match binding_name {
            Some(b) => b,
            None => String::from_str("default"),
        };
        NativeCapability { handler, descriptor, binding_name: binding }
    }

    /// The capability id of this provider.
    pub fn id(&self) -> (r: String)
        ensures
            r@ == self.descriptor@.id,
    {
        self.descriptor.id.clone()
    }
}

} // verus!
