//! Identity of a service within the process.

use vstd::prelude::*;

verus! {

/// Name of one service; equal and hashed by its text.
#[derive(Debug, Clone, Hash)]
pub struct ServiceId(pub String);

impl View for ServiceId {
    type V = Seq<char>;

    open spec fn view(&self) -> Seq<char> {
        self.0@
    }
}

impl PartialEq for ServiceId {
    fn eq(&self, o: &ServiceId) -> (r: bool) {
        self.0 == o.0
    }
}

impl vstd::std_specs::cmp::PartialEqSpecImpl for ServiceId {
    open spec fn obeys_eq_spec() -> bool {
        true
    }

    open spec fn eq_spec(&self, o: &ServiceId) -> bool {
        self@ == o@
    }
}

impl Eq for ServiceId {}

impl ServiceId {
    /// The service's name, as displayed.
    pub fn to_string(&self) -> (r: String)
        ensures
            r@ == self@,
    {
        self.0.clone()
    }

    /// A copy of this identifier.
    pub fn duplicate(&self) -> (r: ServiceId)
        ensures
            r@ == self@,
    {
        ServiceId(self.0.clone())
    }
}

} // verus!
