//! The master's service for its slaves: the registry of the slaves that
//! receive its writes.
use vstd::prelude::*;
use crate::assoc::AssocList;
use crate::error::ServiceError;

verus! {

/// The registry of slaves, each under its address, with the client `C`
/// that reaches it.
pub struct Slave2MasterService<C> {
    slaves: AssocList<C>,
}

impl<C> Slave2MasterService<C> {
    /// The registered slaves: address to client.
    pub closed spec fn view(&self) -> Map<Seq<char>, C> {
        self.slaves.view()
    }

    /// The registry is well formed.
    pub closed spec fn wf(&self) -> bool {
        self.slaves.wf()
    }

    /// An empty registry.
    pub fn new() -> (r: Slave2MasterService<C>)
        ensures
            r.wf(),
            r.view() == Map::<Seq<char>, C>::empty(),
    {
        Slave2MasterService { slaves: AssocList::new() }
    }

    /// Registers a slave: `payload` is its address with the client
    /// connected to it, which replaces any earlier one under that address.
    /// Refused when the request carries no address.
    pub fn register(&mut self, payload: Option<(String, C)>) -> (r: Result<String, ServiceError>)
        requires
            old(self).wf(),
        ensures
            final(self).wf(),
            match payload {
                Some((addr, client)) => final(self).view() == old(self).view().insert(
                    addr@,
                    client,
                ) && r is Ok && r->Ok_0@ == "register success"@,
                None => final(self).view() == old(self).view() && r == Err::<String, ServiceError>(
                    ServiceError::EmptyRegister,
                ),
            },
    {
        match payload {
            Some((addr, client)) => {
                self.slaves.insert(addr, client);
                Ok("register success".to_owned())
            },
            None => Err(ServiceError::EmptyRegister),
        }
    }

    /// Takes the slave at the address `payload` out of the registry.
    /// Refused when the request carries no address.
    pub fn logout(&mut self, payload: Option<String>) -> (r: Result<String, ServiceError>)
        requires
            old(self).wf(),
        ensures
            final(self).wf(),
            match payload {
                Some(addr) => final(self).view() == old(self).view().remove(addr@) && r is Ok
                    && r->Ok_0@ == "logout success"@,
                None => final(self).view() == old(self).view() && r == Err::<String, ServiceError>(
                    ServiceError::EmptyLogout,
                ),
            },
    {
        match payload {
            Some(addr) => {
                self.slaves.remove(addr.as_str());
                Ok("logout success".to_owned())
            },
            None => Err(ServiceError::EmptyLogout),
        }
    }

    /// The registered slaves with their clients, each address once, to
    /// send each write to.
    pub fn slaves(&self) -> (r: &Vec<(String, C)>)
        requires
            self.wf(),
        ensures
            crate::assoc::keys_unique(r@),
            crate::assoc::entries_map(r@) == self.view(),
    {
        proof {
            self.slaves.lemma_view();
        }
        self.slaves.entries()
    }
}

} // verus!
