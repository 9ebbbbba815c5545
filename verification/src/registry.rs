//! The backend registry: the immutable ordered pool of backend
//! addresses, parsed once at startup from their textual form.

use vstd::prelude::*;

use crate::addr::BackendAddress;
use crate::addr::parse_addr_spec;
use crate::addr::parse_backend_address;

verus! {

/// Why a textual server list was rejected.
#[derive(Clone, Copy, PartialEq, Eq, Structural, Debug)]
pub enum RegistryError {
    /// The list was empty; at least one backend is mandatory.
    EmptyServerList,
    /// The entry at this index does not parse as `<host>:<port>`.
    InvalidAddress { index: usize },
}

/// The ordered, non-empty pool of backend addresses. The order is the
/// order of the input list and never changes afterwards.
pub struct BackendPool {
    pub servers: Vec<BackendAddress>,
}

impl View for BackendPool {
    type V = Seq<BackendAddress>;

    open spec fn view(&self) -> Seq<BackendAddress> {
        self.servers@
    }
}

impl BackendPool {
    /// A pool is well formed when it holds at least one backend.
    pub open spec fn wf(&self) -> bool {
        self@.len() >= 1
    }

    /// The number of backends in the pool.
    pub fn len(&self) -> (n: usize)
        ensures
            n == self@.len(),
    {
        self.servers.len()
    }

    /// The backend at a pool index.
    pub fn get(&self, i: usize) -> (a: BackendAddress)
        requires
            i < self@.len(),
        ensures
            a == self@[i as int],
    {
        self.servers[i]
    }

    /// Parse a textual server list into a pool.
    ///
    /// Fails on an empty list, and on the first entry that does not
    /// parse, naming its index; there is no partial pool. On success the
    /// pool holds the parse of every entry, in input order.
    pub fn parse(servers: &Vec<String>) -> (r: Result<BackendPool, RegistryError>)
        ensures
            match r {
                Ok(pool) => pool.wf() && servers@.len() >= 1 && pool@.len() == servers@.len()
                    && forall|i: int|
                    0 <= i < servers@.len() ==> parse_addr_spec(#[trigger] servers@[i]@) == Some(
                        pool@[i],
                    ),
                Err(e) => match e {
                    RegistryError::EmptyServerList => servers@.len() == 0,
                    RegistryError::InvalidAddress { index } => index < servers@.len()
                        && parse_addr_spec(servers@[index as int]@) is None && forall|i: int|
                        0 <= i < index ==> parse_addr_spec(#[trigger] servers@[i]@) is Some,
                },
            },
    {
        if servers.len() == 0 {
            return Err(RegistryError::EmptyServerList);
        }
        let mut parsed: Vec<BackendAddress> = Vec::new();
        let mut i: usize = 0;
        while i < servers.len()
            invariant
                i <= servers@.len(),
                parsed@.len() == i,
                forall|j: int|
                    0 <= j < i ==> parse_addr_spec(#[trigger] servers@[j]@) == Some(parsed@[j]),
            decreases servers@.len() - i,
        {
            match parse_backend_address(servers[i].as_str()) {
                Some(a) => {
                    parsed.push(a);
                },
                None => {
                    return Err(RegistryError::InvalidAddress { index: i });
                },
            }
            i = i + 1;
        }
        Ok(BackendPool { servers: parsed })
    }
}

} // verus!
