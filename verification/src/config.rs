//! What a node is started with.

use vstd::prelude::*;

verus! {

/// The configuration of a node.
#[derive(Debug)]
pub struct Config {
    /// The network interface to bind.
    pub interface: String,
    /// Address to bind to, with the port.
    pub address: String,
    /// Address of the switch control plane, with the port.
    pub switch_addr: String,
}

impl Config {
    /// A copy with the same three texts.
    pub fn clone(&self) -> (r: Config)
        ensures
            r.interface@ == self.interface@,
            r.address@ == self.address@,
            r.switch_addr@ == self.switch_addr@,
    {
        Config {
            interface: self.interface.clone(),
            address: self.address.clone(),
            switch_addr: self.switch_addr.clone(),
        }
    }
}

} // verus!
