use vstd::prelude::*;

verus! {

/// A listener's settings: the address it binds.
pub struct Daemon {
    socket_addr: String,
}

impl Daemon {
    /// The address this daemon binds.
    pub closed spec fn addr(&self) -> Seq<char> {
        self.socket_addr@
    }

    /// A daemon that binds `socket_addr`.
    pub fn new(socket_addr: String) -> (r: Daemon)
        ensures
            r.addr() == socket_addr@,
    {
        Daemon { socket_addr }
    }

    /// The address this daemon binds.
    pub fn socket_addr(&self) -> (r: &str)
        ensures
            r@ == self.addr(),
    {
        self.socket_addr.as_str()
    }
}

} // verus!
