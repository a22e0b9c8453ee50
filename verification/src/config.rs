//! The settings of a server as Python code gives them.
use crate::error::Error;
use crate::gateway::{Rustgi, SocketAddress};
use vstd::prelude::*;

verus! {

/// The settings of a server.
pub struct RustgiConfig {
    address: String,
    max_body_size: usize,
}

impl View for RustgiConfig {
    type V = (Seq<char>, usize);

    /// The address, and the size of the largest body that is taken.
    closed spec fn view(&self) -> (Seq<char>, usize) {
        (self.address@, self.max_body_size)
    }
}

impl Default for RustgiConfig {
    fn default() -> (config: Self)
        ensures
            config@ == ("127.0.0.1:8000"@, 10485760usize),
    {
        RustgiConfig { address: "127.0.0.1:8000".to_owned(), max_body_size: 1024 * 1024 * 10 }
    }
}

impl Clone for RustgiConfig {
    fn clone(&self) -> (other: Self)
        ensures
            other@ == self@,
    {
        RustgiConfig { address: self.address.clone(), max_body_size: self.max_body_size }
    }
}

impl RustgiConfig {
    /// The settings by default: port 8000 of the local host, and bodies of up to
    /// ten MiB.
    pub fn new() -> (config: Self)
        ensures
            config@ == ("127.0.0.1:8000"@, 10485760usize),
    {
        Default::default()
    }

    /// The address, as it was given.
    pub fn address(&self) -> (address: &str)
        ensures
            address@ == self@.0,
    {
        self.address.as_str()
    }

    /// Sets the address.
    pub fn set_address(&mut self, address: &str)
        ensures
            final(self)@ == (address@, old(self)@.1),
    {
        self.address = address.to_owned();
    }

    /// Sets the size of the largest body that is taken.
    pub fn set_max_body_size(&mut self, max_body_size: usize)
        ensures
            final(self)@ == (old(self)@.0, max_body_size),
    {
        self.max_body_size = max_body_size;
    }

    /// A server with these settings for an application. `parsed` is what the address
    /// was read as, or why it is none.
    pub fn into_rustgi<A>(self, parsed: Result<SocketAddress, String>, app: A) -> (rustgi: Result<
        Rustgi<A>,
        Error,
    >)
        ensures
            match parsed {
                Ok(address) => rustgi is Ok && rustgi->Ok_0@ == (app, address, self@.1),
                Err(text) => rustgi == Err::<Rustgi<A>, Error>(Error::AddrParseError(text)),
            },
    {
        match parsed {
            Ok(address) => {
                let mut rustgi = Rustgi::new(address, app);
                rustgi.set_max_body_size(self.max_body_size);
                Ok(rustgi)
            },
            Err(text) => Err(Error::AddrParseError(text)),
        }
    }
}

}
