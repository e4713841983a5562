//! Network addresses as sequences of protocol components, and their
//! textual form (`/ip4/127.0.0.1/tcp/1337`).

use vstd::prelude::*;
use crate::text::{decimal, push_decimal, push_str};

verus! {

/// One component of an address.
#[derive(Debug, PartialEq, Eq)]
pub enum Protocol {
    /// An IPv4 address, most significant byte first.
    Ip4(u8, u8, u8, u8),
    /// A host name to be resolved to an IPv4 address.
    Dns4(String),
    /// A TCP port.
    Tcp(u16),
}

impl Clone for Protocol {
    fn clone(&self) -> (r: Self)
        ensures
            r == *self,
    {
        match self {
            Protocol::Ip4(a, b, c, d) => Protocol::Ip4(*a, *b, *c, *d),
            Protocol::Dns4(host) => Protocol::Dns4(host.clone()),
            Protocol::Tcp(port) => Protocol::Tcp(*port),
        }
    }
}

impl Protocol {
    /// The component as text.
    pub open spec fn spec_text(self) -> Seq<char> {
        match self {
            Protocol::Ip4(a, b, c, d) => "/ip4/"@ + decimal(a as nat) + "."@ + decimal(b as nat)
                + "."@ + decimal(c as nat) + "."@ + decimal(d as nat),
            Protocol::Dns4(host) => "/dns4/"@ + host@,
            Protocol::Tcp(port) => "/tcp/"@ + decimal(port as nat),
        }
    }

    /// Appends the component as text to `out`.
    pub fn push_text(&self, out: &mut Vec<char>)
        ensures
            final(out)@ == old(out)@ + self.spec_text(),
    {
        match self {
            Protocol::Ip4(a, b, c, d) => {
                push_str(out, "/ip4/");
                push_decimal(out, *a as u64);
                push_str(out, ".");
                push_decimal(out, *b as u64);
                push_str(out, ".");
                push_decimal(out, *c as u64);
                push_str(out, ".");
                push_decimal(out, *d as u64);
                assert(out@ == old(out)@ + ("/ip4/"@ + decimal(*a as nat) + "."@ + decimal(
                    *b as nat,
                ) + "."@ + decimal(*c as nat) + "."@ + decimal(*d as nat)));
            },
            Protocol::Dns4(host) => {
                push_str(out, "/dns4/");
                push_str(out, host.as_str());
                assert(out@ == old(out)@ + ("/dns4/"@ + host@));
            },
            Protocol::Tcp(port) => {
                push_str(out, "/tcp/");
                push_decimal(out, *port as u64);
                assert(out@ == old(out)@ + ("/tcp/"@ + decimal(*port as nat)));
            },
        }
    }
}

/// The components as text, one after the other.
pub open spec fn components_text(parts: Seq<Protocol>) -> Seq<char>
    decreases parts.len(),
{
    if parts.len() == 0 {
        Seq::empty()
    } else {
        components_text(parts.drop_last()) + parts.last().spec_text()
    }
}

/// A network address: its components from the outermost inwards.
#[derive(Debug, PartialEq, Eq)]
pub struct Multiaddr {
    pub parts: Vec<Protocol>,
}

impl Clone for Multiaddr {
    fn clone(&self) -> (r: Self)
        ensures
            r.parts@ == self.parts@,
    {
        let mut parts: Vec<Protocol> = Vec::new();
        let mut i: usize = 0;
        while i < self.parts.len()
            invariant
                i <= self.parts.len(),
                parts@ == self.parts@.take(i as int),
            decreases self.parts.len() - i,
        {
            parts.push(self.parts[i].clone());
            i += 1;
            assert(self.parts@.take(i as int) == self.parts@.take(i - 1).push(
                self.parts@[i - 1],
            ));
        }
        assert(self.parts@.take(self.parts.len() as int) == self.parts@);
        Multiaddr { parts }
    }
}

impl Multiaddr {
    /// The address as text.
    pub open spec fn spec_text(self) -> Seq<char> {
        components_text(self.parts@)
    }

    /// The address without components.
    pub fn empty() -> (addr: Multiaddr)
        ensures
            addr.parts@ == Seq::<Protocol>::empty(),
    {
        Multiaddr { parts: Vec::new() }
    }

    /// The address with `part` added as innermost component.
    pub fn with(self, part: Protocol) -> (addr: Multiaddr)
        ensures
            addr.parts@ == self.parts@.push(part),
    {
        let mut parts = self.parts;
        parts.push(part);
        Multiaddr { parts }
    }

    /// Appends the address as text to `out`.
    pub fn push_text(&self, out: &mut Vec<char>)
        ensures
            final(out)@ == old(out)@ + self.spec_text(),
    {
        let mut i: usize = 0;
        assert(components_text(self.parts@.take(0)) == Seq::<char>::empty());
        while i < self.parts.len()
            invariant
                i <= self.parts.len(),
                out@ == old(out)@ + components_text(self.parts@.take(i as int)),
            decreases self.parts.len() - i,
        {
            proof {
                assert(self.parts@.take(i + 1).drop_last() == self.parts@.take(i as int));
            }
            self.parts[i].push_text(out);
            i += 1;
            assert(out@ == old(out)@ + (components_text(self.parts@.take(i - 1))
                + self.parts@[i - 1].spec_text()));
        }
        assert(self.parts@.take(self.parts.len() as int) == self.parts@);
    }

    /// The address as text.
    pub fn to_text(&self) -> (s: String)
        ensures
            s@ == self.spec_text(),
    {
        let mut out: Vec<char> = Vec::new();
        self.push_text(&mut out);
        crate::text::from_chars(&out)
    }
}

} // verus!
