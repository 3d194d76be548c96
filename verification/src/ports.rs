//! Ports of processing nodes.

use vstd::prelude::*;

use crate::text::{append_chars, decimal, decimal_chars, from_chars, owned, to_chars};

verus! {

/// What travels through a port.
#[derive(Debug, Clone, Copy, PartialEq, Eq, Structural)]
pub enum PortKind {
    /// Level changes.
    Sample,
    /// Packed blocks of samples.
    SampleBlock,
    Word,
    Trigger,
    /// Changes of a number.
    Number,
    /// Lines, or changes of a text.
    Text,
}

/// One port of a node.
#[derive(Debug, PartialEq, Eq)]
pub struct PortSchema {
    pub name: String,
    pub index: usize,
    pub kind: PortKind,
}

/// A port seen through the characters of its name.
pub struct PortView {
    pub name: Seq<char>,
    pub index: int,
    pub kind: PortKind,
}

impl View for PortSchema {
    type V = PortView;

    open spec fn view(&self) -> PortView {
        PortView { name: self.name@, index: self.index as int, kind: self.kind }
    }
}

/// Some ports, each seen through the characters of its name.
pub open spec fn port_views(ports: Seq<PortSchema>) -> Seq<PortView> {
    ports.map_values(|port: PortSchema| port@)
}

/// The views of ports with the given names and kinds, numbered from zero on.
pub open spec fn listed(ports: Seq<(Seq<char>, PortKind)>) -> Seq<PortView> {
    Seq::new(
        ports.len(),
        |i: int| PortView { name: ports[i].0, index: i, kind: ports[i].1 },
    )
}

/// Adds the next port to those of a node.
pub fn add_port(ports: &mut Vec<PortSchema>, name: String, kind: PortKind)
    ensures
        port_views(final(ports)@) == port_views(old(ports)@).push(
            PortView { name: name@, index: old(ports)@.len() as int, kind },
        ),
        final(ports)@.len() == old(ports)@.len() + 1,
{
    let ghost before = ports@;
    let ghost text = name@;
    let index: usize = ports.len();
    ports.push(PortSchema { name, index, kind });
    assert(port_views(ports@) =~= port_views(before).push(
        PortView { name: text, index: index as int, kind },
    ));
}

/// Lists ports with the given names and kinds.
pub fn list_ports(ports: &[(&str, PortKind)]) -> (result: Vec<PortSchema>)
    ensures
        port_views(result@) == listed(
            ports@.map_values(|port: (&str, PortKind)| (port.0@, port.1)),
        ),
{
    let mut result: Vec<PortSchema> = Vec::new();
    let ghost all = listed(ports@.map_values(|port: (&str, PortKind)| (port.0@, port.1)));
    assert(port_views(result@) =~= all.take(0));
    let mut index: usize = 0;
    while index < ports.len()
        invariant
            index <= ports@.len(),
            all == listed(ports@.map_values(|port: (&str, PortKind)| (port.0@, port.1))),
            result@.len() == index,
            port_views(result@) == all.take(index as int),
        decreases ports@.len() - index,
    {
        let (name, kind): (&str, PortKind) = ports[index];
        add_port(&mut result, owned(name), kind);
        assert(all.take(index as int).push(all[index as int]) =~= all.take(index + 1));
        index += 1;
    }
    assert(all.take(index as int) =~= all);
    result
}

/// A name that ends in a number.
pub fn numbered(prefix: &str, number: usize) -> (result: String)
    ensures
        result@ == prefix@ + decimal(number as nat),
{
    let mut name: Vec<char> = to_chars(prefix);
    append_chars(&mut name, decimal_chars(number as u64).as_slice());
    from_chars(name.as_slice())
}

} // verus!
