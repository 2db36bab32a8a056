//! Parts of the network description: where an error occurred, and the
//! endpoints of connections.
use vstd::prelude::*;
use crate::strs::{decimal, push_decimal};

verus! {

/// Context information about an error in a network description.
#[derive(Debug, Clone, PartialEq, Eq, Default)]
pub struct Span {
    /// The module where the error occurred.
    pub module: Option<String>,
    /// The submodule where the error occurred.
    pub submodule: Option<String>,
    /// The connection where the error occurred.
    pub connection: Option<usize>,
    /// Name of the faulty gate, if any.
    pub gate: Option<String>,
}

/// A endpoint defined by its relative position to the calling node.
#[derive(Debug, Clone, PartialEq, Eq)]
pub struct ConnectionEndpoint {
    /// A sequence of accessors that define the relative position of the endpoint.
    pub accessors: Vec<ConnectionEndpointAccessor>,
}

/// A part of a definition sequence.
#[derive(Debug, Clone, PartialEq, Eq)]
pub struct ConnectionEndpointAccessor {
    /// A plaintext identifier to identify the submodule / gate
    pub name: String,
    /// A index to index into complex clusters.
    pub index: Option<usize>,
}

/// The name of an accessor: its identifier, followed by the index in
/// brackets where it has one.
pub open spec fn accessor_name(name: Seq<char>, index: Option<usize>) -> Seq<char> {
    match index {
        Some(i) => name + seq!['['] + decimal(i as nat) + seq![']'],
        None => name,
    }
}

impl ConnectionEndpointAccessor {
    /// The name of the accessor, such as `port[3]`.
    pub fn as_name(&self) -> (r: String)
        ensures
            r@ == accessor_name(self.name@, self.index),
    {
        match self.index {
            Some(index) => {
                let mut out = self.name.clone();
                out.append("[");
                push_decimal(&mut out, index);
                out.append("]");
                proof {
                    reveal_strlit("[");
                    reveal_strlit("]");
                    assert(out@ =~= accessor_name(self.name@, self.index));
                }
                out
            },
            None => self.name.clone(),
        }
    }
}

/// A symbol: the name of a type of module.
#[derive(Debug, Clone, PartialEq, Eq)]
pub struct Symbol(String);

impl Symbol {
    /// The symbol's text.
    pub closed spec fn text(&self) -> Seq<char> {
        self.0@
    }

    /// The symbol's text.
    pub fn as_str(&self) -> (r: &str)
        ensures
            r@ == self.text(),
    {
        self.0.as_str()
    }
}

impl<'a> From<&'a String> for Symbol {
    fn from(value: &'a String) -> (r: Self)
        ensures
            r.text() == value@,
    {
        Symbol(value.clone())
    }
}

impl<'a> vstd::std_specs::convert::FromSpecImpl<&'a String> for Symbol {
    open spec fn obeys_from_spec() -> bool {
        false
    }

    open spec fn from_spec(v: &'a String) -> Self {
        arbitrary()
    }
}

} // verus!
