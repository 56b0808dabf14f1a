//! The operations of the gateway and what each one sends to the backend.

use vstd::prelude::*;

verus! {

/// What an inbound request asks for.
#[derive(Clone, Copy, Debug, PartialEq, Eq, Structural)]
pub enum Operation {
    /// Liveness probe of the backend.
    Ping,
    /// Listing of the object collection.
    List,
    /// Download of one object.
    Get,
    /// Metadata of one object, without its content.
    Head,
    /// Upload of one object.
    Put,
    /// Removal of one object.
    Delete,
}

/// The HTTP method of a backend call.
#[derive(Clone, Copy, Debug, PartialEq, Eq, Structural)]
pub enum Method {
    Get,
    Head,
    Put,
    Delete,
}

impl Operation {
    /// The method of the backend call.
    pub open spec fn spec_method(self) -> Method {
        match self {
            Operation::Ping | Operation::List | Operation::Get => Method::Get,
            Operation::Head => Method::Head,
            Operation::Put => Method::Put,
            Operation::Delete => Method::Delete,
        }
    }

    /// The method of the backend call.
    #[verifier::when_used_as_spec(spec_method)]
    pub fn method(self) -> (m: Method)
        ensures
            m == self.spec_method(),
    {
        match self {
            Operation::Ping | Operation::List | Operation::Get => Method::Get,
            Operation::Head => Method::Head,
            Operation::Put => Method::Put,
            Operation::Delete => Method::Delete,
        }
    }

    /// Whether the operation names an object by its key.
    pub open spec fn spec_is_keyed(self) -> bool {
        self == Operation::Get || self == Operation::Head || self == Operation::Put || self
            == Operation::Delete
    }

    /// Whether the operation names an object by its key.
    #[verifier::when_used_as_spec(spec_is_keyed)]
    pub fn is_keyed(self) -> (b: bool)
        ensures
            b == self.spec_is_keyed(),
    {
        match self {
            Operation::Get | Operation::Head | Operation::Put | Operation::Delete => true,
            Operation::Ping | Operation::List => false,
        }
    }

    /// Whether the query parameters of the inbound request go to the backend.
    pub open spec fn spec_forwards_query(self) -> bool {
        self == Operation::List || self == Operation::Get || self == Operation::Head
    }

    /// Whether the query parameters of the inbound request go to the backend.
    #[verifier::when_used_as_spec(spec_forwards_query)]
    pub fn forwards_query(self) -> (b: bool)
        ensures
            b == self.spec_forwards_query(),
    {
        match self {
            Operation::List | Operation::Get | Operation::Head => true,
            Operation::Ping | Operation::Put | Operation::Delete => false,
        }
    }

    /// Whether the backend call carries the body of the inbound request.
    pub open spec fn spec_sends_body(self) -> bool {
        self == Operation::Put
    }

    /// Whether the backend call carries the body of the inbound request.
    #[verifier::when_used_as_spec(spec_sends_body)]
    pub fn sends_body(self) -> (b: bool)
        ensures
            b == self.spec_sends_body(),
    {
        match self {
            Operation::Put => true,
            _ => false,
        }
    }

    /// Whether the credential of the browser is bridged to the backend call.
    pub open spec fn spec_sends_credential(self) -> bool {
        self == Operation::Put
    }

    /// Whether the credential of the browser is bridged to the backend call.
    #[verifier::when_used_as_spec(spec_sends_credential)]
    pub fn sends_credential(self) -> (b: bool)
        ensures
            b == self.spec_sends_credential(),
    {
        match self {
            Operation::Put => true,
            _ => false,
        }
    }

    /// Whether the caller gets the body that the backend sent.
    pub open spec fn spec_returns_body(self) -> bool {
        self != Operation::Head
    }

    /// Whether the caller gets the body that the backend sent.
    #[verifier::when_used_as_spec(spec_returns_body)]
    pub fn returns_body(self) -> (b: bool)
        ensures
            b == self.spec_returns_body(),
    {
        match self {
            Operation::Head => false,
            _ => true,
        }
    }
}

} // verus!
