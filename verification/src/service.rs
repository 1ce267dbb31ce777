//! Dependency injection by abstraction: a service trait, its
//! implementations, and the binding that picks one.

use vstd::prelude::*;

verus! {

/// The service abstraction: each implementation carries a tag at the
/// specification level, and `foobar` answers exactly that tag.
pub trait Service {
    /// The tag this implementation answers with.
    spec fn tag(&self) -> Seq<char>;

    /// Answers the implementation's tag.
    fn foobar(&self) -> (r: &str)
        ensures
            r@ == self.tag(),
    ;
}

struct FooService {}

impl Service for FooService {
    open spec fn tag(&self) -> Seq<char> {
        "foo"@
    }

    fn foobar(&self) -> (r: &str) {
        "foo"
    }
}

#[allow(dead_code)]
struct BarService {}

impl Service for BarService {
    open spec fn tag(&self) -> Seq<char> {
        "bar"@
    }

    fn foobar(&self) -> (r: &str) {
        "bar"
    }
}

/// Binds the abstraction to its production implementation: the service
/// handed out answers `foobar` with "foo", never "bar".
pub fn service() -> (s: impl Service)
    ensures
        s.tag() == "foo"@,
{
    FooService {  }
}

} // verus!
