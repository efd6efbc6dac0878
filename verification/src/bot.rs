use vstd::prelude::*;

verus! {

/// A handle on one bot account: the identity that requests are issued for.
/// The transport that carries requests to the remote service lives outside
/// this crate.
#[derive(Clone, Debug, PartialEq, Eq, Hash)]
pub struct Bot {
    token: String,
}

impl Bot {
    /// The access token this handle was created with.
    pub closed spec fn spec_token(self) -> Seq<char> {
        self.token@
    }

    pub fn new(token: String) -> (r: Self)
        ensures
            r.spec_token() == token@,
    {
        Self { token }
    }

    pub fn token(&self) -> (r: &String)
        ensures
            r@ == self.spec_token(),
    {
        &self.token
    }
}

} // verus!
