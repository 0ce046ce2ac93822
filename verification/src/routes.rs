use vstd::prelude::*;

verus! {

/// The fixed cross-origin policy: the same four headers go on every
/// response; nothing is computed per request.
pub struct Cors;

impl Cors {
    /// The name this policy reports about itself.
    pub fn name(&self) -> (r: &'static str)
        ensures
            r@ == "Cross-Origin-Resource-Sharing Fairing"@,
    {
        "Cross-Origin-Resource-Sharing Fairing"
    }

    /// The constant header pairs attached to every response: allowed
    /// origin, allowed methods, allowed headers, and credentials-allowed.
    pub fn header_pairs(&self) -> (r: Vec<(&'static str, &'static str)>)
        ensures
            r@.len() == 4,
            r@[0].0@ == "Access-Control-Allow-Origin"@,
            r@[0].1@ == "http://localhost:5173"@,
            r@[1].0@ == "Access-Control-Allow-Methods"@,
            r@[1].1@ == "GET, POST, PUT, DELETE, OPTIONS"@,
            r@[2].0@ == "Access-Control-Allow-Headers"@,
            r@[2].1@ == "Content-Type"@,
            r@[3].0@ == "Access-Control-Allow-Credentials"@,
            r@[3].1@ == "true"@,
    {
        let mut v: Vec<(&'static str, &'static str)> = Vec::new();
        v.push(("Access-Control-Allow-Origin", "http://localhost:5173"));
        v.push(("Access-Control-Allow-Methods", "GET, POST, PUT, DELETE, OPTIONS"));
        v.push(("Access-Control-Allow-Headers", "Content-Type"));
        v.push(("Access-Control-Allow-Credentials", "true"));
        v
    }
}

/// The greeting the root path serves: a plain health check.
pub fn root() -> (r: &'static str)
    ensures
        r@ == "Hello, Rocket!"@,
{
    "Hello, Rocket!"
}

/// Answers a preflight request; there is nothing to compute, the constant
/// headers do the work.
pub fn all_options() {
}

} // verus!
