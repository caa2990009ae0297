use vstd::prelude::*;

verus! {


/// A probed host: a display name and its network address, as text.
#[derive(Debug, Clone)]
pub struct Target {
    pub name: String,
    pub addr: String,
}

impl Target {
    pub fn new(name: String, addr: String) -> (t: Target)
        ensures
            t.name == name,
            t.addr == addr,
    {
        Target { name, addr }
    }
}

/// The default probe targets: the three public resolvers.
pub fn default_targets() -> (r: Vec<Target>)
    ensures
        r@.len() == 3,
        r@[0].name@ == "Cloudflare"@ && r@[0].addr@ == "1.1.1.1"@,
        r@[1].name@ == "Google"@ && r@[1].addr@ == "8.8.8.8"@,
        r@[2].name@ == "Quad9"@ && r@[2].addr@ == "9.9.9.9"@,
{
    let mut r: Vec<Target> = Vec::new();
    r.push(Target::new("Cloudflare".to_owned(), "1.1.1.1".to_owned()));
    r.push(Target::new("Google".to_owned(), "8.8.8.8".to_owned()));
    r.push(Target::new("Quad9".to_owned(), "9.9.9.9".to_owned()));
    r
}

} // verus!
