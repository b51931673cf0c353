use vstd::prelude::*;

verus! {

/// Human-readable name for an entity (debugging, editor, logging).
#[derive(Debug, Clone)]
pub struct Name(pub String);

impl Name {
    /// Creates a name holding a copy of `name`.
    pub fn new(name: &str) -> (r: Self)
        ensures
            r.0@ == name@,
    {
        Name(name.to_owned())
    }

    /// The name's text.
    pub fn as_str(&self) -> (r: &str)
        ensures
            r@ == self.0@,
    {
        self.0.as_str()
    }

    /// The name's text, as shown to a reader.
    pub fn to_string(&self) -> (r: String)
        ensures
            r@ == self.0@,
    {
        self.0.as_str().to_owned()
    }
}

} // verus!
