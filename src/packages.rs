use vstd::prelude::*;
use vstd::string::*;

verus! {

/// How a package exposes its modules.
pub enum Namespace {
    /// Modules keep their own names.
    NoNamespace,
    /// Every module is re-exported under the given name.
    Namespace(String),
    /// As `Namespace`, but the module named `entry` becomes the namespace itself.
    NamespaceWithEntry { namespace: String, entry: String },
}

impl Namespace {
    /// The suffix that artifact names carry, if any.
    pub open spec fn suffix(&self) -> Option<Seq<char>> {
        match self {
            Namespace::NoNamespace => None,
            Namespace::Namespace(n) => Some(n@),
            Namespace::NamespaceWithEntry { namespace, .. } => Some(namespace@),
        }
    }

    pub fn to_suffix(&self) -> (r: Option<String>)
        ensures
            r matches None ==> self.suffix() is None,
            r matches Some(s) ==> self.suffix() == Some(s@),
    {
        match self {
            Namespace::NoNamespace => None,
            Namespace::Namespace(n) => Some(String::from_str(n.as_str())),
            Namespace::NamespaceWithEntry { namespace, .. } => Some(
                String::from_str(namespace.as_str()),
            ),
        }
    }
}

} // verus!
