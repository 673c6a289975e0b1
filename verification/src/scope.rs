//! Visibility scopes and agent namespaces.
use vstd::prelude::*;
use crate::text::{chars_of, copy_string, ends_with, is_prefix, is_suffix, lowercase_of, owned, starts_with, str_eq, string_from_range, to_lower};

verus! {

broadcast use vstd::string::group_string_axioms;

/// Isolation scope of a record.
#[derive(Clone, Copy, Debug, PartialEq, Eq, Hash, Structural)]
pub enum Scope {
    /// Only visible to the owning agent.
    Private,
    /// Visible to a group of agents.
    Shared,
    /// Visible to every agent of the cluster.
    Cluster,
}

/// The scope named by an already lower-cased name.
pub open spec fn scope_named(n: Seq<char>) -> Option<Scope> {
    if n == "private"@ {
        Some(Scope::Private)
    } else if n == "shared"@ {
        Some(Scope::Shared)
    } else if n == "cluster"@ {
        Some(Scope::Cluster)
    } else {
        None
    }
}

/// The lower-case name of a scope.
pub open spec fn scope_name(s: Scope) -> Seq<char> {
    match s {
        Scope::Private => "private"@,
        Scope::Shared => "shared"@,
        Scope::Cluster => "cluster"@,
    }
}

/// Whether records of scope `owner` may be seen from scope `viewer`.
pub open spec fn scope_allows(owner: Scope, viewer: Scope) -> bool {
    match (owner, viewer) {
        (Scope::Cluster, _) => true,
        (Scope::Shared, Scope::Shared) => true,
        (Scope::Shared, Scope::Cluster) => true,
        (Scope::Private, Scope::Private) => true,
        _ => false,
    }
}

impl Scope {
    /// Parses a scope name, ignoring case.
    pub fn from_str(s: &str) -> (r: Option<Scope>)
        ensures
            r == scope_named(lowercase_of(s@)),
    {
        let low = to_lower(s);
        if str_eq(low.as_str(), "private") {
            proof { reveal_strlit("private"); }
            Some(Scope::Private)
        } else if str_eq(low.as_str(), "shared") {
            proof { reveal_strlit("shared"); }
            Some(Scope::Shared)
        } else if str_eq(low.as_str(), "cluster") {
            proof { reveal_strlit("cluster"); }
            Some(Scope::Cluster)
        } else {
            None
        }
    }

    /// The lower-case name of this scope.
    pub fn as_str(&self) -> (r: &'static str)
        ensures
            r@ == scope_name(*self),
    {
        match self {
            Scope::Private => "private",
            Scope::Shared => "shared",
            Scope::Cluster => "cluster",
        }
    }

    /// The displayed form of this scope (its lower-case name).
    pub fn to_string(&self) -> (r: String)
        ensures
            r@ == scope_name(*self),
    {
        owned(self.as_str())
    }

    /// Whether records of this scope are visible from scope `other`.
    pub fn allows_access_from(&self, other: &Scope) -> (r: bool)
        ensures
            r == scope_allows(*self, *other),
    {
        match (self, other) {
            (Scope::Cluster, _) => true,
            (Scope::Shared, Scope::Shared) => true,
            (Scope::Shared, Scope::Cluster) => true,
            (Scope::Private, Scope::Private) => true,
            _ => false,
        }
    }
}

impl Default for Scope {
    fn default() -> (r: Scope)
        ensures
            r == Scope::Private,
    {
        Scope::Private
    }
}

/// Cluster records are visible from every scope; every scope sees its own
/// records; private records are visible from no other scope.
pub proof fn lemma_scope_access(owner: Scope, viewer: Scope)
    ensures
        scope_allows(Scope::Cluster, viewer),
        scope_allows(owner, owner),
        owner != viewer && owner == Scope::Private ==> !scope_allows(owner, viewer),
{
}

/// Visibility grows with the viewer's scope: what a private viewer sees a
/// shared viewer sees, and what a shared viewer sees a cluster viewer sees.
pub proof fn lemma_scope_access_monotone(owner: Scope)
    ensures
        scope_allows(owner, Scope::Shared) ==> scope_allows(owner, Scope::Cluster),
{
}

/// Namespace of an agent, used for multi-agent isolation.
#[derive(Debug)]
pub struct Namespace {
    name: String,
}

/// Whether namespace `pattern` covers namespace `other`: they are equal, or
/// `pattern` is `p.*` and `other` is `p` followed by a dot and anything.
pub open spec fn namespace_matches(pattern: Seq<char>, other: Seq<char>) -> bool {
    if pattern == other {
        true
    } else if is_suffix(".*"@, pattern) {
        let p = pattern.subrange(0, pattern.len() - 2);
        is_prefix(p, other) && other.len() > p.len() && other[p.len() as int] == '.'
    } else {
        false
    }
}

impl View for Namespace {
    type V = Seq<char>;

    closed spec fn view(&self) -> Seq<char> {
        self.name@
    }
}

impl Namespace {
    /// A namespace with the given name.
    pub fn new(name: &str) -> (r: Namespace)
        ensures
            r@ == name@,
    {
        Namespace { name: owned(name) }
    }

    /// The name of this namespace.
    pub fn as_str(&self) -> (r: &str)
        ensures
            r@ == self@,
    {
        self.name.as_str()
    }

    /// The displayed form of this namespace (its name).
    pub fn to_string(&self) -> (r: String)
        ensures
            r@ == self@,
    {
        copy_string(&self.name)
    }

    /// Whether this namespace covers `other` (equal, or a `prefix.*` wildcard).
    pub fn matches(&self, other: &Namespace) -> (r: bool)
        ensures
            r == namespace_matches(self@, other@),
    {
        if self.name == other.name {
            return true;
        }
        let me = chars_of(self.name.as_str());
        let them = chars_of(other.name.as_str());
        let star = chars_of(".*");
        proof { reveal_strlit(".*"); }
        if ends_with(&me, &star) {
            let p = string_from_range(&me, 0, me.len() - 2);
            let pc = chars_of(p.as_str());
            let r = starts_with(&them, &pc) && them.len() > pc.len() && them[pc.len()] == '.';
            return r;
        }
        false
    }
}

impl Default for Namespace {
    fn default() -> (r: Namespace)
        ensures
            r@ == "default"@,
    {
        Namespace::new("default")
    }
}

impl Clone for Namespace {
    fn clone(&self) -> (r: Namespace)
        ensures
            r@ == self@,
    {
        Namespace { name: copy_string(&self.name) }
    }
}

/// Every namespace covers itself.
pub proof fn lemma_namespace_reflexive(n: Seq<char>)
    ensures
        namespace_matches(n, n),
{
}

/// A wildcard `p.*` covers `p.x` for every `x`, and never covers `p` itself.
pub proof fn lemma_namespace_wildcard(p: Seq<char>, x: Seq<char>)
    ensures
        namespace_matches(p + ".*"@, p + "."@ + x),
        !namespace_matches(p + ".*"@, p),
{
    reveal_strlit(".*");
    reveal_strlit(".");
    let pat = p + ".*"@;
    let other = p + "."@ + x;
    assert(pat.subrange(pat.len() - 2, pat.len() as int) =~= ".*"@);
    assert(pat.subrange(0, pat.len() - 2) =~= p);
    assert(other.subrange(0, p.len() as int) =~= p);
    assert(other[p.len() as int] == '.');
    assert(pat != p) by {
        assert(pat.len() != p.len());
    }
}

} // verus!
