//! Which of the configured identities answers a handshake, given the server
//! name that the client asked for, if any. Identities are referred to by
//! their position in the list the server was configured with.
use vstd::prelude::*;

verus! {

/// An identity registered for one server name.
#[derive(Debug)]
pub struct NamedIdentity {
    pub server_name: String,
    pub identity: usize,
}

/// How an identity is chosen for a handshake.
#[derive(Debug)]
pub enum IdentityResolver {
    /// The same identity whatever name the client asks for: the single-tenant
    /// configuration.
    Fixed(usize),
    /// The identity registered for the requested name, the earliest
    /// registration winning; `fallback` when the client sent no name or a
    /// name that nothing is registered for.
    ByName { entries: Vec<NamedIdentity>, fallback: Option<usize> },
}

/// The identity registered first for `name` among `entries`.
pub open spec fn lookup(entries: Seq<NamedIdentity>, name: Seq<char>) -> Option<usize>
    decreases entries.len(),
{
    if entries.len() == 0 {
        None
    } else {
        match lookup(entries.drop_last(), name) {
            Some(id) => Some(id),
            None => if entries.last().server_name@ == name {
                Some(entries.last().identity)
            } else {
                None
            },
        }
    }
}

/// The server name a client hello carries, as characters.
pub open spec fn requested_name(name: Option<&str>) -> Option<Seq<char>> {
    match name {
        Some(n) => Some(n@),
        None => None,
    }
}

impl IdentityResolver {
    /// The identity chosen for a client that asked for `name`; `None` aborts
    /// the handshake.
    pub open spec fn chooses(&self, name: Option<Seq<char>>) -> Option<usize> {
        match self {
            IdentityResolver::Fixed(id) => Some(*id),
            IdentityResolver::ByName { entries, fallback } => match name {
                Some(n) => match lookup(entries@, n) {
                    Some(id) => Some(id),
                    None => *fallback,
                },
                None => *fallback,
            },
        }
    }

    /// Chooses the identity for a client that asked for `requested`.
    pub fn resolve(&self, requested: Option<&str>) -> (r: Option<usize>)
        ensures
            r == self.chooses(requested_name(requested)),
    {
        match self {
            IdentityResolver::Fixed(id) => Some(*id),
            IdentityResolver::ByName { entries, fallback } => match requested {
                None => *fallback,
                Some(name) => {
                    let wanted = name.to_owned();
                    let mut i: usize = 0;
                    while i < entries.len()
                        invariant
                            i <= entries@.len(),
                            wanted@ == name@,
                            self.chooses(requested_name(requested)) == match lookup(
                                entries@,
                                name@,
                            ) {
                                Some(id) => Some(id),
                                None => *fallback,
                            },
                            lookup(entries@.take(i as int), name@).is_none(),
                        decreases entries@.len() - i,
                    {
                        assert(entries@.take(i as int + 1).drop_last() =~= entries@.take(
                            i as int,
                        ));
                        if entries[i].server_name == wanted {
                            proof {
                                assert(entries@.take(i as int + 1).last() == entries@[i as int]);
                                assert(lookup(entries@.take(i as int + 1), name@) == Some(
                                    entries@[i as int].identity,
                                ));
                                lemma_lookup_prefix(entries@, name@, i as int + 1);
                            }
                            return Some(entries[i].identity);
                        }
                        i = i + 1;
                    }
                    assert(entries@.take(i as int) =~= entries@);
                    *fallback
                },
            },
        }
    }
}

/// A match in a prefix is the match of the whole list.
proof fn lemma_lookup_prefix(entries: Seq<NamedIdentity>, name: Seq<char>, k: int)
    requires
        0 <= k <= entries.len(),
        lookup(entries.take(k), name).is_some(),
    ensures
        lookup(entries, name) == lookup(entries.take(k), name),
    decreases entries.len() - k,
{
    if k < entries.len() {
        assert(entries.take(k + 1).drop_last() =~= entries.take(k));
        lemma_lookup_prefix(entries, name, k + 1);
    } else {
        assert(entries.take(k) =~= entries);
    }
}

} // verus!
