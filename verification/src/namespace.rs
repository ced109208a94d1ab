//! The namespace resolver: maps a raw job reference to a namespaced storage
//! key, idempotently. If the reference already begins with the namespace it
//! is returned unchanged; otherwise `"{namespace}/{reference}"` is returned.
//! Callers may pass either a bare reference or one already resolved by a
//! previous call; double-prefixing would silently break later lookups, so
//! idempotence is a hard invariant.

use vstd::prelude::*;
use vstd::string::StringExecFns;
use vstd::string::StrSliceExecFns;

verus! {

/// The storage key that a raw job reference resolves to under a namespace.
pub open spec fn resolved_key(namespace: Seq<char>, id: Seq<char>) -> Seq<char> {
    if id.len() >= namespace.len() && id.subrange(0, namespace.len() as int) == namespace {
        id
    } else {
        namespace + "/"@ + id
    }
}

/// Whether `s` begins with `prefix`, character by character.
pub fn str_starts_with(s: &str, prefix: &str) -> (r: bool)
    ensures
        r == (s@.len() >= prefix@.len() && s@.subrange(0, prefix@.len() as int) == prefix@),
{
    let n = s.unicode_len();
    let m = prefix.unicode_len();
    if n < m {
        return false;
    }
    let mut i: usize = 0;
    while i < m
        invariant
            i <= m,
            m == prefix@.len(),
            n == s@.len(),
            m <= n,
            forall|k: int| 0 <= k < i ==> s@[k] == prefix@[k],
        decreases m - i,
    {
        if s.get_char(i) != prefix.get_char(i) {
            proof {
                assert(s@.subrange(0, m as int)[i as int] != prefix@[i as int]);
            }
            return false;
        }
        i = i + 1;
    }
    proof {
        assert(s@.subrange(0, m as int) =~= prefix@);
    }
    true
}

/// Prefix `id` with `namespace` unless it already begins with it.
pub fn apply_namespace_if_absent(namespace: &str, id: &str) -> (r: String)
    ensures
        r@ == resolved_key(namespace@, id@),
{
    if str_starts_with(id, namespace) {
        id.to_owned()
    } else {
        let mut key = namespace.to_owned();
        key.append("/");
        key.append(id);
        key
    }
}

/// Law: resolving a key is idempotent. Resolving an already-resolved key
/// under the same namespace leaves it unchanged, for every namespace and
/// every raw reference.
pub proof fn lemma_resolve_idempotent(namespace: Seq<char>, id: Seq<char>)
    ensures
        resolved_key(namespace, resolved_key(namespace, id)) == resolved_key(namespace, id),
{
    let once = resolved_key(namespace, id);
    if !(id.len() >= namespace.len() && id.subrange(0, namespace.len() as int) == namespace) {
        assert(once == namespace + "/"@ + id);
        assert(once.subrange(0, namespace.len() as int) =~= namespace);
    }
}

} // verus!
