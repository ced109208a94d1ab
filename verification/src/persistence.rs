//! The store adapter: a capability interface over a remote key-value store,
//! with one backend per deployment need. The distributed backend talks to a
//! live store; the in-memory backend serves deterministic tests; the failing
//! backend simulates an unreachable store. Every failure of the remote
//! client surfaces as a typed result, never as a fault that terminates the
//! caller.
//!
//! The store's read convention is asymmetric: values are written plain, and
//! reads hand back the base64 encoding of what is stored.

use vstd::prelude::*;
use vstd::string::StringExecFns;
use crate::namespace::{apply_namespace_if_absent, resolved_key};
use crate::codec::str_eq;

verus! {

/// Why a storage operation failed.
#[derive(Clone, Copy, Debug, PartialEq, Eq, Structural)]
pub enum PersistenceError {
    /// The store client could not complete the call.
    ConnectionFailure,
    /// A stored value could not be decoded back into an entry.
    DecodeFailure,
}

/// The base64 encoding (standard alphabet, padded) of the UTF-8 bytes of a
/// string, as the outside encoder computes it.
pub uninterp spec fn b64_of(s: Seq<char>) -> Seq<char>;

/// Relies on `base64::engine::Engine::encode` with the standard alphabet,
/// applied to the string's UTF-8 bytes: the result depends on the input
/// characters alone.
#[verifier::external_body]
pub(crate) fn b64_encode_str(s: &str) -> (r: String)
    ensures
        r@ == b64_of(s@),
{
    base64::engine::Engine::encode(&base64::engine::general_purpose::STANDARD, s.as_bytes())
}

/// Relies on `base64::engine::Engine::decode` with the standard alphabet and
/// on `String::from_utf8`: together they invert the standard base64 encoding
/// of a string's UTF-8 bytes.
#[verifier::external_body]
pub(crate) fn b64_decode_str(s: &str) -> (r: Option<String>)
    ensures
        r is None ==> forall|t: Seq<char>| s@ != b64_of(t),
        r matches Some(u) ==> forall|t: Seq<char>| s@ == b64_of(t) ==> u@ == t,
{
    let engine = &base64::engine::general_purpose::STANDARD;
    let bytes = match base64::engine::Engine::decode(engine, s.as_bytes()) {
        Ok(b) => b,
        Err(_) => return None,
    };
    match String::from_utf8(bytes) {
        Ok(t) => Some(t),
        Err(_) => None,
    }
}

/// The capability a store backend offers. `tracked_contents` is the model of
/// the store for deterministic backends and `None` for a remote one, whose
/// contents this process cannot know; `always_fails` marks the backend that
/// simulates an unreachable store.
pub trait Persistence: Sized {
    spec fn id_spec(&self) -> Seq<char>;

    spec fn namespace_spec(&self) -> Seq<char>;

    spec fn tracked_contents(&self) -> Option<Map<Seq<char>, Seq<char>>>;

    spec fn always_fails(&self) -> bool;

    /// The identifier of this server instance.
    fn id(&self) -> (r: &str)
        ensures
            r@ == self.id_spec(),
    ;

    /// Resolve a raw job reference against the configured namespace.
    fn prepend_namespace(&self, job_ref: &str) -> (r: String)
        ensures
            r@ == resolved_key(self.namespace_spec(), job_ref@),
    ;

    /// Store `value` under `key`. A deterministic backend records the pair;
    /// a failing backend reports a connection failure; of a remote backend
    /// nothing is promised beyond a typed result.
    fn set_key(&mut self, key: &str, value: &str) -> (r: Result<(), PersistenceError>)
        ensures
            final(self).id_spec() == old(self).id_spec(),
            final(self).namespace_spec() == old(self).namespace_spec(),
            final(self).always_fails() == old(self).always_fails(),
            old(self).always_fails() ==> r is Err,
            r matches Err(err) ==> err == PersistenceError::ConnectionFailure,
            match old(self).tracked_contents() {
                Some(m) => r is Ok && final(self).tracked_contents() == Some(
                    m.insert(key@, value@),
                ),
                None => final(self).tracked_contents() is None,
            },
    ;

    /// Fetch the value under `key`, base64-encoded by the store's read
    /// convention; `None` when the key is absent.
    fn get_key(&self, key: &str) -> (r: Result<Option<String>, PersistenceError>)
        ensures
            self.always_fails() ==> r is Err,
            r matches Err(err) ==> err == PersistenceError::ConnectionFailure,
            match self.tracked_contents() {
                Some(m) => match r {
                    Ok(Some(v)) => m.contains_key(key@) && v@ == b64_of(m[key@]),
                    Ok(None) => !m.contains_key(key@),
                    Err(_) => false,
                },
                None => true,
            },
    ;
}

/// The adapter backed by the distributed key-value store. Each call builds a
/// fresh, stateless client bound to `host:port`, so the adapter holds no
/// connection state.
#[derive(Clone, Debug)]
pub struct ConsulPersistence {
    pub server_id: String,
    pub host: String,
    pub port: u32,
    pub namespace: String,
}

impl ConsulPersistence {
    /// Build the adapter; each omitted option falls back to its documented
    /// default.
    pub fn new(
        wrapped_id: Option<String>,
        wrapped_host: Option<String>,
        wrapped_port: Option<u32>,
        wrapped_namespace: Option<String>,
    ) -> (r: ConsulPersistence)
        ensures
            r.server_id@ == (match wrapped_id {
                Some(id) => id@,
                None => "factotum"@,
            }),
            r.host@ == (match wrapped_host {
                Some(host) => host@,
                None => "127.0.0.1"@,
            }),
            r.port == (match wrapped_port {
                Some(port) => port,
                None => 8500u32,
            }),
            r.namespace@ == (match wrapped_namespace {
                Some(namespace) => namespace@,
                None => "factotum"@,
            }),
    {
        ConsulPersistence {
            server_id: match wrapped_id {
                Some(id) => id,
                None => String::from_str("factotum"),
            },
            host: match wrapped_host {
                Some(host) => host,
                None => String::from_str("127.0.0.1"),
            },
            port: match wrapped_port {
                Some(port) => port,
                None => 8500,
            },
            namespace: match wrapped_namespace {
                Some(namespace) => namespace,
                None => String::from_str("factotum"),
            },
        }
    }
}

impl Persistence for ConsulPersistence {
    open spec fn id_spec(&self) -> Seq<char> {
        self.server_id@
    }

    open spec fn namespace_spec(&self) -> Seq<char> {
        self.namespace@
    }

    open spec fn tracked_contents(&self) -> Option<Map<Seq<char>, Seq<char>>> {
        None
    }

    open spec fn always_fails(&self) -> bool {
        false
    }

    fn id(&self) -> (r: &str) {
        self.server_id.as_str()
    }

    fn prepend_namespace(&self, job_ref: &str) -> (r: String) {
        apply_namespace_if_absent(self.namespace.as_str(), job_ref)
    }

    fn set_key(&mut self, key: &str, value: &str) -> (r: Result<(), PersistenceError>) {
        consul_put(self.host.as_str(), self.port, key, value)
    }

    fn get_key(&self, key: &str) -> (r: Result<Option<String>, PersistenceError>) {
        consul_get(self.host.as_str(), self.port, key)
    }
}

/// Relies on `consul::kv::KV::put`, which reports every client or transport
/// failure as `Err`; the value is sent to the store as given. Each call
/// builds a fresh client bound to `host:port`.
#[verifier::external_body]
fn consul_put(host: &str, port: u32, key: &str, value: &str) -> (r: Result<(), PersistenceError>)
    ensures
        r matches Err(err) ==> err == PersistenceError::ConnectionFailure,
{
    let mut config = match consul::Config::new() {
        Ok(config) => config,
        Err(_) => return Err(PersistenceError::ConnectionFailure),
    };
    config.address = format!("http://{}:{}", host, port);
    let client = consul::Client::new(config);
    let pair = consul::kv::KVPair {
        Key: key.to_owned(),
        Value: value.to_owned(),
        ..Default::default()
    };
    match consul::kv::KV::put(&client, &pair, None) {
        Ok(_) => Ok(()),
        Err(_) => Err(PersistenceError::ConnectionFailure),
    }
}

/// Relies on `consul::kv::KV::get`, which reports every client or transport
/// failure as `Err` and hands a stored value back in the store's base64 read
/// encoding, or `None` for an absent key.
#[verifier::external_body]
fn consul_get(host: &str, port: u32, key: &str) -> (r: Result<Option<String>, PersistenceError>)
    ensures
        r matches Err(err) ==> err == PersistenceError::ConnectionFailure,
{
    let mut config = match consul::Config::new() {
        Ok(config) => config,
        Err(_) => return Err(PersistenceError::ConnectionFailure),
    };
    config.address = format!("http://{}:{}", host, port);
    let client = consul::Client::new(config);
    match consul::kv::KV::get(&client, key, None) {
        Ok((pair, _)) => Ok(pair.map(|p| p.Value)),
        Err(_) => Err(PersistenceError::ConnectionFailure),
    }
}

/// The store contents that a sequence of recorded writes denotes: later
/// writes win.
pub open spec fn map_of(entries: Seq<(String, String)>) -> Map<Seq<char>, Seq<char>>
    decreases entries.len(),
{
    if entries.len() == 0 {
        Map::empty()
    } else {
        map_of(entries.drop_last()).insert(entries.last().0@, entries.last().1@)
    }
}

/// The deterministic in-memory backend, for tests and for callers that need
/// no durable store. Reads follow the store's convention and hand the value
/// back base64-encoded.
#[derive(Debug)]
pub struct InMemoryPersistence {
    pub server_id: String,
    pub namespace: String,
    pub entries: Vec<(String, String)>,
}

impl InMemoryPersistence {
    /// An empty in-memory store.
    pub fn new(server_id: String, namespace: String) -> (r: InMemoryPersistence)
        ensures
            r.server_id@ == server_id@,
            r.namespace@ == namespace@,
            r.tracked_contents() == Some(Map::<Seq<char>, Seq<char>>::empty()),
    {
        InMemoryPersistence { server_id, namespace, entries: Vec::new() }
    }
}

impl Persistence for InMemoryPersistence {
    open spec fn id_spec(&self) -> Seq<char> {
        self.server_id@
    }

    open spec fn namespace_spec(&self) -> Seq<char> {
        self.namespace@
    }

    open spec fn tracked_contents(&self) -> Option<Map<Seq<char>, Seq<char>>> {
        Some(map_of(self.entries@))
    }

    open spec fn always_fails(&self) -> bool {
        false
    }

    fn id(&self) -> (r: &str) {
        self.server_id.as_str()
    }

    fn prepend_namespace(&self, job_ref: &str) -> (r: String) {
        apply_namespace_if_absent(self.namespace.as_str(), job_ref)
    }

    fn set_key(&mut self, key: &str, value: &str) -> (r: Result<(), PersistenceError>) {
        self.entries.push((key.to_owned(), value.to_owned()));
        proof {
            assert(self.entries@.drop_last() =~= old(self).entries@);
            assert(map_of(self.entries@) =~= map_of(old(self).entries@).insert(key@, value@));
        }
        Ok(())
    }

    fn get_key(&self, key: &str) -> (r: Result<Option<String>, PersistenceError>) {
        let mut i: usize = self.entries.len();
        proof {
            assert(self.entries@.take(i as int) =~= self.entries@);
        }
        while i > 0
            invariant
                i <= self.entries@.len(),
                ({
                    let m = map_of(self.entries@);
                    let mt = map_of(self.entries@.take(i as int));
                    &&& m.contains_key(key@) == mt.contains_key(key@)
                    &&& (m.contains_key(key@) ==> mt.contains_key(key@) && m[key@] == mt[key@])
                }),
            decreases i,
        {
            i = i - 1;
            proof {
                assert(self.entries@.take(i + 1).drop_last() =~= self.entries@.take(i as int));
                assert(self.entries@.take(i + 1).last() == self.entries@[i as int]);
            }
            if str_eq(self.entries[i].0.as_str(), key) {
                let encoded = b64_encode_str(self.entries[i].1.as_str());
                return Ok(Some(encoded));
            }
        }
        proof {
            assert(self.entries@.take(0) =~= Seq::<(String, String)>::empty());
        }
        Ok(None)
    }
}

/// The backend that simulates an unreachable store: every call reports a
/// connection failure. It lets callers exercise the failure-isolation
/// behaviour deterministically.
#[derive(Clone, Debug)]
pub struct FailingPersistence {
    pub server_id: String,
    pub namespace: String,
}

impl FailingPersistence {
    pub fn new(server_id: String, namespace: String) -> (r: FailingPersistence)
        ensures
            r.server_id@ == server_id@,
            r.namespace@ == namespace@,
    {
        FailingPersistence { server_id, namespace }
    }
}

impl Persistence for FailingPersistence {
    open spec fn id_spec(&self) -> Seq<char> {
        self.server_id@
    }

    open spec fn namespace_spec(&self) -> Seq<char> {
        self.namespace@
    }

    open spec fn tracked_contents(&self) -> Option<Map<Seq<char>, Seq<char>>> {
        None
    }

    open spec fn always_fails(&self) -> bool {
        true
    }

    fn id(&self) -> (r: &str) {
        self.server_id.as_str()
    }

    fn prepend_namespace(&self, job_ref: &str) -> (r: String) {
        apply_namespace_if_absent(self.namespace.as_str(), job_ref)
    }

    fn set_key(&mut self, key: &str, value: &str) -> (r: Result<(), PersistenceError>) {
        Err(PersistenceError::ConnectionFailure)
    }

    fn get_key(&self, key: &str) -> (r: Result<Option<String>, PersistenceError>) {
        Err(PersistenceError::ConnectionFailure)
    }
}

} // verus!
