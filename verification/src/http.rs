//! The abstract fetch capability and its caching wrapper.

use crate::cache::Cache;
use crate::cache::InMemoryCache;
use crate::cache::new_cache;
use vstd::prelude::*;

verus! {

/// A network or transport failure, carrying an opaque message.
#[derive(Debug, Clone, PartialEq, Eq)]
pub enum SimpleError {
    Uncategorized(String),
}

impl SimpleError {
    /// The human-readable description carried by the error.
    pub fn message(&self) -> (r: &String)
        ensures
            r@ == self.message_view(),
    {
        match self {
            SimpleError::Uncategorized(m) => m,
        }
    }

    /// The description of the error, as a sequence of characters.
    pub open spec fn message_view(&self) -> Seq<char> {
        match self {
            SimpleError::Uncategorized(m) => m@,
        }
    }
}

/// An abstract "fetch a document body by URL" capability. The transport
/// behind an implementation (DNS, TLS, HTTP framing) is outside this
/// library, and nothing is assumed about what an implementation returns.
pub trait SimpleClient {
    fn fetch(&mut self, url: &str) -> Result<String, SimpleError>;
}

/// Wraps exactly one inner fetch capability with an in-process cache of
/// document bodies: a hit answers from the cache without consulting the
/// inner fetcher, a miss delegates to it and stores a successful body.
/// Errors are never cached, so a failing URL is retried on every later
/// call until a success is stored.
pub struct CachingWrapper<C: SimpleClient> {
    client: C,
    cache: InMemoryCache<String>,
    calls: Ghost<nat>,
}

impl<C: SimpleClient> CachingWrapper<C> {
    /// The document bodies cached so far, keyed by URL.
    pub closed spec fn cached(&self) -> Map<Seq<char>, String> {
        self.cache.contents()
    }

    /// How many times the inner fetch capability has been invoked.
    pub closed spec fn inner_calls(&self) -> nat {
        self.calls@
    }

    /// The wrapped inner fetch capability.
    pub closed spec fn inner(&self) -> C {
        self.client
    }

    /// Wraps `client` with a cache that holds no entries yet.
    pub fn new(client: C) -> (w: CachingWrapper<C>)
        ensures
            w.cached() == Map::<Seq<char>, String>::empty(),
            w.inner_calls() == 0,
            w.inner() == client,
    {
        CachingWrapper { client, cache: new_cache::<String>(), calls: Ghost(0nat) }
    }

    /// Fetches `url`. On a cache hit the stored body is returned at once:
    /// the cache is unchanged and the inner fetcher is not consulted. On a
    /// miss the inner fetcher is invoked exactly once; a successful body
    /// is stored under `url` and returned, a failure is propagated
    /// untouched and nothing is cached.
    pub fn fetch(&mut self, url: &str) -> (r: Result<String, SimpleError>)
        ensures
            old(self).cached().contains_key(url@) ==> {
                &&& r is Ok
                &&& r.unwrap() == old(self).cached()[url@]
                &&& final(self).cached() == old(self).cached()
                &&& final(self).inner() == old(self).inner()
                &&& final(self).inner_calls() == old(self).inner_calls()
            },
            !old(self).cached().contains_key(url@) ==> {
                &&& final(self).inner_calls() == old(self).inner_calls() + 1
                &&& match r {
                    Ok(body) => final(self).cached() == old(self).cached().insert(url@, body),
                    Err(_) => final(self).cached() == old(self).cached(),
                }
            },
    {
        match self.cache.lookup(url) {
            Some(body) => Ok(body),
            None => {
                let result = self.client.fetch(url);
                proof {
                    self.calls@ = self.calls@ + 1;
                }
                match result {
                    Ok(body) => {
                        self.cache.insert(url, body.clone());
                        Ok(body)
                    },
                    Err(e) => Err(e),
                }
            },
        }
    }
}

impl<C: SimpleClient> SimpleClient for CachingWrapper<C> {
    fn fetch(&mut self, url: &str) -> Result<String, SimpleError> {
        CachingWrapper::fetch(self, url)
    }
}

/// After a miss whose inner fetch succeeded, the URL is cached with the
/// fetched body: by the contract of [`CachingWrapper::fetch`], a second
/// fetch of the same URL is then a hit — it returns that body unchanged
/// and leaves the inner fetcher's invocation count as it was.
pub proof fn lemma_second_fetch_is_hit(cached: Map<Seq<char>, String>, url: Seq<char>, body: String)
    ensures
        cached.insert(url, body).contains_key(url),
        cached.insert(url, body)[url] == body,
{
}

/// Builds the client used by the rest of the system: the given transport
/// wrapped so that each URL's body is fetched remotely once and then
/// served from the cache.
pub fn new_client<C: SimpleClient>(inner: C) -> (w: CachingWrapper<C>)
    ensures
        w.cached() == Map::<Seq<char>, String>::empty(),
        w.inner_calls() == 0,
        w.inner() == inner,
{
    CachingWrapper::new(inner)
}

} // verus!
