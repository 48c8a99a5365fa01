use std::cell::Cell;
use std::rc::Rc;

use weather::http::CachingWrapper;
use weather::http::SimpleClient;
use weather::http::SimpleError;
use weather::http::new_client;

/// A fetch capability that counts its invocations and answers with a body
/// derived from the URL.
struct SpyClient {
    calls: Rc<Cell<u32>>,
}

impl SimpleClient for SpyClient {
    fn fetch(&mut self, url: &str) -> Result<String, SimpleError> {
        self.calls.set(self.calls.get() + 1);
        Ok(format!("body of {}", url))
    }
}

/// A fetch capability that counts its invocations and always fails.
struct FailingClient {
    calls: Rc<Cell<u32>>,
}

impl SimpleClient for FailingClient {
    fn fetch(&mut self, _url: &str) -> Result<String, SimpleError> {
        self.calls.set(self.calls.get() + 1);
        Err(SimpleError::Uncategorized(String::from("connection refused")))
    }
}

/// A fetch capability that fails on its first call, then succeeds.
struct FlakyClient {
    calls: Rc<Cell<u32>>,
}

impl SimpleClient for FlakyClient {
    fn fetch(&mut self, _url: &str) -> Result<String, SimpleError> {
        self.calls.set(self.calls.get() + 1);
        if self.calls.get() == 1 {
            Err(SimpleError::Uncategorized(String::from("timed out")))
        } else {
            Ok(String::from("late body"))
        }
    }
}

#[test]
fn first_fetch_invokes_inner_once_and_caches() {
    let calls = Rc::new(Cell::new(0));
    let mut w = CachingWrapper::new(SpyClient { calls: calls.clone() });

    let first = w.fetch("http://example.test/a").unwrap();
    assert_eq!(first, "body of http://example.test/a");
    assert_eq!(calls.get(), 1);

    // The second fetch of the same URL is served from the cache: the
    // inner fetcher is not invoked and the value comes back unchanged.
    let second = w.fetch("http://example.test/a").unwrap();
    assert_eq!(second, "body of http://example.test/a");
    assert_eq!(calls.get(), 1);
}

#[test]
fn distinct_urls_each_invoke_inner() {
    let calls = Rc::new(Cell::new(0));
    let mut w = CachingWrapper::new(SpyClient { calls: calls.clone() });
    let a = w.fetch("http://example.test/a").unwrap();
    let b = w.fetch("http://example.test/b").unwrap();
    assert_eq!(a, "body of http://example.test/a");
    assert_eq!(b, "body of http://example.test/b");
    assert_eq!(calls.get(), 2);
}

#[test]
fn failed_fetch_is_propagated_and_not_cached() {
    let calls = Rc::new(Cell::new(0));
    let mut w = CachingWrapper::new(FailingClient { calls: calls.clone() });

    let first = w.fetch("http://example.test/x");
    assert!(matches!(first, Err(SimpleError::Uncategorized(_))));
    assert_eq!(calls.get(), 1);

    // The URL stayed uncached, so the next call consults the inner
    // fetcher again and surfaces its error again.
    let second = w.fetch("http://example.test/x");
    assert!(matches!(second, Err(SimpleError::Uncategorized(_))));
    assert_eq!(calls.get(), 2);
}

#[test]
fn failing_url_is_retried_until_a_success_is_cached() {
    let calls = Rc::new(Cell::new(0));
    let mut w = CachingWrapper::new(FlakyClient { calls: calls.clone() });
    assert!(w.fetch("http://example.test/y").is_err());
    assert_eq!(w.fetch("http://example.test/y").unwrap(), "late body");
    assert_eq!(w.fetch("http://example.test/y").unwrap(), "late body");
    assert_eq!(calls.get(), 2);
}

#[test]
fn new_client_builds_a_caching_wrapper() {
    let calls = Rc::new(Cell::new(0));
    let mut w = new_client(SpyClient { calls: calls.clone() });
    assert_eq!(w.fetch("u").unwrap(), "body of u");
    assert_eq!(w.fetch("u").unwrap(), "body of u");
    assert_eq!(calls.get(), 1);
}

#[test]
fn error_message_is_preserved() {
    let e = SimpleError::Uncategorized(String::from("dns failure"));
    assert_eq!(e.message(), "dns failure");
}
