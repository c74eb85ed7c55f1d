use vstd::prelude::*;
use vstd::rwlock::{RwLock, RwLockPredicate};
use std::sync::Arc;

verus! {

/// The lock in a `Snap` may hold any string.
pub struct AnyString;

impl RwLockPredicate<String> for AnyString {
    open spec fn inv(self, v: String) -> bool {
        true
    }
}

/// String with concurrent access: it can grow without a `&mut` reference
/// to itself, which makes passing it around a test easy when performance
/// does not matter. Useful for accumulating output from a system under
/// test and comparing it to an inline snapshot at the end.
#[derive(Clone)]
pub struct Snap(Arc<RwLock<String, AnyString>>);

impl Snap {
    /// An empty accumulator.
    pub fn new() -> Snap {
        Snap(Arc::new(RwLock::new(String::new(), Ghost(AnyString))))
    }

    /// An accumulator that starts with the given text.
    pub fn from<S: Into<String>>(s: S) -> Snap {
        Snap(Arc::new(RwLock::new(s.into(), Ghost(AnyString))))
    }

    /// Append a substring.
    pub fn push<S: Into<String>>(&self, s: S) {
        let text: String = s.into();
        let (mut content, handle) = self.0.acquire_write();
        content.append(text.as_str());
        handle.release_write(content);
    }

    /// Append a substring and a newline after it.
    pub fn pushln<S: Into<String>>(&self, s: S) {
        self.push(s);
        self.push("\n");
    }

    /// The accumulated text.
    pub fn to_string(&self) -> String {
        let handle = self.0.acquire_read();
        let content = handle.borrow().clone();
        handle.release_read();
        content
    }
}

} // verus!
