//! The metrics cache: the exposition of the most recent complete scrape cycle.
use vstd::prelude::*;

verus! {

/// Holds one exposition text. A new cycle's text replaces the held one
/// whole; nothing of the previous text is kept or merged.
#[derive(Debug)]
pub struct MetricsCache {
    text: String,
}

impl View for MetricsCache {
    type V = Seq<char>;

    closed spec fn view(&self) -> Seq<char> {
        self.text@
    }
}

impl MetricsCache {
    /// An empty cache, as before the first cycle completes.
    pub fn new() -> (r: MetricsCache)
        ensures
            r@ == Seq::<char>::empty(),
    {
        MetricsCache { text: String::new() }
    }

    /// Replaces the held text by the exposition of a completed cycle.
    pub fn replace(&mut self, text: String)
        ensures
            final(self)@ == text@,
    {
        self.text = text;
    }

    /// A copy of the whole held text.
    pub fn snapshot(&self) -> (r: String)
        ensures
            r@ == self@,
    {
        self.text.clone()
    }
}

} // verus!
