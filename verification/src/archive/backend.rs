//! What an extraction reports, and the kinds of archive readers.
use vstd::prelude::*;

verus! {

/// An entry that an extraction left out, and why.
#[derive(Debug, Clone)]
pub struct SkippedEntry {
    pub path: String,
    pub reason: String,
}

impl View for SkippedEntry {
    type V = (Seq<char>, Seq<char>);

    open spec fn view(&self) -> (Seq<char>, Seq<char>) {
        (self.path@, self.reason@)
    }
}

pub open spec fn skipped_view(v: Seq<SkippedEntry>) -> Seq<(Seq<char>, Seq<char>)> {
    v.map_values(|s: SkippedEntry| s@)
}

/// The files an extraction wrote, and the entries it left out.
#[derive(Debug, Clone)]
pub struct ExtractResult {
    pub written: Vec<String>,
    pub skipped: Vec<SkippedEntry>,
}

impl ExtractResult {
    /// A result with the given written files and nothing left out.
    pub fn from_written(written: Vec<String>) -> (res: Self)
        ensures
            res.written@ == written@,
            res.skipped@.len() == 0,
    {
        ExtractResult { written, skipped: Vec::new() }
    }

    /// Both results together: this one's files and skips, then the other's.
    pub fn merge(self, other: ExtractResult) -> (res: Self)
        ensures
            res.written@ == self.written@ + other.written@,
            res.skipped@ == self.skipped@ + other.skipped@,
    {
        let mut s = self;
        let mut o = other;
        s.written.append(&mut o.written);
        s.skipped.append(&mut o.skipped);
        s
    }
}

/// Which reader serves an archive.
#[derive(Debug, Clone, Copy, PartialEq, Eq, Structural)]
pub enum BackendKind {
    Hehe,
    Zip,
    SevenZ,
}

} // verus!
