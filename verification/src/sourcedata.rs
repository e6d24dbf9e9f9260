//! The source file and line range of a function, where a debug build
//! records them.
use vstd::prelude::*;

use crate::constants::DataAddress;
use crate::text::{prefixed_decimal, spec_decimal};

verus! {

/// The PC-to-line-number section of a debug build maps instructions to
/// source locations; for one function they are gathered here.
pub struct SourceData {
    pub file: Option<DataAddress>,
    pub bounds: Option<(usize, usize)>,
}

/// The bounds after a line is added: the line alone, or the old bounds
/// widened to hold it.
pub open spec fn widened(bounds: Option<(usize, usize)>, line: usize) -> Option<(usize, usize)> {
    match bounds {
        None => Some((line, line)),
        Some((lo, hi)) => Some((if line < lo { line } else { lo }, if line > hi { line } else { hi })),
    }
}

impl Default for SourceData {
    fn default() -> (s: SourceData)
        ensures
            s.file is None,
            s.bounds is None,
    {
        SourceData { file: None, bounds: None }
    }
}

impl SourceData {
    /// The line range as `min-max` where both the file and the lines are
    /// known, else `[None]`.
    pub open spec fn spec_text(self) -> Seq<char> {
        match (self.bounds, self.file) {
            (Some((min, max)), Some(_)) => spec_decimal(min as nat) + "-"@ + spec_decimal(max as nat),
            _ => "[None]"@,
        }
    }

    pub fn to_string(&self) -> (s: String)
        ensures
            s@ == self.spec_text(),
    {
        match (self.bounds, self.file) {
            (Some((min, max)), Some(_)) => {
                let mut s = prefixed_decimal("", min);
                let t = prefixed_decimal("-", max);
                s.append(t.as_str());
                proof { reveal_strlit(""); }
                assert(s@ =~= self.spec_text());
                s
            },
            _ => String::from_str("[None]"),
        }
    }

    pub fn new() -> (s: SourceData)
        ensures
            s.file is None,
            s.bounds is None,
    {
        SourceData { file: None, bounds: None }
    }

    pub fn set_file(&mut self, source_symbol: DataAddress)
        ensures
            final(self).file == Some(source_symbol),
            final(self).bounds == old(self).bounds,
    {
        self.file = Some(source_symbol);
    }

    pub fn has_file(&self) -> (b: bool)
        ensures
            b == self.file is Some,
    {
        self.file.is_some()
    }

    /// Widens the line range to hold `line`.
    pub fn add_line(&mut self, line: usize)
        ensures
            final(self).bounds == widened(old(self).bounds, line),
            final(self).file == old(self).file,
    {
        match self.bounds {
            None => {
                self.bounds = Some((line, line));
            },
            Some((current_min, current_max)) => {
                let lo = if line < current_min { line } else { current_min };
                let hi = if line > current_max { line } else { current_max };
                self.bounds = Some((lo, hi));
            },
        }
    }

    pub fn start(&self) -> (r: Option<usize>)
        ensures
            r == (match self.bounds {
                Some((lo, _)) => Some(lo),
                None => None::<usize>,
            }),
    {
        match self.bounds {
            Some((lo, _)) => Some(lo),
            None => None,
        }
    }

    pub fn end(&self) -> (r: Option<usize>)
        ensures
            r == (match self.bounds {
                Some((_, hi)) => Some(hi),
                None => None::<usize>,
            }),
    {
        match self.bounds {
            Some((_, hi)) => Some(hi),
            None => None,
        }
    }

    pub fn filename(&self) -> (r: Option<DataAddress>)
        ensures
            r == self.file,
    {
        self.file
    }
}

/// After a line is added, the bounds hold it and the old bounds, and each
/// end is the line or the old end.
pub proof fn lemma_widened_holds(bounds: Option<(usize, usize)>, line: usize)
    ensures
        widened(bounds, line) is Some,
        ({
            let w = widened(bounds, line).unwrap();
            &&& w.0 <= line <= w.1
            &&& bounds is Some ==> w.0 <= bounds.unwrap().0 && bounds.unwrap().1 <= w.1
            &&& w.0 == line || (bounds is Some && w.0 == bounds.unwrap().0)
            &&& w.1 == line || (bounds is Some && w.1 == bounds.unwrap().1)
        }),
{
}

} // verus!
