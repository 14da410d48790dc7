//! Counters kept while entries are listed or removed.
use vstd::prelude::*;

verus! {

/// What became of an entry once it was counted.
pub enum Outcome {
    /// Only listed: nothing is removed in a preview.
    Listed,
    /// Removed.
    Removed,
    /// The removal failed, with this message.
    Failed(String),
}

/// The counters of one run.
pub struct TrimStats {
    dirs_found: u64,
    files_found: u64,
    dirs_removed: u64,
    files_removed: u64,
    bytes_freed: u64,
    errors: Vec<String>,
}

/// The counters as numbers and the error messages as text.
pub struct TrimStatsView {
    pub dirs_found: nat,
    pub files_found: nat,
    pub dirs_removed: nat,
    pub files_removed: nat,
    pub bytes_freed: nat,
    pub errors: Seq<Seq<char>>,
}

impl View for TrimStats {
    type V = TrimStatsView;

    closed spec fn view(&self) -> TrimStatsView {
        TrimStatsView {
            dirs_found: self.dirs_found as nat,
            files_found: self.files_found as nat,
            dirs_removed: self.dirs_removed as nat,
            files_removed: self.files_removed as nat,
            bytes_freed: self.bytes_freed as nat,
            errors: self.errors@.map_values(|e: String| e@),
        }
    }
}

/// The counters after one more entry of size `size` was found, with `outcome`;
/// `dir` tells whether the entry counts as a directory or as a file.
pub open spec fn after_entry(s: TrimStatsView, dir: bool, size: nat, outcome: Outcome) -> TrimStatsView {
    let found = if dir {
        TrimStatsView { dirs_found: s.dirs_found + 1, bytes_freed: s.bytes_freed + size, ..s }
    } else {
        TrimStatsView { files_found: s.files_found + 1, bytes_freed: s.bytes_freed + size, ..s }
    };
    match outcome {
        Outcome::Listed => found,
        Outcome::Removed => if dir {
            TrimStatsView { dirs_removed: found.dirs_removed + 1, ..found }
        } else {
            TrimStatsView { files_removed: found.files_removed + 1, ..found }
        },
        Outcome::Failed(msg) => TrimStatsView { errors: found.errors.push(msg@), ..found },
    }
}

/// Law: an entry that is only listed (a preview) adds to what was found and
/// to the bytes, and leaves the removal counts and the errors as they were.
pub proof fn lemma_listing_removes_nothing(s: TrimStatsView, dir: bool, size: nat)
    ensures
        after_entry(s, dir, size, Outcome::Listed).dirs_removed == s.dirs_removed,
        after_entry(s, dir, size, Outcome::Listed).files_removed == s.files_removed,
        after_entry(s, dir, size, Outcome::Listed).errors == s.errors,
        after_entry(s, dir, size, Outcome::Listed).bytes_freed == s.bytes_freed + size,
        after_entry(s, dir, size, Outcome::Listed).dirs_found + after_entry(s, dir, size, Outcome::Listed).files_found
            == s.dirs_found + s.files_found + 1,
{
}

/// Law: counting one entry adds one to what was found of its kind and its
/// size to the bytes; a removal counts as removed only when it succeeded, and
/// a failed one adds its message to the errors and nothing else.
pub proof fn lemma_entry_counts(s: TrimStatsView, dir: bool, size: nat, outcome: Outcome)
    ensures
        after_entry(s, dir, size, outcome).dirs_found == s.dirs_found + if dir { 1int } else { 0int },
        after_entry(s, dir, size, outcome).files_found == s.files_found + if dir { 0int } else { 1int },
        after_entry(s, dir, size, outcome).bytes_freed == s.bytes_freed + size,
        after_entry(s, dir, size, outcome).dirs_removed == s.dirs_removed
            + if dir && outcome is Removed { 1int } else { 0int },
        after_entry(s, dir, size, outcome).files_removed == s.files_removed
            + if !dir && outcome is Removed { 1int } else { 0int },
        after_entry(s, dir, size, outcome).errors == match outcome {
            Outcome::Failed(m) => s.errors.push(m@),
            _ => s.errors,
        },
{
}

impl TrimStats {
    #[verifier::type_invariant]
    spec fn wf(self) -> bool {
        &&& self.dirs_removed <= self.dirs_found
        &&& self.files_removed <= self.files_found
    }

    /// All counters at zero, no errors.
    pub fn new() -> (r: Self)
        ensures
            r@ == (TrimStatsView {
                dirs_found: 0,
                files_found: 0,
                dirs_removed: 0,
                files_removed: 0,
                bytes_freed: 0,
                errors: Seq::empty(),
            }),
    {
        let r = TrimStats {
            dirs_found: 0,
            files_found: 0,
            dirs_removed: 0,
            files_removed: 0,
            bytes_freed: 0,
            errors: Vec::new(),
        };
        assert(r@.errors =~= Seq::<Seq<char>>::empty());
        r
    }

    /// Counts one entry of `size` bytes (a directory when `dir`, else a file)
    /// and what became of it.
    pub fn record(&mut self, dir: bool, size: u64, outcome: Outcome)
        requires
            old(self)@.bytes_freed + size <= u64::MAX,
            dir ==> old(self)@.dirs_found < u64::MAX,
            !dir ==> old(self)@.files_found < u64::MAX,
        ensures
            final(self)@ == after_entry(old(self)@, dir, size as nat, outcome),
            final(self)@.dirs_removed <= final(self)@.dirs_found,
            final(self)@.files_removed <= final(self)@.files_found,
    {
        let ghost pre = self@;
        let mut cur = TrimStats::new();
        core::mem::swap(self, &mut cur);
        proof { use_type_invariant(&cur); }
        let TrimStats {
            mut dirs_found,
            mut files_found,
            mut dirs_removed,
            mut files_removed,
            bytes_freed,
            mut errors,
        } = cur;
        if dir {
            dirs_found = dirs_found + 1;
        } else {
            files_found = files_found + 1;
        }
        match outcome {
            Outcome::Listed => {},
            Outcome::Removed => {
                if dir {
                    dirs_removed = dirs_removed + 1;
                } else {
                    files_removed = files_removed + 1;
                }
            },
            Outcome::Failed(msg) => {
                errors.push(msg);
            },
        }
        *self = TrimStats {
            dirs_found,
            files_found,
            dirs_removed,
            files_removed,
            bytes_freed: bytes_freed + size,
            errors,
        };
        assert(self@.errors =~= after_entry(pre, dir, size as nat, outcome).errors);
    }

    /// Directories found so far.
    pub fn dirs_found(&self) -> (r: u64)
        ensures
            r == self@.dirs_found,
    {
        self.dirs_found
    }

    /// Files found so far.
    pub fn files_found(&self) -> (r: u64)
        ensures
            r == self@.files_found,
    {
        self.files_found
    }

    /// Directories removed so far; never more than were found.
    pub fn dirs_removed(&self) -> (r: u64)
        ensures
            r == self@.dirs_removed,
            r <= self@.dirs_found,
    {
        proof { use_type_invariant(self); }
        self.dirs_removed
    }

    /// Files removed so far; never more than were found.
    pub fn files_removed(&self) -> (r: u64)
        ensures
            r == self@.files_removed,
            r <= self@.files_found,
    {
        proof { use_type_invariant(self); }
        self.files_removed
    }

    /// Bytes in the entries found so far.
    pub fn bytes_freed(&self) -> (r: u64)
        ensures
            r == self@.bytes_freed,
    {
        self.bytes_freed
    }

    /// The messages of the failed removals, in order.
    pub fn errors(&self) -> (r: &Vec<String>)
        ensures
            r@.map_values(|e: String| e@) == self@.errors,
    {
        &self.errors
    }
}

} // verus!
