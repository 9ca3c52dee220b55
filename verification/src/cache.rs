//! The staleness cache: for each code, whether its local copy is known to be
//! fresh or stale, and which codes have a probe under way.

use vstd::hash_map::StringHashMap;
use vstd::prelude::*;

verus! {

/// Model of a [`StalenessCache`].
pub struct CacheModel {
    /// `false` for a copy confirmed fresh, `true` for one confirmed stale; no
    /// entry for a code that was never checked.
    pub verdicts: Map<Seq<char>, bool>,
    /// The codes whose probe was requested and has not reported yet.
    pub pending: Set<Seq<char>>,
}

impl CacheModel {
    /// The verdict on `code`, if there is one.
    pub open spec fn lookup(self, code: Seq<char>) -> Option<bool> {
        if self.verdicts.contains_key(code) {
            Some(self.verdicts[code])
        } else {
            None
        }
    }

    /// Whether a probe of `code` is to be started: nothing is known of it and
    /// none is under way.
    pub open spec fn wants_probe(self, code: Seq<char>) -> bool {
        !self.verdicts.contains_key(code) && !self.pending.contains(code)
    }

    /// The cache once a probe of `code` has reported `verdict`.
    pub open spec fn recorded(self, code: Seq<char>, verdict: bool) -> CacheModel {
        CacheModel {
            verdicts: self.verdicts.insert(code, verdict),
            pending: self.pending.remove(code),
        }
    }

    /// The cache without a verdict on `code`.
    pub open spec fn evicted(self, code: Seq<char>) -> CacheModel {
        CacheModel { verdicts: self.verdicts.remove(code), pending: self.pending }
    }

    /// The cache with a probe of `code` under way.
    pub open spec fn probing(self, code: Seq<char>) -> CacheModel {
        CacheModel { verdicts: self.verdicts, pending: self.pending.insert(code) }
    }

    /// The cache without the verdicts on the codes in `gone`.
    pub open spec fn without(self, gone: Set<Seq<char>>) -> CacheModel {
        CacheModel { verdicts: self.verdicts.remove_keys(gone), pending: self.pending }
    }
}

/// The shared cache of staleness verdicts.
pub struct StalenessCache {
    verdicts: StringHashMap<bool>,
    pending: StringHashMap<bool>,
}

impl View for StalenessCache {
    type V = CacheModel;

    closed spec fn view(&self) -> CacheModel {
        CacheModel { verdicts: self.verdicts@, pending: self.pending@.dom() }
    }
}

impl StalenessCache {
    /// A cache that knows nothing.
    pub fn new() -> (out: Self)
        ensures
            out@.verdicts == Map::<Seq<char>, bool>::empty(),
            out@.pending == Set::<Seq<char>>::empty(),
    {
        let out = StalenessCache { verdicts: StringHashMap::new(), pending: StringHashMap::new() };
        assert(out@.pending =~= Set::<Seq<char>>::empty());
        out
    }

    /// The verdict on `code`: nothing where it was never checked.
    pub fn lookup(&self, code: &str) -> (out: Option<bool>)
        ensures
            out == self@.lookup(code@),
    {
        match self.verdicts.get(code) {
            Some(verdict) => Some(*verdict),
            None => None,
        }
    }

    /// Whether a probe of `code` is under way.
    pub fn is_pending(&self, code: &str) -> (pending: bool)
        ensures
            pending == self@.pending.contains(code@),
    {
        self.pending.contains_key(code)
    }

    /// Stores the verdict on `code`; its probe is no longer under way.
    pub fn record(&mut self, code: &str, verdict: bool)
        ensures
            final(self)@ == old(self)@.recorded(code@, verdict),
    {
        self.verdicts.insert(code.to_owned(), verdict);
        self.pending.remove(code);
        assert(self@.pending =~= old(self)@.pending.remove(code@));
    }

    /// Forgets the verdict on `code`, so that it is probed again.
    pub fn evict(&mut self, code: &str)
        ensures
            final(self)@ == old(self)@.evicted(code@),
    {
        self.verdicts.remove(code);
    }

    /// Asks whether a probe of `code` is to be started now, and if so notes
    /// it as under way. A code with a verdict, or with a probe under way
    /// already, gets none.
    pub fn request_probe(&mut self, code: &str) -> (start: bool)
        ensures
            start == old(self)@.wants_probe(code@),
            start ==> final(self)@ == old(self)@.probing(code@),
            !start ==> final(self)@ == old(self)@,
    {
        if self.verdicts.contains_key(code) || self.pending.contains_key(code) {
            return false;
        }
        self.pending.insert(code.to_owned(), true);
        assert(self@.pending =~= old(self)@.pending.insert(code@));
        true
    }
}

} // verus!
