//! The transformation engine's decision logic: resolving script
//! references, the shared compiled-program cache, the chain built from
//! it, and the per-record execution walk.
//!
//! Compiled programs are opaque to this module; the caller owns them
//! and hands their handles in. Reading a script file and compiling it
//! is the caller's business: this module only decides when that work
//! happens, so that each distinct path is read and compiled once.

use vstd::prelude::*;
use vstd::string::{StrSliceExecFns, StringExecFns};

verus! {

/// Whether `a` and `b` hold the same characters.
fn str_eq(a: &String, b: &str) -> (r: bool)
    ensures
        r == (a@ == b@),
{
    let bs = String::from_str(b);
    a.eq(&bs)
}

/// The last character of a non-empty string.
fn last_char_of(s: &str) -> (r: char)
    requires
        s@.len() > 0,
    ensures
        r == s@[s@.len() - 1],
{
    let n = s.unicode_len();
    s.get_char(n - 1)
}

/// Where a script reference points: an absolute path stands as given;
/// a relative one is joined to the base directory when there is one.
pub open spec fn resolve_spec(base: Option<Seq<char>>, p: Seq<char>) -> Seq<char> {
    match base {
        Some(b) => if p.len() > 0 && p[0] == '/' {
            p
        } else if b.len() == 0 {
            p
        } else if b[b.len() - 1] == '/' {
            b + p
        } else {
            b + "/"@ + p
        },
        None => p,
    }
}

/// Resolves a script reference against the optional base directory.
pub fn resolve_path(base: Option<&str>, p: &str) -> (r: String)
    ensures
        r@ == resolve_spec(
            match base {
                Option::Some(b) => Some(b@),
                Option::None => None,
            },
            p@,
        ),
{
    match base {
        Option::Some(b) => {
            let pn = p.unicode_len();
            if pn > 0 && p.get_char(0) == '/' {
                return p.to_owned();
            }
            let bn = b.unicode_len();
            if bn == 0 {
                return p.to_owned();
            }
            let mut out = b.to_owned();
            if last_char_of(b) != '/' {
                out.append("/");
            }
            out.append(p);
            proof {
                if b@[b@.len() - 1] == '/' {
                    assert(out@ =~= b@ + p@);
                } else {
                    assert(out@ =~= b@ + "/"@ + p@);
                }
            }
            out
        },
        Option::None => p.to_owned(),
    }
}

/// Whether `j` is the cache entry recorded under the path `p`.
pub open spec fn cache_entry_at(entries: Seq<(String, u64)>, p: Seq<char>, j: int) -> bool {
    0 <= j < entries.len() && entries[j].0@ == p
}

/// Whether some program is recorded under the path `p`.
pub open spec fn cache_has(entries: Seq<(String, u64)>, p: Seq<char>) -> bool {
    exists|j: int| cache_entry_at(entries, p, j)
}

/// The process-wide compiled-program cache: resolved script path to
/// program handle, never evicted. The paths are unique, so a lookup is
/// unambiguous.
pub struct ScriptCache {
    pub entries: Vec<(String, u64)>,
}

impl ScriptCache {
    /// Each path is recorded at most once.
    pub open spec fn wf(self) -> bool {
        forall|i: int, j: int|
            0 <= i < j < self.entries@.len() ==> #[trigger] self.entries@[i].0@
                != #[trigger] self.entries@[j].0@
    }

    /// An empty cache, as the process starts with.
    pub fn new() -> (r: Self)
        ensures
            r.wf(),
            r.entries@.len() == 0,
    {
        ScriptCache { entries: Vec::new() }
    }

    /// The program recorded under `path`, if any.
    pub fn lookup(&self, path: &String) -> (r: Option<u64>)
        requires
            self.wf(),
        ensures
            match r {
                Option::Some(id) => exists|j: int|
                    #![auto]
                    cache_entry_at(self.entries@, path@, j) && self.entries@[j].1 == id,
                Option::None => !cache_has(self.entries@, path@),
            },
{
        let mut i: usize = 0;
        while i < self.entries.len()
            invariant
                i <= self.entries@.len(),
                forall|j: int| 0 <= j < i ==> !cache_entry_at(self.entries@, path@, j),
            decreases self.entries.len() - i,
        {
            if str_eq(&self.entries[i].0, path.as_str()) {
                proof {
                    assert(cache_entry_at(self.entries@, path@, i as int));
                }
                return Some(self.entries[i].1);
            }
            i += 1;
        }
        None
    }

    /// Records a freshly compiled program under its path; each path is
    /// compiled only once, so it must not be recorded yet.
    pub fn record_compiled(&mut self, path: String, id: u64)
        requires
            old(self).wf(),
            !cache_has(old(self).entries@, path@),
        ensures
            final(self).wf(),
            final(self).entries@ == old(self).entries@.push((path, id)),
    {
        self.entries.push((path, id));
        proof {
            assert forall|i: int, j: int|
                0 <= i < j < self.entries@.len() implies #[trigger] self.entries@[i].0@
                != #[trigger] self.entries@[j].0@ by {
                if j < self.entries@.len() - 1 {
                } else {
                    assert(!cache_entry_at(old(self).entries@, path@, i));
                }
            }
        }
    }
}

/// What the chain builder asks the caller to do for one script.
pub enum PlanStep {
    /// The path is cached: reuse this program, with no read or compile.
    Cached(u64),
    /// The path is not cached: read the file and compile it.
    NeedCompile,
}

/// Decides what to do for one resolved script path.
pub fn plan_script(cache: &ScriptCache, resolved: &String) -> (r: PlanStep)
    requires
        cache.wf(),
    ensures
        match r {
            PlanStep::Cached(id) => exists|j: int|
                #![auto]
                cache_entry_at(cache.entries@, resolved@, j) && cache.entries@[j].1 == id,
            PlanStep::NeedCompile => !cache_has(cache.entries@, resolved@),
        },
{
    match cache.lookup(resolved) {
        Option::Some(id) => PlanStep::Cached(id),
        Option::None => PlanStep::NeedCompile,
    }
}

/// Compiling the same script path twice performs the read and compile
/// only once: once a program is recorded under a path, every later
/// plan for that path reuses the cached program instead of asking for
/// another read and compile.
pub proof fn lemma_second_compile_is_cached(c: ScriptCache, path: String, id: u64, j: int)
    requires
        c.wf(),
        c.entries@.len() > 0,
        c.entries@.last() == (path, id),
        cache_entry_at(c.entries@, path@, j),
    ensures
        cache_has(c.entries@, path@),
        c.entries@[j].1 == id,
{
    let last = c.entries@.len() - 1;
    assert(cache_entry_at(c.entries@, path@, last));
    if j != last {
        assert(c.entries@[j].0@ == c.entries@[last].0@);
        assert(false);
    }
}

/// The transformation chain: ordered (program handle, source text)
/// pairs, immutable once built. On a cache hit the source text is not
/// available (it is not cached), so the path reference stands in for
/// it, as the first caller that compiled it keeps the real text.
pub struct TransformChain {
    pub programs: Vec<(u64, String)>,
}

impl TransformChain {
    /// An empty chain.
    pub fn new() -> (r: Self)
        ensures
            r.programs@.len() == 0,
    {
        TransformChain { programs: Vec::new() }
    }

    /// How many programs the chain holds.
    pub fn len(&self) -> (r: usize)
        ensures
            r == self.programs@.len(),
    {
        self.programs.len()
    }

    /// Appends a cached program; the path reference stands in for the
    /// source text.
    pub fn push_cached(&mut self, id: u64, path_text: String)
        ensures
            final(self).programs@ == old(self).programs@.push((id, path_text)),
    {
        self.programs.push((id, path_text));
    }

    /// Appends a freshly compiled program with its source text, and
    /// records it in the cache for every later caller.
    pub fn push_compiled(
        &mut self,
        cache: &mut ScriptCache,
        path: String,
        id: u64,
        source: String,
    )
        requires
            old(cache).wf(),
            !cache_has(old(cache).entries@, path@),
        ensures
            final(cache).wf(),
            final(cache).entries@ == old(cache).entries@.push((path, id)),
            final(self).programs@ == old(self).programs@.push((id, source)),
    {
        cache.record_compiled(path, id);
        self.programs.push((id, source));
    }
}

/// How one record's walk down the chain ended, or where it stands.
pub enum ChainOutcome {
    /// Programs remain to run.
    Running,
    /// A program failed at runtime: the record is dropped, and no
    /// further program of the chain runs for it.
    Dropped,
    /// Every program ran: the record passes on transformed.
    Completed,
}

/// The per-record walk down a chain of `total` programs, in order; a
/// fresh one is made for every record, so chains never leak state
/// between records.
pub struct ChainRun {
    pub total: usize,
    pub pos: usize,
    pub failed: bool,
}

/// The program a walk asks to run next: none once it failed or ran out.
pub open spec fn next_program_spec(r: ChainRun) -> Option<int> {
    if r.failed || r.pos >= r.total {
        None
    } else {
        Some(r.pos as int)
    }
}

/// Where a walk stands.
pub open spec fn outcome_spec(r: ChainRun) -> ChainOutcome {
    if r.failed {
        ChainOutcome::Dropped
    } else if r.pos >= r.total {
        ChainOutcome::Completed
    } else {
        ChainOutcome::Running
    }
}

impl ChainRun {
    /// The position never passes the chain's end.
    pub open spec fn wf(self) -> bool {
        self.pos <= self.total
    }

    /// A fresh walk for one record, at the chain's start. An empty
    /// chain is complete at once: the record passes through unchanged.
    pub fn new(total: usize) -> (r: Self)
        ensures
            r.wf(),
            r.total == total,
            r.pos == 0,
            !r.failed,
    {
        ChainRun { total, pos: 0, failed: false }
    }

    /// The index of the program to run next, if any.
    pub fn next_program(&self) -> (r: Option<usize>)
        ensures
            match r {
                Option::Some(i) => next_program_spec(*self) == Some(i as int),
                Option::None => next_program_spec(*self) is None,
            },
    {
        if self.failed || self.pos >= self.total {
            None
        } else {
            Some(self.pos)
        }
    }

    /// One program succeeded: move to the next.
    pub fn on_success(&mut self)
        requires
            old(self).wf(),
            !old(self).failed,
            old(self).pos < old(self).total,
        ensures
            final(self).wf(),
            final(self).total == old(self).total,
            final(self).pos == old(self).pos + 1,
            !final(self).failed,
    {
        self.pos = self.pos + 1;
    }

    /// One program failed at runtime: the walk is over and the record
    /// is dropped.
    pub fn on_failure(&mut self)
        requires
            old(self).wf(),
        ensures
            final(self).wf(),
            final(self).total == old(self).total,
            final(self).failed,
            outcome_spec(*final(self)) is Dropped,
            next_program_spec(*final(self)) is None,
    {
        self.failed = true;
    }

    /// Where the walk stands.
    pub fn outcome(&self) -> (r: ChainOutcome)
        ensures
            r == outcome_spec(*self),
    {
        if self.failed {
            ChainOutcome::Dropped
        } else if self.pos >= self.total {
            ChainOutcome::Completed
        } else {
            ChainOutcome::Running
        }
    }
}

/// A runtime failure ends the record's walk for good: a failed walk
/// never asks for another program and always reports the record
/// dropped, so the remaining programs are aborted for that record.
pub proof fn lemma_failure_halts_chain(r: ChainRun)
    requires
        r.failed,
    ensures
        next_program_spec(r) is None,
        outcome_spec(r) is Dropped,
{
}

} // verus!
