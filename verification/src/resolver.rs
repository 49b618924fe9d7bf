//! Translation resolution: which translation variant to use when none is
//! explicitly requested.
//!
//! Resolution must run before any cache key is computed, since the key
//! includes the resolved translation id: a request with no translation and a
//! request that names the default id must hit the same cache entry.

use vstd::prelude::*;
use crate::errors::{CorpusError, ErrorKind};

verus! {

/// One registered translation for a book, with its priority. A lower
/// priority value means a higher priority.
#[derive(Clone, Copy, PartialEq, Eq, Structural, Debug)]
pub struct TranslationPriority {
    pub trans_id: i16,
    pub priority: i32,
}

/// `i` is the index of the default entry of `s`: the first entry carrying
/// the minimal priority value.
pub open spec fn is_default_choice(s: Seq<TranslationPriority>, i: int) -> bool {
    &&& 0 <= i < s.len()
    &&& forall|j: int| 0 <= j < s.len() ==> (#[trigger] s[j]).priority >= s[i].priority
    &&& forall|j: int| 0 <= j < i ==> (#[trigger] s[j]).priority > s[i].priority
}

/// The default choice is unique: any two indices that both qualify are the
/// same index, so resolution with no requested translation is deterministic.
pub proof fn lemma_default_choice_unique(s: Seq<TranslationPriority>, i: int, j: int)
    requires
        is_default_choice(s, i),
        is_default_choice(s, j),
    ensures
        i == j,
{
    if i < j {
        assert(s[i].priority > s[j].priority);
        assert(s[j].priority >= s[i].priority);
    }
    if j < i {
        assert(s[j].priority > s[i].priority);
        assert(s[i].priority >= s[j].priority);
    }
}

/// Some default choice always exists among registered translations.
pub proof fn lemma_default_choice_exists(s: Seq<TranslationPriority>)
    requires
        s.len() > 0,
    ensures
        exists|i: int| is_default_choice(s, i),
    decreases s.len(),
{
    if s.len() == 1 {
        assert(is_default_choice(s, 0));
    } else {
        let pre = s.drop_last();
        lemma_default_choice_exists(pre);
        let i = choose|i: int| is_default_choice(pre, i);
        assert(forall|j: int| 0 <= j < pre.len() ==> s[j] == #[trigger] pre[j]);
        if s.last().priority < s[i].priority {
            let m = s.len() - 1;
            assert forall|j: int| 0 <= j < s.len() implies (#[trigger] s[j]).priority
                >= s[m].priority by {
                if j < m {
                    assert(s[j] == pre[j]);
                    assert(pre[j].priority >= pre[i].priority);
                }
            }
            assert forall|j: int| 0 <= j < m implies (#[trigger] s[j]).priority
                > s[m].priority by {
                assert(s[j] == pre[j]);
                assert(pre[j].priority >= pre[i].priority);
            }
            assert(is_default_choice(s, m));
        } else {
            assert forall|j: int| 0 <= j < s.len() implies (#[trigger] s[j]).priority
                >= s[i].priority by {
                if j < s.len() - 1 {
                    assert(s[j] == pre[j]);
                    assert(pre[j].priority >= pre[i].priority);
                }
            }
            assert forall|j: int| 0 <= j < i implies (#[trigger] s[j]).priority
                > s[i].priority by {
                assert(s[j] == pre[j]);
                assert(pre[j].priority > pre[i].priority);
            }
            assert(is_default_choice(s, i));
        }
    }
}

/// The index of the default entry: the first entry carrying the minimal
/// priority value.
pub open spec fn default_index(s: Seq<TranslationPriority>) -> int {
    choose|i: int| is_default_choice(s, i)
}

/// With at least one registered translation, `default_index` names the
/// default entry, and it is the only index that qualifies: resolution with
/// no requested translation is deterministic.
pub proof fn lemma_resolution_default(s: Seq<TranslationPriority>)
    requires
        s.len() > 0,
    ensures
        is_default_choice(s, default_index(s)),
        forall|i: int| is_default_choice(s, i) ==> i == default_index(s),
{
    lemma_default_choice_exists(s);
    assert forall|i: int| is_default_choice(s, i) implies i == default_index(s) by {
        lemma_default_choice_unique(s, i, default_index(s));
    }
}

/// Whether a translation can be resolved at all: one was requested, or at
/// least one is registered.
pub open spec fn resolvable(s: Seq<TranslationPriority>, requested: Option<i16>) -> bool {
    requested is Some || s.len() > 0
}

/// The translation id that resolution yields: the requested id verbatim,
/// or the registered entry with the highest priority (the lowest priority
/// value), taking the earliest such entry.
pub open spec fn resolution_of(s: Seq<TranslationPriority>, requested: Option<i16>) -> i16 {
    match requested {
        Some(id) => id,
        None => s[default_index(s)].trans_id,
    }
}

/// The priority ordering of the translations registered for one book,
/// handed in as explicit configuration.
pub struct TranslationResolver {
    pub priorities: Vec<TranslationPriority>,
}

impl TranslationResolver {
    /// Builds a resolver over the given registered translations.
    pub fn new(priorities: Vec<TranslationPriority>) -> (r: TranslationResolver)
        ensures
            r.priorities@ == priorities@,
    {
        TranslationResolver { priorities }
    }

    /// Resolves which translation to use. An explicitly requested id is used
    /// verbatim, with no existence check at this layer: a missing id surfaces
    /// as a downstream not-found. With no requested id, the registered entry
    /// with the highest priority (the lowest priority value) is selected,
    /// taking the earliest such entry; if no translation is registered at
    /// all, resolution fails with `ResolutionError`.
    pub fn resolve(&self, requested: Option<i16>) -> (r: Result<i16, CorpusError>)
        ensures
            requested matches Some(id) ==> r == Ok::<i16, CorpusError>(id),
            !resolvable(self.priorities@, requested) ==> (r matches Err(e) && e.kind
                == ErrorKind::ResolutionError),
            resolvable(self.priorities@, requested) ==> r == Ok::<i16, CorpusError>(
                resolution_of(self.priorities@, requested),
            ),
    {
        match requested {
            Some(id) => Ok(id),
            None => {
                let n = self.priorities.len();
                if n == 0 {
                    return Err(
                        CorpusError::new(
                            ErrorKind::ResolutionError,
                            "no translation is registered for this book",
                            "",
                        ),
                    );
                }
                let mut best: usize = 0;
                let mut k: usize = 1;
                while k < n
                    invariant
                        n == self.priorities@.len(),
                        best < k <= n,
                        forall|j: int|
                            0 <= j < k ==> (#[trigger] self.priorities@[j]).priority
                                >= self.priorities@[best as int].priority,
                        forall|j: int|
                            0 <= j < best ==> (#[trigger] self.priorities@[j]).priority
                                > self.priorities@[best as int].priority,
                    decreases n - k,
                {
                    if self.priorities[k].priority < self.priorities[best].priority {
                        best = k;
                    }
                    k = k + 1;
                }
                proof {
                    assert(is_default_choice(self.priorities@, best as int));
                    lemma_resolution_default(self.priorities@);
                }
                Ok(self.priorities[best].trans_id)
            },
        }
    }
}

} // verus!
