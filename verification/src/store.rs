//! The short-link store: a mapping from short code to long URL with an
//! explicit uniqueness invariant, a no-overwrite rule, and a bounded-retry
//! policy for system-generated codes.
use crate::codes::generate_short_code;
use crate::codes::generated_code_format;
use crate::codes::is_valid_code;
use crate::codes::valid_code;
use crate::codes::MAX_GENERATION_ATTEMPTS;
use vstd::prelude::*;

verus! {

/// Every failure a store operation can report.
#[derive(Clone, Copy, PartialEq, Eq, Structural, Debug)]
pub enum ShortLinkError {
    /// A caller-requested code is already mapped; nothing was replaced.
    CodeAlreadyExists,
    /// No free system-generated code was found within the retry budget.
    CodeSpaceExhausted,
    /// The requested short code is not in the mapping.
    NotFound,
    /// The long URL was empty, or a requested code was empty or held a
    /// character unsafe in a URL path segment.
    InvalidInput,
}

/// The entries hold pairwise-distinct short codes.
pub open spec fn keys_distinct(s: Seq<(String, String)>) -> bool {
    forall|i: int, j: int| 0 <= i < j < s.len() ==> s[i].0@ != s[j].0@
}

/// The mathematical mapping that a sequence of (code, URL) entries denotes.
pub open spec fn map_of_entries(s: Seq<(String, String)>) -> Map<Seq<char>, Seq<char>>
    decreases s.len(),
{
    if s.len() == 0 {
        Map::empty()
    } else {
        map_of_entries(s.drop_last()).insert(s.last().0@, s.last().1@)
    }
}

/// A code is in the denoted mapping exactly when some entry carries it.
pub proof fn lemma_map_of_entries_contains(s: Seq<(String, String)>, k: Seq<char>)
    ensures
        map_of_entries(s).contains_key(k) <==> (exists|i: int|
            0 <= i < s.len() && #[trigger] s[i].0@ == k),
    decreases s.len(),
{
    if s.len() == 0 {
    } else {
        lemma_map_of_entries_contains(s.drop_last(), k);
        if s.last().0@ == k {
            assert(s[s.len() - 1].0@ == k);
        } else if map_of_entries(s).contains_key(k) {
            let i = choose|i: int| 0 <= i < s.drop_last().len() && #[trigger] s.drop_last()[i].0@
                == k;
            assert(s[i].0@ == k);
        } else if exists|i: int| 0 <= i < s.len() && #[trigger] s[i].0@ == k {
            let i = choose|i: int| 0 <= i < s.len() && #[trigger] s[i].0@ == k;
            assert(s.drop_last()[i].0@ == k);
        }
    }
}

/// With distinct keys, the denoted mapping sends each entry's code to
/// that entry's URL.
pub proof fn lemma_map_of_entries_index(s: Seq<(String, String)>, i: int)
    requires
        keys_distinct(s),
        0 <= i < s.len(),
    ensures
        map_of_entries(s).contains_key(s[i].0@),
        map_of_entries(s)[s[i].0@] == s[i].1@,
    decreases s.len(),
{
    if i == s.len() - 1 {
    } else {
        assert forall|a: int, b: int|
            0 <= a < b < s.drop_last().len() implies s.drop_last()[a].0@ != s.drop_last()[b].0@ by {
            assert(s.drop_last()[a] == s[a]);
            assert(s.drop_last()[b] == s[b]);
        }
        lemma_map_of_entries_index(s.drop_last(), i);
        assert(s[s.len() - 1].0@ != s[i].0@);
    }
}

/// Appending one entry inserts exactly its pair into the denoted mapping.
pub proof fn lemma_map_of_entries_push(s: Seq<(String, String)>, e: (String, String))
    ensures
        map_of_entries(s.push(e)) == map_of_entries(s).insert(e.0@, e.1@),
{
    assert(s.push(e).drop_last() =~= s);
    assert(s.push(e).last() == e);
}

/// Every candidate in the sequence is already mapped.
pub open spec fn all_candidates_taken(m: Map<Seq<char>, Seq<char>>, cands: Seq<String>) -> bool {
    forall|i: int| 0 <= i < cands.len() ==> m.contains_key(#[trigger] cands[i]@)
}

/// The code space can count as exhausted only against a mapping that
/// already holds some code of the generated format: every one of the
/// failed draws collided with such an entry. A mapping with no
/// generated-format code at all — the empty mapping in particular — admits
/// no collision, so against it a generated-mode `create` can never report
/// exhaustion and must succeed.
pub open spec fn generation_exhausted(m: Map<Seq<char>, Seq<char>>) -> bool {
    exists|c: Seq<char>| #[trigger] generated_code_format(c) && m.contains_key(c)
}

/// `code` is the first candidate in the sequence that the mapping does not
/// yet contain.
pub open spec fn first_free_candidate(
    m: Map<Seq<char>, Seq<char>>,
    cands: Seq<String>,
    code: Seq<char>,
) -> bool {
    exists|i: int|
        {
            &&& 0 <= i < cands.len()
            &&& code == #[trigger] cands[i]@
            &&& !m.contains_key(cands[i]@)
            &&& all_candidates_taken(m, cands.take(i))
        }
}

/// The mapping store: owns every (short code, long URL) entry created so
/// far. Codes are unique and never overwritten. The store itself is a plain
/// value; a host that serves requests in parallel wraps one instance in a
/// mutual-exclusion lock, so every call below runs as one atomic critical
/// section and any concurrent history equals some serial order of the calls.
pub struct ShortLinkStore {
    entries: Vec<(String, String)>,
}

impl View for ShortLinkStore {
    type V = Map<Seq<char>, Seq<char>>;

    closed spec fn view(&self) -> Map<Seq<char>, Seq<char>> {
        map_of_entries(self.entries@)
    }
}

impl ShortLinkStore {
    /// The store's invariant: no two entries carry the same short code.
    pub closed spec fn wf(&self) -> bool {
        keys_distinct(self.entries@)
    }

    /// An empty store, constructed once at process start.
    pub fn new() -> (s: ShortLinkStore)
        ensures
            s.wf(),
            s@ == Map::<Seq<char>, Seq<char>>::empty(),
    {
        ShortLinkStore { entries: Vec::new() }
    }

    /// The position of the entry holding `code`, if any.
    fn find_index(&self, code: &String) -> (r: Option<usize>)
        ensures
            match r {
                Some(i) => i < self.entries@.len() && self.entries@[i as int].0@ == code@,
                None => forall|j: int|
                    0 <= j < self.entries@.len() ==> #[trigger] self.entries@[j].0@ != code@,
            },
    {
        let n = self.entries.len();
        let mut i: usize = 0;
        while i < n
            invariant
                i <= n,
                n == self.entries@.len(),
                forall|j: int| 0 <= j < i ==> #[trigger] self.entries@[j].0@ != code@,
            decreases n - i,
        {
            if self.entries[i].0 == *code {
                return Some(i);
            }
            i = i + 1;
        }
        None
    }

    /// Whether a short code is currently mapped.
    pub fn contains_code(&self, code: &String) -> (b: bool)
        ensures
            b == self@.contains_key(code@),
    {
        proof {
            lemma_map_of_entries_contains(self.entries@, code@);
        }
        match self.find_index(code) {
            Some(_) => true,
            None => false,
        }
    }

    /// Appends a fresh entry; the caller has checked that the code is free.
    fn insert_entry(&mut self, code: String, long_url: String)
        requires
            old(self).wf(),
            !old(self)@.contains_key(code@),
        ensures
            final (self).wf(),
            final (self)@ == old(self)@.insert(code@, long_url@),
    {
        proof {
            lemma_map_of_entries_contains(self.entries@, code@);
        }
        let ghost s_old = self.entries@;
        let ghost c = code@;
        let ghost u = long_url@;
        self.entries.push((code, long_url));
        proof {
            let e = self.entries@.last();
            assert(self.entries@ =~= s_old.push(e));
            assert(e.0@ == c && e.1@ == u);
            lemma_map_of_entries_push(s_old, e);
            assert forall|i: int, j: int|
                0 <= i < j < self.entries@.len() implies self.entries@[i].0@
                != self.entries@[j].0@ by {
                if j == self.entries@.len() - 1 {
                    assert(s_old[i].0@ != c);
                } else {
                    assert(self.entries@[i] == s_old[i]);
                    assert(self.entries@[j] == s_old[j]);
                }
            }
        }
    }

    /// Looks a short code up and returns the long URL stored for it,
    /// byte for byte; fails with `NotFound` exactly when the code is
    /// absent from the mapping.
    pub fn resolve(&self, short_code: &String) -> (r: Result<String, ShortLinkError>)
        requires
            self.wf(),
        ensures
            match r {
                Ok(url) => self@.contains_key(short_code@) && url@ == self@[short_code@],
                Err(e) => e == ShortLinkError::NotFound && !self@.contains_key(short_code@),
            },
    {
        match self.find_index(short_code) {
            Some(i) => {
                proof {
                    lemma_map_of_entries_index(self.entries@, i as int);
                }
                Ok(self.entries[i].1.clone())
            },
            None => {
                proof {
                    lemma_map_of_entries_contains(self.entries@, short_code@);
                }
                Err(ShortLinkError::NotFound)
            },
        }
    }

    /// The collision-retry step of generated-mode `create`, over an explicit
    /// list of candidate codes: inserts the long URL under the first
    /// candidate that is still free, and reports `CodeSpaceExhausted` when
    /// every candidate is taken. `create` draws the candidates at random
    /// and delegates to this function, which is verified for every possible
    /// draw.
    pub fn create_with_candidates(&mut self, long_url: String, candidates: &Vec<String>) -> (r:
        Result<String, ShortLinkError>)
        requires
            old(self).wf(),
        ensures
            final (self).wf(),
            ({
                let m = old(self)@;
                match r {
                    Ok(code) => {
                        &&& long_url@.len() > 0
                        &&& first_free_candidate(m, candidates@, code@)
                        &&& !m.contains_key(code@)
                        &&& final (self)@ == m.insert(code@, long_url@)
                    },
                    Err(e) => {
                        &&& final (self)@ == m
                        &&& if long_url@.len() == 0 {
                            e == ShortLinkError::InvalidInput
                        } else {
                            &&& e == ShortLinkError::CodeSpaceExhausted
                            &&& all_candidates_taken(m, candidates@)
                        }
                    },
                }
            }),
    {
        if long_url.as_str().is_empty() {
            return Err(ShortLinkError::InvalidInput);
        }
        let n = candidates.len();
        let mut i: usize = 0;
        while i < n
            invariant
                i <= n,
                n == candidates@.len(),
                self == old(self),
                self.wf(),
                long_url@.len() > 0,
                forall|j: int| 0 <= j < i ==> self@.contains_key(#[trigger] candidates@[j]@),
            decreases n - i,
        {
            let candidate = &candidates[i];
            proof {
                lemma_map_of_entries_contains(self.entries@, candidate@);
            }
            match self.find_index(candidate) {
                Some(_) => {
                    i = i + 1;
                },
                None => {
                    let code = candidate.clone();
                    proof {
                        assert(all_candidates_taken(old(self)@, candidates@.take(i as int)));
                        assert(first_free_candidate(old(self)@, candidates@, code@));
                    }
                    self.insert_entry(code.clone(), long_url);
                    return Ok(code);
                },
            }
        }
        Err(ShortLinkError::CodeSpaceExhausted)
    }

    /// Creates a mapping for `long_url`. With a requested code, the code is
    /// validated and inserted only if it is still free — an existing entry
    /// is never overwritten. Without one, a six-character code is drawn at
    /// random from the 62-character alphabet, retrying a bounded number of
    /// times on collision. On success the returned code maps to `long_url`
    /// and is fresh: it was not in the store before this call. Exhaustion
    /// is reported only when every drawn candidate was already mapped, so
    /// against a store that holds no generated-format code — an empty store
    /// in particular — generated-mode creation always succeeds.
    pub fn create(&mut self, long_url: String, requested_code: Option<String>) -> (r: Result<
        String,
        ShortLinkError,
    >)
        requires
            old(self).wf(),
        ensures
            final (self).wf(),
            ({
                let m = old(self)@;
                match r {
                    Ok(code) => {
                        &&& long_url@.len() > 0
                        &&& !m.contains_key(code@)
                        &&& final (self)@ == m.insert(code@, long_url@)
                        &&& (match requested_code {
                            Some(rc) => code@ == rc@ && valid_code(rc@),
                            None => generated_code_format(code@),
                        })
                    },
                    Err(e) => {
                        &&& final (self)@ == m
                        &&& (match requested_code {
                            Some(rc) => {
                                if long_url@.len() == 0 || !valid_code(rc@) {
                                    e == ShortLinkError::InvalidInput
                                } else if m.contains_key(rc@) {
                                    e == ShortLinkError::CodeAlreadyExists
                                } else {
                                    false  // with a non-empty URL and a valid free code, create succeeds
                                }
                            },
                            None => {
                                if long_url@.len() == 0 {
                                    e == ShortLinkError::InvalidInput
                                } else {
                                    &&& e == ShortLinkError::CodeSpaceExhausted
                                    &&& generation_exhausted(m)
                                }
                            },
                        })
                    },
                }
            }),
    {
        match requested_code {
            Some(rc) => {
                if long_url.as_str().is_empty() {
                    return Err(ShortLinkError::InvalidInput);
                }
                if !is_valid_code(&rc) {
                    return Err(ShortLinkError::InvalidInput);
                }
                proof {
                    lemma_map_of_entries_contains(self.entries@, rc@);
                }
                match self.find_index(&rc) {
                    Some(_) => Err(ShortLinkError::CodeAlreadyExists),
                    None => {
                        let code = rc.clone();
                        self.insert_entry(rc, long_url);
                        Ok(code)
                    },
                }
            },
            None => {
                let mut candidates: Vec<String> = Vec::new();
                let mut i: usize = 0;
                while i < MAX_GENERATION_ATTEMPTS
                    invariant
                        i <= MAX_GENERATION_ATTEMPTS,
                        candidates@.len() == i,
                        forall|j: int|
                            0 <= j < i ==> generated_code_format(#[trigger] candidates@[j]@),
                    decreases MAX_GENERATION_ATTEMPTS - i,
                {
                    candidates.push(generate_short_code());
                    i = i + 1;
                }
                let r = self.create_with_candidates(long_url, &candidates);
                proof {
                    if r is Err && r->Err_0 == ShortLinkError::CodeSpaceExhausted {
                        assert(generated_code_format(candidates@[0]@));
                        assert(old(self)@.contains_key(candidates@[0]@));
                        assert(generation_exhausted(old(self)@));
                    }
                    if r is Ok {
                        let code = r->Ok_0;
                        let k = choose|k: int|
                            {
                                &&& 0 <= k < candidates@.len()
                                &&& code@ == #[trigger] candidates@[k]@
                                &&& !old(self)@.contains_key(candidates@[k]@)
                                &&& all_candidates_taken(old(self)@, candidates@.take(k))
                            };
                        assert(generated_code_format(candidates@[k]@));
                    }
                }
                r
            },
        }
    }
}

} // verus!
