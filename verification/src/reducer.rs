//! The review-state reducer: collapses one pull request's review events
//! into the single current state per person.
//!
//! Events are processed in the order given (relied upon to be
//! chronological), the latest event per person wins, and the pull
//! request's own author is excluded even when self-review events exist.

use crate::payload::ReviewEvent;
use crate::payload::ReviewEventV;
use crate::strutil::str_eq;
use vstd::prelude::*;

verus! {

/// The state recorded for `name` in an association list of
/// (person, state) pairs, scanning from the front.
pub open spec fn spec_lookup(m: Seq<(Seq<char>, Seq<char>)>, name: Seq<char>) -> Option<Seq<char>>
    decreases m.len(),
{
    if m.len() == 0 {
        None
    } else if m[0].0 == name {
        Some(m[0].1)
    } else {
        spec_lookup(m.drop_first(), name)
    }
}

/// Overwrites the state recorded for `name`, keeping its position, or
/// appends a new entry when `name` has none yet.
pub open spec fn spec_upsert(
    m: Seq<(Seq<char>, Seq<char>)>,
    name: Seq<char>,
    state: Seq<char>,
) -> Seq<(Seq<char>, Seq<char>)>
    decreases m.len(),
{
    if m.len() == 0 {
        seq![(name, state)]
    } else if m[0].0 == name {
        seq![(name, state)] + m.drop_first()
    } else {
        seq![m[0]] + spec_upsert(m.drop_first(), name, state)
    }
}

/// The current state per person after `events`, in order of each
/// person's first applicable event: the latest event wins, and events
/// authored by `author` are ignored.
pub open spec fn spec_reduce(author: Seq<char>, events: Seq<ReviewEventV>) -> Seq<
    (Seq<char>, Seq<char>),
>
    decreases events.len(),
{
    if events.len() == 0 {
        Seq::empty()
    } else {
        let prev = spec_reduce(author, events.drop_last());
        let e = events.last();
        if e.reviewer == author {
            prev
        } else {
            spec_upsert(prev, e.reviewer, e.state)
        }
    }
}

/// No two entries of `m` record the same person.
pub open spec fn spec_unique_keys(m: Seq<(Seq<char>, Seq<char>)>) -> bool {
    forall|i: int, j: int| 0 <= i < j < m.len() ==> m[i].0 != m[j].0
}

/// An upsert resolves a lookup: the upserted name now maps to the new
/// state, every other name to what it mapped to before.
pub proof fn lemma_lookup_upsert(
    m: Seq<(Seq<char>, Seq<char>)>,
    name: Seq<char>,
    state: Seq<char>,
    q: Seq<char>,
)
    ensures
        spec_lookup(spec_upsert(m, name, state), q) == (if q == name {
            Some(state)
        } else {
            spec_lookup(m, q)
        }),
    decreases m.len(),
{
    if m.len() == 0 {
        let r = spec_upsert(m, name, state);
        assert(r == seq![(name, state)]);
        assert(r[0] == (name, state));
        assert(r.drop_first() =~= Seq::<(Seq<char>, Seq<char>)>::empty());
        if q == name {
            assert(spec_lookup(r, q) == Some(state));
        } else {
            assert(spec_lookup(r, q) == spec_lookup(r.drop_first(), q));
            assert(spec_lookup(r, q) is None);
        }
    } else if m[0].0 == name {
        let r = spec_upsert(m, name, state);
        assert(r == seq![(name, state)] + m.drop_first());
        assert(r[0] == (name, state));
        assert(r.drop_first() =~= m.drop_first());
        if q == name {
            assert(spec_lookup(r, q) == Some(state));
        } else {
            assert(spec_lookup(r, q) == spec_lookup(m.drop_first(), q));
            assert(spec_lookup(m, q) == spec_lookup(m.drop_first(), q));
        }
    } else {
        lemma_lookup_upsert(m.drop_first(), name, state, q);
        let tail = spec_upsert(m.drop_first(), name, state);
        let r = spec_upsert(m, name, state);
        assert(r == seq![m[0]] + tail);
        assert(r[0] == m[0]);
        assert(r.drop_first() =~= tail);
        if q == m[0].0 {
            assert(spec_lookup(r, q) == Some(m[0].1));
            assert(spec_lookup(m, q) == Some(m[0].1));
        } else {
            assert(spec_lookup(r, q) == spec_lookup(tail, q));
            assert(spec_lookup(m, q) == spec_lookup(m.drop_first(), q));
        }
    }
}

/// Every key of an upsert is the upserted name or a key that was already
/// there.
pub proof fn lemma_upsert_keys(
    m: Seq<(Seq<char>, Seq<char>)>,
    name: Seq<char>,
    state: Seq<char>,
)
    ensures
        forall|i: int|
            0 <= i < spec_upsert(m, name, state).len()
                ==> (#[trigger] spec_upsert(m, name, state)[i].0) == name || (exists|j: int|
                0 <= j < m.len() && m[j].0 == spec_upsert(m, name, state)[i].0),
    decreases m.len(),
{
    if m.len() == 0 {
    } else if m[0].0 == name {
        assert forall|i: int| 0 <= i < spec_upsert(m, name, state).len() implies (
        #[trigger] spec_upsert(m, name, state)[i].0) == name || (exists|j: int|
            0 <= j < m.len() && m[j].0 == spec_upsert(m, name, state)[i].0) by {
            if i > 0 {
                assert(spec_upsert(m, name, state)[i] == m.drop_first()[i - 1]);
                assert(m.drop_first()[i - 1] == m[i]);
            }
        }
    } else {
        lemma_upsert_keys(m.drop_first(), name, state);
        assert forall|i: int| 0 <= i < spec_upsert(m, name, state).len() implies (
        #[trigger] spec_upsert(m, name, state)[i].0) == name || (exists|j: int|
            0 <= j < m.len() && m[j].0 == spec_upsert(m, name, state)[i].0) by {
            if i == 0 {
                assert(spec_upsert(m, name, state)[0] == m[0]);
            } else {
                let tail = spec_upsert(m.drop_first(), name, state);
                assert(spec_upsert(m, name, state)[i] == tail[i - 1]);
                if tail[i - 1].0 != name {
                    let j = choose|j: int|
                        0 <= j < m.drop_first().len() && m.drop_first()[j].0 == tail[i - 1].0;
                    assert(m[j + 1].0 == tail[i - 1].0);
                }
            }
        }
    }
}

/// The reducer never records the pull request's own author: self-reviews
/// are excluded from the output.
pub proof fn lemma_reduce_excludes_author(author: Seq<char>, events: Seq<ReviewEventV>)
    ensures
        forall|i: int|
            0 <= i < spec_reduce(author, events).len()
                ==> (#[trigger] spec_reduce(author, events)[i].0) != author,
    decreases events.len(),
{
    if events.len() > 0 {
        lemma_reduce_excludes_author(author, events.drop_last());
        let e = events.last();
        let prev = spec_reduce(author, events.drop_last());
        if e.reviewer != author {
            lemma_upsert_keys(prev, e.reviewer, e.state);
        }
    }
}

/// The latest event the named person submitted among `events`, scanning
/// from the back.
pub open spec fn spec_last_state(events: Seq<ReviewEventV>, reviewer: Seq<char>) -> Option<
    Seq<char>,
>
    decreases events.len(),
{
    if events.len() == 0 {
        None
    } else if events.last().reviewer == reviewer {
        Some(events.last().state)
    } else {
        spec_last_state(events.drop_last(), reviewer)
    }
}

/// Last write wins: the state the reducer records for a person is the
/// state of that person's chronologically last event, and the author is
/// recorded never.
pub proof fn lemma_reduce_is_last_write(
    author: Seq<char>,
    events: Seq<ReviewEventV>,
    reviewer: Seq<char>,
)
    ensures
        spec_lookup(spec_reduce(author, events), reviewer) == (if reviewer == author {
            None::<Seq<char>>
        } else {
            spec_last_state(events, reviewer)
        }),
    decreases events.len(),
{
    if events.len() == 0 {
        if reviewer == author {
            lemma_reduce_excludes_author(author, events);
        }
    } else {
        lemma_reduce_is_last_write(author, events.drop_last(), reviewer);
        let e = events.last();
        let prev = spec_reduce(author, events.drop_last());
        if e.reviewer == author {
            if reviewer == author {
                lemma_reduce_excludes_author(author, events);
            }
        } else {
            lemma_lookup_upsert(prev, e.reviewer, e.state, reviewer);
            if reviewer == author {
                lemma_reduce_excludes_author(author, events);
            }
        }
    }
}

/// A recorded lookup is witnessed by an entry: what the reducer reports
/// for a person is literally among its (person, state) pairs.
pub proof fn lemma_lookup_contains(m: Seq<(Seq<char>, Seq<char>)>, q: Seq<char>)
    requires
        spec_lookup(m, q) is Some,
    ensures
        m.contains((q, spec_lookup(m, q).unwrap())),
    decreases m.len(),
{
    if m.len() > 0 {
        if m[0].0 == q {
            assert(m[0] == (q, spec_lookup(m, q).unwrap()));
        } else {
            lemma_lookup_contains(m.drop_first(), q);
            let i = choose|i: int|
                0 <= i < m.drop_first().len() && m.drop_first()[i] == (
                q,
                spec_lookup(m, q).unwrap(),
                );
            assert(m[i + 1] == (q, spec_lookup(m, q).unwrap()));
        }
    }
}

/// Upserting keeps person keys unique.
pub proof fn lemma_upsert_preserves_unique(
    m: Seq<(Seq<char>, Seq<char>)>,
    name: Seq<char>,
    state: Seq<char>,
)
    requires
        spec_unique_keys(m),
    ensures
        spec_unique_keys(spec_upsert(m, name, state)),
    decreases m.len(),
{
    if m.len() == 0 {
    } else if m[0].0 == name {
        let r = seq![(name, state)] + m.drop_first();
        assert forall|i: int, j: int| 0 <= i < j < r.len() implies r[i].0 != r[j].0 by {
            if i == 0 {
                assert(r[j] == m[j]);
            } else {
                assert(r[i] == m[i]);
                assert(r[j] == m[j]);
            }
        }
    } else {
        assert(spec_unique_keys(m.drop_first())) by {
            assert(forall|i: int|
                0 <= i < m.drop_first().len() ==> (#[trigger] m.drop_first()[i]) == m[i + 1]);
        }
        lemma_upsert_preserves_unique(m.drop_first(), name, state);
        lemma_upsert_keys(m.drop_first(), name, state);
        let tail = spec_upsert(m.drop_first(), name, state);
        let r = seq![m[0]] + tail;
        assert forall|i: int, j: int| 0 <= i < j < r.len() implies r[i].0 != r[j].0 by {
            if i == 0 {
                assert(r[j] == tail[j - 1]);
                if tail[j - 1].0 == m[0].0 {
                    if tail[j - 1].0 != name {
                        let k = choose|k: int|
                            0 <= k < m.drop_first().len() && m.drop_first()[k].0 == tail[j - 1].0;
                        assert(m[k + 1].0 == m[0].0);
                    }
                }
            } else {
                assert(r[i] == tail[i - 1]);
                assert(r[j] == tail[j - 1]);
            }
        }
    }
}

/// The reducer's output maps each person at most once.
pub proof fn lemma_reduce_unique(author: Seq<char>, events: Seq<ReviewEventV>)
    ensures
        spec_unique_keys(spec_reduce(author, events)),
    decreases events.len(),
{
    if events.len() > 0 {
        lemma_reduce_unique(author, events.drop_last());
        let e = events.last();
        if e.reviewer != author {
            lemma_upsert_preserves_unique(spec_reduce(author, events.drop_last()), e.reviewer,
                e.state);
        }
    }
}

/// Overwrites or appends the entry for `name` in an association vector.
fn upsert(m: &mut Vec<(String, String)>, name: &String, state: &String)
    ensures
        final(m).deep_view() == spec_upsert(old(m).deep_view(), name@, state@),
{
    let ghost m0 = old(m).deep_view();
    let mut i: usize = 0;
    while i < m.len()
        invariant
            i <= m@.len(),
            m0 == old(m).deep_view(),
            m.deep_view() == m0,
            forall|j: int| 0 <= j < i ==> m0[j].0 != name@,
        decreases m@.len() - i,
    {
        if str_eq(m[i].0.as_str(), name.as_str()) {
            m.set(i, (name.clone(), state.clone()));
            proof {
                assert(m.deep_view() =~= m0.update(i as int, (name@, state@)));
                lemma_upsert_found(m0, name@, state@, i as int);
            }
            return;
        }
        proof {
            assert(m0[i as int].0 == m@[i as int].0@);
        }
        i = i + 1;
    }
    m.push((name.clone(), state.clone()));
    proof {
        assert(m.deep_view() =~= m0.push((name@, state@)));
        lemma_upsert_absent(m0, name@, state@);
    }
}

/// An upsert of a name whose first occurrence is at `i` is an update in
/// place at `i`.
proof fn lemma_upsert_found(
    m: Seq<(Seq<char>, Seq<char>)>,
    name: Seq<char>,
    state: Seq<char>,
    i: int,
)
    requires
        0 <= i < m.len(),
        m[i].0 == name,
        forall|j: int| 0 <= j < i ==> m[j].0 != name,
    ensures
        spec_upsert(m, name, state) == m.update(i, (name, state)),
    decreases i,
{
    if i == 0 {
        assert(seq![(name, state)] + m.drop_first() =~= m.update(0, (name, state)));
    } else {
        assert(forall|j: int|
            0 <= j < i - 1 ==> (#[trigger] m.drop_first()[j]).0 == m[j + 1].0);
        lemma_upsert_found(m.drop_first(), name, state, i - 1);
        assert(seq![m[0]] + m.drop_first().update(i - 1, (name, state)) =~= m.update(
            i,
            (name, state),
        ));
    }
}

/// An upsert of a name that occurs nowhere is an append.
proof fn lemma_upsert_absent(m: Seq<(Seq<char>, Seq<char>)>, name: Seq<char>, state: Seq<char>)
    requires
        forall|j: int| 0 <= j < m.len() ==> m[j].0 != name,
    ensures
        spec_upsert(m, name, state) == m.push((name, state)),
    decreases m.len(),
{
    if m.len() == 0 {
        assert(seq![(name, state)] =~= m.push((name, state)));
    } else {
        assert(forall|j: int|
            0 <= j < m.drop_first().len() ==> (#[trigger] m.drop_first()[j]).0 == m[j + 1].0);
        lemma_upsert_absent(m.drop_first(), name, state);
        assert(seq![m[0]] + m.drop_first().push((name, state)) =~= m.push((name, state)));
    }
}

/// Collapses one pull request's review events into the single current
/// state per person: the latest event per person wins, and events the
/// pull request's own author submitted are ignored.
pub fn latest_states(author: &String, events: &Vec<ReviewEvent>) -> (r: Vec<(String, String)>)
    ensures
        r.deep_view() == spec_reduce(author@, events.deep_view()),
        spec_unique_keys(r.deep_view()),
        forall|i: int| 0 <= i < r.deep_view().len() ==> (#[trigger] r.deep_view()[i].0) != author@,
{
    proof {
        lemma_reduce_unique(author@, events.deep_view());
        lemma_reduce_excludes_author(author@, events.deep_view());
    }
    let mut out: Vec<(String, String)> = Vec::new();
    let mut i: usize = 0;
    proof {
        assert(events.deep_view().take(0) =~= Seq::<ReviewEventV>::empty());
        assert(out.deep_view() =~= Seq::<(Seq<char>, Seq<char>)>::empty());
    }
    while i < events.len()
        invariant
            i <= events@.len(),
            events.deep_view().len() == events@.len(),
            out.deep_view() == spec_reduce(author@, events.deep_view().take(i as int)),
        decreases events@.len() - i,
    {
        let e = &events[i];
        proof {
            assert(events.deep_view()[i as int] == events@[i as int].deep_view());
        }
        if !str_eq(e.reviewer.as_str(), author.as_str()) {
            upsert(&mut out, &e.reviewer, &e.state);
        }
        proof {
            assert(events.deep_view().take(i + 1).drop_last() =~= events.deep_view().take(
                i as int,
            ));
            assert(events.deep_view().take(i + 1).last() == events.deep_view()[i as int]);
        }
        i = i + 1;
    }
    proof {
        assert(events.deep_view().take(events@.len() as int) =~= events.deep_view());
    }
    out
}

} // verus!
