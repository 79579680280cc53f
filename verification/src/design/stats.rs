//! Figures about the documents a project tracks: how many there are in each state, which
//! states hold the most, the oldest and newest document, and how many lack a title.

use crate::design::doc::{all_states_seq, DocState};
use crate::design::docmeta::{DateStampV, DocMetadataV};
use crate::design::state::DocumentRecord;
use crate::design::validate::DateStamp;
use crate::textops::str_equal;
use vstd::prelude::*;

verus! {

/// The metadata of the records `rs`, in order.
pub open spec fn metas_of(rs: Seq<&DocumentRecord>) -> Seq<DocMetadataV> {
    Seq::new(rs.len(), |i: int| rs[i].deep_view().metadata)
}

/// How many of the documents `ms` are in state `st`.
pub open spec fn state_count(ms: Seq<DocMetadataV>, st: DocState) -> nat
    decreases ms.len(),
{
    if ms.len() == 0 {
        0
    } else {
        state_count(ms.drop_last(), st) + if ms.last().state == st {
            1nat
        } else {
            0nat
        }
    }
}

/// The place of a state in the order of the lifecycle.
pub open spec fn state_position(st: DocState) -> int {
    match st {
        DocState::Draft => 0,
        DocState::UnderReview => 1,
        DocState::Revised => 2,
        DocState::Accepted => 3,
        DocState::Active => 4,
        DocState::Final => 5,
        DocState::Deferred => 6,
        DocState::Rejected => 7,
        DocState::Withdrawn => 8,
        DocState::Superseded => 9,
    }
}

/// Whether a state with a count ranks before another: more documents first, and on a tie
/// the earlier state of the lifecycle.
pub open spec fn ranks_before(a: (DocState, usize), b: (DocState, usize)) -> bool {
    a.1 > b.1 || (a.1 == b.1 && state_position(a.0) < state_position(b.0))
}

/// Whether `r` is in ranking order, no state twice.
pub open spec fn ranked(r: Seq<(DocState, usize)>) -> bool {
    forall|i: int, j: int| 0 <= i < j < r.len() ==> ranks_before(#[trigger] r[i], #[trigger] r[j])
}

/// Whether day `a` comes before day `b`.
pub open spec fn day_before(a: DateStampV, b: DateStampV) -> bool {
    a.year < b.year || (a.year == b.year && (a.month < b.month || (a.month == b.month && a.day
        < b.day)))
}

/// The position of the first document created on the earliest day.
pub open spec fn earliest_at(ms: Seq<DocMetadataV>) -> int
    decreases ms.len(),
{
    if ms.len() <= 1 {
        0
    } else {
        let k = earliest_at(ms.drop_last());
        if day_before(ms.last().created, ms[k].created) {
            ms.len() - 1
        } else {
            k
        }
    }
}

/// The position of the last document created on the latest day.
pub open spec fn latest_at(ms: Seq<DocMetadataV>) -> int
    decreases ms.len(),
{
    if ms.len() <= 1 {
        0
    } else {
        let k = latest_at(ms.drop_last());
        if day_before(ms.last().created, ms[k].created) {
            k
        } else {
            ms.len() - 1
        }
    }
}

/// Whether a document still lacks a title: it has none, or the placeholder one.
pub open spec fn lacks_title(m: DocMetadataV) -> bool {
    m.title.len() == 0 || m.title == "Untitled Document"@
}

/// How many of the documents `ms` lack a title.
pub open spec fn untitled_count(ms: Seq<DocMetadataV>) -> nat
    decreases ms.len(),
{
    if ms.len() == 0 {
        0
    } else {
        untitled_count(ms.drop_last()) + if lacks_title(ms.last()) {
            1nat
        } else {
            0nat
        }
    }
}

/// Figures about a set of documents.
pub struct ProjectStats {
    /// How many documents there are.
    pub total: usize,
    /// How many documents each state holds, in lifecycle order.
    pub counts: Vec<usize>,
    /// The states that hold documents, with their counts, most documents first.
    pub ranked: Vec<(DocState, usize)>,
    /// The number of the first document created on the earliest day.
    pub oldest: Option<u32>,
    /// The number of the last document created on the latest day.
    pub newest: Option<u32>,
    /// How many documents lack a title.
    pub untitled: usize,
}

/// The lifecycle position of a state.
pub fn position_of(st: DocState) -> (p: usize)
    ensures
        p == state_position(st),
        p < 10,
        all_states_seq()[p as int] == st,
{
    match st {
        DocState::Draft => 0,
        DocState::UnderReview => 1,
        DocState::Revised => 2,
        DocState::Accepted => 3,
        DocState::Active => 4,
        DocState::Final => 5,
        DocState::Deferred => 6,
        DocState::Rejected => 7,
        DocState::Withdrawn => 8,
        DocState::Superseded => 9,
    }
}

fn is_day_before(a: &DateStamp, b: &DateStamp) -> (r: bool)
    ensures
        r == day_before(a.deep_view(), b.deep_view()),
{
    a.year < b.year || (a.year == b.year && (a.month < b.month || (a.month == b.month && a.day
        < b.day)))
}

fn ranks_first(a: (DocState, usize), b: (DocState, usize)) -> (r: bool)
    ensures
        r == ranks_before(a, b),
{
    a.1 > b.1 || (a.1 == b.1 && position_of(a.0) < position_of(b.0))
}

/// Puts an entry into a ranking, after every entry that ranks before it.
fn insert_ranked(out: &mut Vec<(DocState, usize)>, e: (DocState, usize))
    requires
        ranked(old(out)@),
        forall|i: int| 0 <= i < old(out)@.len() ==> state_position(#[trigger] old(out)@[i].0)
            < state_position(e.0),
    ensures
        ranked(final(out)@),
        exists|p: int| 0 <= p <= old(out)@.len() && final(out)@ == old(out)@.insert(p, e),
{
    let ghost before = out@;
    let mut p: usize = 0;
    while p < out.len() && !ranks_first(e, out[p])
        invariant
            out@ == before,
            p <= out@.len(),
            forall|i: int| 0 <= i < p ==> ranks_before(#[trigger] out@[i], e),
            forall|i: int| 0 <= i < before.len() ==> state_position(#[trigger] before[i].0)
                < state_position(e.0),
        decreases out@.len() - p,
    {
        assert(state_position(out@[p as int].0) < state_position(e.0));
        p = p + 1;
    }
    proof {
        assert forall|j: int| p <= j < before.len() implies ranks_before(e, #[trigger] before[j]) by {
            if j > p {
                assert(ranks_before(before[p as int], before[j]));
            }
        }
    }
    out.insert(p, e);
    proof {
        let s = out@;
        assert(s == before.insert(p as int, e));
        assert forall|i: int, j: int| 0 <= i < j < s.len() implies ranks_before(
            #[trigger] s[i],
            #[trigger] s[j],
        ) by {
            if j < p {
                assert(s[i] == before[i] && s[j] == before[j]);
            } else if j == p {
                assert(s[i] == before[i]);
            } else if i < p {
                assert(s[i] == before[i] && s[j] == before[j - 1]);
                assert(ranks_before(before[i], e));
                assert(ranks_before(e, before[j - 1]));
            } else if i == p {
                assert(s[j] == before[j - 1]);
            } else {
                assert(s[i] == before[i - 1] && s[j] == before[j - 1]);
            }
        }
    }
}

/// The figures of the documents `docs`: the total, the count of each state in lifecycle
/// order, the states with documents ranked by count (ties in lifecycle order), the first
/// document created on the earliest day and the last one created on the latest day, and
/// how many documents lack a title.
pub fn project_stats(docs: &Vec<&DocumentRecord>) -> (s: ProjectStats)
    ensures
        s.total == docs@.len(),
        s.counts@.len() == 10,
        forall|k: int|
            0 <= k < 10 ==> #[trigger] s.counts@[k] == state_count(
                metas_of(docs@),
                all_states_seq()[k],
            ),
        ranked(s.ranked@),
        forall|i: int|
            0 <= i < s.ranked@.len() ==> (#[trigger] s.ranked@[i]).1 == state_count(
                metas_of(docs@),
                s.ranked@[i].0,
            ) && s.ranked@[i].1 > 0,
        forall|st: DocState|
            #![trigger state_count(metas_of(docs@), st)]
            state_count(metas_of(docs@), st) > 0 ==> exists|i: int|
                0 <= i < s.ranked@.len() && (#[trigger] s.ranked@[i]).0 == st,
        s.oldest == if docs@.len() == 0 {
            None
        } else {
            Some(metas_of(docs@)[earliest_at(metas_of(docs@))].number)
        },
        s.newest == if docs@.len() == 0 {
            None
        } else {
            Some(metas_of(docs@)[latest_at(metas_of(docs@))].number)
        },
        s.untitled == untitled_count(metas_of(docs@)),
{
    let ghost ms = metas_of(docs@);
    let states = DocState::all_states();
    let mut counts: Vec<usize> = vec![0, 0, 0, 0, 0, 0, 0, 0, 0, 0];
    let mut untitled: usize = 0;
    let mut oldest: usize = 0;
    let mut newest: usize = 0;
    let mut i: usize = 0;
    proof {
        reveal_strlit("");
        reveal_strlit("Untitled Document");
        assert(ms.take(0) =~= Seq::<DocMetadataV>::empty());
    }
    while i < docs.len()
        invariant
            ms == metas_of(docs@),
            states@ == all_states_seq(),
            i <= docs@.len(),
            counts@.len() == 10,
            forall|k: int|
                0 <= k < 10 ==> #[trigger] counts@[k] == state_count(
                    ms.take(i as int),
                    all_states_seq()[k],
                ),
            forall|k: int| 0 <= k < 10 ==> #[trigger] counts@[k] <= i,
            untitled == untitled_count(ms.take(i as int)),
            untitled <= i,
            i > 0 ==> oldest < i && oldest == earliest_at(ms.take(i as int)),
            i > 0 ==> newest < i && newest == latest_at(ms.take(i as int)),
        decreases docs@.len() - i,
    {
        let d = docs[i];
        let ghost next = ms.take(i + 1);
        proof {
            assert(next.drop_last() =~= ms.take(i as int));
            assert(next.last() == ms[i as int]);
            assert(ms[i as int] == d.deep_view().metadata);
        }
        let p = position_of(d.metadata.state);
        let c = counts[p];
        counts.set(p, c + 1);
        proof {
            assert forall|k: int| 0 <= k < 10 implies #[trigger] counts@[k] == state_count(
                next,
                all_states_seq()[k],
            ) by {
                if k == p {
                    assert(all_states_seq()[k] == d.metadata.state);
                } else {
                    assert(all_states_seq()[k] != d.metadata.state) by {
                        assert(state_position(all_states_seq()[k]) == k);
                    }
                }
            }
        }
        let t = d.metadata.title.as_str();
        proof {
            reveal_strlit("");
            reveal_strlit("Untitled Document");
            assert(t@ == ms[i as int].title);
            assert(t@.len() == 0 <==> t@ =~= ""@);
        }
        if str_equal(t, "") || str_equal(t, "Untitled Document") {
            untitled = untitled + 1;
        }
        if i == 0 {
            oldest = 0;
            newest = 0;
        } else {
            proof {
                assert(next[oldest as int] == ms[oldest as int]);
                assert(next[newest as int] == ms[newest as int]);
            }
            if is_day_before(&d.metadata.created, &docs[oldest].metadata.created) {
                oldest = i;
            }
            if !is_day_before(&d.metadata.created, &docs[newest].metadata.created) {
                newest = i;
            }
        }
        i = i + 1;
    }
    proof {
        assert(ms.take(docs@.len() as int) =~= ms);
    }
    let mut ranking: Vec<(DocState, usize)> = Vec::new();
    let mut k: usize = 0;
    while k < 10
        invariant
            ms == metas_of(docs@),
            states@ == all_states_seq(),
            k <= 10,
            counts@.len() == 10,
            forall|j: int| 0 <= j < 10 ==> #[trigger] counts@[j] == state_count(ms, all_states_seq()[j]),
            ranked(ranking@),
            forall|j: int| 0 <= j < ranking@.len() ==> state_position(#[trigger] ranking@[j].0) < k,
            forall|j: int|
                0 <= j < ranking@.len() ==> (#[trigger] ranking@[j]).1 == state_count(
                    ms,
                    ranking@[j].0,
                ) && ranking@[j].1 > 0,
            forall|j: int|
                0 <= j < k && counts@[j] > 0 ==> exists|i: int|
                    0 <= i < ranking@.len() && (#[trigger] ranking@[i]).0 == all_states_seq()[j],
        decreases 10 - k,
    {
        if counts[k] > 0 {
            let e = (states[k], counts[k]);
            let ghost old_r = ranking@;
            proof {
                assert(state_position(states@[k as int]) == k);
            }
            insert_ranked(&mut ranking, e);
            proof {
                let q = choose|q: int| 0 <= q <= old_r.len() && ranking@ == old_r.insert(q, e);
                assert(ranking@[q] == e);
                assert forall|j: int| 0 <= j < k + 1 && counts@[j] > 0 implies exists|i: int|
                    0 <= i < ranking@.len() && (#[trigger] ranking@[i]).0 == all_states_seq()[j] by {
                    if j == k {
                        assert(ranking@[q].0 == all_states_seq()[j]);
                    } else {
                        let i0 = choose|i: int| 0 <= i < old_r.len() && (#[trigger] old_r[i]).0 == all_states_seq()[j];
                        if i0 < q {
                            assert(ranking@[i0] == old_r[i0]);
                        } else {
                            assert(ranking@[i0 + 1] == old_r[i0]);
                        }
                    }
                }
                assert forall|j: int| 0 <= j < ranking@.len() implies state_position(
                    #[trigger] ranking@[j].0,
                ) < k + 1 by {
                    if j < q {
                        assert(ranking@[j] == old_r[j]);
                    } else if j > q {
                        assert(ranking@[j] == old_r[j - 1]);
                    }
                }
                assert forall|j: int| 0 <= j < ranking@.len() implies (#[trigger] ranking@[j]).1
                    == state_count(ms, ranking@[j].0) && ranking@[j].1 > 0 by {
                    if j < q {
                        assert(ranking@[j] == old_r[j]);
                    } else if j > q {
                        assert(ranking@[j] == old_r[j - 1]);
                    }
                }
            }
        }
        k = k + 1;
    }
    proof {
        assert forall|st: DocState| #![trigger state_count(ms, st)] state_count(ms, st) > 0 implies exists|i: int|
            0 <= i < ranking@.len() && (#[trigger] ranking@[i]).0 == st by {
            let j = state_position(st);
            assert(all_states_seq()[j] == st);
            assert(counts@[j] > 0);
        }
    }
    let total = docs.len();
    let oldest_number = if total == 0 {
        None
    } else {
        Some(docs[oldest].metadata.number)
    };
    let newest_number = if total == 0 {
        None
    } else {
        Some(docs[newest].metadata.number)
    };
    ProjectStats {
        total,
        counts,
        ranked: ranking,
        oldest: oldest_number,
        newest: newest_number,
        untitled,
    }
}

/// The width of a state's bar in the distribution chart: its share of 40 columns, rounded
/// down, and at least one column.
pub open spec fn bar_width(count: nat, total: nat) -> nat {
    let t = if total == 0 {
        1
    } else {
        total
    };
    let w = count * 40 / t;
    if w == 0 {
        1
    } else {
        w
    }
}

/// The width of the bar of a state with `count` of `total` documents.
pub fn distribution_bar_width(count: usize, total: usize) -> (w: usize)
    requires
        count <= total,
    ensures
        w == bar_width(count as nat, total as nat),
{
    let t: u128 = if total == 0 {
        1
    } else {
        total as u128
    };
    let c: u128 = count as u128;
    assert(c * 40 <= 40 * (usize::MAX as u128)) by (nonlinear_arith)
        requires
            c <= usize::MAX,
    ;
    let w: u128 = c * 40 / t;
    assert(c <= t);
    assert(w <= 40) by (nonlinear_arith)
        requires
            c <= t,
            t >= 1,
            w as int == (c as int) * 40 / (t as int),
    ;
    if w == 0 {
        1
    } else {
        w as usize
    }
}

} // verus!
