use vstd::prelude::*;
use crate::board::{
    EntryView, after_set, descending, has_player, is_slot, lemma_insert_well_formed,
    lemma_position_unique, lemma_slot_unique, lemma_without, position, score_of, slot, top,
    well_formed, without,
};
use crate::key::{Competition, Locale, StoreKey, store_key_spec};
use crate::service::{RankingStore, reported_rank, submitted};

verus! {

/// Every score has a slot among entries sorted by descending score.
pub proof fn lemma_slot_exists(o: Seq<EntryView>, score: u32)
    requires
        descending(o),
    ensures
        is_slot(o, score, slot(o, score)),
    decreases o.len(),
{
    if o.len() == 0 {
        assert(is_slot(o, score, 0));
    } else if o.last().1 >= score {
        assert(is_slot(o, score, o.len() as int));
    } else {
        let d = o.drop_last();
        assert(descending(d));
        lemma_slot_exists(d, score);
        let p = slot(d, score);
        assert forall|j: int| 0 <= j < p implies o[j].1 >= score by {
            assert(o[j] == d[j]);
        }
        assert forall|j: int| p <= j < o.len() implies o[j].1 < score by {
            if j < d.len() {
                assert(o[j] == d[j]);
            }
        }
        assert(is_slot(o, score, p));
    }
}

/// Setting a score keeps the entries well formed and puts the player at the
/// slot of its score among the other players.
pub proof fn lemma_after_set(s: Seq<EntryView>, id: Seq<char>, score: u32)
    requires
        well_formed(s),
    ensures
        well_formed(after_set(s, id, score)),
        has_player(after_set(s, id, score), id),
        position(after_set(s, id, score), id) == slot(without(s, id), score),
        without(after_set(s, id, score), id) == without(s, id),
{
    let o = without(s, id);
    lemma_without(s, id);
    lemma_slot_exists(o, score);
    let p = slot(o, score);
    lemma_insert_well_formed(o, id, score, p);
    let t = after_set(s, id, score);
    lemma_position_unique(t, id, p);
    assert(t.remove(p) =~= o);
}

/// Submitting the same score for the same player twice in a row changes
/// nothing the second time, and reports the same rank both times.
pub proof fn lemma_submit_idempotent(s: Seq<EntryView>, id: Seq<char>, score: u32)
    requires
        well_formed(s),
    ensures
        after_set(after_set(s, id, score), id, score) == after_set(s, id, score),
        reported_rank(after_set(after_set(s, id, score), id, score), id) == reported_rank(
            after_set(s, id, score),
            id,
        ),
{
    lemma_after_set(s, id, score);
}

/// The same law on the store: a second identical submission under the same key
/// leaves that ordered set as the first left it and reports the same rank.
pub proof fn lemma_store_submit_idempotent(
    s0: RankingStore,
    s1: RankingStore,
    s2: RankingStore,
    k: StoreKey,
    id: Seq<char>,
    score: u32,
)
    requires
        s0.wf(),
        submitted(s0, s1, k, id, score),
        submitted(s1, s2, k, id, score),
    ensures
        s2.board(k) == s1.board(k),
        reported_rank(s2.board(k), id) == reported_rank(s1.board(k), id),
{
    s0.lemma_wf_boards();
    lemma_submit_idempotent(s0.board(k), id, score);
}

/// Three distinct players submitting increasing scores into an empty ordered
/// set are ranked 3, 2 and 1.
pub proof fn lemma_three_ranks(
    s: Seq<EntryView>,
    a: Seq<char>,
    sa: u32,
    b: Seq<char>,
    sb: u32,
    c: Seq<char>,
    sc: u32,
)
    requires
        s.len() == 0,
        a != b,
        b != c,
        a != c,
        sa < sb < sc,
    ensures
        ({
            let s3 = after_set(after_set(after_set(s, a, sa), b, sb), c, sc);
            &&& reported_rank(s3, a) == 3
            &&& reported_rank(s3, b) == 2
            &&& reported_rank(s3, c) == 1
        }),
{
    let s1 = after_set(s, a, sa);
    assert(!has_player(s, a));
    assert(is_slot(s, sa, 0));
    lemma_slot_unique(s, sa, 0);
    assert(s1 =~= seq![(a, sa)]);
    let s2 = after_set(s1, b, sb);
    assert(!has_player(s1, b));
    assert(is_slot(s1, sb, 0));
    lemma_slot_unique(s1, sb, 0);
    assert(s2 =~= seq![(b, sb), (a, sa)]);
    let s3 = after_set(s2, c, sc);
    assert(!has_player(s2, c));
    assert(is_slot(s2, sc, 0));
    lemma_slot_unique(s2, sc, 0);
    assert(s3 =~= seq![(c, sc), (b, sb), (a, sa)]);
    assert(well_formed(s3));
    lemma_position_unique(s3, c, 0);
    lemma_position_unique(s3, b, 1);
    lemma_position_unique(s3, a, 2);
}

/// A player without an entry is reported with rank 0 and score 0.
pub proof fn lemma_absent_player(s: Seq<EntryView>, id: Seq<char>)
    requires
        !has_player(s, id),
    ensures
        reported_rank(s, id) == 0,
        score_of(s, id) == 0,
{
}

/// A top-N snapshot holds `min(N, entries)` entries, each an entry of the
/// ordered set, sorted by descending score.
pub proof fn lemma_top_snapshot(s: Seq<EntryView>, limit: nat)
    requires
        well_formed(s),
    ensures
        top(s, limit).len() == (if limit < s.len() {
            limit
        } else {
            s.len()
        }),
        forall|i: int|
            0 <= i < top(s, limit).len() ==> has_player(s, #[trigger] top(s, limit)[i].0)
                && score_of(s, top(s, limit)[i].0) == top(s, limit)[i].1,
        descending(top(s, limit)),
{
    let t = top(s, limit);
    assert forall|i: int| 0 <= i < t.len() implies has_player(s, #[trigger] t[i].0) && score_of(
        s,
        t[i].0,
    ) == t[i].1 by {
        assert(t[i] == s[i]);
        lemma_position_unique(s, t[i].0, i);
    }
}

/// Every player in an ordered set after a submission is the submitted one or
/// was there before: entries come from submissions only.
pub proof fn lemma_after_set_players(s: Seq<EntryView>, id: Seq<char>, score: u32, other: Seq<char>)
    requires
        well_formed(s),
        has_player(after_set(s, id, score), other),
    ensures
        other == id || has_player(s, other),
{
    lemma_after_set(s, id, score);
    let o = without(s, id);
    let p = slot(o, score);
    let t = after_set(s, id, score);
    let k = choose|k: int| 0 <= k < t.len() && t[k].0 == other;
    if other != id {
        let k2 = if k < p { k } else { k - 1 };
        assert(t[k] == o[k2]);
        if has_player(s, id) {
            let q = position(s, id);
            let k3 = if k2 < q { k2 } else { k2 + 1 };
            assert(o[k2] == s[k3]);
        } else {
            assert(o[k2] == s[k2]);
        }
    }
}

/// A submission under one locale leaves the other locale's ordered set of every
/// competition as it was, so ranks and scores queried there do not change.
pub proof fn lemma_locale_isolation(
    before: RankingStore,
    after: RankingStore,
    c: Competition,
    l: Locale,
    id: Seq<char>,
    score: u32,
    c2: Competition,
    l2: Locale,
    who: Seq<char>,
)
    requires
        submitted(before, after, store_key_spec(c, l), id, score),
        l2 != l,
    ensures
        after.board(store_key_spec(c2, l2)) == before.board(store_key_spec(c2, l2)),
        reported_rank(after.board(store_key_spec(c2, l2)), who) == reported_rank(
            before.board(store_key_spec(c2, l2)),
            who,
        ),
        score_of(after.board(store_key_spec(c2, l2)), who) == score_of(
            before.board(store_key_spec(c2, l2)),
            who,
        ),
{
    assert(after.board(store_key_spec(c2, l2)) == before.board(store_key_spec(c2, l2)));
}

} // verus!
