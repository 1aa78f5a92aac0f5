use vstd::prelude::*;

verus! {

/// A player's entry as the contracts see it: identifier and score.
pub type EntryView = (Seq<char>, u32);

pub open spec fn ids_unique(s: Seq<EntryView>) -> bool {
    forall|i: int, j: int| 0 <= i < s.len() && 0 <= j < s.len() && i != j ==> s[i].0 != s[j].0
}

/// Scores never increase from the front (rank 1) to the back.
pub open spec fn descending(s: Seq<EntryView>) -> bool {
    forall|i: int, j: int| 0 <= i <= j < s.len() ==> s[i].1 >= s[j].1
}

pub open spec fn well_formed(s: Seq<EntryView>) -> bool {
    ids_unique(s) && descending(s)
}

pub open spec fn has_player(s: Seq<EntryView>, id: Seq<char>) -> bool {
    exists|i: int| 0 <= i < s.len() && s[i].0 == id
}

/// The zero-based position of a player's entry (meaningful only when it has one).
pub open spec fn position(s: Seq<EntryView>, id: Seq<char>) -> int {
    choose|i: int| 0 <= i < s.len() && s[i].0 == id
}

/// The entries with the player's own entry taken out.
pub open spec fn without(s: Seq<EntryView>, id: Seq<char>) -> Seq<EntryView> {
    if has_player(s, id) {
        s.remove(position(s, id))
    } else {
        s
    }
}

/// `p` is where a score goes among `o`: after every entry scoring at least as much,
/// before every entry scoring less.
pub open spec fn is_slot(o: Seq<EntryView>, score: u32, p: int) -> bool {
    &&& 0 <= p <= o.len()
    &&& forall|j: int| 0 <= j < p ==> o[j].1 >= score
    &&& forall|j: int| p <= j < o.len() ==> o[j].1 < score
}

pub open spec fn slot(o: Seq<EntryView>, score: u32) -> int {
    choose|p: int| is_slot(o, score, p)
}

/// The entries after the player's score has been set, whatever it was before.
pub open spec fn after_set(s: Seq<EntryView>, id: Seq<char>, score: u32) -> Seq<EntryView> {
    let o = without(s, id);
    o.insert(slot(o, score), (id, score))
}

/// The 1-based rank of a player, 0 when the player has no entry.
pub open spec fn rank_of(s: Seq<EntryView>, id: Seq<char>) -> nat {
    if has_player(s, id) {
        (position(s, id) + 1) as nat
    } else {
        0
    }
}

/// The score of a player, 0 when the player has no entry.
pub open spec fn score_of(s: Seq<EntryView>, id: Seq<char>) -> u32 {
    if has_player(s, id) {
        s[position(s, id)].1
    } else {
        0
    }
}

/// The first `limit` entries, or all of them when there are fewer.
pub open spec fn top(s: Seq<EntryView>, limit: nat) -> Seq<EntryView> {
    if limit < s.len() {
        s.take(limit as int)
    } else {
        s
    }
}

pub open spec fn entry_view(e: (String, u32)) -> EntryView {
    (e.0@, e.1)
}

pub open spec fn entries_view(v: Seq<(String, u32)>) -> Seq<EntryView> {
    v.map_values(|e: (String, u32)| entry_view(e))
}

/// With unique identifiers the position of a player is the one index holding it.
pub proof fn lemma_position_unique(s: Seq<EntryView>, id: Seq<char>, i: int)
    requires
        ids_unique(s),
        0 <= i < s.len(),
        s[i].0 == id,
    ensures
        has_player(s, id),
        position(s, id) == i,
{
    assert(has_player(s, id));
}

/// A sorted sequence has exactly one slot for each score.
pub proof fn lemma_slot_unique(o: Seq<EntryView>, score: u32, p: int)
    requires
        is_slot(o, score, p),
    ensures
        slot(o, score) == p,
{
    let q = slot(o, score);
    assert(is_slot(o, score, q));
    if q < p {
        assert(o[q].1 >= score);
    } else if p < q {
        assert(o[p].1 >= score);
    }
}

/// Taking out one entry keeps the entries well formed.
pub proof fn lemma_remove_well_formed(s: Seq<EntryView>, i: int)
    requires
        well_formed(s),
        0 <= i < s.len(),
    ensures
        well_formed(s.remove(i)),
        forall|j: int| 0 <= j < s.remove(i).len() ==> s.remove(i)[j].0 != s[i].0,
{
    let r = s.remove(i);
    assert forall|a: int, b: int| 0 <= a < r.len() && 0 <= b < r.len() && a != b implies r[a].0
        != r[b].0 by {
        let a2 = if a < i { a } else { a + 1 };
        let b2 = if b < i { b } else { b + 1 };
        assert(r[a] == s[a2] && r[b] == s[b2]);
    }
    assert forall|a: int, b: int| 0 <= a <= b < r.len() implies r[a].1 >= r[b].1 by {
        let a2 = if a < i { a } else { a + 1 };
        let b2 = if b < i { b } else { b + 1 };
        assert(r[a] == s[a2] && r[b] == s[b2]);
    }
    assert forall|j: int| 0 <= j < r.len() implies r[j].0 != s[i].0 by {
        let j2 = if j < i { j } else { j + 1 };
        assert(r[j] == s[j2]);
    }
}

/// `without` keeps the entries well formed and leaves no entry of the player.
pub proof fn lemma_without(s: Seq<EntryView>, id: Seq<char>)
    requires
        well_formed(s),
    ensures
        well_formed(without(s, id)),
        !has_player(without(s, id), id),
{
    if has_player(s, id) {
        let i = position(s, id);
        lemma_remove_well_formed(s, i);
    }
}

/// Inserting a new player at its slot keeps the entries well formed.
pub proof fn lemma_insert_well_formed(o: Seq<EntryView>, id: Seq<char>, score: u32, p: int)
    requires
        well_formed(o),
        !has_player(o, id),
        is_slot(o, score, p),
    ensures
        well_formed(o.insert(p, (id, score))),
{
    let r = o.insert(p, (id, score));
    assert forall|a: int, b: int| 0 <= a < r.len() && 0 <= b < r.len() && a != b implies r[a].0
        != r[b].0 by {
        if a != p && b != p {
            let a2 = if a < p { a } else { a - 1 };
            let b2 = if b < p { b } else { b - 1 };
            assert(r[a] == o[a2] && r[b] == o[b2]);
        } else if a == p {
            let b2 = if b < p { b } else { b - 1 };
            assert(r[b] == o[b2]);
        } else {
            let a2 = if a < p { a } else { a - 1 };
            assert(r[a] == o[a2]);
        }
    }
    assert forall|a: int, b: int| 0 <= a <= b < r.len() implies r[a].1 >= r[b].1 by {
        let a2 = if a < p { a } else { a - 1 };
        let b2 = if b < p { b } else { b - 1 };
        if a != p && b != p {
            assert(r[a] == o[a2] && r[b] == o[b2]);
        } else if a == p && b != p {
            assert(r[b] == o[b2]);
        } else if b == p && a != p {
            assert(r[a] == o[a2]);
        }
    }
}

/// One ordered set of the store: players sorted by descending score.
pub struct Leaderboard {
    entries: Vec<(String, u32)>,
}

impl View for Leaderboard {
    type V = Seq<EntryView>;

    closed spec fn view(&self) -> Seq<EntryView> {
        entries_view(self.entries@)
    }
}

impl Leaderboard {
    pub open spec fn wf(&self) -> bool {
        well_formed(self@)
    }

    pub fn new() -> (r: Leaderboard)
        ensures
            r@ == Seq::<EntryView>::empty(),
            r.wf(),
    {
        let r = Leaderboard { entries: Vec::new() };
        assert(r@ =~= Seq::<EntryView>::empty());
        r
    }

    pub fn len(&self) -> (r: usize)
        ensures
            r == self@.len(),
    {
        self.entries.len()
    }

    /// The zero-based position of the player's entry, counted from the highest score.
    pub fn rev_rank(&self, id: &String) -> (r: Option<usize>)
        requires
            self.wf(),
        ensures
            r is Some <==> has_player(self@, id@),
            match r {
                Some(i) => i < self@.len() && self@[i as int].0 == id@ && position(self@, id@) == i,
                None => true,
            },
    {
        let n = self.entries.len();
        let mut i: usize = 0;
        while i < n
            invariant
                n == self.entries@.len(),
                self@.len() == n,
                self.wf(),
                i <= n,
                forall|j: int| 0 <= j < i ==> self@[j].0 != id@,
            decreases n - i,
        {
            assert(self@[i as int] == entry_view(self.entries@[i as int]));
            if self.entries[i].0 == *id {
                proof {
                    lemma_position_unique(self@, id@, i as int);
                }
                return Some(i);
            }
            i = i + 1;
        }
        None
    }

    /// The player's score, if the player has an entry.
    pub fn score(&self, id: &String) -> (r: Option<u32>)
        requires
            self.wf(),
        ensures
            r == (if has_player(self@, id@) {
                Some(self@[position(self@, id@)].1)
            } else {
                None::<u32>
            }),
    {
        match self.rev_rank(id) {
            Some(i) => {
                assert(self@[i as int] == entry_view(self.entries@[i as int]));
                Some(self.entries[i].1)
            },
            None => None,
        }
    }

    /// Sets the player's score, replacing any earlier one, and keeps the order.
    /// Returns the zero-based position of the new entry.
    pub fn set_score(&mut self, id: &String, score: u32) -> (r: usize)
        requires
            old(self).wf(),
        ensures
            final(self).wf(),
            final(self)@ == after_set(old(self)@, id@, score),
            is_slot(without(old(self)@, id@), score, r as int),
            has_player(final(self)@, id@),
            position(final(self)@, id@) == r,
    {
        let ghost s = self@;
        proof {
            lemma_without(s, id@);
        }
        match self.rev_rank(id) {
            Some(i) => {
                self.entries.remove(i);
                assert(self@ =~= s.remove(i as int));
            },
            None => {},
        }
        let ghost o = self@;
        assert(o == without(s, id@));
        let n = self.entries.len();
        let mut p: usize = 0;
        while p < n && self.entries[p].1 >= score
            invariant
                n == self.entries@.len(),
                self@ == o,
                o.len() == n,
                p <= n,
                forall|j: int| 0 <= j < p ==> o[j].1 >= score,
            decreases n - p,
        {
            assert(o[p as int] == entry_view(self.entries@[p as int]));
            p = p + 1;
        }
        if p < n {
            assert(o[p as int] == entry_view(self.entries@[p as int]));
        }
        assert(is_slot(o, score, p as int));
        proof {
            lemma_slot_unique(o, score, p as int);
            lemma_insert_well_formed(o, id@, score, p as int);
        }
        self.entries.insert(p, (id.clone(), score));
        assert(self@ =~= o.insert(p as int, (id@, score)));
        proof {
            lemma_position_unique(self@, id@, p as int);
        }
        p
    }

    /// The first `limit` entries with their scores, highest first.
    pub fn rev_range_with_scores(&self, limit: usize) -> (r: Vec<(String, u32)>)
        requires
            self.wf(),
        ensures
            entries_view(r@) == top(self@, limit as nat),
    {
        let n = self.entries.len();
        let m = if limit < n { limit } else { n };
        let mut out: Vec<(String, u32)> = Vec::new();
        let mut i: usize = 0;
        while i < m
            invariant
                n == self.entries@.len(),
                m <= n,
                i <= m,
                out@.len() == i,
                entries_view(out@) =~= self@.take(i as int),
            decreases m - i,
        {
            let e = (self.entries[i].0.clone(), self.entries[i].1);
            assert(self@[i as int] == entry_view(self.entries@[i as int]));
            assert(entry_view(e) == self@[i as int]);
            let ghost before = out@;
            out.push(e);
            assert(out@ == before.push(e));
            assert(entries_view(out@)[i as int] == entry_view(e));
            assert(entries_view(out@) =~= self@.take(i as int + 1));
            i = i + 1;
        }
        assert(self@.take(m as int) =~= top(self@, limit as nat));
        out
    }
}

} // verus!
