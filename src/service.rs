use vstd::prelude::*;
use crate::board::{
    EntryView, Leaderboard, after_set, entries_view, has_player, position, score_of, top,
};
use crate::key::{
    Competition, Locale, StoreKey, competition_spec, locale_spec, store_key, store_key_spec,
};
use crate::policy::{narrow_position, one_based_rank, score_or_zero};

verus! {

/// How many entries a leaderboard query returns at most.
pub const TOP_LIMIT: usize = 100;

/// A rank-play result: the best score reached.
pub struct RankPlayEndReqInfo {
    pub id: String,
    pub max_score: u32,
}

/// A match-play result: the level (kill count) reached.
pub struct MatchPlayEndReqInfo {
    pub id: String,
    pub level: u32,
}

/// A leaderboard query; a list type of 1 is rank play, any other match play.
pub struct RankListReqInfo {
    pub id: String,
    pub list_type: u32,
}

pub struct RankPlayEndResInfo {
    pub my_rank: u32,
}

pub struct MatchPlayEndResInfo {
    pub my_rank: u32,
}

pub struct RankListResInfo {
    pub my_rank: u32,
    pub score_value: u32,
    pub list_data: Vec<(String, u32)>,
}

/// A player's standing: 1-based rank and score, both 0 when absent.
pub struct RankResult {
    pub rank: u32,
    pub score: u32,
}

/// The rank reported for a player: its 1-based position, or 0 when it has no
/// entry or the rank does not fit in a `u32`.
pub open spec fn reported_rank(b: Seq<EntryView>, id: Seq<char>) -> u32 {
    if has_player(b, id) && position(b, id) < u32::MAX {
        (position(b, id) + 1) as u32
    } else {
        0
    }
}

/// The four ordered sets, one per competition and locale.
pub struct RankingStore {
    rank: Leaderboard,
    rank_en: Leaderboard,
    match_kill: Leaderboard,
    match_kill_en: Leaderboard,
}

/// `after` is `before` with `id`'s score set to `score` under `k`, and every
/// other ordered set untouched.
pub open spec fn submitted(
    before: RankingStore,
    after: RankingStore,
    k: StoreKey,
    id: Seq<char>,
    score: u32,
) -> bool {
    &&& after.wf()
    &&& after.board(k) == after_set(before.board(k), id, score)
    &&& forall|k2: StoreKey| k2 != k ==> #[trigger] after.board(k2) == before.board(k2)
}

impl RankingStore {
    pub closed spec fn board(&self, k: StoreKey) -> Seq<EntryView> {
        match k {
            StoreKey::Rank => self.rank@,
            StoreKey::RankEn => self.rank_en@,
            StoreKey::MatchKill => self.match_kill@,
            StoreKey::MatchKillEn => self.match_kill_en@,
        }
    }

    pub closed spec fn wf(&self) -> bool {
        &&& self.rank.wf()
        &&& self.rank_en.wf()
        &&& self.match_kill.wf()
        &&& self.match_kill_en.wf()
    }

    pub proof fn lemma_wf_boards(&self)
        requires
            self.wf(),
        ensures
            forall|k: StoreKey| crate::board::well_formed(#[trigger] self.board(k)),
    {
    }

    pub fn new() -> (r: RankingStore)
        ensures
            r.wf(),
            forall|k: StoreKey| #[trigger] r.board(k) == Seq::<EntryView>::empty(),
    {
        RankingStore {
            rank: Leaderboard::new(),
            rank_en: Leaderboard::new(),
            match_kill: Leaderboard::new(),
            match_kill_en: Leaderboard::new(),
        }
    }

    fn leaderboard(&self, k: StoreKey) -> (r: &Leaderboard)
        requires
            self.wf(),
        ensures
            r@ == self.board(k),
            r.wf(),
    {
        match k {
            StoreKey::Rank => &self.rank,
            StoreKey::RankEn => &self.rank_en,
            StoreKey::MatchKill => &self.match_kill,
            StoreKey::MatchKillEn => &self.match_kill_en,
        }
    }

    /// Sets the player's score under `key`, replacing any earlier value, and
    /// returns the player's new 1-based rank.
    pub fn submit(&mut self, key: StoreKey, id: &String, score: u32) -> (r: u32)
        requires
            old(self).wf(),
        ensures
            submitted(*old(self), *final(self), key, id@, score),
            r == reported_rank(final(self).board(key), id@),
    {
        let p = match key {
            StoreKey::Rank => self.rank.set_score(id, score),
            StoreKey::RankEn => self.rank_en.set_score(id, score),
            StoreKey::MatchKill => self.match_kill.set_score(id, score),
            StoreKey::MatchKillEn => self.match_kill_en.set_score(id, score),
        };
        one_based_rank(narrow_position(Some(p)))
    }

    /// The player's current rank and score under `key`; zeros when absent.
    pub fn query_rank(&self, key: StoreKey, id: &String) -> (r: RankResult)
        requires
            self.wf(),
        ensures
            r.rank == reported_rank(self.board(key), id@),
            r.score == score_of(self.board(key), id@),
    {
        let b = self.leaderboard(key);
        let rank = one_based_rank(narrow_position(b.rev_rank(id)));
        let score = score_or_zero(b.score(id));
        RankResult { rank, score }
    }

    /// The first `limit` entries under `key`, highest score first.
    pub fn query_top(&self, key: StoreKey, limit: usize) -> (r: Vec<(String, u32)>)
        requires
            self.wf(),
        ensures
            entries_view(r@) == top(self.board(key), limit as nat),
    {
        self.leaderboard(key).rev_range_with_scores(limit)
    }
}

/// Records a rank-play result under the request's locale.
pub fn handle_rankplay_end(lang: &str, store: &mut RankingStore, info: &RankPlayEndReqInfo) -> (r:
    RankPlayEndResInfo)
    requires
        old(store).wf(),
    ensures
        submitted(
            *old(store),
            *final(store),
            store_key_spec(Competition::RankPlay, locale_spec(lang@)),
            info.id@,
            info.max_score,
        ),
        r.my_rank == reported_rank(
            final(store).board(store_key_spec(Competition::RankPlay, locale_spec(lang@))),
            info.id@,
        ),
{
    let key = store_key(Competition::RankPlay, Locale::from_lang(lang));
    let my_rank = store.submit(key, &info.id, info.max_score);
    RankPlayEndResInfo { my_rank }
}

/// Records a match-play result under the request's locale, the level as score.
pub fn handle_matchplay_end(lang: &str, store: &mut RankingStore, info: &MatchPlayEndReqInfo) -> (r:
    MatchPlayEndResInfo)
    requires
        old(store).wf(),
    ensures
        submitted(
            *old(store),
            *final(store),
            store_key_spec(Competition::MatchPlay, locale_spec(lang@)),
            info.id@,
            info.level,
        ),
        r.my_rank == reported_rank(
            final(store).board(store_key_spec(Competition::MatchPlay, locale_spec(lang@))),
            info.id@,
        ),
{
    let key = store_key(Competition::MatchPlay, Locale::from_lang(lang));
    let my_rank = store.submit(key, &info.id, info.level);
    MatchPlayEndResInfo { my_rank }
}

/// The player's standing and the top of the list that the request names.
pub fn handle_ranklist(lang: &str, store: &RankingStore, info: &RankListReqInfo) -> (r:
    RankListResInfo)
    requires
        store.wf(),
    ensures
        r.my_rank == reported_rank(
            store.board(store_key_spec(competition_spec(info.list_type), locale_spec(lang@))),
            info.id@,
        ),
        r.score_value == score_of(
            store.board(store_key_spec(competition_spec(info.list_type), locale_spec(lang@))),
            info.id@,
        ),
        entries_view(r.list_data@) == top(
            store.board(store_key_spec(competition_spec(info.list_type), locale_spec(lang@))),
            TOP_LIMIT as nat,
        ),
{
    let key = store_key(Competition::from_list_type(info.list_type), Locale::from_lang(lang));
    let standing = store.query_rank(key, &info.id);
    let list_data = store.query_top(key, TOP_LIMIT);
    RankListResInfo { my_rank: standing.rank, score_value: standing.score, list_data }
}

} // verus!
