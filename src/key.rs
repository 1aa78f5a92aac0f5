use vstd::prelude::*;

verus! {

/// The two independent competitions a player can take part in.
#[derive(Clone, Copy, Debug, PartialEq, Eq, Structural)]
pub enum Competition {
    /// Scored by the maximum score reached.
    RankPlay,
    /// Scored by the level (kill count) reached.
    MatchPlay,
}

/// The locale partition of a competition: "zh", or one shared fallback.
#[derive(Clone, Copy, Debug, PartialEq, Eq, Structural)]
pub enum Locale {
    Primary,
    Other,
}

/// One of the four ordered sets of the store.
#[derive(Clone, Copy, Debug, PartialEq, Eq, Structural)]
pub enum StoreKey {
    Rank,
    RankEn,
    MatchKill,
    MatchKillEn,
}

pub open spec fn locale_spec(lang: Seq<char>) -> Locale {
    if lang == seq!['z', 'h'] {
        Locale::Primary
    } else {
        Locale::Other
    }
}

/// A list type of 1 names rank play; every other value names match play.
pub open spec fn competition_spec(list_type: u32) -> Competition {
    if list_type == 1 {
        Competition::RankPlay
    } else {
        Competition::MatchPlay
    }
}

pub open spec fn store_key_spec(c: Competition, l: Locale) -> StoreKey {
    match (c, l) {
        (Competition::RankPlay, Locale::Primary) => StoreKey::Rank,
        (Competition::RankPlay, Locale::Other) => StoreKey::RankEn,
        (Competition::MatchPlay, Locale::Primary) => StoreKey::MatchKill,
        (Competition::MatchPlay, Locale::Other) => StoreKey::MatchKillEn,
    }
}

pub open spec fn key_name_spec(k: StoreKey) -> Seq<char> {
    match k {
        StoreKey::Rank => "PoemStarsRank"@,
        StoreKey::RankEn => "PoemStarsEnRank"@,
        StoreKey::MatchKill => "PoemStarsMatchKill"@,
        StoreKey::MatchKillEn => "PoemStarsEnMatchKill"@,
    }
}

impl Locale {
    /// "zh" is the primary locale; any other language string falls back to `Other`.
    pub fn from_lang(lang: &str) -> (r: Locale)
        ensures
            r == locale_spec(lang@),
    {
        let n = lang.unicode_len();
        if n == 2 && lang.get_char(0) == 'z' && lang.get_char(1) == 'h' {
            assert(lang@ =~= seq!['z', 'h']);
            Locale::Primary
        } else {
            Locale::Other
        }
    }
}

impl Competition {
    /// Maps a request's list type to a competition: 1 is rank play, anything else match play.
    pub fn from_list_type(list_type: u32) -> (r: Competition)
        ensures
            r == competition_spec(list_type),
    {
        if list_type == 1 {
            Competition::RankPlay
        } else {
            Competition::MatchPlay
        }
    }
}

/// Resolves a competition and a locale to the ordered set that holds their entries.
pub fn store_key(c: Competition, l: Locale) -> (r: StoreKey)
    ensures
        r == store_key_spec(c, l),
{
    match (c, l) {
        (Competition::RankPlay, Locale::Primary) => StoreKey::Rank,
        (Competition::RankPlay, Locale::Other) => StoreKey::RankEn,
        (Competition::MatchPlay, Locale::Primary) => StoreKey::MatchKill,
        (Competition::MatchPlay, Locale::Other) => StoreKey::MatchKillEn,
    }
}

impl StoreKey {
    /// The name of the ordered set in the backing store.
    pub fn name(&self) -> (r: &'static str)
        ensures
            r@ == key_name_spec(*self),
    {
        match self {
            StoreKey::Rank => "PoemStarsRank",
            StoreKey::RankEn => "PoemStarsEnRank",
            StoreKey::MatchKill => "PoemStarsMatchKill",
            StoreKey::MatchKillEn => "PoemStarsEnMatchKill",
        }
    }
}

/// Key resolution is total and injective: every pair has a key, and distinct
/// pairs never share a key or a store name.
pub proof fn lemma_store_key_injective(c1: Competition, l1: Locale, c2: Competition, l2: Locale)
    ensures
        (store_key_spec(c1, l1) == store_key_spec(c2, l2)) <==> (c1 == c2 && l1 == l2),
        (key_name_spec(store_key_spec(c1, l1)) == key_name_spec(store_key_spec(c2, l2))) <==> (
        c1 == c2 && l1 == l2),
{
    reveal_strlit("PoemStarsRank");
    reveal_strlit("PoemStarsEnRank");
    reveal_strlit("PoemStarsMatchKill");
    reveal_strlit("PoemStarsEnMatchKill");
    let k1 = store_key_spec(c1, l1);
    let k2 = store_key_spec(c2, l2);
    if k1 != k2 {
        assert(key_name_spec(k1).len() != key_name_spec(k2).len());
    }
}

} // verus!
