use poemstars_rank::board::Leaderboard;
use poemstars_rank::hello;
use poemstars_rank::key::{store_key, Competition, Locale, StoreKey};
use poemstars_rank::policy::{
    list_or_empty, narrow_position, one_based_rank, score_or_zero, submitted_rank,
};
use poemstars_rank::service::{
    handle_matchplay_end, handle_rankplay_end, handle_ranklist, MatchPlayEndReqInfo,
    RankListReqInfo, RankPlayEndReqInfo, RankingStore, TOP_LIMIT,
};

fn rank_play(lang: &str, store: &mut RankingStore, id: &str, max_score: u32) -> u32 {
    let info = RankPlayEndReqInfo { id: id.to_string(), max_score };
    handle_rankplay_end(lang, store, &info).my_rank
}

fn match_play(lang: &str, store: &mut RankingStore, id: &str, level: u32) -> u32 {
    let info = MatchPlayEndReqInfo { id: id.to_string(), level };
    handle_matchplay_end(lang, store, &info).my_rank
}

fn list(lang: &str, store: &RankingStore, id: &str, list_type: u32) -> (u32, u32, Vec<(String, u32)>) {
    let info = RankListReqInfo { id: id.to_string(), list_type };
    let r = handle_ranklist(lang, store, &info);
    (r.my_rank, r.score_value, r.list_data)
}

#[test]
fn hello_greets() {
    assert_eq!(hello(), "hello moeif!");
}

#[test]
fn locale_from_lang() {
    assert_eq!(Locale::from_lang("zh"), Locale::Primary);
    assert_eq!(Locale::from_lang("en"), Locale::Other);
    assert_eq!(Locale::from_lang(""), Locale::Other);
    assert_eq!(Locale::from_lang("zh-CN"), Locale::Other);
    assert_eq!(Locale::from_lang("z"), Locale::Other);
    assert_eq!(Locale::from_lang("ZH"), Locale::Other);
}

#[test]
fn competition_from_list_type() {
    assert_eq!(Competition::from_list_type(1), Competition::RankPlay);
    assert_eq!(Competition::from_list_type(2), Competition::MatchPlay);
    assert_eq!(Competition::from_list_type(0), Competition::MatchPlay);
    assert_eq!(Competition::from_list_type(u32::MAX), Competition::MatchPlay);
}

#[test]
fn store_key_is_total_and_injective() {
    let pairs = [
        (Competition::RankPlay, Locale::Primary),
        (Competition::RankPlay, Locale::Other),
        (Competition::MatchPlay, Locale::Primary),
        (Competition::MatchPlay, Locale::Other),
    ];
    let keys: Vec<StoreKey> = pairs.iter().map(|(c, l)| store_key(*c, *l)).collect();
    assert_eq!(
        keys,
        vec![StoreKey::Rank, StoreKey::RankEn, StoreKey::MatchKill, StoreKey::MatchKillEn]
    );
    for i in 0..4 {
        for j in 0..4 {
            assert_eq!(i == j, keys[i] == keys[j]);
            assert_eq!(i == j, keys[i].name() == keys[j].name());
        }
    }
    assert_eq!(StoreKey::Rank.name(), "PoemStarsRank");
    assert_eq!(StoreKey::RankEn.name(), "PoemStarsEnRank");
    assert_eq!(StoreKey::MatchKill.name(), "PoemStarsMatchKill");
    assert_eq!(StoreKey::MatchKillEn.name(), "PoemStarsEnMatchKill");
}

#[test]
fn resubmitting_same_score_keeps_rank() {
    let mut store = RankingStore::new();
    rank_play("zh", &mut store, "x", 300);
    rank_play("zh", &mut store, "y", 300);
    rank_play("zh", &mut store, "z", 100);
    let first = rank_play("zh", &mut store, "a", 300);
    let second = rank_play("zh", &mut store, "a", 300);
    assert_eq!(first, second);
    assert_eq!(first, 3);
}

#[test]
fn increasing_scores_rank_three_two_one() {
    let mut store = RankingStore::new();
    rank_play("en", &mut store, "p1", 10);
    rank_play("en", &mut store, "p2", 20);
    rank_play("en", &mut store, "p3", 30);
    assert_eq!(list("en", &store, "p1", 1).0, 3);
    assert_eq!(list("en", &store, "p2", 1).0, 2);
    assert_eq!(list("en", &store, "p3", 1).0, 1);
}

#[test]
fn absent_player_reads_as_zero() {
    let mut store = RankingStore::new();
    rank_play("zh", &mut store, "someone", 42);
    let (rank, score, _) = list("zh", &store, "nobody", 1);
    assert_eq!(rank, 0);
    assert_eq!(score, 0);
    let standing = store.query_rank(StoreKey::Rank, &"nobody".to_string());
    assert_eq!(standing.rank, 0);
    assert_eq!(standing.score, 0);
}

#[test]
fn top_snapshot_is_bounded_and_sorted() {
    let mut store = RankingStore::new();
    for i in 0..105u32 {
        let id = format!("p{}", i);
        rank_play("zh", &mut store, &id, (i * 7919) % 1000);
    }
    let (_, _, data) = list("zh", &store, "p0", 1);
    assert_eq!(data.len(), TOP_LIMIT);
    for w in data.windows(2) {
        assert!(w[0].1 >= w[1].1);
    }
    for (id, score) in &data {
        let n: u32 = id[1..].parse().unwrap();
        assert!(n < 105);
        assert_eq!(*score, (n * 7919) % 1000);
    }
    let small = store.query_top(StoreKey::RankEn, TOP_LIMIT);
    assert!(small.is_empty());
}

#[test]
fn top_snapshot_shorter_than_limit() {
    let mut store = RankingStore::new();
    match_play("en", &mut store, "a", 3);
    match_play("en", &mut store, "b", 9);
    match_play("en", &mut store, "c", 5);
    let (_, _, data) = list("en", &store, "a", 2);
    assert_eq!(
        data,
        vec![("b".to_string(), 9), ("c".to_string(), 5), ("a".to_string(), 3)]
    );
}

#[test]
fn rank_play_scenario_two_players() {
    let mut store = RankingStore::new();
    assert_eq!(rank_play("zh", &mut store, "A", 500), 1);
    assert_eq!(rank_play("zh", &mut store, "B", 800), 1);
    let (rank, score, data) = list("zh", &store, "A", 1);
    assert_eq!(rank, 2);
    assert_eq!(score, 500);
    assert_eq!(data, vec![("B".to_string(), 800), ("A".to_string(), 500)]);
}

#[test]
fn match_play_query_without_submissions() {
    let mut store = RankingStore::new();
    let (rank, score, data) = list("zh", &store, "A", 2);
    assert_eq!((rank, score), (0, 0));
    assert!(data.is_empty());
    match_play("zh", &mut store, "other", 4);
    rank_play("zh", &mut store, "A", 900);
    let (rank, score, data) = list("zh", &store, "A", 2);
    assert_eq!((rank, score), (0, 0));
    assert_eq!(data, vec![("other".to_string(), 4)]);
}

#[test]
fn locales_are_isolated() {
    let mut store = RankingStore::new();
    rank_play("en", &mut store, "A", 100);
    rank_play("en", &mut store, "B", 50);
    let before = list("en", &store, "B", 1);
    rank_play("zh", &mut store, "B", 1000);
    rank_play("zh", &mut store, "C", 2000);
    let after = list("en", &store, "B", 1);
    assert_eq!(before, after);
    assert_eq!(after.0, 2);
    assert_eq!(list("zh", &store, "B", 1).0, 2);
}

#[test]
fn competitions_are_isolated() {
    let mut store = RankingStore::new();
    rank_play("zh", &mut store, "A", 100);
    assert_eq!(list("zh", &store, "A", 2).0, 0);
    match_play("zh", &mut store, "A", 7);
    assert_eq!(list("zh", &store, "A", 2), (1, 7, vec![("A".to_string(), 7)]));
    assert_eq!(list("zh", &store, "A", 1).1, 100);
}

#[test]
fn lower_submission_replaces_score() {
    let mut store = RankingStore::new();
    rank_play("zh", &mut store, "A", 500);
    rank_play("zh", &mut store, "B", 400);
    assert_eq!(rank_play("zh", &mut store, "A", 300), 2);
    let (rank, score, data) = list("zh", &store, "A", 1);
    assert_eq!((rank, score), (2, 300));
    assert_eq!(data.len(), 2);
}

#[test]
fn equal_scores_get_distinct_ranks() {
    let mut store = RankingStore::new();
    rank_play("zh", &mut store, "A", 10);
    rank_play("zh", &mut store, "B", 10);
    let ra = list("zh", &store, "A", 1).0;
    let rb = list("zh", &store, "B", 1).0;
    let mut ranks = vec![ra, rb];
    ranks.sort();
    assert_eq!(ranks, vec![1, 2]);
}

#[test]
fn leaderboard_primitives() {
    let mut b = Leaderboard::new();
    let a = "a".to_string();
    let c = "c".to_string();
    assert_eq!(b.rev_rank(&a), None);
    assert_eq!(b.score(&a), None);
    assert_eq!(b.set_score(&a, 5), 0);
    assert_eq!(b.set_score(&c, 9), 0);
    assert_eq!(b.rev_rank(&a), Some(1));
    assert_eq!(b.score(&c), Some(9));
    assert_eq!(b.len(), 2);
    assert_eq!(b.rev_range_with_scores(1), vec![("c".to_string(), 9)]);
    assert_eq!(b.rev_range_with_scores(0), vec![]);
}

#[test]
fn fallback_policy() {
    assert_eq!(one_based_rank(Some(0)), 1);
    assert_eq!(one_based_rank(Some(41)), 42);
    assert_eq!(one_based_rank(Some(u32::MAX)), 0);
    assert_eq!(one_based_rank(None), 0);
    assert_eq!(submitted_rank(true, Some(2)), 3);
    assert_eq!(submitted_rank(false, Some(2)), 0);
    assert_eq!(submitted_rank(true, None), 0);
    assert_eq!(score_or_zero(Some(77)), 77);
    assert_eq!(score_or_zero(None), 0);
    assert_eq!(list_or_empty(None), vec![]);
    assert_eq!(
        list_or_empty(Some(vec![("a".to_string(), 1)])),
        vec![("a".to_string(), 1)]
    );
    assert_eq!(narrow_position(Some(7)), Some(7));
    assert_eq!(narrow_position(None), None);
    assert_eq!(narrow_position(Some(u32::MAX as usize)), Some(u32::MAX));
    assert_eq!(narrow_position(Some(u32::MAX as usize + 1)), None);
}
