use tweet_archiver::engine::{Engine, IntegrityGap};
use tweet_archiver::origin::{Origin, OriginCall};
use tweet_archiver::records::{ReferencedTweet, ReferencedTweetKind, Tweet, User};

fn tweet(id: u64, author_id: u64, conversation_id: u64, created_at: i64, text: &str) -> Tweet {
    Tweet {
        id,
        author_id,
        conversation_id,
        created_at,
        text: String::from(text),
        referenced_tweets: Vec::new(),
    }
}

fn tweet_with_refs(
    id: u64,
    author_id: u64,
    conversation_id: u64,
    created_at: i64,
    refs: Vec<ReferencedTweet>,
) -> Tweet {
    Tweet {
        id,
        author_id,
        conversation_id,
        created_at,
        text: String::from("ref"),
        referenced_tweets: refs,
    }
}

fn user(id: u64, name: &str, handle: &str) -> User {
    User { id, name: String::from(name), username: String::from(handle), description: None }
}

fn alice_origin() -> Origin {
    Origin {
        tweets: vec![
            tweet(11, 1, 11, 100, "first"),
            tweet(12, 1, 12, 200, "second"),
            tweet(13, 1, 13, 300, "third"),
        ],
        users: vec![user(1, "Alice", "alice")],
    }
}

#[test]
fn timeline_scenario_empty_store() {
    let origin = alice_origin();
    let mut engine = Engine::new();
    let timeline = engine
        .load_users_tweets_from_twitter_handle(&origin, "alice")
        .expect("alice exists upstream");
    assert_eq!(timeline.len(), 3);
    assert_eq!(timeline[0].tweet.created_at, 300);
    assert_eq!(timeline[1].tweet.created_at, 200);
    assert_eq!(timeline[2].tweet.created_at, 100);
    assert_eq!(timeline[0].user.twitter_handle, "alice");
    assert_eq!(engine.store.tweets.len(), 3);
    assert_eq!(engine.store.users.len(), 1);
    assert!(engine.store.conversations.contains(&11));
    assert!(engine.store.conversations.contains(&12));
    assert!(engine.store.conversations.contains(&13));
    assert!(engine.calls.contains(&OriginCall::FetchTimeline(String::from("alice"))));
    assert!(!engine.calls.iter().any(|c| matches!(c, OriginCall::FetchTweetsSince(_, _))));
}

#[test]
fn timeline_cache_hit_without_new_tweets() {
    let origin = alice_origin();
    let mut engine = Engine::new();
    let first = engine
        .load_users_tweets_from_twitter_handle(&origin, "alice")
        .expect("alice exists upstream");
    let calls_before = engine.calls.len();
    let second = engine
        .load_users_tweets_from_twitter_handle(&origin, "alice")
        .expect("alice is stored");
    assert_eq!(first, second);
    assert_eq!(engine.store.tweets.len(), 3);
    let new_calls = &engine.calls[calls_before..];
    assert_eq!(new_calls.len(), 1);
    assert_eq!(new_calls[0], OriginCall::HasTweetedSince(String::from("alice"), 300));
}

#[test]
fn timeline_incremental_sync_fetches_only_new() {
    let origin = alice_origin();
    let mut engine = Engine::new();
    engine.load_users_tweets_from_twitter_handle(&origin, "alice").unwrap();
    let mut grown = alice_origin();
    grown.tweets.push(tweet(14, 1, 14, 400, "fourth"));
    let calls_before = engine.calls.len();
    let updated = engine
        .load_users_tweets_from_twitter_handle(&grown, "alice")
        .expect("alice is stored");
    assert_eq!(updated.len(), 4);
    assert_eq!(updated[0].tweet.id, 14);
    assert_eq!(updated[3].tweet.id, 11);
    let new_calls = &engine.calls[calls_before..];
    assert!(new_calls.contains(&OriginCall::HasTweetedSince(String::from("alice"), 300)));
    assert!(new_calls.contains(&OriginCall::FetchTweetsSince(String::from("alice"), 300)));
    assert!(!new_calls.iter().any(|c| matches!(c, OriginCall::FetchTimeline(_))));
}

#[test]
fn timeline_unknown_user_is_none() {
    let origin = alice_origin();
    let mut engine = Engine::new();
    assert!(engine.load_users_tweets_from_twitter_handle(&origin, "bob").is_none());
}

#[test]
fn get_post_idempotent() {
    let origin = alice_origin();
    let mut engine = Engine::new();
    let first = engine.load_tweet_from_id(&origin, 11, 1).expect("tweet 11 exists upstream");
    let calls_after_first = engine.calls.len();
    let second = engine.load_tweet_from_id(&origin, 11, 1).expect("tweet 11 is stored");
    assert_eq!(first, second);
    assert_eq!(engine.calls.len(), calls_after_first, "no second origin fetch");
    assert_eq!(engine.store.tweets.len(), 1);
}

#[test]
fn get_post_absent_is_terminal() {
    let origin = alice_origin();
    let mut engine = Engine::new();
    assert!(engine.load_tweet_from_id(&origin, 99, 1).is_none());
    assert_eq!(engine.store.tweets.len(), 0);
    assert!(engine.calls.contains(&OriginCall::FetchTweet(99)));
}

#[test]
fn duplicate_insert_keeps_one_copy() {
    let origin = alice_origin();
    let mut engine = Engine::new();
    let t = tweet(11, 1, 11, 100, "first");
    engine.store_tweet(&origin, &t);
    engine.store_tweet_with_references(&origin, &t);
    assert_eq!(engine.store.tweets.len(), 1);
    assert_eq!(engine.store.tweets[0].id, 11);
}

#[test]
fn resolution_stores_author_and_conversation() {
    let origin = alice_origin();
    let mut engine = Engine::new();
    engine.store_tweet_with_references(&origin, &tweet(11, 1, 77, 100, "threaded"));
    assert!(engine.store.users.iter().any(|u| u.id == 1));
    assert!(engine.store.conversations.contains(&77));
    assert!(engine.gaps.is_empty());
}

#[test]
fn missing_author_is_logged_as_gap() {
    let origin = Origin { tweets: Vec::new(), users: Vec::new() };
    let mut engine = Engine::new();
    engine.store_tweet_with_references(&origin, &tweet(11, 5, 11, 100, "orphan"));
    assert_eq!(engine.store.tweets.len(), 1);
    assert!(engine.gaps.contains(&IntegrityGap::MissingUser { user_id: 5 }));
}

#[test]
fn absent_reference_is_dropped() {
    let origin = alice_origin();
    let mut engine = Engine::new();
    let a = tweet_with_refs(
        21,
        1,
        21,
        500,
        vec![ReferencedTweet { kind: ReferencedTweetKind::RepliedTo, id: 999 }],
    );
    engine.store_tweet_with_references(&origin, &a);
    assert!(engine.store.tweets.iter().any(|t| t.id == 21), "A is stored");
    assert!(!engine.store.tweets.iter().any(|t| t.id == 999));
    assert!(engine.store.tweet_references.is_empty(), "no edge to the absent tweet");
    assert!(engine.gaps.contains(&IntegrityGap::MissingTweet {
        source_tweet_id: 21,
        referenced_tweet_id: 999,
    }));
}

#[test]
fn reference_chain_is_resolved_recursively() {
    let mut origin = alice_origin();
    origin.tweets.push(tweet_with_refs(
        22,
        1,
        22,
        250,
        vec![ReferencedTweet { kind: ReferencedTweetKind::Quoted, id: 11 }],
    ));
    let a = tweet_with_refs(
        23,
        1,
        23,
        600,
        vec![ReferencedTweet { kind: ReferencedTweetKind::RepliedTo, id: 22 }],
    );
    let mut engine = Engine::new();
    engine.store_tweet_with_references(&origin, &a);
    assert!(engine.store.tweets.iter().any(|t| t.id == 23));
    assert!(engine.store.tweets.iter().any(|t| t.id == 22));
    assert!(engine.store.tweets.iter().any(|t| t.id == 11));
    assert_eq!(engine.store.tweet_references.len(), 2);
    assert!(engine.store.tweet_references.iter().any(|r| r.source_tweet_id == 23
        && r.reference_tweet_id == 22));
    assert!(engine.store.tweet_references.iter().any(|r| r.source_tweet_id == 22
        && r.reference_tweet_id == 11));
}

#[test]
fn reference_cycle_terminates() {
    let mut origin = Origin {
        tweets: Vec::new(),
        users: vec![user(1, "Alice", "alice")],
    };
    origin.tweets.push(tweet_with_refs(
        31,
        1,
        31,
        100,
        vec![ReferencedTweet { kind: ReferencedTweetKind::RepliedTo, id: 32 }],
    ));
    origin.tweets.push(tweet_with_refs(
        32,
        1,
        32,
        200,
        vec![ReferencedTweet { kind: ReferencedTweetKind::RepliedTo, id: 31 }],
    ));
    let mut engine = Engine::new();
    let root = origin.tweets[0].clone();
    engine.store_tweet_with_references(&origin, &root);
    assert!(engine.store.tweets.iter().any(|t| t.id == 31));
    assert!(engine.store.tweets.iter().any(|t| t.id == 32));
    assert!(engine.store.tweet_references.iter().any(|r| r.source_tweet_id == 31
        && r.reference_tweet_id == 32));
    assert!(engine.store.tweet_references.iter().any(|r| r.source_tweet_id == 32
        && r.reference_tweet_id == 31));
}

#[test]
fn conversation_threshold_two_or_more_is_cache_hit() {
    let mut origin = alice_origin();
    origin.tweets.push(tweet(41, 1, 40, 100, "root"));
    origin.tweets.push(tweet(42, 1, 40, 200, "reply"));
    let mut engine = Engine::new();
    engine.store_tweet_with_references(&origin, &tweet(41, 1, 40, 100, "root"));
    engine.store_tweet_with_references(&origin, &tweet(42, 1, 40, 200, "reply"));
    let calls_before = engine.calls.len();
    let conversation = engine.load_conversation_from_tweet_id(&origin, 40);
    assert_eq!(conversation.len(), 2);
    assert_eq!(conversation[0].tweet.id, 41, "oldest first");
    assert_eq!(conversation[1].tweet.id, 42);
    let new_calls = &engine.calls[calls_before..];
    assert!(!new_calls.iter().any(|c| matches!(c, OriginCall::FetchConversation(_))));
}

#[test]
fn conversation_threshold_single_tweet_triggers_fetch() {
    let mut origin = alice_origin();
    origin.tweets.push(tweet(41, 1, 40, 100, "root"));
    origin.tweets.push(tweet(42, 1, 40, 200, "reply"));
    let mut engine = Engine::new();
    engine.store_tweet_with_references(&origin, &tweet(41, 1, 40, 100, "root"));
    let conversation = engine.load_conversation_from_tweet_id(&origin, 40);
    assert_eq!(conversation.len(), 2);
    assert!(engine.calls.contains(&OriginCall::FetchConversation(40)));
}

#[test]
fn search_is_local_and_exact() {
    let origin = alice_origin();
    let mut engine = Engine::new();
    engine.load_users_tweets_from_twitter_handle(&origin, "alice").unwrap();
    let calls_before = engine.calls.len();
    let hits = engine.search_tweets_in_db(&origin, "second");
    assert_eq!(hits.len(), 1);
    assert_eq!(hits[0].tweet.id, 12);
    assert_eq!(engine.calls.len(), calls_before, "search never reaches the origin");
    let no_hits = engine.search_tweets_in_db(&origin, "missing");
    assert!(no_hits.is_empty());
}

#[test]
fn has_new_tweets_answers_from_origin() {
    let origin = alice_origin();
    let mut engine = Engine::new();
    engine.load_users_tweets_from_twitter_handle(&origin, "alice").unwrap();
    assert!(!engine.has_new_tweets(&origin, "alice"));
    let mut grown = alice_origin();
    grown.tweets.push(tweet(14, 1, 14, 400, "fourth"));
    assert!(engine.has_new_tweets(&grown, "alice"));
    let fresh = engine.load_users_new_tweets(&grown, "alice");
    assert_eq!(fresh.len(), 1);
    assert_eq!(fresh[0].id, 14);
}

#[test]
fn seed_conversations_fetches_each() {
    let mut origin = alice_origin();
    origin.tweets.push(tweet(42, 1, 11, 150, "reply to first"));
    let mut engine = Engine::new();
    let timeline = engine.load_users_tweets_from_twitter_handle(&origin, "alice").unwrap();
    engine.seed_conversation_from_tweets(&origin, &timeline);
    assert!(engine.calls.contains(&OriginCall::FetchConversation(11)));
    assert!(engine.calls.contains(&OriginCall::FetchConversation(12)));
    assert!(engine.calls.contains(&OriginCall::FetchConversation(13)));
    assert!(engine.store.tweets.iter().any(|t| t.id == 42));
}

#[test]
fn tweet_data_pairs_author() {
    let origin = alice_origin();
    let mut engine = Engine::new();
    let td = engine
        .tweet_data_from_tweet(&origin, tweet(11, 1, 11, 100, "first"))
        .expect("author available upstream");
    assert_eq!(td.user.name, "Alice");
    assert_eq!(td.user.twitter_handle, "alice");
    let orphan = engine.tweet_data_from_tweet(&origin, tweet(50, 9, 50, 100, "orphan"));
    assert!(orphan.is_none());
}

#[test]
fn vec_tweet_data_drops_unresolvable_authors() {
    let origin = alice_origin();
    let mut engine = Engine::new();
    let tweets = vec![tweet(11, 1, 11, 100, "ok"), tweet(50, 9, 50, 150, "orphan")];
    let paired = engine.vec_tweet_data_from_vec_tweet(&origin, tweets);
    assert_eq!(paired.len(), 1);
    assert_eq!(paired[0].tweet.id, 11);
}

#[test]
fn renamed_user_archives_but_lists_nothing() {
    // The origin serves a stored identifier under a new handle. The
    // stored user is neither duplicated nor rewritten, the user's origin
    // tweets are still archived, and the timeline under the new handle
    // lists nothing, since no stored user carries it.
    let origin = alice_origin();
    let mut engine = Engine::new();
    engine.load_users_tweets_from_twitter_handle(&origin, "alice").unwrap();
    let mut renamed = alice_origin();
    renamed.users[0].username = String::from("alicia");
    renamed.tweets.push(tweet(14, 1, 14, 400, "fourth"));
    let timeline = engine
        .load_users_tweets_from_twitter_handle(&renamed, "alicia")
        .expect("the origin knows the handle");
    assert!(timeline.is_empty());
    assert_eq!(engine.store.users.len(), 1);
    assert_eq!(engine.store.users[0].username, "alice");
    assert!(engine.store.tweets.iter().any(|t| t.id == 14), "the new tweet is archived");
}

#[test]
fn store_user_is_idempotent() {
    let mut engine = Engine::new();
    engine.store_user(user(1, "Alice", "alice"));
    engine.store_user(user(1, "Alice", "alice"));
    assert_eq!(engine.store.users.len(), 1);
}

#[test]
fn load_user_is_cached() {
    let origin = alice_origin();
    let mut engine = Engine::new();
    let fetched = engine.load_user_from_id(&origin, 1).expect("alice upstream");
    assert_eq!(fetched.username, "alice");
    let calls_before = engine.calls.len();
    let cached = engine.load_user_from_twitter_handle(&origin, "alice").expect("alice stored");
    assert_eq!(cached.id, 1);
    assert_eq!(engine.calls.len(), calls_before);
    assert_eq!(engine.store.users.len(), 1);
}
