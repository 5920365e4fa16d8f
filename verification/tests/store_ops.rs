use tweet_archiver::records::{Tweet, User};
use tweet_archiver::store::Store;

fn tweet(id: u64, author_id: u64, conversation_id: u64, created_at: i64, text: &str) -> Tweet {
    Tweet {
        id,
        author_id,
        conversation_id,
        created_at,
        text: String::from(text),
        referenced_tweets: Vec::new(),
    }
}

fn user(id: u64, name: &str, handle: &str) -> User {
    User { id, name: String::from(name), username: String::from(handle), description: None }
}

fn seeded() -> Store {
    let mut store = Store::new();
    store.insert_user(user(1, "Alice", "alice"));
    store.insert_user(user(2, "Bob", "bob"));
    store.insert_tweet(tweet(11, 1, 40, 300, "newest"));
    store.insert_tweet(tweet(12, 1, 40, 100, "oldest"));
    store.insert_tweet(tweet(13, 2, 41, 200, "middle"));
    store.insert_conversation(40);
    store
}

#[test]
fn insert_tweet_is_idempotent() {
    let mut store = Store::new();
    store.insert_tweet(tweet(11, 1, 40, 300, "one"));
    store.insert_tweet(tweet(11, 1, 40, 300, "one"));
    assert_eq!(store.tweets.len(), 1);
}

#[test]
fn insert_user_dedups_by_id_and_handle() {
    let mut store = Store::new();
    store.insert_user(user(1, "Alice", "alice"));
    store.insert_user(user(1, "Alice Renamed", "alice2"));
    store.insert_user(user(3, "Impostor", "alice"));
    assert_eq!(store.users.len(), 1);
    assert_eq!(store.users[0].name, "Alice");
}

#[test]
fn insert_conversation_and_reference_are_idempotent() {
    let mut store = seeded();
    store.insert_conversation(40);
    assert_eq!(store.conversations.iter().filter(|c| **c == 40).count(), 1);
    let edge = tweet_archiver::utils::TweetReferenceData {
        reference_type: tweet_archiver::records::ReferencedTweetKind::Quoted,
        source_tweet_id: 11,
        reference_tweet_id: 12,
    };
    store.insert_tweet_reference(edge);
    store.insert_tweet_reference(edge);
    assert_eq!(store.tweet_references.len(), 1);
    assert_eq!(store.tweet_reference_by_id(11), Some(edge));
    assert!(store.tweet_reference_by_id(12).is_none());
}

#[test]
fn lookups_find_stored_records() {
    let store = seeded();
    assert!(store.does_tweet_exist(11));
    assert!(!store.does_tweet_exist(99));
    assert!(store.does_conversation_exist(40));
    assert!(!store.does_conversation_exist(99));
    assert_eq!(store.tweet_by_id(13).unwrap().text, "middle");
    assert!(store.tweet_by_id(99).is_none());
    assert_eq!(store.user_by_id(2).unwrap().username, "bob");
    assert_eq!(store.user_by_twitter_handle("alice").unwrap().id, 1);
    assert!(store.user_by_twitter_handle("carol").is_none());
}

#[test]
fn users_tweets_newest_first() {
    let store = seeded();
    let timeline = store.users_tweets("alice");
    assert_eq!(timeline.len(), 2);
    assert_eq!(timeline[0].id, 11);
    assert_eq!(timeline[1].id, 12);
    assert!(store.users_tweets("carol").is_empty());
}

#[test]
fn conversation_oldest_first() {
    let store = seeded();
    let thread = store.conversation(40);
    assert_eq!(thread.len(), 2);
    assert_eq!(thread[0].id, 12);
    assert_eq!(thread[1].id, 11);
    assert!(store.conversation(99).is_empty());
}

#[test]
fn latest_tweet_per_user() {
    let store = seeded();
    assert_eq!(store.latest_tweet_from_user(1).unwrap().id, 11);
    assert!(store.latest_tweet_from_user(9).is_none());
    assert_eq!(store.latest_tweet_from_user_by_twitter_handle("bob").unwrap().id, 13);
    assert!(store.latest_tweet_from_user_by_twitter_handle("carol").is_none());
}

#[test]
fn search_matches_substrings() {
    let store = seeded();
    let hits = store.search_tweets("est");
    assert_eq!(hits.len(), 2);
    assert_eq!(hits[0].id, 11);
    assert_eq!(hits[1].id, 12);
    let middle = store.search_tweets("dle");
    assert_eq!(middle.len(), 1);
    assert_eq!(middle[0].id, 13);
    assert!(store.search_tweets("absent").is_empty());
    assert_eq!(store.search_tweets("").len(), 3, "empty query matches everything");
}

#[test]
fn listings_return_all_records() {
    let store = seeded();
    assert_eq!(store.tweets().len(), 3);
    assert_eq!(store.users().len(), 2);
}
