use tweet_archiver::merge::{add_conversation, add_user, find_conversation, merge_tweets};
use tweet_archiver::records::{Tweet, User};

fn tweet(id: u64, created_at: i64, text: &str) -> Tweet {
    Tweet {
        id,
        author_id: 1,
        conversation_id: id,
        created_at,
        text: String::from(text),
        referenced_tweets: Vec::new(),
    }
}

fn user(id: u64, handle: &str) -> User {
    User {
        id,
        name: String::from(handle),
        username: String::from(handle),
        description: None,
    }
}

#[test]
fn merge_tweets_skips_known_identifiers() {
    let mut existing = vec![tweet(1, 100, "one"), tweet(2, 200, "two")];
    let incoming = vec![tweet(2, 200, "two again"), tweet(3, 300, "three")];
    merge_tweets(&mut existing, &incoming);
    assert_eq!(existing.len(), 3);
    assert_eq!(existing[0].id, 1);
    assert_eq!(existing[1].id, 2);
    assert_eq!(existing[1].text, "two", "the stored copy is never overwritten");
    assert_eq!(existing[2].id, 3);
}

#[test]
fn merge_tweets_keeps_first_occurrence_in_order() {
    let mut existing = vec![tweet(1, 100, "one")];
    let incoming = vec![
        tweet(4, 400, "four"),
        tweet(3, 300, "three"),
        tweet(4, 401, "four again"),
        tweet(1, 100, "one again"),
    ];
    merge_tweets(&mut existing, &incoming);
    assert_eq!(existing.len(), 3);
    assert_eq!(existing[0].id, 1);
    assert_eq!(existing[1].id, 4);
    assert_eq!(existing[1].text, "four", "the first occurrence wins");
    assert_eq!(existing[2].id, 3);
}

#[test]
fn merge_tweets_into_empty_list() {
    let mut existing: Vec<Tweet> = Vec::new();
    merge_tweets(&mut existing, &vec![tweet(5, 10, "five")]);
    assert_eq!(existing.len(), 1);
    assert_eq!(existing[0].id, 5);
}

#[test]
fn add_conversation_files_by_final_tweet() {
    let mut conversations = vec![vec![tweet(1, 100, "a"), tweet(2, 200, "b")]];
    add_conversation(&mut conversations, &vec![tweet(3, 100, "c"), tweet(4, 200, "d")]);
    assert_eq!(conversations.len(), 2);
    add_conversation(&mut conversations, &vec![tweet(9, 90, "other root"), tweet(2, 200, "b")]);
    assert_eq!(conversations.len(), 2, "a conversation ending in tweet 2 is already filed");
}

#[test]
fn find_conversation_by_final_tweet() {
    let conversations = vec![
        vec![tweet(1, 100, "a"), tweet(2, 200, "b")],
        vec![tweet(3, 100, "c")],
    ];
    let found = find_conversation(&conversations, 2).expect("filed under 2");
    assert_eq!(found.len(), 2);
    assert_eq!(found[0].id, 1);
    assert!(find_conversation(&conversations, 1).is_none(), "filed under its final tweet only");
    assert!(find_conversation(&conversations, 9).is_none());
}

#[test]
fn add_user_dedups_by_identifier() {
    let mut users = vec![user(1, "alice")];
    add_user(&mut users, &user(1, "alice_renamed"));
    assert_eq!(users.len(), 1);
    assert_eq!(users[0].username, "alice", "a handle change upstream adds no copy");
    add_user(&mut users, &user(2, "bob"));
    assert_eq!(users.len(), 2);
}
