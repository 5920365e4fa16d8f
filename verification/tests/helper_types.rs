use tweet_archiver::records::{ReferencedTweet, ReferencedTweetKind, Tweet, User};
use tweet_archiver::text::{contains_substr, str_eq};
use tweet_archiver::utils::{SelectList, TweetData, TweetReferenceData};

fn tweet(id: u64, created_at: i64, text: &str) -> Tweet {
    Tweet {
        id,
        author_id: 1,
        conversation_id: id,
        created_at,
        text: String::from(text),
        referenced_tweets: Vec::new(),
    }
}

#[test]
fn select_list_add_discards_forward_history() {
    let mut list: SelectList<u32> = SelectList::new(1);
    list.add(2);
    list.add(3);
    list.previous();
    assert_eq!(list.selected, 2);
    list.add(4);
    assert_eq!(list.selected, 4);
    assert!(list.next.is_empty());
    assert_eq!(list.previous, vec![1, 2]);
}

#[test]
fn select_list_navigates_back_and_forward() {
    let mut list: SelectList<u32> = SelectList::new(1);
    list.add(2);
    list.add(3);
    list.previous();
    list.previous();
    assert_eq!(list.selected, 1);
    assert_eq!(list.next, vec![2, 3]);
    list.previous();
    assert_eq!(list.selected, 1, "nothing behind the first item");
    list.forward();
    assert_eq!(list.selected, 2);
    list.forward();
    assert_eq!(list.selected, 3);
    list.forward();
    assert_eq!(list.selected, 3, "nothing in front of the last item");
    assert_eq!(list.previous, vec![1, 2]);
}

#[test]
fn select_list_duplicate_module_behaves_alike() {
    let mut list: tweet_archiver::util::SelectList<u32> =
        tweet_archiver::util::SelectList::new(7);
    list.add(8);
    list.previous();
    assert_eq!(list.selected, 7);
    list.forward();
    assert_eq!(list.selected, 8);
}

#[test]
fn reference_kind_names_round_trip() {
    let edge = TweetReferenceData {
        reference_type: ReferencedTweetKind::RepliedTo,
        source_tweet_id: 1,
        reference_tweet_id: 2,
    };
    assert_eq!(edge.type_to_string(), "replied_to");
    let retweet = TweetReferenceData { reference_type: ReferencedTweetKind::Retweeted, ..edge };
    assert_eq!(retweet.type_to_string(), "retweeted");
    let quote = TweetReferenceData { reference_type: ReferencedTweetKind::Quoted, ..edge };
    assert_eq!(quote.type_to_string(), "quoted");
    assert_eq!(
        TweetReferenceData::kind_from_string("replied_to"),
        Some(ReferencedTweetKind::RepliedTo)
    );
    assert_eq!(
        TweetReferenceData::kind_from_string("retweeted"),
        Some(ReferencedTweetKind::Retweeted)
    );
    assert_eq!(TweetReferenceData::kind_from_string("quoted"), Some(ReferencedTweetKind::Quoted));
    assert_eq!(TweetReferenceData::kind_from_string("liked"), None);
}

#[test]
fn reference_data_from_referenced_tweet() {
    let reference = ReferencedTweet { kind: ReferencedTweetKind::Quoted, id: 42 };
    let edge = TweetReferenceData::from_referenced_tweet(7, &reference);
    assert_eq!(edge.source_tweet_id, 7);
    assert_eq!(edge.reference_tweet_id, 42);
    assert_eq!(edge.reference_type, ReferencedTweetKind::Quoted);
    assert_eq!(edge.clone(), edge);
}

#[test]
fn tweet_data_pairs_user_display_data() {
    let author = User {
        id: 1,
        name: String::from("Alice"),
        username: String::from("alice"),
        description: Some(String::from("archivist")),
    };
    let data = TweetData::new(&author, tweet(11, 100, "hello"));
    assert_eq!(data.user.name, "Alice");
    assert_eq!(data.user.twitter_handle, "alice");
    assert_eq!(data.tweet.id, 11);
    let many = TweetData::from_vec_tweet(&author, vec![tweet(11, 100, "a"), tweet(12, 200, "b")]);
    assert_eq!(many.len(), 2);
    assert_eq!(many[0].tweet.id, 11);
    assert_eq!(many[1].tweet.id, 12);
    assert_eq!(many[1].user.twitter_handle, "alice");
}

#[test]
fn string_helpers() {
    assert!(str_eq("alice", "alice"));
    assert!(!str_eq("alice", "alicia"));
    assert!(!str_eq("alice", "Alice"));
    assert!(contains_substr("a needle in a haystack", "needle"));
    assert!(contains_substr("needle", "needle"));
    assert!(contains_substr("anything", ""));
    assert!(!contains_substr("", "needle"));
    assert!(!contains_substr("haystack", "needle"));
}
