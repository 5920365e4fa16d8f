//! The remote origin, as the engine sees it: a catalogue of the tweets and
//! users the origin currently serves, and the six read operations the
//! engine may issue against it. The transport that actually reaches the
//! origin lives outside the library; it hands the engine the decoded
//! catalogue and carries out the calls the engine records.

use vstd::prelude::*;

use crate::records::{Tweet, TweetView, User, UserView};
use crate::store::{
    by_author, by_conversation, distinct_tweet_ids, distinct_users, tweet_id_set, tweet_in,
    tweet_views, user_in, user_in_by_handle, user_views,
};
use crate::text::str_eq;

verus! {

/// One read issued against the remote origin. The engine records every
/// origin call it makes, in order.
#[derive(Debug, PartialEq)]
pub enum OriginCall {
    FetchTweet(u64),
    FetchConversation(u64),
    FetchUserById(u64),
    FetchUserByHandle(String),
    FetchTimeline(String),
    HasTweetedSince(String, i64),
    FetchTweetsSince(String, i64),
}

/// The mathematical value of an [`OriginCall`].
pub enum OriginCallView {
    FetchTweet(u64),
    FetchConversation(u64),
    FetchUserById(u64),
    FetchUserByHandle(Seq<char>),
    FetchTimeline(Seq<char>),
    HasTweetedSince(Seq<char>, i64),
    FetchTweetsSince(Seq<char>, i64),
}

impl View for OriginCall {
    type V = OriginCallView;

    open spec fn view(&self) -> OriginCallView {
        match self {
            OriginCall::FetchTweet(id) => OriginCallView::FetchTweet(*id),
            OriginCall::FetchConversation(id) => OriginCallView::FetchConversation(*id),
            OriginCall::FetchUserById(id) => OriginCallView::FetchUserById(*id),
            OriginCall::FetchUserByHandle(h) => OriginCallView::FetchUserByHandle(h@),
            OriginCall::FetchTimeline(h) => OriginCallView::FetchTimeline(h@),
            OriginCall::HasTweetedSince(h, ts) => OriginCallView::HasTweetedSince(h@, *ts),
            OriginCall::FetchTweetsSince(h, ts) => OriginCallView::FetchTweetsSince(h@, *ts),
        }
    }
}

/// The tweets authored by `author_id` and created strictly after `since`.
pub open spec fn by_author_since(author_id: u64, since: i64) -> spec_fn(TweetView) -> bool {
    |t: TweetView| t.author_id == author_id && t.created_at > since
}

/// What the remote origin holds: its tweets and its users, each keyed by
/// identifier, users also by handle. A tweet or user absent from the
/// catalogue is absent from the origin — deleted or never created.
#[derive(Debug)]
pub struct Origin {
    pub tweets: Vec<Tweet>,
    pub users: Vec<User>,
}

impl Origin {
    /// The origin's tweets, as mathematical values.
    pub open spec fn tweets_v(self) -> Seq<TweetView> {
        tweet_views(self.tweets@)
    }

    /// The origin's users, as mathematical values.
    pub open spec fn users_v(self) -> Seq<UserView> {
        user_views(self.users@)
    }

    /// Identifiers are unique among the origin's tweets, and identifiers
    /// and handles are unique among its users.
    pub open spec fn wf(self) -> bool {
        &&& distinct_tweet_ids(self.tweets_v())
        &&& distinct_users(self.users_v())
    }

    /// The set of identifiers of the origin's tweets.
    pub open spec fn tweet_ids(self) -> Set<u64> {
        tweet_id_set(self.tweets_v())
    }

    /// Whether the origin serves a tweet with identifier `id`.
    pub open spec fn has_tweet(self, id: u64) -> bool {
        exists|i: int| 0 <= i < self.tweets_v().len() && self.tweets_v()[i].id == id
    }

    /// The tweet the origin serves under identifier `id`.
    pub open spec fn tweet_view(self, id: u64) -> TweetView {
        tweet_in(self.tweets_v(), id)
    }

    /// Whether the origin serves a user with identifier `id`.
    pub open spec fn has_user(self, id: u64) -> bool {
        exists|i: int| 0 <= i < self.users_v().len() && self.users_v()[i].id == id
    }

    /// The user the origin serves under identifier `id`.
    pub open spec fn user_view(self, id: u64) -> UserView {
        user_in(self.users_v(), id)
    }

    /// Whether the origin serves a user with handle `handle`.
    pub open spec fn has_user_handle(self, handle: Seq<char>) -> bool {
        exists|i: int| 0 <= i < self.users_v().len() && self.users_v()[i].username == handle
    }

    /// The user the origin serves under handle `handle`.
    pub open spec fn user_view_by_handle(self, handle: Seq<char>) -> UserView {
        user_in_by_handle(self.users_v(), handle)
    }

    /// Whether the user with handle `handle` has a tweet created strictly
    /// after `since`.
    pub open spec fn spec_has_tweeted_since(self, handle: Seq<char>, since: i64) -> bool {
        self.has_user_handle(handle) && exists|i: int|
            0 <= i < self.tweets_v().len() && self.tweets_v()[i].author_id
                == self.user_view_by_handle(handle).id && self.tweets_v()[i].created_at > since
    }

    /// An empty origin.
    pub fn new() -> (r: Origin)
        ensures
            r.wf(),
            r.tweets_v().len() == 0,
            r.users_v().len() == 0,
    {
        Origin { tweets: Vec::new(), users: Vec::new() }
    }

    /// The tweet the origin serves under identifier `id`, or nothing when
    /// the tweet is absent upstream.
    pub fn get_tweet_by_id(&self, id: u64) -> (r: Option<Tweet>)
        requires
            self.wf(),
        ensures
            r is Some <==> self.has_tweet(id),
            r matches Some(t) ==> t@ == self.tweet_view(id) && t@.id == id,
    {
        let mut i: usize = 0;
        while i < self.tweets.len()
            invariant
                self.wf(),
                i <= self.tweets@.len(),
                forall|j: int| 0 <= j < i ==> self.tweets_v()[j].id != id,
            decreases self.tweets@.len() - i,
        {
            if self.tweets[i].id == id {
                proof {
                    assert(self.tweets_v()[i as int].id == id);
                }
                return Some(self.tweets[i].clone());
            }
            i = i + 1;
        }
        None
    }

    /// The user the origin serves under identifier `id`, if any.
    pub fn get_user_by_id(&self, id: u64) -> (r: Option<User>)
        requires
            self.wf(),
        ensures
            r is Some <==> self.has_user(id),
            r matches Some(u) ==> u@ == self.user_view(id) && u@.id == id,
    {
        let mut i: usize = 0;
        while i < self.users.len()
            invariant
                self.wf(),
                i <= self.users@.len(),
                forall|j: int| 0 <= j < i ==> self.users_v()[j].id != id,
            decreases self.users@.len() - i,
        {
            if self.users[i].id == id {
                proof {
                    assert(self.users_v()[i as int].id == id);
                }
                return Some(self.users[i].clone());
            }
            i = i + 1;
        }
        None
    }

    /// The user the origin serves under handle `twitter_handle`, if any.
    pub fn get_user_by_twitter_handle(&self, twitter_handle: &str) -> (r: Option<User>)
        requires
            self.wf(),
        ensures
            r is Some <==> self.has_user_handle(twitter_handle@),
            r matches Some(u) ==> u@ == self.user_view_by_handle(twitter_handle@) && u@.username
                == twitter_handle@,
    {
        let mut i: usize = 0;
        while i < self.users.len()
            invariant
                self.wf(),
                i <= self.users@.len(),
                forall|j: int| 0 <= j < i ==> self.users_v()[j].username != twitter_handle@,
            decreases self.users@.len() - i,
        {
            if str_eq(self.users[i].username.as_str(), twitter_handle) {
                proof {
                    assert(self.users_v()[i as int].username == twitter_handle@);
                }
                return Some(self.users[i].clone());
            }
            i = i + 1;
        }
        None
    }

    /// The full timeline of the user with handle `twitter_handle`: every
    /// tweet of that user the origin serves. Empty when the origin does not
    /// know the handle.
    pub fn get_tweets_from_twitter_handle(&self, twitter_handle: &str) -> (r: Vec<Tweet>)
        requires
            self.wf(),
        ensures
            self.has_user_handle(twitter_handle@) ==> tweet_views(r@) == self.tweets_v().filter(
                by_author(self.user_view_by_handle(twitter_handle@).id),
            ),
            !self.has_user_handle(twitter_handle@) ==> r@.len() == 0,
    {
        let u = match self.get_user_by_twitter_handle(twitter_handle) {
            Some(u) => u,
            None => {
                return Vec::new();
            },
        };
        self.filter_author(u.id)
    }

    /// Every tweet of conversation `id` the origin serves.
    pub fn get_conversation_by_tweet_id(&self, id: u64) -> (r: Vec<Tweet>)
        ensures
            tweet_views(r@) == self.tweets_v().filter(by_conversation(id)),
    {
        let ghost pred = by_conversation(id);
        let mut r: Vec<Tweet> = Vec::new();
        let mut i: usize = 0;
        proof {
            assert(tweet_views(r@) =~= self.tweets_v().take(0).filter(pred));
        }
        while i < self.tweets.len()
            invariant
                i <= self.tweets@.len(),
                pred == by_conversation(id),
                tweet_views(r@) == self.tweets_v().take(i as int).filter(pred),
            decreases self.tweets@.len() - i,
        {
            let ghost prev = tweet_views(r@);
            proof {
                assert(self.tweets_v().take(i + 1) =~= self.tweets_v().take(i as int).push(
                    self.tweets_v()[i as int],
                ));
                self.tweets_v().take(i as int).lemma_filter_push(self.tweets_v()[i as int], pred);
            }
            if self.tweets[i].conversation_id == id {
                r.push(self.tweets[i].clone());
                proof {
                    assert(tweet_views(r@) =~= prev.push(self.tweets_v()[i as int]));
                }
            }
            i = i + 1;
        }
        proof {
            assert(self.tweets_v().take(self.tweets@.len() as int) =~= self.tweets_v());
        }
        r
    }

    /// Whether the user with handle `twitter_handle` has a tweet created
    /// strictly after `since`.
    pub fn find_out_if_user_has_tweeted_since(&self, twitter_handle: &str, since: i64) -> (r:
        bool)
        requires
            self.wf(),
        ensures
            r == self.spec_has_tweeted_since(twitter_handle@, since),
    {
        let u = match self.get_user_by_twitter_handle(twitter_handle) {
            Some(u) => u,
            None => {
                return false;
            },
        };
        let uid = u.id;
        let mut i: usize = 0;
        while i < self.tweets.len()
            invariant
                self.wf(),
                i <= self.tweets@.len(),
                uid == self.user_view_by_handle(twitter_handle@).id,
                self.has_user_handle(twitter_handle@),
                forall|j: int|
                    0 <= j < i ==> !(self.tweets_v()[j].author_id == uid && self.tweets_v()[
                        j
                    ].created_at > since),
            decreases self.tweets@.len() - i,
        {
            if self.tweets[i].author_id == uid && self.tweets[i].created_at > since {
                proof {
                    assert(self.tweets_v()[i as int].author_id == uid && self.tweets_v()[
                        i as int
                    ].created_at > since);
                }
                return true;
            }
            i = i + 1;
        }
        false
    }

    /// The tweets of the user with handle `twitter_handle` created strictly
    /// after `since`. Empty when the origin does not know the handle.
    pub fn get_users_tweets_since(&self, twitter_handle: &str, since: i64) -> (r: Vec<Tweet>)
        requires
            self.wf(),
        ensures
            self.has_user_handle(twitter_handle@) ==> tweet_views(r@) == self.tweets_v().filter(
                by_author_since(self.user_view_by_handle(twitter_handle@).id, since),
            ),
            !self.has_user_handle(twitter_handle@) ==> r@.len() == 0,
    {
        let u = match self.get_user_by_twitter_handle(twitter_handle) {
            Some(u) => u,
            None => {
                return Vec::new();
            },
        };
        let uid = u.id;
        let ghost pred = by_author_since(uid, since);
        let mut r: Vec<Tweet> = Vec::new();
        let mut i: usize = 0;
        proof {
            assert(tweet_views(r@) =~= self.tweets_v().take(0).filter(pred));
        }
        while i < self.tweets.len()
            invariant
                i <= self.tweets@.len(),
                pred == by_author_since(uid, since),
                tweet_views(r@) == self.tweets_v().take(i as int).filter(pred),
            decreases self.tweets@.len() - i,
        {
            let ghost prev = tweet_views(r@);
            proof {
                assert(self.tweets_v().take(i + 1) =~= self.tweets_v().take(i as int).push(
                    self.tweets_v()[i as int],
                ));
                self.tweets_v().take(i as int).lemma_filter_push(self.tweets_v()[i as int], pred);
            }
            if self.tweets[i].author_id == uid && self.tweets[i].created_at > since {
                r.push(self.tweets[i].clone());
                proof {
                    assert(tweet_views(r@) =~= prev.push(self.tweets_v()[i as int]));
                }
            }
            i = i + 1;
        }
        proof {
            assert(self.tweets_v().take(self.tweets@.len() as int) =~= self.tweets_v());
        }
        r
    }

    /// Every tweet of the user with identifier `author_id` the origin
    /// serves, in catalogue order.
    fn filter_author(&self, author_id: u64) -> (r: Vec<Tweet>)
        ensures
            tweet_views(r@) == self.tweets_v().filter(by_author(author_id)),
    {
        let ghost pred = by_author(author_id);
        let mut r: Vec<Tweet> = Vec::new();
        let mut i: usize = 0;
        proof {
            assert(tweet_views(r@) =~= self.tweets_v().take(0).filter(pred));
        }
        while i < self.tweets.len()
            invariant
                i <= self.tweets@.len(),
                pred == by_author(author_id),
                tweet_views(r@) == self.tweets_v().take(i as int).filter(pred),
            decreases self.tweets@.len() - i,
        {
            let ghost prev = tweet_views(r@);
            proof {
                assert(self.tweets_v().take(i + 1) =~= self.tweets_v().take(i as int).push(
                    self.tweets_v()[i as int],
                ));
                self.tweets_v().take(i as int).lemma_filter_push(self.tweets_v()[i as int], pred);
            }
            if self.tweets[i].author_id == author_id {
                r.push(self.tweets[i].clone());
                proof {
                    assert(tweet_views(r@) =~= prev.push(self.tweets_v()[i as int]));
                }
            }
            i = i + 1;
        }
        proof {
            assert(self.tweets_v().take(self.tweets@.len() as int) =~= self.tweets_v());
        }
        r
    }
}

} // verus!
