//! Helper types around the domain records: the browsing history list, the
//! display pairing of a tweet with its author, and the stored form of a
//! tweet reference.

use vstd::prelude::*;

use crate::records::{ReferencedTweet, ReferencedTweetKind, Tweet, TweetView, User, UserView};
use crate::text::str_eq;

verus! {

/// A selection inside a navigable history: the items behind the selection,
/// the selected item, and the items in front of it.
#[derive(Debug)]
pub struct SelectList<T> {
    pub previous: Vec<T>,
    pub selected: T,
    pub next: Vec<T>,
}

impl<T: Clone> SelectList<T> {
    /// Steps the selection back by one, when something is behind it: the last
    /// item of `previous` becomes selected and the old selection moves to the
    /// front of `next`. With nothing behind it the list is unchanged.
    pub fn previous(&mut self)
        ensures
            old(self).previous@.len() == 0 ==> {
                &&& final(self).selected == old(self).selected
                &&& final(self).previous@ == old(self).previous@
                &&& final(self).next@ == old(self).next@
            },
            old(self).previous@.len() > 0 ==> {
                &&& final(self).selected == old(self).previous@.last()
                &&& final(self).previous@ == old(self).previous@.drop_last()
                &&& final(self).next@ == seq![old(self).selected] + old(self).next@
            },
    {
        if let Some(mut new) = self.previous.pop() {
            core::mem::swap(&mut self.selected, &mut new);
            self.next.insert(0, new);
            proof {
                assert(final(self).next@ =~= seq![old(self).selected] + old(self).next@);
            }
        }
    }

    /// Steps the selection forward by one, when something is in front of it:
    /// the first item of `next` becomes selected and the old selection is
    /// appended to `previous`. With nothing in front the list is unchanged.
    pub fn forward(&mut self)
        ensures
            old(self).next@.len() == 0 ==> {
                &&& final(self).selected == old(self).selected
                &&& final(self).previous@ == old(self).previous@
                &&& final(self).next@ == old(self).next@
            },
            old(self).next@.len() > 0 ==> {
                &&& final(self).selected == old(self).next@[0]
                &&& final(self).next@ == old(self).next@.drop_first()
                &&& final(self).previous@ == old(self).previous@.push(old(self).selected)
            },
    {
        if !self.next.is_empty() {
            let mut new = self.next.remove(0);
            core::mem::swap(&mut self.selected, &mut new);
            self.previous.push(new);
            proof {
                assert(final(self).next@ =~= old(self).next@.drop_first());
            }
        }
    }

    /// Makes `item` the selection: everything in front of the old selection
    /// is discarded and a copy of the old selection is appended to
    /// `previous`.
    pub fn add(&mut self, item: T)
        ensures
            final(self).selected == item,
            final(self).next@.len() == 0,
            final(self).previous@.len() == old(self).previous@.len() + 1,
            final(self).previous@.drop_last() == old(self).previous@,
            vstd::pervasive::cloned(old(self).selected, final(self).previous@.last()),
    {
        self.next.clear();
        self.previous.push(self.selected.clone());
        self.selected = item;
        proof {
            assert(final(self).previous@.drop_last() =~= old(self).previous@);
        }
    }

    /// A history holding only `item`, with nothing behind or in front of it.
    pub fn new(item: T) -> (r: SelectList<T>)
        ensures
            r.previous@.len() == 0,
            r.selected == item,
            r.next@.len() == 0,
    {
        SelectList { previous: Vec::<T>::new(), selected: item, next: Vec::<T>::new() }
    }
}

/// The part of a stored user that the display layer shows beside a tweet.
#[derive(Debug, PartialEq)]
pub struct UserData {
    pub twitter_handle: String,
    pub name: String,
}

/// The mathematical value of a [`UserData`].
pub struct UserDataView {
    pub twitter_handle: Seq<char>,
    pub name: Seq<char>,
}

impl View for UserData {
    type V = UserDataView;

    open spec fn view(&self) -> UserDataView {
        UserDataView { twitter_handle: self.twitter_handle@, name: self.name@ }
    }
}

impl Clone for UserData {
    fn clone(&self) -> (res: Self)
        ensures
            res@ == self@,
    {
        UserData { twitter_handle: self.twitter_handle.clone(), name: self.name.clone() }
    }
}

/// A tweet paired with the display data of its author.
#[derive(Debug, PartialEq)]
pub struct TweetData {
    pub tweet: Tweet,
    pub user: UserData,
}

/// The mathematical value of a [`TweetData`].
pub struct TweetDataView {
    pub tweet: TweetView,
    pub user: UserDataView,
}

impl View for TweetData {
    type V = TweetDataView;

    open spec fn view(&self) -> TweetDataView {
        TweetDataView { tweet: self.tweet@, user: self.user@ }
    }
}

impl Clone for TweetData {
    fn clone(&self) -> (res: Self)
        ensures
            res@ == self@,
    {
        TweetData { tweet: self.tweet.clone(), user: self.user.clone() }
    }
}

/// The display data a [`TweetData`] carries for the author `u`.
pub open spec fn user_data_of(u: UserView) -> UserDataView {
    UserDataView { twitter_handle: u.username, name: u.name }
}

impl TweetData {
    /// Pairs `tweet` with the display data of `user`.
    pub fn new(user: &User, tweet: Tweet) -> (r: Self)
        ensures
            r@.tweet == tweet@,
            r@.user == user_data_of(user@),
    {
        Self {
            tweet,
            user: UserData {
                twitter_handle: user.username.clone(),
                name: user.name.clone(),
            },
        }
    }

    /// Pairs every tweet of `tweets` with the display data of `user`,
    /// keeping the order.
    pub fn from_vec_tweet(user: &User, tweets: Vec<Tweet>) -> (r: Vec<Self>)
        ensures
            r@.len() == tweets@.len(),
            forall|i: int| 0 <= i < r@.len() ==> #[trigger] r@[i]@.tweet == tweets@[i]@,
            forall|i: int| 0 <= i < r@.len() ==> #[trigger] r@[i]@.user == user_data_of(user@),
    {
        let mut r: Vec<Self> = Vec::new();
        let mut i: usize = 0;
        while i < tweets.len()
            invariant
                i <= tweets@.len(),
                r@.len() == i,
                forall|j: int| 0 <= j < i ==> #[trigger] r@[j]@.tweet == tweets@[j]@,
                forall|j: int| 0 <= j < i ==> #[trigger] r@[j]@.user == user_data_of(user@),
            decreases tweets@.len() - i,
        {
            r.push(Self::new(user, tweets[i].clone()));
            i = i + 1;
        }
        r
    }
}

/// A stored reference edge: the kind of the reference, the tweet that makes
/// it, and the tweet it points to.
#[derive(Clone, Copy, Debug, PartialEq, Eq, Structural)]
pub struct TweetReferenceData {
    pub reference_type: ReferencedTweetKind,
    pub source_tweet_id: u64,
    pub reference_tweet_id: u64,
}

/// The stored textual name of a reference kind.
pub open spec fn kind_name(kind: ReferencedTweetKind) -> Seq<char> {
    match kind {
        ReferencedTweetKind::RepliedTo => "replied_to"@,
        ReferencedTweetKind::Retweeted => "retweeted"@,
        ReferencedTweetKind::Quoted => "quoted"@,
    }
}

/// The reference kind a stored textual name denotes, if any.
pub open spec fn kind_of_name(name: Seq<char>) -> Option<ReferencedTweetKind> {
    if name == "replied_to"@ {
        Some(ReferencedTweetKind::RepliedTo)
    } else if name == "retweeted"@ {
        Some(ReferencedTweetKind::Retweeted)
    } else if name == "quoted"@ {
        Some(ReferencedTweetKind::Quoted)
    } else {
        None
    }
}

impl TweetReferenceData {
    /// The textual name under which the reference kind is stored.
    pub fn type_to_string(&self) -> (r: String)
        ensures
            r@ == kind_name(self.reference_type),
    {
        match self.reference_type {
            ReferencedTweetKind::RepliedTo => String::from_str("replied_to"),
            ReferencedTweetKind::Retweeted => String::from_str("retweeted"),
            ReferencedTweetKind::Quoted => String::from_str("quoted"),
        }
    }

    /// The reference kind stored under the textual name `input`, if any.
    pub fn kind_from_string(input: &str) -> (r: Option<ReferencedTweetKind>)
        ensures
            r == kind_of_name(input@),
    {
        if str_eq(input, "replied_to") {
            Some(ReferencedTweetKind::RepliedTo)
        } else if str_eq(input, "retweeted") {
            Some(ReferencedTweetKind::Retweeted)
        } else if str_eq(input, "quoted") {
            Some(ReferencedTweetKind::Quoted)
        } else {
            None
        }
    }

    /// The reference edge recording that tweet `id` makes the reference
    /// `referenced_tweet`.
    pub fn from_referenced_tweet(id: u64, referenced_tweet: &ReferencedTweet) -> (r: Self)
        ensures
            r.reference_type == referenced_tweet.kind,
            r.source_tweet_id == id,
            r.reference_tweet_id == referenced_tweet.id,
    {
        Self {
            reference_type: referenced_tweet.kind,
            source_tweet_id: id,
            reference_tweet_id: referenced_tweet.id,
        }
    }
}

} // verus!
