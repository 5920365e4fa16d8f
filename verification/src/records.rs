//! The domain records of the archive: tweets, users, and the references
//! a tweet makes to other tweets.

use vstd::prelude::*;

verus! {

/// The kind of a reference one tweet makes to another: a reply, a retweet,
/// or a quote. The set of kinds is closed.
#[derive(Clone, Copy, Debug, PartialEq, Eq, Structural)]
pub enum ReferencedTweetKind {
    RepliedTo,
    Retweeted,
    Quoted,
}

/// One outgoing reference of a tweet, as the origin reports it: the kind of
/// the reference and the identifier of the referenced tweet.
#[derive(Clone, Copy, Debug, PartialEq, Eq, Structural)]
pub struct ReferencedTweet {
    pub kind: ReferencedTweetKind,
    pub id: u64,
}

/// A tweet as the archive stores it. Identifiers are 64-bit and globally
/// unique; `conversation_id` equals the identifier of the root tweet of the
/// conversation the tweet belongs to; `created_at` is the creation time in
/// seconds since the Unix epoch. Stored tweets are never mutated.
#[derive(Debug, PartialEq)]
pub struct Tweet {
    pub id: u64,
    pub author_id: u64,
    pub conversation_id: u64,
    pub created_at: i64,
    pub text: String,
    pub referenced_tweets: Vec<ReferencedTweet>,
}

/// The mathematical value of a [`Tweet`].
pub struct TweetView {
    pub id: u64,
    pub author_id: u64,
    pub conversation_id: u64,
    pub created_at: i64,
    pub text: Seq<char>,
    pub referenced_tweets: Seq<ReferencedTweet>,
}

impl View for Tweet {
    type V = TweetView;

    open spec fn view(&self) -> TweetView {
        TweetView {
            id: self.id,
            author_id: self.author_id,
            conversation_id: self.conversation_id,
            created_at: self.created_at,
            text: self.text@,
            referenced_tweets: self.referenced_tweets@,
        }
    }
}

impl Clone for Tweet {
    fn clone(&self) -> (res: Self)
        ensures
            res@ == self@,
    {
        Tweet {
            id: self.id,
            author_id: self.author_id,
            conversation_id: self.conversation_id,
            created_at: self.created_at,
            text: self.text.clone(),
            referenced_tweets: clone_references(&self.referenced_tweets),
        }
    }
}

/// Copies a list of references element by element, so that the copy is known
/// to carry the same sequence.
fn clone_references(refs: &Vec<ReferencedTweet>) -> (res: Vec<ReferencedTweet>)
    ensures
        res@ == refs@,
{
    let mut res: Vec<ReferencedTweet> = Vec::new();
    let mut i: usize = 0;
    while i < refs.len()
        invariant
            i <= refs.len(),
            res@ == refs@.take(i as int),
        decreases refs.len() - i,
    {
        res.push(refs[i]);
        proof {
            assert(res@ =~= refs@.take(i + 1));
        }
        i = i + 1;
    }
    proof {
        assert(res@ =~= refs@);
    }
    res
}

/// A user as the archive stores it: identifier, display name, unique handle,
/// and an optional self-description. Stored users are never mutated.
#[derive(Debug, PartialEq)]
pub struct User {
    pub id: u64,
    pub name: String,
    pub username: String,
    pub description: Option<String>,
}

/// The mathematical value of a [`User`].
pub struct UserView {
    pub id: u64,
    pub name: Seq<char>,
    pub username: Seq<char>,
    pub description: Option<Seq<char>>,
}

impl View for User {
    type V = UserView;

    open spec fn view(&self) -> UserView {
        UserView {
            id: self.id,
            name: self.name@,
            username: self.username@,
            description: match self.description {
                Some(ref d) => Some(d@),
                None => None,
            },
        }
    }
}

impl Clone for User {
    fn clone(&self) -> (res: Self)
        ensures
            res@ == self@,
    {
        User {
            id: self.id,
            name: self.name.clone(),
            username: self.username.clone(),
            description: match &self.description {
                Some(d) => Some(d.clone()),
                None => None,
            },
        }
    }
}

} // verus!
