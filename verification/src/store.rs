//! The local persistent store of the archive: tweets, users,
//! conversation-existence records and tweet references, each keyed by a
//! stable identifier with at most one stored copy per key. Records are
//! inserted at most once and never mutated; a duplicate insert is a silent
//! no-op, never an overwrite.

use vstd::multiset::Multiset;
use vstd::prelude::*;

use crate::records::{Tweet, TweetView, User, UserView};
use crate::text::{contains_seq, contains_substr, str_eq};
use crate::utils::TweetReferenceData;

verus! {

/// The mathematical values of a list of tweets.
pub open spec fn tweet_views(s: Seq<Tweet>) -> Seq<TweetView> {
    s.map_values(|t: Tweet| t@)
}

/// The mathematical values of a list of users.
pub open spec fn user_views(s: Seq<User>) -> Seq<UserView> {
    s.map_values(|u: User| u@)
}

/// No two tweets of `s` share an identifier.
pub open spec fn distinct_tweet_ids(s: Seq<TweetView>) -> bool {
    forall|i: int, j: int| 0 <= i < j < s.len() ==> s[i].id != s[j].id
}

/// No two users of `s` share an identifier or a handle.
pub open spec fn distinct_users(s: Seq<UserView>) -> bool {
    forall|i: int, j: int|
        0 <= i < j < s.len() ==> s[i].id != s[j].id && s[i].username != s[j].username
}

/// No identifier occurs twice in `s`.
pub open spec fn distinct_ids(s: Seq<u64>) -> bool {
    forall|i: int, j: int| 0 <= i < j < s.len() ==> s[i] != s[j]
}

/// No reference edge occurs twice in `s`.
pub open spec fn distinct_references(s: Seq<TweetReferenceData>) -> bool {
    forall|i: int, j: int| 0 <= i < j < s.len() ==> s[i] != s[j]
}

/// The tweet of `s` carrying identifier `id`.
pub open spec fn tweet_in(s: Seq<TweetView>, id: u64) -> TweetView {
    s[choose|i: int| 0 <= i < s.len() && s[i].id == id]
}

/// The user of `s` carrying identifier `id`.
pub open spec fn user_in(s: Seq<UserView>, id: u64) -> UserView {
    s[choose|i: int| 0 <= i < s.len() && s[i].id == id]
}

/// The user of `s` carrying handle `handle`.
pub open spec fn user_in_by_handle(s: Seq<UserView>, handle: Seq<char>) -> UserView {
    s[choose|i: int| 0 <= i < s.len() && s[i].username == handle]
}

/// The identifiers of the tweets of `s`, as a set.
pub open spec fn tweet_id_set(s: Seq<TweetView>) -> Set<u64> {
    s.map_values(|t: TweetView| t.id).to_set()
}

/// An identifier is in `tweet_id_set(s)` exactly when some tweet of `s`
/// carries it.
pub proof fn lemma_tweet_id_set(s: Seq<TweetView>, x: u64)
    ensures
        tweet_id_set(s).contains(x) <==> exists|i: int| 0 <= i < s.len() && s[i].id == x,
        tweet_id_set(s).finite(),
{
    broadcast use vstd::set::group_set_axioms;
    broadcast use vstd::seq_lib::seq_to_set_is_finite;

    let ids = s.map_values(|t: TweetView| t.id);
    if exists|i: int| 0 <= i < s.len() && s[i].id == x {
        let i = choose|i: int| 0 <= i < s.len() && s[i].id == x;
        assert(ids[i] == x);
        assert(ids.contains(x));
    }
    if ids.to_set().contains(x) {
        assert(ids.contains(x));
        let i = choose|i: int| 0 <= i < ids.len() && ids[i] == x;
        assert(s[i].id == x);
    }
}

/// The local store, holding the four record kinds.
#[derive(Debug)]
pub struct Store {
    pub tweets: Vec<Tweet>,
    pub users: Vec<User>,
    pub conversations: Vec<u64>,
    pub tweet_references: Vec<TweetReferenceData>,
}

impl Store {
    /// The stored tweets, as mathematical values, in insertion order.
    pub open spec fn tweets_v(self) -> Seq<TweetView> {
        tweet_views(self.tweets@)
    }

    /// The stored users, as mathematical values, in insertion order.
    pub open spec fn users_v(self) -> Seq<UserView> {
        user_views(self.users@)
    }

    /// The identifiers of the conversations known to exist.
    pub open spec fn convs_v(self) -> Seq<u64> {
        self.conversations@
    }

    /// The stored reference edges.
    pub open spec fn refs_v(self) -> Seq<TweetReferenceData> {
        self.tweet_references@
    }

    /// Every record kind is keyed: no duplicate tweet identifiers, user
    /// identifiers or handles, conversation identifiers, or reference edges.
    pub open spec fn wf(self) -> bool {
        &&& distinct_tweet_ids(self.tweets_v())
        &&& distinct_users(self.users_v())
        &&& distinct_ids(self.convs_v())
        &&& distinct_references(self.refs_v())
    }

    /// Whether a tweet with identifier `id` is stored.
    pub open spec fn has_tweet(self, id: u64) -> bool {
        exists|i: int| 0 <= i < self.tweets_v().len() && self.tweets_v()[i].id == id
    }

    /// The stored tweet with identifier `id`.
    pub open spec fn tweet_view(self, id: u64) -> TweetView {
        tweet_in(self.tweets_v(), id)
    }

    /// Whether a user with identifier `id` is stored.
    pub open spec fn has_user(self, id: u64) -> bool {
        exists|i: int| 0 <= i < self.users_v().len() && self.users_v()[i].id == id
    }

    /// The stored user with identifier `id`.
    pub open spec fn user_view(self, id: u64) -> UserView {
        user_in(self.users_v(), id)
    }

    /// Whether a user with handle `handle` is stored.
    pub open spec fn has_user_handle(self, handle: Seq<char>) -> bool {
        exists|i: int| 0 <= i < self.users_v().len() && self.users_v()[i].username == handle
    }

    /// The stored user with handle `handle`.
    pub open spec fn user_view_by_handle(self, handle: Seq<char>) -> UserView {
        user_in_by_handle(self.users_v(), handle)
    }

    /// The set of identifiers of the stored tweets.
    pub open spec fn tweet_ids(self) -> Set<u64> {
        tweet_id_set(self.tweets_v())
    }

    /// Whether an existence record for conversation `id` is stored.
    pub open spec fn has_conversation(self, id: u64) -> bool {
        self.convs_v().contains(id)
    }

    /// Whether the exact reference edge `r` is stored.
    pub open spec fn has_reference(self, r: TweetReferenceData) -> bool {
        self.refs_v().contains(r)
    }

    /// Whether any stored reference edge points from tweet `source` to
    /// tweet `target`.
    pub open spec fn has_reference_to(self, source: u64, target: u64) -> bool {
        exists|i: int|
            0 <= i < self.refs_v().len() && self.refs_v()[i].source_tweet_id == source
                && self.refs_v()[i].reference_tweet_id == target
    }

    /// An empty, well-formed store.
    pub fn new() -> (r: Store)
        ensures
            r.wf(),
            r.tweets_v().len() == 0,
            r.users_v().len() == 0,
            r.convs_v().len() == 0,
            r.refs_v().len() == 0,
    {
        Store {
            tweets: Vec::new(),
            users: Vec::new(),
            conversations: Vec::new(),
            tweet_references: Vec::new(),
        }
    }

    /// Whether a tweet with identifier `id` is stored.
    pub fn does_tweet_exist(&self, id: u64) -> (r: bool)
        ensures
            r == self.has_tweet(id),
    {
        let mut i: usize = 0;
        while i < self.tweets.len()
            invariant
                i <= self.tweets@.len(),
                forall|j: int| 0 <= j < i ==> self.tweets_v()[j].id != id,
            decreases self.tweets@.len() - i,
        {
            if self.tweets[i].id == id {
                proof {
                    assert(self.tweets_v()[i as int].id == id);
                }
                return true;
            }
            i = i + 1;
        }
        false
    }

    /// Whether an existence record for conversation `id` is stored.
    pub fn does_conversation_exist(&self, id: u64) -> (r: bool)
        ensures
            r == self.has_conversation(id),
    {
        let mut i: usize = 0;
        while i < self.conversations.len()
            invariant
                i <= self.conversations@.len(),
                forall|j: int| 0 <= j < i ==> self.convs_v()[j] != id,
            decreases self.conversations@.len() - i,
        {
            if self.conversations[i] == id {
                return true;
            }
            i = i + 1;
        }
        false
    }

    /// Whether a user with identifier `id` is stored.
    pub fn does_user_exist(&self, id: u64) -> (r: bool)
        ensures
            r == self.has_user(id),
    {
        let mut i: usize = 0;
        while i < self.users.len()
            invariant
                i <= self.users@.len(),
                forall|j: int| 0 <= j < i ==> self.users_v()[j].id != id,
            decreases self.users@.len() - i,
        {
            if self.users[i].id == id {
                proof {
                    assert(self.users_v()[i as int].id == id);
                }
                return true;
            }
            i = i + 1;
        }
        false
    }

    /// The stored tweet with identifier `id`, if any.
    pub fn tweet_by_id(&self, id: u64) -> (r: Option<Tweet>)
        requires
            self.wf(),
        ensures
            r is Some <==> self.has_tweet(id),
            r matches Some(t) ==> t@ == self.tweet_view(id) && t@.id == id,
    {
        let mut i: usize = 0;
        while i < self.tweets.len()
            invariant
                i <= self.tweets@.len(),
                self.wf(),
                forall|j: int| 0 <= j < i ==> self.tweets_v()[j].id != id,
            decreases self.tweets@.len() - i,
        {
            if self.tweets[i].id == id {
                proof {
                    assert(self.tweets_v()[i as int].id == id);
                }
                return Some(self.tweets[i].clone());
            }
            i = i + 1;
        }
        None
    }

    /// The stored user with identifier `id`, if any.
    pub fn user_by_id(&self, id: u64) -> (r: Option<User>)
        requires
            self.wf(),
        ensures
            r is Some <==> self.has_user(id),
            r matches Some(u) ==> u@ == self.user_view(id) && u@.id == id,
    {
        let mut i: usize = 0;
        while i < self.users.len()
            invariant
                i <= self.users@.len(),
                self.wf(),
                forall|j: int| 0 <= j < i ==> self.users_v()[j].id != id,
            decreases self.users@.len() - i,
        {
            if self.users[i].id == id {
                proof {
                    assert(self.users_v()[i as int].id == id);
                }
                return Some(self.users[i].clone());
            }
            i = i + 1;
        }
        None
    }

    /// The stored user with handle `twitter_handle`, if any.
    pub fn user_by_twitter_handle(&self, twitter_handle: &str) -> (r: Option<User>)
        requires
            self.wf(),
        ensures
            r is Some <==> self.has_user_handle(twitter_handle@),
            r matches Some(u) ==> u@ == self.user_view_by_handle(twitter_handle@)
                && u@.username == twitter_handle@,
    {
        let mut i: usize = 0;
        while i < self.users.len()
            invariant
                i <= self.users@.len(),
                self.wf(),
                forall|j: int| 0 <= j < i ==> self.users_v()[j].username != twitter_handle@,
            decreases self.users@.len() - i,
        {
            if str_eq(self.users[i].username.as_str(), twitter_handle) {
                proof {
                    assert(self.users_v()[i as int].username == twitter_handle@);
                }
                return Some(self.users[i].clone());
            }
            i = i + 1;
        }
        None
    }

    /// The first stored reference edge made by tweet `source_id`, in
    /// insertion order, if any is stored.
    pub fn tweet_reference_by_id(&self, source_id: u64) -> (r: Option<TweetReferenceData>)
        ensures
            r matches Some(d) ==> self.has_reference(d) && d.source_tweet_id == source_id
                && exists|i: int|
                {
                    &&& 0 <= i < self.refs_v().len()
                    &&& #[trigger] self.refs_v()[i] == d
                    &&& forall|j: int|
                        0 <= j < i ==> self.refs_v()[j].source_tweet_id != source_id
                },
            r is None ==> forall|i: int|
                0 <= i < self.refs_v().len() ==> self.refs_v()[i].source_tweet_id != source_id,
    {
        let mut i: usize = 0;
        while i < self.tweet_references.len()
            invariant
                i <= self.tweet_references@.len(),
                forall|j: int| 0 <= j < i ==> self.refs_v()[j].source_tweet_id != source_id,
            decreases self.tweet_references@.len() - i,
        {
            if self.tweet_references[i].source_tweet_id == source_id {
                proof {
                    assert(self.refs_v().contains(self.refs_v()[i as int]));
                }
                return Some(self.tweet_references[i]);
            }
            i = i + 1;
        }
        None
    }

    /// Inserts tweet `t` unless a tweet with its identifier is already
    /// stored; a duplicate insert leaves the store unchanged.
    pub fn insert_tweet(&mut self, t: Tweet)
        requires
            old(self).wf(),
        ensures
            final(self).wf(),
            old(self).has_tweet(t@.id) ==> final(self).tweets_v() == old(self).tweets_v(),
            !old(self).has_tweet(t@.id)
                ==> final(self).tweets_v() == old(self).tweets_v().push(t@),
            final(self).has_tweet(t@.id),
            final(self).users_v() == old(self).users_v(),
            final(self).convs_v() == old(self).convs_v(),
            final(self).refs_v() == old(self).refs_v(),
    {
        if !self.does_tweet_exist(t.id) {
            let ghost prev = self.tweets_v();
            self.tweets.push(t);
            proof {
                assert(self.tweets_v() =~= prev.push(t@));
                assert(self.tweets_v()[prev.len() as int].id == t@.id);
            }
        }
    }

    /// Inserts user `u` unless a user with its identifier or its handle is
    /// already stored; a duplicate insert leaves the store unchanged.
    pub fn insert_user(&mut self, u: User)
        requires
            old(self).wf(),
        ensures
            final(self).wf(),
            old(self).has_user(u@.id) || old(self).has_user_handle(u@.username)
                ==> final(self).users_v() == old(self).users_v(),
            !(old(self).has_user(u@.id) || old(self).has_user_handle(u@.username))
                ==> final(self).users_v() == old(self).users_v().push(u@),
            final(self).has_user(u@.id) || old(self).has_user_handle(u@.username),
            final(self).has_user_handle(u@.username) || old(self).has_user(u@.id),
            final(self).tweets_v() == old(self).tweets_v(),
            final(self).convs_v() == old(self).convs_v(),
            final(self).refs_v() == old(self).refs_v(),
    {
        let mut i: usize = 0;
        while i < self.users.len()
            invariant
                self == old(self),
                old(self).wf(),
                i <= self.users@.len(),
                forall|j: int|
                    0 <= j < i ==> self.users_v()[j].id != u@.id && self.users_v()[j].username
                        != u@.username,
            decreases self.users@.len() - i,
        {
            if self.users[i].id == u.id || str_eq(self.users[i].username.as_str(), u.username.as_str()) {
                proof {
                    let k = i as int;
                    assert(self.users_v()[k].id == u@.id || self.users_v()[k].username
                        == u@.username);
                }
                return ;
            }
            i = i + 1;
        }
        let ghost prev = self.users_v();
        self.users.push(u);
        proof {
            assert(self.users_v() =~= prev.push(u@));
            assert(self.users_v()[prev.len() as int].id == u@.id);
        }
    }

    /// Records that conversation `id` exists, unless it is already recorded.
    pub fn insert_conversation(&mut self, id: u64)
        requires
            old(self).wf(),
        ensures
            final(self).wf(),
            old(self).has_conversation(id) ==> final(self).convs_v() == old(self).convs_v(),
            !old(self).has_conversation(id)
                ==> final(self).convs_v() == old(self).convs_v().push(id),
            final(self).has_conversation(id),
            final(self).tweets_v() == old(self).tweets_v(),
            final(self).users_v() == old(self).users_v(),
            final(self).refs_v() == old(self).refs_v(),
    {
        if !self.does_conversation_exist(id) {
            let ghost prev = self.convs_v();
            self.conversations.push(id);
            proof {
                assert(self.convs_v() =~= prev.push(id));
                assert(self.convs_v()[prev.len() as int] == id);
            }
        }
    }

    /// Inserts the reference edge `r` unless the same edge is already
    /// stored.
    pub fn insert_tweet_reference(&mut self, r: TweetReferenceData)
        requires
            old(self).wf(),
        ensures
            final(self).wf(),
            old(self).has_reference(r) ==> final(self).refs_v() == old(self).refs_v(),
            !old(self).has_reference(r) ==> final(self).refs_v() == old(self).refs_v().push(r),
            final(self).has_reference(r),
            final(self).has_reference_to(r.source_tweet_id, r.reference_tweet_id),
            final(self).tweets_v() == old(self).tweets_v(),
            final(self).users_v() == old(self).users_v(),
            final(self).convs_v() == old(self).convs_v(),
    {
        let mut i: usize = 0;
        while i < self.tweet_references.len()
            invariant
                self == old(self),
                old(self).wf(),
                i <= self.tweet_references@.len(),
                forall|j: int| 0 <= j < i ==> self.refs_v()[j] != r,
            decreases self.tweet_references@.len() - i,
        {
            if self.tweet_references[i] == r {
                proof {
                    assert(self.refs_v()[i as int] == r);
                    assert(self.refs_v().contains(r));
                }
                return ;
            }
            i = i + 1;
        }
        let ghost prev = self.refs_v();
        self.tweet_references.push(r);
        proof {
            assert(self.refs_v() =~= prev.push(r));
            assert(self.refs_v()[prev.len() as int] == r);
        }
    }
}

/// No duplication: a well-formed store holds at most one tweet per
/// identifier, and exactly one once the identifier is present — however the
/// tweet arrived, a second insert of the same identifier left one copy.
pub proof fn lemma_no_duplicate_tweets(s: Store, id: u64)
    requires
        s.wf(),
    ensures
        s.tweets_v().filter(|t: TweetView| t.id == id).len() <= 1,
        s.has_tweet(id) ==> s.tweets_v().filter(|t: TweetView| t.id == id).len() == 1,
{
    lemma_distinct_id_filter(s.tweets_v(), id);
}

/// In a sequence of tweets with pairwise distinct identifiers, the tweets
/// with a given identifier number at most one, and exactly one when the
/// identifier occurs.
proof fn lemma_distinct_id_filter(s: Seq<TweetView>, id: u64)
    requires
        distinct_tweet_ids(s),
    ensures
        s.filter(|t: TweetView| t.id == id).len() <= 1,
        (exists|i: int| 0 <= i < s.len() && s[i].id == id) ==> s.filter(
            |t: TweetView| t.id == id,
        ).len() == 1,
    decreases s.len(),
{
    broadcast use vstd::seq_lib::group_seq_properties;

    let pred = |t: TweetView| t.id == id;
    if s.len() == 0 {
        assert(s.filter(pred) =~= Seq::<TweetView>::empty());
    } else {
        let prefix = s.drop_last();
        assert(s =~= prefix.push(s.last()));
        lemma_distinct_id_filter(prefix, id);
        s.drop_last().lemma_filter_push(s.last(), pred);
        if pred(s.last()) {
            assert(forall|i: int| 0 <= i < prefix.len() ==> #[trigger] prefix[i].id != id);
            assert(prefix.filter(pred).len() == 0) by {
                if prefix.filter(pred).len() > 0 {
                    let witness = prefix.filter(pred)[0];
                    assert(prefix.filter(pred).contains(witness));
                    prefix.lemma_filter_contains_rev(pred, witness);
                    let k = choose|k: int|
                        0 <= k < prefix.len() && prefix[k] == witness;
                    assert(prefix[k].id == id);
                }
            }
        }
    }
}

/// Newest first: creation times never increase along the sequence.
pub open spec fn sorted_desc(s: Seq<TweetView>) -> bool {
    forall|i: int, j: int| 0 <= i <= j < s.len() ==> s[i].created_at >= s[j].created_at
}

/// Oldest first: creation times never decrease along the sequence.
pub open spec fn sorted_asc(s: Seq<TweetView>) -> bool {
    forall|i: int, j: int| 0 <= i <= j < s.len() ==> s[i].created_at <= s[j].created_at
}

/// Inserting into a sequence inserts into its multiset of values.
proof fn lemma_views_insert(s: Seq<Tweet>, k: int, t: Tweet)
    requires
        0 <= k <= s.len(),
    ensures
        tweet_views(s.insert(k, t)) == tweet_views(s).insert(k, t@),
        tweet_views(s.insert(k, t)).to_multiset() == tweet_views(s).to_multiset().insert(t@),
{
    broadcast use vstd::seq_lib::group_seq_properties;

    let v = tweet_views(s);
    assert(tweet_views(s.insert(k, t)) =~= v.insert(k, t@));
    let left = v.subrange(0, k);
    let right = v.subrange(k, v.len() as int);
    vstd::seq_lib::lemma_multiset_commutative(left.push(t@), right);
    vstd::seq_lib::lemma_multiset_commutative(left, right);
    assert(v =~= left + right);
    left.to_multiset_ensures();
    assert(v.insert(k, t@).to_multiset() =~= v.to_multiset().insert(t@));
}

/// Removing the last element of a sequence removes it from the multiset of
/// values.
proof fn lemma_views_drop_last(s: Seq<Tweet>)
    requires
        s.len() > 0,
    ensures
        tweet_views(s.drop_last()) == tweet_views(s).drop_last(),
        tweet_views(s).to_multiset() == tweet_views(s.drop_last()).to_multiset().insert(
            s.last()@,
        ),
{
    broadcast use vstd::seq_lib::group_seq_properties;

    assert(tweet_views(s.drop_last()) =~= tweet_views(s).drop_last());
    let v = tweet_views(s);
    assert(v =~= v.drop_last().push(s.last()@));
    v.drop_last().to_multiset_ensures();
}

/// Inserts tweet `t` into the newest-first sequence `r`, keeping it
/// newest-first.
fn insert_sorted_desc(r: &mut Vec<Tweet>, t: Tweet)
    requires
        sorted_desc(tweet_views(old(r)@)),
    ensures
        sorted_desc(tweet_views(final(r)@)),
        tweet_views(final(r)@).to_multiset() == tweet_views(old(r)@).to_multiset().insert(t@),
{
    let mut k: usize = 0;
    while k < r.len() && r[k].created_at >= t.created_at
        invariant
            r == old(r),
            sorted_desc(tweet_views(r@)),
            k <= r@.len(),
            forall|j: int| 0 <= j < k ==> tweet_views(r@)[j].created_at >= t@.created_at,
        decreases r@.len() - k,
    {
        k = k + 1;
    }
    proof {
        if (k as int) < r@.len() {
            assert(tweet_views(r@)[k as int].created_at < t@.created_at);
            assert forall|j: int| k <= j < r@.len() implies tweet_views(r@)[j].created_at
                <= t@.created_at by {
                assert(tweet_views(r@)[k as int].created_at >= tweet_views(r@)[j].created_at);
            }
        }
    }
    let ghost prev = r@;
    r.insert(k, t);
    proof {
        lemma_views_insert(prev, k as int, t);
        prev.insert_ensures(k as int, t);
        tweet_views(prev).insert_ensures(k as int, t@);
    }
}

/// Inserts tweet `t` into the oldest-first sequence `r`, keeping it
/// oldest-first.
fn insert_sorted_asc(r: &mut Vec<Tweet>, t: Tweet)
    requires
        sorted_asc(tweet_views(old(r)@)),
    ensures
        sorted_asc(tweet_views(final(r)@)),
        tweet_views(final(r)@).to_multiset() == tweet_views(old(r)@).to_multiset().insert(t@),
{
    let mut k: usize = 0;
    while k < r.len() && r[k].created_at <= t.created_at
        invariant
            r == old(r),
            sorted_asc(tweet_views(r@)),
            k <= r@.len(),
            forall|j: int| 0 <= j < k ==> tweet_views(r@)[j].created_at <= t@.created_at,
        decreases r@.len() - k,
    {
        k = k + 1;
    }
    proof {
        if (k as int) < r@.len() {
            assert(tweet_views(r@)[k as int].created_at > t@.created_at);
            assert forall|j: int| k <= j < r@.len() implies tweet_views(r@)[j].created_at
                >= t@.created_at by {
                assert(tweet_views(r@)[k as int].created_at <= tweet_views(r@)[j].created_at);
            }
        }
    }
    let ghost prev = r@;
    r.insert(k, t);
    proof {
        lemma_views_insert(prev, k as int, t);
        prev.insert_ensures(k as int, t);
        tweet_views(prev).insert_ensures(k as int, t@);
    }
}

/// Orders `v` newest-first, keeping exactly its tweets.
fn sort_tweets_desc(v: Vec<Tweet>) -> (r: Vec<Tweet>)
    ensures
        sorted_desc(tweet_views(r@)),
        tweet_views(r@).to_multiset() == tweet_views(v@).to_multiset(),
{
    broadcast use vstd::multiset::group_multiset_axioms;
    broadcast use vstd::seq_lib::group_to_multiset_ensures;

    let mut v = v;
    let ghost orig = v@;
    let mut r: Vec<Tweet> = Vec::new();
    proof {
        assert(tweet_views(r@) =~= Seq::<TweetView>::empty());
        assert(tweet_views(r@).to_multiset().add(tweet_views(v@).to_multiset()) =~= tweet_views(
            orig,
        ).to_multiset());
    }
    while v.len() > 0
        invariant
            tweet_views(r@).to_multiset().add(tweet_views(v@).to_multiset()) == tweet_views(
                orig,
            ).to_multiset(),
            sorted_desc(tweet_views(r@)),
        decreases v@.len(),
    {
        let ghost before = v@;
        let t = v.pop().unwrap();
        proof {
            assert(v@ =~= before.drop_last());
            lemma_views_drop_last(before);
        }
        insert_sorted_desc(&mut r, t);
        proof {
            assert(tweet_views(r@).to_multiset().add(tweet_views(v@).to_multiset())
                =~= tweet_views(orig).to_multiset());
        }
    }
    proof {
        assert(tweet_views(v@) =~= Seq::<TweetView>::empty());
        assert(tweet_views(r@).to_multiset() =~= tweet_views(orig).to_multiset());
    }
    r
}

/// Orders `v` oldest-first, keeping exactly its tweets.
fn sort_tweets_asc(v: Vec<Tweet>) -> (r: Vec<Tweet>)
    ensures
        sorted_asc(tweet_views(r@)),
        tweet_views(r@).to_multiset() == tweet_views(v@).to_multiset(),
{
    broadcast use vstd::multiset::group_multiset_axioms;
    broadcast use vstd::seq_lib::group_to_multiset_ensures;

    let mut v = v;
    let ghost orig = v@;
    let mut r: Vec<Tweet> = Vec::new();
    proof {
        assert(tweet_views(r@) =~= Seq::<TweetView>::empty());
        assert(tweet_views(r@).to_multiset().add(tweet_views(v@).to_multiset()) =~= tweet_views(
            orig,
        ).to_multiset());
    }
    while v.len() > 0
        invariant
            tweet_views(r@).to_multiset().add(tweet_views(v@).to_multiset()) == tweet_views(
                orig,
            ).to_multiset(),
            sorted_asc(tweet_views(r@)),
        decreases v@.len(),
    {
        let ghost before = v@;
        let t = v.pop().unwrap();
        proof {
            assert(v@ =~= before.drop_last());
            lemma_views_drop_last(before);
        }
        insert_sorted_asc(&mut r, t);
        proof {
            assert(tweet_views(r@).to_multiset().add(tweet_views(v@).to_multiset())
                =~= tweet_views(orig).to_multiset());
        }
    }
    proof {
        assert(tweet_views(v@) =~= Seq::<TweetView>::empty());
        assert(tweet_views(r@).to_multiset() =~= tweet_views(orig).to_multiset());
    }
    r
}

/// The tweets authored by the user with identifier `author_id`.
pub open spec fn by_author(author_id: u64) -> spec_fn(TweetView) -> bool {
    |t: TweetView| t.author_id == author_id
}

/// The tweets belonging to the conversation with identifier
/// `conversation_id`.
pub open spec fn by_conversation(conversation_id: u64) -> spec_fn(TweetView) -> bool {
    |t: TweetView| t.conversation_id == conversation_id
}

/// The tweets whose text contains `query` as a substring.
pub open spec fn matching_text(query: Seq<char>) -> spec_fn(TweetView) -> bool {
    |t: TweetView| contains_seq(t.text, query)
}

impl Store {
    /// Copies of all stored tweets, in insertion order.
    pub fn tweets(&self) -> (r: Vec<Tweet>)
        ensures
            tweet_views(r@) == self.tweets_v(),
    {
        let mut r: Vec<Tweet> = Vec::new();
        let mut i: usize = 0;
        while i < self.tweets.len()
            invariant
                i <= self.tweets@.len(),
                r@.len() == i,
                forall|j: int| 0 <= j < i ==> tweet_views(r@)[j] == self.tweets_v()[j],
            decreases self.tweets@.len() - i,
        {
            r.push(self.tweets[i].clone());
            i = i + 1;
        }
        proof {
            assert(tweet_views(r@) =~= self.tweets_v());
        }
        r
    }

    /// Copies of all stored users, in insertion order.
    pub fn users(&self) -> (r: Vec<User>)
        ensures
            user_views(r@) == self.users_v(),
    {
        let mut r: Vec<User> = Vec::new();
        let mut i: usize = 0;
        while i < self.users.len()
            invariant
                i <= self.users@.len(),
                r@.len() == i,
                forall|j: int| 0 <= j < i ==> user_views(r@)[j] == self.users_v()[j],
            decreases self.users@.len() - i,
        {
            r.push(self.users[i].clone());
            i = i + 1;
        }
        proof {
            assert(user_views(r@) =~= self.users_v());
        }
        r
    }

    /// Copies of the stored tweets authored by user `author_id`, in
    /// insertion order.
    fn filter_by_author(&self, author_id: u64) -> (r: Vec<Tweet>)
        ensures
            tweet_views(r@) == self.tweets_v().filter(by_author(author_id)),
    {
        let ghost pred = by_author(author_id);
        let mut r: Vec<Tweet> = Vec::new();
        let mut i: usize = 0;
        proof {
            assert(tweet_views(r@) =~= self.tweets_v().take(0).filter(pred));
        }
        while i < self.tweets.len()
            invariant
                i <= self.tweets@.len(),
                pred == by_author(author_id),
                tweet_views(r@) == self.tweets_v().take(i as int).filter(pred),
            decreases self.tweets@.len() - i,
        {
            let ghost prev = tweet_views(r@);
            proof {
                assert(self.tweets_v().take(i + 1) =~= self.tweets_v().take(i as int).push(
                    self.tweets_v()[i as int],
                ));
                self.tweets_v().take(i as int).lemma_filter_push(self.tweets_v()[i as int], pred);
            }
            if self.tweets[i].author_id == author_id {
                r.push(self.tweets[i].clone());
                proof {
                    assert(tweet_views(r@) =~= prev.push(self.tweets_v()[i as int]));
                }
            }
            i = i + 1;
        }
        proof {
            assert(self.tweets_v().take(self.tweets@.len() as int) =~= self.tweets_v());
        }
        r
    }

    /// Copies of the stored tweets of conversation `conversation_id`, in
    /// insertion order.
    fn filter_by_conversation(&self, conversation_id: u64) -> (r: Vec<Tweet>)
        ensures
            tweet_views(r@) == self.tweets_v().filter(by_conversation(conversation_id)),
    {
        let ghost pred = by_conversation(conversation_id);
        let mut r: Vec<Tweet> = Vec::new();
        let mut i: usize = 0;
        proof {
            assert(tweet_views(r@) =~= self.tweets_v().take(0).filter(pred));
        }
        while i < self.tweets.len()
            invariant
                i <= self.tweets@.len(),
                pred == by_conversation(conversation_id),
                tweet_views(r@) == self.tweets_v().take(i as int).filter(pred),
            decreases self.tweets@.len() - i,
        {
            let ghost prev = tweet_views(r@);
            proof {
                assert(self.tweets_v().take(i + 1) =~= self.tweets_v().take(i as int).push(
                    self.tweets_v()[i as int],
                ));
                self.tweets_v().take(i as int).lemma_filter_push(self.tweets_v()[i as int], pred);
            }
            if self.tweets[i].conversation_id == conversation_id {
                r.push(self.tweets[i].clone());
                proof {
                    assert(tweet_views(r@) =~= prev.push(self.tweets_v()[i as int]));
                }
            }
            i = i + 1;
        }
        proof {
            assert(self.tweets_v().take(self.tweets@.len() as int) =~= self.tweets_v());
        }
        r
    }

    /// The stored tweets of the user with handle `twitter_handle`, ordered
    /// newest-first. With no such user stored, the result is empty.
    pub fn users_tweets(&self, twitter_handle: &str) -> (r: Vec<Tweet>)
        requires
            self.wf(),
        ensures
            sorted_desc(tweet_views(r@)),
            self.has_user_handle(twitter_handle@) ==> tweet_views(r@).to_multiset()
                == self.tweets_v().filter(
                by_author(self.user_view_by_handle(twitter_handle@).id),
            ).to_multiset(),
            !self.has_user_handle(twitter_handle@) ==> r@.len() == 0,
    {
        let u = match self.user_by_twitter_handle(twitter_handle) {
            Some(u) => u,
            None => {
                return Vec::new();
            },
        };
        let matches = self.filter_by_author(u.id);
        sort_tweets_desc(matches)
    }

    /// The stored tweets of conversation `conversation_id`, ordered
    /// oldest-first.
    pub fn conversation(&self, conversation_id: u64) -> (r: Vec<Tweet>)
        requires
            self.wf(),
        ensures
            sorted_asc(tweet_views(r@)),
            tweet_views(r@).to_multiset() == self.tweets_v().filter(
                by_conversation(conversation_id),
            ).to_multiset(),
    {
        let matches = self.filter_by_conversation(conversation_id);
        sort_tweets_asc(matches)
    }

    /// The stored tweets whose text contains `query` as a substring, in
    /// insertion order.
    pub fn search_tweets(&self, query: &str) -> (r: Vec<Tweet>)
        ensures
            tweet_views(r@) == self.tweets_v().filter(matching_text(query@)),
    {
        let ghost pred = matching_text(query@);
        let mut r: Vec<Tweet> = Vec::new();
        let mut i: usize = 0;
        proof {
            assert(tweet_views(r@) =~= self.tweets_v().take(0).filter(pred));
        }
        while i < self.tweets.len()
            invariant
                i <= self.tweets@.len(),
                pred == matching_text(query@),
                tweet_views(r@) == self.tweets_v().take(i as int).filter(pred),
            decreases self.tweets@.len() - i,
        {
            let ghost prev = tweet_views(r@);
            proof {
                assert(self.tweets_v().take(i + 1) =~= self.tweets_v().take(i as int).push(
                    self.tweets_v()[i as int],
                ));
                self.tweets_v().take(i as int).lemma_filter_push(self.tweets_v()[i as int], pred);
            }
            if contains_substr(self.tweets[i].text.as_str(), query) {
                r.push(self.tweets[i].clone());
                proof {
                    assert(tweet_views(r@) =~= prev.push(self.tweets_v()[i as int]));
                }
            }
            i = i + 1;
        }
        proof {
            assert(self.tweets_v().take(self.tweets@.len() as int) =~= self.tweets_v());
        }
        r
    }

    /// The most recently created stored tweet of the user with identifier
    /// `id`, if that user has stored tweets.
    pub fn latest_tweet_from_user(&self, id: u64) -> (r: Option<Tweet>)
        requires
            self.wf(),
        ensures
            r is Some <==> exists|i: int|
                0 <= i < self.tweets_v().len() && self.tweets_v()[i].author_id == id,
            r matches Some(t) ==> {
                &&& self.tweets_v().contains(t@)
                &&& t@.author_id == id
                &&& forall|i: int|
                    0 <= i < self.tweets_v().len() && self.tweets_v()[i].author_id == id
                        ==> self.tweets_v()[i].created_at <= t@.created_at
            },
    {
        let mut best: Option<usize> = None;
        let mut i: usize = 0;
        while i < self.tweets.len()
            invariant
                i <= self.tweets@.len(),
                best is None ==> forall|j: int|
                    0 <= j < i ==> self.tweets_v()[j].author_id != id,
                best matches Some(b) ==> {
                    &&& b < i
                    &&& self.tweets_v()[b as int].author_id == id
                    &&& forall|j: int|
                        0 <= j < i && self.tweets_v()[j].author_id == id ==> self.tweets_v()[
                            j
                        ].created_at <= self.tweets_v()[b as int].created_at
                },
            decreases self.tweets@.len() - i,
        {
            if self.tweets[i].author_id == id {
                let replace = match best {
                    Some(b) => self.tweets[b].created_at < self.tweets[i].created_at,
                    None => true,
                };
                if replace {
                    best = Some(i);
                }
            }
            i = i + 1;
        }
        match best {
            Some(b) => {
                proof {
                    assert(self.tweets_v().contains(self.tweets_v()[b as int]));
                }
                Some(self.tweets[b].clone())
            },
            None => None,
        }
    }

    /// The most recently created stored tweet of the user with handle
    /// `twitter_handle`, if that user is stored and has stored tweets.
    pub fn latest_tweet_from_user_by_twitter_handle(&self, twitter_handle: &str) -> (r: Option<
        Tweet,
    >)
        requires
            self.wf(),
        ensures
            r is Some <==> self.has_user_handle(twitter_handle@) && exists|i: int|
                0 <= i < self.tweets_v().len() && self.tweets_v()[i].author_id
                    == self.user_view_by_handle(twitter_handle@).id,
            r matches Some(t) ==> {
                &&& self.tweets_v().contains(t@)
                &&& t@.author_id == self.user_view_by_handle(twitter_handle@).id
                &&& forall|i: int|
                    0 <= i < self.tweets_v().len() && self.tweets_v()[i].author_id
                        == self.user_view_by_handle(twitter_handle@).id ==> self.tweets_v()[
                        i
                    ].created_at <= t@.created_at
            },
    {
        match self.user_by_twitter_handle(twitter_handle) {
            Some(u) => self.latest_tweet_from_user(u.id),
            None => None,
        }
    }
}

/// Filtering a singleton.
proof fn lemma_filter_singleton<A>(x: A, pred: spec_fn(A) -> bool)
    ensures
        pred(x) ==> seq![x].filter(pred) == seq![x],
        !pred(x) ==> seq![x].filter(pred) == Seq::<A>::empty(),
{
    assert(seq![x] =~= Seq::<A>::empty().push(x));
    Seq::<A>::empty().lemma_filter_push(x, pred);
    assert(Seq::<A>::empty().filter(pred) =~= Seq::<A>::empty());
}

/// Taking one occurrence of `s[j]` out of `s` takes it out of the
/// filtered multiset as well, when the predicate keeps it.
proof fn lemma_filter_remove_one<A>(s: Seq<A>, j: int, pred: spec_fn(A) -> bool)
    requires
        0 <= j < s.len(),
    ensures
        pred(s[j]) ==> s.filter(pred).to_multiset() == s.remove(j).filter(
            pred,
        ).to_multiset().insert(s[j]),
        !pred(s[j]) ==> s.filter(pred).to_multiset() == s.remove(j).filter(pred).to_multiset(),
{
    broadcast use vstd::multiset::group_multiset_axioms;
    broadcast use vstd::seq_lib::group_to_multiset_ensures;

    let left = s.subrange(0, j);
    let mid = seq![s[j]];
    let right = s.subrange(j + 1, s.len() as int);
    assert(s =~= left + (mid + right));
    assert(s.remove(j) =~= left + right);
    Seq::filter_distributes_over_add(left, mid + right, pred);
    Seq::filter_distributes_over_add(mid, right, pred);
    Seq::filter_distributes_over_add(left, right, pred);
    lemma_filter_singleton(s[j], pred);
    vstd::seq_lib::lemma_multiset_commutative(left.filter(pred), (mid + right).filter(pred));
    vstd::seq_lib::lemma_multiset_commutative(mid.filter(pred), right.filter(pred));
    vstd::seq_lib::lemma_multiset_commutative(left.filter(pred), right.filter(pred));
    if pred(s[j]) {
        assert(mid.filter(pred).to_multiset() =~= Multiset::<A>::empty().insert(s[j])) by {
            assert(mid.filter(pred) =~= Seq::<A>::empty().push(s[j]));
        }
        assert(s.filter(pred).to_multiset() =~= s.remove(j).filter(pred).to_multiset().insert(
            s[j],
        ));
    } else {
        assert(mid.filter(pred).to_multiset() =~= Multiset::<A>::empty());
        assert(s.filter(pred).to_multiset() =~= s.remove(j).filter(pred).to_multiset());
    }
}

/// Sequences with the same multiset of values have the same multiset of
/// filtered values.
pub proof fn lemma_to_multiset_filter<A>(s1: Seq<A>, s2: Seq<A>, pred: spec_fn(A) -> bool)
    requires
        s1.to_multiset() == s2.to_multiset(),
    ensures
        s1.filter(pred).to_multiset() == s2.filter(pred).to_multiset(),
    decreases s1.len(),
{
    broadcast use vstd::multiset::group_multiset_axioms;
    broadcast use vstd::seq_lib::group_to_multiset_ensures;

    if s1.len() == 0 {
        assert(s2.to_multiset().len() == 0);
        assert(s2.len() == 0);
        assert(s1 =~= s2);
    } else {
        let x = s1.last();
        let prefix = s1.drop_last();
        assert(s1 =~= prefix.push(x));
        assert(s1.to_multiset().count(x) > 0);
        assert(s2.to_multiset().count(x) > 0);
        assert(s2.contains(x));
        let j = choose|j: int| 0 <= j < s2.len() && s2[j] == x;
        let s2r = s2.remove(j);
        assert(prefix.to_multiset() == s2r.to_multiset()) by {
            assert(s1.remove(s1.len() - 1) =~= prefix);
            assert(prefix.to_multiset() =~= s1.to_multiset().remove(x));
            assert(s2r.to_multiset() =~= s2.to_multiset().remove(x));
        }
        lemma_to_multiset_filter(prefix, s2r, pred);
        prefix.lemma_filter_push(x, pred);
        lemma_filter_remove_one(s2, j, pred);
    }
}

/// Filtering keeps an oldest-first sequence oldest-first.
pub proof fn lemma_filter_sorted_asc(s: Seq<TweetView>, pred: spec_fn(TweetView) -> bool)
    requires
        sorted_asc(s),
    ensures
        sorted_asc(s.filter(pred)),
    decreases s.len(),
{
    if s.len() > 0 {
        let x = s.last();
        let prefix = s.drop_last();
        assert(s =~= prefix.push(x));
        lemma_filter_sorted_asc(prefix, pred);
        prefix.lemma_filter_push(x, pred);
        if pred(x) {
            assert forall|i: int|
                0 <= i < prefix.filter(pred).len() implies prefix.filter(pred)[i].created_at
                <= x.created_at by {
                assert(prefix.filter(pred).contains(prefix.filter(pred)[i]));
                prefix.lemma_filter_contains_rev(pred, prefix.filter(pred)[i]);
                assert(prefix.contains(prefix.filter(pred)[i]));
                let k = choose|k: int|
                    0 <= k < prefix.len() && prefix[k] == prefix.filter(pred)[i];
                assert(s[k].created_at <= s[s.len() - 1].created_at);
            }
        }
    }
}

/// In a well-formed store the user with a given handle is unique: any
/// stored user carrying the handle is the one `user_view_by_handle`
/// denotes. Likewise for identifiers.
pub proof fn lemma_user_unique(s: Store, u: UserView)
    requires
        s.wf(),
        s.users_v().contains(u),
    ensures
        s.has_user_handle(u.username),
        s.user_view_by_handle(u.username) == u,
        s.has_user(u.id),
        s.user_view(u.id) == u,
{
    let i = choose|i: int| 0 <= i < s.users_v().len() && s.users_v()[i] == u;
    assert(s.users_v()[i].username == u.username);
    assert(s.users_v()[i].id == u.id);
    let j = choose|j: int|
        0 <= j < s.users_v().len() && s.users_v()[j].username == u.username;
    assert(j == i);
    let k = choose|k: int| 0 <= k < s.users_v().len() && s.users_v()[k].id == u.id;
    assert(k == i);
}

/// A nonempty author filter names an author with a stored tweet.
pub proof fn lemma_author_filter_nonempty(s: Seq<TweetView>, author: u64)
    requires
        s.filter(by_author(author)).len() > 0,
    ensures
        exists|i: int| 0 <= i < s.len() && (#[trigger] s[i]).author_id == author,
{
    let x = s.filter(by_author(author))[0];
    assert(s.filter(by_author(author)).contains(x));
    s.lemma_filter_contains_rev(by_author(author), x);
    s.lemma_filter_pred(by_author(author), 0);
    let i = choose|i: int| 0 <= i < s.len() && s[i] == x;
    assert(s[i].author_id == author);
}


/// In a well-formed store the tweet with a given identifier is unique:
/// any stored tweet carrying the identifier is the one `tweet_view`
/// denotes.
pub proof fn lemma_tweet_unique(s: Store, t: TweetView)
    requires
        s.wf(),
        s.tweets_v().contains(t),
    ensures
        s.has_tweet(t.id),
        s.tweet_view(t.id) == t,
{
    let i = choose|i: int| 0 <= i < s.tweets_v().len() && s.tweets_v()[i] == t;
    assert(s.tweets_v()[i].id == t.id);
    let j = choose|j: int| 0 <= j < s.tweets_v().len() && s.tweets_v()[j].id == t.id;
    assert(j == i);
}

/// Filtering a sequence of tweets with pairwise distinct identifiers
/// yields one with pairwise distinct identifiers.
pub proof fn lemma_filter_distinct_ids(s: Seq<TweetView>, pred: spec_fn(TweetView) -> bool)
    requires
        distinct_tweet_ids(s),
    ensures
        distinct_tweet_ids(s.filter(pred)),
    decreases s.len(),
{
    if s.len() > 0 {
        let x = s.last();
        let prefix = s.drop_last();
        assert(s =~= prefix.push(x));
        lemma_filter_distinct_ids(prefix, pred);
        prefix.lemma_filter_push(x, pred);
        if pred(x) {
            let f = prefix.filter(pred);
            assert forall|i: int| 0 <= i < f.len() implies f[i].id != x.id by {
                assert(f.contains(f[i]));
                prefix.lemma_filter_contains_rev(pred, f[i]);
                let k = choose|k: int| 0 <= k < prefix.len() && prefix[k] == f[i];
                assert(s[k].id != s[s.len() - 1].id);
            }
        }
    }
}

/// Two sequences of tweets, each with pairwise distinct identifiers and
/// with the same members, carry the same multiset of tweets.
pub proof fn lemma_same_members_same_multiset(s1: Seq<TweetView>, s2: Seq<TweetView>)
    requires
        distinct_tweet_ids(s1),
        distinct_tweet_ids(s2),
        forall|v: TweetView| s1.contains(v) <==> s2.contains(v),
    ensures
        s1.to_multiset() == s2.to_multiset(),
{
    broadcast use vstd::multiset::group_multiset_axioms;
    broadcast use vstd::seq_lib::group_to_multiset_ensures;

    lemma_distinct_ids_no_duplicates(s1);
    lemma_distinct_ids_no_duplicates(s2);
    s1.lemma_multiset_has_no_duplicates();
    s2.lemma_multiset_has_no_duplicates();
    assert forall|v: TweetView| s1.to_multiset().count(v) == s2.to_multiset().count(
        v,
    ) by {
        if s1.contains(v) {
            assert(s1.to_multiset().count(v) > 0);
            assert(s2.to_multiset().count(v) > 0);
        } else {
            assert(s1.to_multiset().count(v) == 0);
            assert(s2.to_multiset().count(v) == 0);
        }
    }
    assert(s1.to_multiset() =~= s2.to_multiset());
}

/// Distinct identifiers give distinct tweets.
proof fn lemma_distinct_ids_no_duplicates(s: Seq<TweetView>)
    requires
        distinct_tweet_ids(s),
    ensures
        s.no_duplicates(),
{
    assert forall|i: int, j: int|
        0 <= i < s.len() && 0 <= j < s.len() && i != j implies s[i] != s[j] by {
        if i < j {
            assert(s[i].id != s[j].id);
        } else {
            assert(s[j].id != s[i].id);
        }
    }
}

} // verus!
