//! The synchronization engine: serves reads from the local store, fills the
//! store from the remote origin on a miss, and keeps the referential
//! invariants of the archive. Every origin call the engine makes is
//! recorded in `calls`; every reference it had to give up on is recorded in
//! `gaps`.

use vstd::prelude::*;

use crate::origin::{by_author_since, Origin, OriginCall, OriginCallView};
use crate::records::{Tweet, TweetView, User, UserView};
use crate::store::{
    by_author, by_conversation, lemma_author_filter_nonempty, lemma_filter_distinct_ids,
    lemma_filter_sorted_asc, lemma_same_members_same_multiset, lemma_to_multiset_filter, lemma_tweet_id_set, lemma_tweet_unique,
    lemma_user_unique, matching_text, sorted_asc, sorted_desc, tweet_views, Store,
};
use crate::utils::{user_data_of, TweetData, TweetReferenceData};

verus! {

/// A referential dependency the engine had to give up on: the record it
/// needed was absent both locally and upstream.
#[derive(Clone, Copy, Debug, PartialEq, Eq, Structural)]
pub enum IntegrityGap {
    /// The author of a stored tweet could not be retrieved.
    MissingUser { user_id: u64 },
    /// A referenced tweet could not be retrieved; the reference edge from
    /// `source_tweet_id` to `referenced_tweet_id` was dropped.
    MissingTweet { source_tweet_id: u64, referenced_tweet_id: u64 },
}

/// The synchronization engine: the local store, the log of origin calls
/// made so far, and the log of integrity gaps encountered so far.
#[derive(Debug)]
pub struct Engine {
    pub store: Store,
    pub calls: Vec<OriginCall>,
    pub gaps: Vec<IntegrityGap>,
}

/// `s1` followed by more elements gives `s2`; every index of `s1` is
/// unchanged in `s2`.
proof fn lemma_prefix_index<A>(s1: Seq<A>, s2: Seq<A>)
    requires
        s1.is_prefix_of(s2),
    ensures
        forall|i: int| 0 <= i < s1.len() ==> s2[i] == s1[i],
{
    assert forall|i: int| 0 <= i < s1.len() implies s2[i] == s1[i] by {
        assert(s2.subrange(0, s1.len() as int)[i] == s2[i]);
    }
}

/// Prefixes compose: a prefix of a prefix is a prefix.
proof fn lemma_prefix_trans<A>(s1: Seq<A>, s2: Seq<A>, s3: Seq<A>)
    requires
        s1.is_prefix_of(s2),
        s2.is_prefix_of(s3),
    ensures
        s1.is_prefix_of(s3),
{
    lemma_prefix_index(s1, s2);
    lemma_prefix_index(s2, s3);
    assert(s3.subrange(0, s1.len() as int) =~= s1);
}

/// Growing the user table preserves every user lookup.
proof fn lemma_user_lookup_monotone(pre: Store, post: Store, u: UserView)
    requires
        post.users_v() == pre.users_v() || post.users_v() == pre.users_v().push(u),
    ensures
        forall|x: u64| pre.has_user(x) ==> post.has_user(x),
        forall|h: Seq<char>| pre.has_user_handle(h) ==> post.has_user_handle(h),
{
    assert forall|x: u64| pre.has_user(x) implies post.has_user(x) by {
        let i = choose|i: int|
            0 <= i < pre.users_v().len() && pre.users_v()[i].id == x;
        assert(post.users_v()[i].id == x);
    }
    assert forall|h: Seq<char>| pre.has_user_handle(h) implies post.has_user_handle(h) by {
        let i = choose|i: int|
            0 <= i < pre.users_v().len() && pre.users_v()[i].username == h;
        assert(post.users_v()[i].username == h);
    }
}

/// The engine invariant survives any change that only grows the user
/// table and leaves tweets, conversations, references and the gap log as
/// they were.
proof fn lemma_wf_after_user_growth(pre: Engine, post: Engine, u: UserView)
    requires
        pre.wf(),
        post.store.wf(),
        post.store.tweets_v() == pre.store.tweets_v(),
        post.store.convs_v() == pre.store.convs_v(),
        post.store.refs_v() == pre.store.refs_v(),
        post.gaps_v() == pre.gaps_v(),
        post.store.users_v() == pre.store.users_v() || post.store.users_v()
            == pre.store.users_v().push(u),
    ensures
        post.wf(),
{
    lemma_user_lookup_monotone(pre.store, post.store, u);
}

/// `t` is a tweet of `s` by `author` and none of `author`'s tweets in `s`
/// is newer.
pub open spec fn is_latest_of_author(s: Seq<TweetView>, author: u64, t: TweetView) -> bool {
    &&& s.contains(t)
    &&& t.author_id == author
    &&& forall|i: int|
        0 <= i < s.len() && (#[trigger] s[i]).author_id == author ==> s[i].created_at
            <= t.created_at
}

/// Any two latest tweets of one author share their creation time.
pub proof fn lemma_latest_share_created_at(s: Seq<TweetView>, author: u64, t1: TweetView, t2: TweetView)
    requires
        is_latest_of_author(s, author, t1),
        is_latest_of_author(s, author, t2),
    ensures
        t1.created_at == t2.created_at,
{
    let i = choose|i: int| 0 <= i < s.len() && s[i] == t1;
    let j = choose|j: int| 0 <= j < s.len() && s[j] == t2;
    assert(s[i].created_at <= t2.created_at);
    assert(s[j].created_at <= t1.created_at);
}

/// The tweet parts of a sequence of tweet–author pairs.
pub open spec fn tweets_of_data(s: Seq<TweetData>) -> Seq<TweetView> {
    s.map_values(|d: TweetData| d@.tweet)
}

/// The tweets whose author is stored in `s`.
pub open spec fn with_author_in(s: Store) -> spec_fn(TweetView) -> bool {
    |t: TweetView| s.has_user(t.author_id)
}

/// The reference edge that reference `j` of tweet `t` denotes.
pub open spec fn edge_of(t: TweetView, j: int) -> TweetReferenceData {
    TweetReferenceData {
        reference_type: t.referenced_tweets[j].kind,
        source_tweet_id: t.id,
        reference_tweet_id: t.referenced_tweets[j].id,
    }
}

/// Whether `x` occurs in `v`.
fn contains_id(v: &Vec<u64>, x: u64) -> (r: bool)
    ensures
        r == v@.contains(x),
{
    let mut i: usize = 0;
    while i < v.len()
        invariant
            i <= v@.len(),
            forall|j: int| 0 <= j < i ==> v@[j] != x,
        decreases v@.len() - i,
    {
        if v[i] == x {
            return true;
        }
        i = i + 1;
    }
    false
}

/// `grown_from` composes.
proof fn lemma_grown_trans(a: Engine, b: Engine, c: Engine)
    requires
        b.grown_from(a),
        c.grown_from(b),
    ensures
        c.grown_from(a),
{
    lemma_prefix_trans(a.store.tweets_v(), b.store.tweets_v(), c.store.tweets_v());
    lemma_prefix_trans(a.store.users_v(), b.store.users_v(), c.store.users_v());
    lemma_prefix_trans(a.store.convs_v(), b.store.convs_v(), c.store.convs_v());
    lemma_prefix_trans(a.store.refs_v(), b.store.refs_v(), c.store.refs_v());
    lemma_prefix_trans(a.calls_v(), b.calls_v(), c.calls_v());
    lemma_prefix_trans(a.gaps_v(), b.gaps_v(), c.gaps_v());
}

/// Growth preserves every lookup: whatever was stored or logged in `pre`
/// is still found in `post`.
proof fn lemma_grown_lookups(pre: Engine, post: Engine)
    requires
        post.grown_from(pre),
    ensures
        forall|x: u64| pre.store.has_tweet(x) ==> post.store.has_tweet(x),
        forall|x: u64| pre.store.has_user(x) ==> post.store.has_user(x),
        forall|h: Seq<char>| pre.store.has_user_handle(h) ==> post.store.has_user_handle(h),
        forall|x: u64| pre.store.has_conversation(x) ==> post.store.has_conversation(x),
        forall|x: u64| pre.user_gap_logged(x) ==> post.user_gap_logged(x),
        forall|a: u64, b: u64|
            pre.store.has_reference_to(a, b) ==> post.store.has_reference_to(a, b),
        forall|d: TweetReferenceData| pre.store.has_reference(d) ==> post.store.has_reference(d),
{
    lemma_prefix_index(pre.store.tweets_v(), post.store.tweets_v());
    lemma_prefix_index(pre.store.users_v(), post.store.users_v());
    lemma_prefix_index(pre.store.convs_v(), post.store.convs_v());
    lemma_prefix_index(pre.store.refs_v(), post.store.refs_v());
    lemma_prefix_index(pre.gaps_v(), post.gaps_v());
    assert forall|x: u64| pre.store.has_tweet(x) implies post.store.has_tweet(x) by {
        let i = choose|i: int|
            0 <= i < pre.store.tweets_v().len() && pre.store.tweets_v()[i].id == x;
        assert(post.store.tweets_v()[i].id == x);
    }
    assert forall|x: u64| pre.store.has_user(x) implies post.store.has_user(x) by {
        let i = choose|i: int|
            0 <= i < pre.store.users_v().len() && pre.store.users_v()[i].id == x;
        assert(post.store.users_v()[i].id == x);
    }
    assert forall|h: Seq<char>| pre.store.has_user_handle(h) implies post.store.has_user_handle(
        h,
    ) by {
        let i = choose|i: int|
            0 <= i < pre.store.users_v().len() && pre.store.users_v()[i].username == h;
        assert(post.store.users_v()[i].username == h);
    }
    assert forall|x: u64| pre.store.has_conversation(x) implies post.store.has_conversation(
        x,
    ) by {
        let i = choose|i: int|
            0 <= i < pre.store.convs_v().len() && pre.store.convs_v()[i] == x;
        assert(post.store.convs_v()[i] == x);
    }
    assert forall|x: u64| pre.user_gap_logged(x) implies post.user_gap_logged(x) by {
        let g = IntegrityGap::MissingUser { user_id: x };
        let i = choose|i: int| 0 <= i < pre.gaps_v().len() && pre.gaps_v()[i] == g;
        assert(post.gaps_v()[i] == g);
        assert(post.gaps_v().contains(g));
    }
    assert forall|d: TweetReferenceData| pre.store.has_reference(d) implies post
        .store.has_reference(d) by {
        let i = choose|i: int| 0 <= i < pre.store.refs_v().len() && pre.store.refs_v()[i] == d;
        assert(post.store.refs_v()[i] == d);
    }
    assert forall|a: u64, b: u64| pre.store.has_reference_to(a, b) implies post
        .store.has_reference_to(a, b) by {
        let i = choose|i: int|
            0 <= i < pre.store.refs_v().len() && pre.store.refs_v()[i].source_tweet_id == a
                && pre.store.refs_v()[i].reference_tweet_id == b;
        assert(post.store.refs_v()[i] == pre.store.refs_v()[i]);
    }
}

/// The engine invariant survives growth, provided each record added since
/// `pre` is itself closed.
proof fn lemma_wf_growth(pre: Engine, post: Engine)
    requires
        pre.wf(),
        post.store.wf(),
        post.grown_from(pre),
        forall|i: int|
            pre.store.tweets_v().len() <= i < post.store.tweets_v().len() ==> post
                .store.has_conversation(
                (#[trigger] post.store.tweets_v()[i]).conversation_id,
            ) && (post.store.has_user(post.store.tweets_v()[i].author_id)
                || post.user_gap_logged(post.store.tweets_v()[i].author_id)),
        forall|i: int|
            pre.store.refs_v().len() <= i < post.store.refs_v().len() ==> post.store.has_tweet(
                (#[trigger] post.store.refs_v()[i]).source_tweet_id,
            ) && post.store.has_tweet(post.store.refs_v()[i].reference_tweet_id),
    ensures
        post.wf(),
{
    lemma_grown_lookups(pre, post);
    lemma_prefix_index(pre.store.tweets_v(), post.store.tweets_v());
    lemma_prefix_index(pre.store.refs_v(), post.store.refs_v());
    assert forall|i: int| 0 <= i < post.store.tweets_v().len() implies post
        .store.has_conversation((#[trigger] post.store.tweets_v()[i]).conversation_id) && (
    post.store.has_user(post.store.tweets_v()[i].author_id) || post.user_gap_logged(
        post.store.tweets_v()[i].author_id,
    )) by {
        if i < pre.store.tweets_v().len() {
            assert(pre.store.tweets_v()[i] == post.store.tweets_v()[i]);
            assert(pre.store.has_conversation(pre.store.tweets_v()[i].conversation_id));
        }
    }
    assert forall|i: int| 0 <= i < post.store.refs_v().len() implies post.store.has_tweet(
        (#[trigger] post.store.refs_v()[i]).source_tweet_id,
    ) && post.store.has_tweet(post.store.refs_v()[i].reference_tweet_id) by {
        if i < pre.store.refs_v().len() {
            assert(pre.store.refs_v()[i] == post.store.refs_v()[i]);
            assert(pre.store.has_tweet(pre.store.refs_v()[i].source_tweet_id));
            assert(pre.store.has_tweet(pre.store.refs_v()[i].reference_tweet_id));
        }
    }
}

/// Storing more tweets can only shrink what resolution still has to reach.
proof fn lemma_measure_mono(pre: Engine, post: Engine, origin: Origin, id: u64)
    requires
        forall|x: u64| pre.store.has_tweet(x) ==> post.store.has_tweet(x),
    ensures
        post.resolve_measure(origin, id) <= pre.resolve_measure(origin, id),
{
    broadcast use vstd::set::group_set_axioms;

    let o = origin.tweet_ids();
    let a = o.difference(pre.store.tweet_ids().insert(id));
    let b = o.difference(post.store.tweet_ids().insert(id));
    assert forall|x: u64| b.contains(x) implies a.contains(x) by {
        lemma_tweet_id_set(origin.tweets_v(), x);
        lemma_tweet_id_set(pre.store.tweets_v(), x);
        lemma_tweet_id_set(post.store.tweets_v(), x);
        assert(!post.store.tweet_ids().contains(x));
        assert(!post.store.has_tweet(x));
        assert(pre.store.has_tweet(x) ==> post.store.has_tweet(x));
        assert(!pre.store.tweet_ids().contains(x));
    }
    assert forall|x: u64| a.contains(x) implies o.contains(x) by {}
    vstd::set_lib::lemma_len_subset(a, o);
    vstd::set_lib::lemma_len_subset(b, a);
}

/// Fetching an unstored origin tweet strictly shrinks what resolution
/// still has to reach: the measure of the fetched target is below the
/// measure of the tweet under resolution.
proof fn lemma_measure_decreases(now: Engine, origin: Origin, t_id: u64, target: u64)
    requires
        now.store.has_tweet(t_id),
        !now.store.has_tweet(target),
        origin.has_tweet(target),
    ensures
        now.resolve_measure(origin, target) < now.resolve_measure(origin, t_id),
{
    broadcast use vstd::set::group_set_axioms;

    let o = origin.tweet_ids();
    let stored = now.store.tweet_ids();
    let a = o.difference(stored.insert(t_id));
    let b = o.difference(stored.insert(target));
    lemma_tweet_id_set(origin.tweets_v(), target);
    lemma_tweet_id_set(now.store.tweets_v(), target);
    lemma_tweet_id_set(now.store.tweets_v(), t_id);
    assert(a.contains(target));
    assert forall|x: u64| b.contains(x) implies a.remove(target).contains(x) by {
        lemma_tweet_id_set(origin.tweets_v(), x);
        lemma_tweet_id_set(now.store.tweets_v(), x);
    }
    assert forall|x: u64| a.contains(x) implies o.contains(x) by {}
    vstd::set_lib::lemma_len_subset(a, o);
    vstd::set_lib::lemma_len_subset(b, a.remove(target));
    assert(a.remove(target).len() + 1 == a.len());
}


/// After a storing pass whose fresh records all come from the origin (or
/// from inputs that are themselves origin records), a newly stored
/// identifier is stored with exactly the origin's record for it.
proof fn lemma_new_record_is_origin(
    pre: Engine,
    post: Engine,
    origin: Origin,
    inputs: Seq<Tweet>,
    x: u64,
)
    requires
        origin.wf(),
        post.store.wf(),
        post.grown_from(pre),
        forall|i: int|
            0 <= i < inputs.len() ==> origin.tweets_v().contains((#[trigger] inputs[i])@),
        forall|k: int|
            pre.store.tweets_v().len() <= k < post.store.tweets_v().len()
                ==> origin.tweets_v().contains(#[trigger] post.store.tweets_v()[k]) || exists|
            i: int|
                0 <= i < inputs.len() && post.store.tweets_v()[k] == (#[trigger] inputs[i])@,
        !pre.store.has_tweet(x),
        post.store.has_tweet(x),
        origin.has_tweet(x),
    ensures
        post.store.tweets_v().contains(origin.tweet_view(x)),
        post.store.tweet_view(x) == origin.tweet_view(x),
{
    lemma_prefix_index(pre.store.tweets_v(), post.store.tweets_v());
    let k = choose|k: int|
        0 <= k < post.store.tweets_v().len() && post.store.tweets_v()[k].id == x;
    assert(k >= pre.store.tweets_v().len()) by {
        if k < pre.store.tweets_v().len() {
            assert(pre.store.tweets_v()[k].id == x);
        }
    }
    let v = post.store.tweets_v()[k];
    assert(origin.tweets_v().contains(v));
    let m = choose|m: int| 0 <= m < origin.tweets_v().len() && origin.tweets_v()[m] == v;
    let n = choose|n: int| 0 <= n < origin.tweets_v().len() && origin.tweets_v()[n].id == x;
    assert(m == n);
    assert(v == origin.tweet_view(x));
    assert(post.store.tweets_v().contains(v));
    lemma_tweet_unique(post.store, v);
}

impl Engine {
    /// The origin calls made so far, as mathematical values, in order.
    pub open spec fn calls_v(self) -> Seq<OriginCallView> {
        self.calls@.map_values(|c: OriginCall| c@)
    }

    /// The integrity gaps encountered so far, in order.
    pub open spec fn gaps_v(self) -> Seq<IntegrityGap> {
        self.gaps@
    }

    /// Whether the failure to retrieve user `user_id` has been recorded.
    pub open spec fn user_gap_logged(self, user_id: u64) -> bool {
        self.gaps_v().contains(IntegrityGap::MissingUser { user_id })
    }

    /// Whether the dropped reference edge from `source_tweet_id` to
    /// `referenced_tweet_id` has been recorded.
    pub open spec fn reference_gap_logged(self, source_tweet_id: u64, referenced_tweet_id: u64) -> bool {
        self.gaps_v().contains(
            IntegrityGap::MissingTweet { source_tweet_id, referenced_tweet_id },
        )
    }

    /// The engine's invariant. The store is well formed and referentially
    /// closed: every stored tweet's conversation has an existence record;
    /// every stored tweet's author is stored, unless the failure to
    /// retrieve the author was recorded; and every stored reference edge
    /// connects two stored tweets.
    pub open spec fn wf(self) -> bool {
        &&& self.store.wf()
        &&& forall|i: int|
            0 <= i < self.store.tweets_v().len() ==> self.store.has_conversation(
                #[trigger] self.store.tweets_v()[i].conversation_id,
            )
        &&& forall|i: int|
            0 <= i < self.store.tweets_v().len() ==> self.store.has_user(
                #[trigger] self.store.tweets_v()[i].author_id,
            ) || self.user_gap_logged(self.store.tweets_v()[i].author_id)
        &&& forall|i: int|
            0 <= i < self.store.refs_v().len() ==> self.store.has_tweet(
                (#[trigger] self.store.refs_v()[i]).source_tweet_id,
            ) && self.store.has_tweet(self.store.refs_v()[i].reference_tweet_id)
    }

    /// The store contents are unchanged between `pre` and `self`.
    pub open spec fn store_unchanged(self, pre: Engine) -> bool {
        &&& self.store.tweets_v() == pre.store.tweets_v()
        &&& self.store.users_v() == pre.store.users_v()
        &&& self.store.convs_v() == pre.store.convs_v()
        &&& self.store.refs_v() == pre.store.refs_v()
    }

    /// The call log of `pre` is a prefix of the call log of `self`: calls
    /// are only ever appended.
    pub open spec fn calls_extended(self, pre: Engine) -> bool {
        pre.calls_v().is_prefix_of(self.calls_v())
    }

    /// The gap log of `pre` is a prefix of the gap log of `self`.
    pub open spec fn gaps_extended(self, pre: Engine) -> bool {
        pre.gaps_v().is_prefix_of(self.gaps_v())
    }

    /// Records only accumulate: everything `pre` held — store records, call
    /// log, gap log — stands unchanged at its place in `self`.
    pub open spec fn grown_from(self, pre: Engine) -> bool {
        &&& pre.store.tweets_v().is_prefix_of(self.store.tweets_v())
        &&& pre.store.users_v().is_prefix_of(self.store.users_v())
        &&& pre.store.convs_v().is_prefix_of(self.store.convs_v())
        &&& pre.store.refs_v().is_prefix_of(self.store.refs_v())
        &&& pre.calls_v().is_prefix_of(self.calls_v())
        &&& pre.gaps_v().is_prefix_of(self.gaps_v())
    }

    /// Reference `j` of tweet `t` is settled: its edge is stored, or its
    /// target is absent upstream, remains unstored, and the dropped edge
    /// is on record as an integrity gap.
    pub open spec fn reference_settled(self, origin: Origin, t: TweetView, j: int) -> bool {
        ||| self.store.has_reference(edge_of(t, j))
        ||| {
            &&& !origin.has_tweet(t.referenced_tweets[j].id)
            &&& !self.store.has_tweet(t.referenced_tweets[j].id)
            &&& self.reference_gap_logged(t.id, t.referenced_tweets[j].id)
        }
    }

    /// How far the resolution of tweet `id` can still reach: the origin
    /// tweets not yet stored, not counting `id` itself.
    pub open spec fn resolve_measure(self, origin: Origin, id: u64) -> nat {
        origin.tweet_ids().difference(self.store.tweet_ids().insert(id)).len()
    }

    /// An engine over an empty store, with empty logs.
    pub fn new() -> (r: Engine)
        ensures
            r.wf(),
            r.store.tweets_v().len() == 0,
            r.store.users_v().len() == 0,
            r.store.convs_v().len() == 0,
            r.store.refs_v().len() == 0,
            r.calls_v().len() == 0,
            r.gaps_v().len() == 0,
    {
        Engine { store: Store::new(), calls: Vec::new(), gaps: Vec::new() }
    }

    /// Records that the origin call `c` is being made.
    fn log_call(&mut self, c: OriginCall)
        ensures
            final(self).store == old(self).store,
            final(self).gaps_v() == old(self).gaps_v(),
            final(self).calls_v() == old(self).calls_v().push(c@),
            final(self).calls_extended(*old(self)),
            old(self).wf() ==> final(self).wf(),
    {
        let ghost prev = self.calls_v();
        self.calls.push(c);
        proof {
            assert(self.calls_v() =~= prev.push(c@));
            assert(prev.is_prefix_of(self.calls_v()));
        }
    }

    /// Records the integrity gap `g`.
    fn log_gap(&mut self, g: IntegrityGap)
        ensures
            final(self).store == old(self).store,
            final(self).calls_v() == old(self).calls_v(),
            final(self).gaps_v() == old(self).gaps_v().push(g),
            final(self).gaps_extended(*old(self)),
            forall|id: u64| old(self).user_gap_logged(id) ==> final(self).user_gap_logged(id),
            g matches IntegrityGap::MissingUser { user_id } ==> final(self).user_gap_logged(
                user_id,
            ),
            g matches IntegrityGap::MissingTweet { source_tweet_id, referenced_tweet_id }
                ==> final(self).reference_gap_logged(source_tweet_id, referenced_tweet_id),
            old(self).wf() ==> final(self).wf(),
    {
        let ghost prev = self.gaps_v();
        self.gaps.push(g);
        proof {
            assert(self.gaps_v() =~= prev.push(g));
            assert(prev.is_prefix_of(self.gaps_v()));
            assert(forall|x: IntegrityGap| prev.contains(x) ==> self.gaps_v().contains(x));
            assert(self.gaps_v().contains(g)) by {
                assert(self.gaps_v()[prev.len() as int] == g);
            }
        }
    }

    /// Serves user `id` from the store, or fetches it from the origin and
    /// stores it. Nothing happens — in particular no origin call — when the
    /// user is already stored; an absent user is reported with `None` and
    /// changes nothing but the call log.
    pub fn load_user_from_id(&mut self, origin: &Origin, id: u64) -> (r: Option<User>)
        requires
            old(self).wf(),
            origin.wf(),
        ensures
            final(self).wf(),
            final(self).store.tweets_v() == old(self).store.tweets_v(),
            final(self).store.convs_v() == old(self).store.convs_v(),
            final(self).store.refs_v() == old(self).store.refs_v(),
            final(self).gaps_v() == old(self).gaps_v(),
            final(self).calls_extended(*old(self)),
            old(self).store.has_user(id) ==> {
                &&& final(self).store_unchanged(*old(self))
                &&& final(self).calls_v() == old(self).calls_v()
                &&& r matches Some(u) && u@ == old(self).store.user_view(id)
            },
            !old(self).store.has_user(id) ==> final(self).calls_v() == old(self).calls_v().push(OriginCallView::FetchUserById(id)),
            !old(self).store.has_user(id) && origin.has_user(id) ==> {
                &&& r matches Some(u) && u@ == origin.user_view(id)
                &&& final(self).store.has_user(id) || final(self).store.has_user_handle(
                    origin.user_view(id).username,
                )
            },
            !old(self).store.has_user(id) && !origin.has_user(id) ==> r is None && final(self).store.users_v() == old(self).store.users_v(),
            final(self).store.users_v() == old(self).store.users_v() || final(self).store.users_v() == old(self).store.users_v().push(origin.user_view(id)),
            forall|x: u64| old(self).store.has_user(x) ==> final(self).store.has_user(x),
            forall|h: Seq<char>|
                old(self).store.has_user_handle(h) ==> final(self).store.has_user_handle(h),
    {
        if let Some(u) = self.store.user_by_id(id) {
            return Some(u);
        }
        self.log_call(OriginCall::FetchUserById(id));
        match origin.get_user_by_id(id) {
            Some(u) => {
                let result = u.clone();
                let ghost uv = u@;
                self.store.insert_user(u);
                proof {
                    lemma_user_lookup_monotone(old(self).store, self.store, uv);
                    lemma_wf_after_user_growth(*old(self), *self, uv);
                }
                Some(result)
            },
            None => None,
        }
    }

    /// Serves the user with handle `twitter_handle` from the store, or
    /// fetches it from the origin and stores it.
    pub fn load_user_from_twitter_handle(&mut self, origin: &Origin, twitter_handle: &str) -> (r:
        Option<User>)
        requires
            old(self).wf(),
            origin.wf(),
        ensures
            final(self).wf(),
            final(self).store.tweets_v() == old(self).store.tweets_v(),
            final(self).store.convs_v() == old(self).store.convs_v(),
            final(self).store.refs_v() == old(self).store.refs_v(),
            final(self).gaps_v() == old(self).gaps_v(),
            final(self).calls_extended(*old(self)),
            old(self).store.has_user_handle(twitter_handle@) ==> {
                &&& final(self).store_unchanged(*old(self))
                &&& final(self).calls_v() == old(self).calls_v()
                &&& r matches Some(u) && u@ == old(self).store.user_view_by_handle(
                    twitter_handle@,
                )
            },
            !old(self).store.has_user_handle(twitter_handle@) ==> final(self).calls_v() == old(self).calls_v().push(OriginCallView::FetchUserByHandle(twitter_handle@)),
            !old(self).store.has_user_handle(twitter_handle@) && origin.has_user_handle(
                twitter_handle@,
            ) ==> {
                &&& r matches Some(u) && u@ == origin.user_view_by_handle(twitter_handle@)
                &&& final(self).store.has_user_handle(twitter_handle@) || final(self).store.has_user(origin.user_view_by_handle(twitter_handle@).id)
            },
            !old(self).store.has_user_handle(twitter_handle@) && !origin.has_user_handle(
                twitter_handle@,
            ) ==> r is None && final(self).store.users_v() == old(self).store.users_v(),
            final(self).store.users_v() == old(self).store.users_v() || final(self).store.users_v() == old(self).store.users_v().push(
                origin.user_view_by_handle(twitter_handle@),
            ),
            !old(self).store.has_user_handle(twitter_handle@) && origin.has_user_handle(
                twitter_handle@,
            ) && !old(self).store.has_user(origin.user_view_by_handle(twitter_handle@).id)
                ==> final(self).store.users_v() == old(self).store.users_v().push(
                origin.user_view_by_handle(twitter_handle@),
            ),
            !old(self).store.has_user_handle(twitter_handle@) && old(self).store.has_user(
                origin.user_view_by_handle(twitter_handle@).id,
            ) ==> final(self).store.users_v() == old(self).store.users_v(),
            forall|x: u64| old(self).store.has_user(x) ==> final(self).store.has_user(x),
            forall|h: Seq<char>|
                old(self).store.has_user_handle(h) ==> final(self).store.has_user_handle(h),
    {
        if let Some(u) = self.store.user_by_twitter_handle(twitter_handle) {
            return Some(u);
        }
        self.log_call(OriginCall::FetchUserByHandle(String::from_str(twitter_handle)));
        match origin.get_user_by_twitter_handle(twitter_handle) {
            Some(u) => {
                let result = u.clone();
                let ghost uv = u@;
                self.store.insert_user(u);
                proof {
                    lemma_user_lookup_monotone(old(self).store, self.store, uv);
                    lemma_wf_after_user_growth(*old(self), *self, uv);
                }
                Some(result)
            },
            None => None,
        }
    }

    /// Stores user `user`; a duplicate identifier or handle is a silent
    /// no-op.
    pub fn store_user(&mut self, user: User)
        requires
            old(self).wf(),
        ensures
            final(self).wf(),
            final(self).store.tweets_v() == old(self).store.tweets_v(),
            final(self).store.convs_v() == old(self).store.convs_v(),
            final(self).store.refs_v() == old(self).store.refs_v(),
            final(self).calls_v() == old(self).calls_v(),
            final(self).gaps_v() == old(self).gaps_v(),
            final(self).store.has_user(user@.id) || final(self).store.has_user_handle(
                user@.username,
            ),
            old(self).store.has_user(user@.id) || old(self).store.has_user_handle(user@.username)
                ==> final(self).store.users_v() == old(self).store.users_v(),
            !(old(self).store.has_user(user@.id) || old(self).store.has_user_handle(
                user@.username,
            )) ==> final(self).store.users_v() == old(self).store.users_v().push(user@),
    {
        let ghost uv = user@;
        self.store.insert_user(user);
        proof {
            lemma_user_lookup_monotone(old(self).store, self.store, uv);
            lemma_wf_after_user_growth(*old(self), *self, uv);
        }
    }

    /// Stores tweet `tweet`, first securing its referential dependencies:
    /// the author is served from the store or fetched from the origin — a
    /// failure to retrieve it is recorded as an integrity gap — and the
    /// conversation gets an existence record. A tweet whose identifier is
    /// already stored leaves the stored tweets unchanged. The tweet's
    /// outgoing references are not resolved here.
    pub fn store_tweet(&mut self, origin: &Origin, tweet: &Tweet)
        requires
            old(self).wf(),
            origin.wf(),
        ensures
            final(self).wf(),
            final(self).grown_from(*old(self)),
            final(self).store.has_tweet(tweet@.id),
            old(self).store.has_tweet(tweet@.id) ==> final(self).store.tweets_v() == old(self).store.tweets_v(),
            !old(self).store.has_tweet(tweet@.id) ==> final(self).store.tweets_v() == old(self).store.tweets_v().push(tweet@),
            forall|x: u64|
                final(self).store.has_tweet(x) <==> old(self).store.has_tweet(x) || x
                    == tweet@.id,
            final(self).store.refs_v() == old(self).store.refs_v(),
            final(self).store.has_conversation(tweet@.conversation_id),
            old(self).store.has_user(tweet@.author_id) ==> {
                &&& final(self).calls_v() == old(self).calls_v()
                &&& final(self).gaps_v() == old(self).gaps_v()
                &&& final(self).store.users_v() == old(self).store.users_v()
            },
            !old(self).store.has_user(tweet@.author_id) ==> final(self).calls_v() == old(self).calls_v().push(OriginCallView::FetchUserById(tweet@.author_id)),
            !origin.has_user(tweet@.author_id) ==> final(self).store.users_v() == old(self).store.users_v(),
            final(self).store.users_v() == old(self).store.users_v() || final(self).store.users_v()
                == old(self).store.users_v().push(origin.user_view(tweet@.author_id)),
            final(self).store.has_user(tweet@.author_id) || final(self).user_gap_logged(
                tweet@.author_id,
            ),
    {
        let ghost pre = *self;
        let author_id = tweet.author_id;
        let conversation_id = tweet.conversation_id;
        self.load_user_from_id(origin, author_id);
        if !self.store.does_user_exist(author_id) {
            self.log_gap(IntegrityGap::MissingUser { user_id: author_id });
        }
        let ghost mid = *self;
        proof {
            assert(mid.grown_from(pre)) by {
                assert(pre.store.tweets_v().is_prefix_of(mid.store.tweets_v()));
                assert(pre.store.users_v().is_prefix_of(mid.store.users_v())) by {
                    if mid.store.users_v() != pre.store.users_v() {
                        assert(mid.store.users_v() == pre.store.users_v().push(
                            origin.user_view(author_id),
                        ));
                        assert(mid.store.users_v().subrange(
                            0,
                            pre.store.users_v().len() as int,
                        ) =~= pre.store.users_v());
                    }
                }
                assert(pre.store.convs_v().is_prefix_of(mid.store.convs_v()));
                assert(pre.store.refs_v().is_prefix_of(mid.store.refs_v()));
                assert(pre.calls_v().is_prefix_of(mid.calls_v()));
                assert(pre.gaps_v().is_prefix_of(mid.gaps_v())) by {
                    if mid.gaps_v() != pre.gaps_v() {
                        assert(mid.gaps_v().subrange(0, pre.gaps_v().len() as int)
                            =~= pre.gaps_v());
                    }
                }
            }
        }
        self.store.insert_conversation(conversation_id);
        self.store.insert_tweet(tweet.clone());
        proof {
            let post = *self;
            assert(post.grown_from(mid)) by {
                if post.store.convs_v() != mid.store.convs_v() {
                    assert(post.store.convs_v().subrange(0, mid.store.convs_v().len() as int)
                        =~= mid.store.convs_v());
                }
                if post.store.tweets_v() != mid.store.tweets_v() {
                    assert(post.store.tweets_v().subrange(
                        0,
                        mid.store.tweets_v().len() as int,
                    ) =~= mid.store.tweets_v());
                }
            }
            lemma_grown_trans(pre, mid, post);
            lemma_grown_lookups(pre, post);
            lemma_grown_lookups(mid, post);
            assert forall|x: u64|
                post.store.has_tweet(x) implies pre.store.has_tweet(x) || x == tweet@.id by {
                if post.store.tweets_v() == pre.store.tweets_v().push(tweet@) {
                    let i = choose|i: int|
                        0 <= i < post.store.tweets_v().len() && post.store.tweets_v()[i].id
                            == x;
                    if i < pre.store.tweets_v().len() {
                        assert(pre.store.tweets_v()[i].id == x);
                    }
                }
            }
            lemma_wf_growth(pre, post);
        }
    }

    /// Stores tweet `tweet` and resolves its outgoing references, as one
    /// resolution pass: the author and the conversation-existence record
    /// are secured, the tweet is stored, and then each referenced tweet is
    /// resolved the same way — recursively — before its reference edge is
    /// written. A referenced tweet that the origin reports absent is
    /// dropped: its edge is not written and the gap is recorded; every
    /// other reference ends with its edge stored.
    pub fn store_tweet_with_references(&mut self, origin: &Origin, tweet: &Tweet)
        requires
            old(self).wf(),
            origin.wf(),
        ensures
            final(self).wf(),
            final(self).grown_from(*old(self)),
            final(self).store.has_tweet(tweet@.id),
            !old(self).store.has_tweet(tweet@.id) ==> final(self).store.tweets_v().contains(
                tweet@,
            ) && final(self).store.tweet_view(tweet@.id) == tweet@,
            forall|x: u64|
                final(self).store.has_tweet(x) ==> old(self).store.has_tweet(x) || x
                    == tweet@.id || origin.has_tweet(x),
            forall|i: int|
                old(self).store.tweets_v().len() <= i < final(self).store.tweets_v().len()
                    ==> (#[trigger] final(self).store.tweets_v()[i]) == tweet@
                    || origin.tweets_v().contains(final(self).store.tweets_v()[i]),
            forall|i: int|
                old(self).store.users_v().len() <= i < final(self).store.users_v().len()
                    ==> origin.users_v().contains(#[trigger] final(self).store.users_v()[i]),
            forall|j: int|
                0 <= j < tweet@.referenced_tweets.len() ==> final(self).reference_settled(
                    *origin,
                    tweet@,
                    j,
                ),
    {
        let mut visited: Vec<u64> = Vec::new();
        self.resolve_tweet(origin, tweet, &mut visited);
    }

    /// One step of the resolution pass: stores `tweet` with its
    /// dependencies, then walks its references depth-first. `visited`
    /// holds the identifiers already under resolution in this pass; an
    /// identifier in it is never re-entered, which — besides the stored-set
    /// guard — keeps a cycle in the origin's reference graph from being
    /// walked twice.
    fn resolve_tweet(&mut self, origin: &Origin, tweet: &Tweet, visited: &mut Vec<u64>)
        requires
            old(self).wf(),
            origin.wf(),
            forall|k: int|
                0 <= k < old(visited)@.len() ==> old(self).store.has_tweet(
                    #[trigger] old(visited)@[k],
                ),
        ensures
            final(self).wf(),
            final(self).grown_from(*old(self)),
            final(self).store.has_tweet(tweet@.id),
            !old(self).store.has_tweet(tweet@.id) ==> final(self).store.tweets_v().contains(
                tweet@,
            ) && final(self).store.tweet_view(tweet@.id) == tweet@,
            forall|x: u64|
                final(self).store.has_tweet(x) ==> old(self).store.has_tweet(x) || x
                    == tweet@.id || origin.has_tweet(x),
            forall|i: int|
                old(self).store.tweets_v().len() <= i < final(self).store.tweets_v().len()
                    ==> (#[trigger] final(self).store.tweets_v()[i]) == tweet@
                    || origin.tweets_v().contains(final(self).store.tweets_v()[i]),
            forall|i: int|
                old(self).store.users_v().len() <= i < final(self).store.users_v().len()
                    ==> origin.users_v().contains(#[trigger] final(self).store.users_v()[i]),
            forall|j: int|
                0 <= j < tweet@.referenced_tweets.len() ==> final(self).reference_settled(
                    *origin,
                    tweet@,
                    j,
                ),
            forall|k: int|
                0 <= k < final(visited)@.len() ==> final(self).store.has_tweet(
                    #[trigger] final(visited)@[k],
                ),
        decreases old(self).resolve_measure(*origin, tweet@.id),
    {
        self.store_tweet(origin, tweet);
        let ghost after_insert = *self;
        proof {
            lemma_grown_lookups(*old(self), after_insert);
            if !old(self).store.has_tweet(tweet@.id) {
                assert(after_insert.store.tweets_v().last() == tweet@);
                assert(after_insert.store.tweets_v().contains(tweet@));
            }
            if origin.has_user(tweet@.author_id) {
                let k = choose|k: int|
                    0 <= k < origin.users_v().len() && origin.users_v()[k].id
                        == tweet@.author_id;
                assert(origin.users_v().contains(origin.users_v()[k]));
            }
        }
        visited.push(tweet.id);
        let mut i: usize = 0;
        while i < tweet.referenced_tweets.len()
            invariant
                origin.wf(),
                self.wf(),
                i <= tweet.referenced_tweets@.len(),
                self.store.has_tweet(tweet@.id),
                self.grown_from(*old(self)),
                !old(self).store.has_tweet(tweet@.id) ==> self.store.tweets_v().contains(
                    tweet@,
                ),
                forall|x: u64|
                    self.store.has_tweet(x) ==> old(self).store.has_tweet(x) || x == tweet@.id
                        || origin.has_tweet(x),
                forall|i2: int|
                    old(self).store.tweets_v().len() <= i2 < self.store.tweets_v().len()
                        ==> (#[trigger] self.store.tweets_v()[i2]) == tweet@
                        || origin.tweets_v().contains(self.store.tweets_v()[i2]),
                forall|i2: int|
                    old(self).store.users_v().len() <= i2 < self.store.users_v().len()
                        ==> origin.users_v().contains(#[trigger] self.store.users_v()[i2]),
                forall|k: int|
                    0 <= k < visited@.len() ==> self.store.has_tweet(#[trigger] visited@[k]),
                forall|j: int|
                    0 <= j < i ==> self.store.has_reference(edge_of(tweet@, j)) || {
                        &&& !origin.has_tweet(tweet@.referenced_tweets[j].id)
                        &&& !old(self).store.has_tweet(tweet@.referenced_tweets[j].id)
                        &&& tweet@.referenced_tweets[j].id != tweet@.id
                        &&& self.reference_gap_logged(
                            tweet@.id,
                            tweet@.referenced_tweets[j].id,
                        )
                    },
            decreases tweet.referenced_tweets@.len() - i,
        {
            let reference = tweet.referenced_tweets[i];
            let target = reference.id;
            let ghost loop_pre = *self;
            if self.store.does_tweet_exist(target) {
                let edge = TweetReferenceData::from_referenced_tweet(tweet.id, &reference);
                self.store.insert_tweet_reference(edge);
                proof {
                    let now = *self;
                    assert(now.grown_from(loop_pre)) by {
                        if now.store.refs_v() != loop_pre.store.refs_v() {
                            assert(now.store.refs_v().subrange(
                                0,
                                loop_pre.store.refs_v().len() as int,
                            ) =~= loop_pre.store.refs_v());
                        }
                    }
                    lemma_grown_trans(*old(self), loop_pre, now);
                    lemma_grown_lookups(loop_pre, now);
                    lemma_wf_growth(loop_pre, now);
                    assert(edge == edge_of(tweet@, i as int));
                    assert(now.store.has_reference(edge_of(tweet@, i as int)));
                }
            } else if contains_id(visited, target) {
                // Every identifier under resolution is already stored, so
                // this guard can only fire for a stored target, which the
                // branch above already handled.
                proof {
                    assert(self.store.has_tweet(target));
                }
            } else {
                self.log_call(OriginCall::FetchTweet(target));
                proof {
                    let now = *self;
                    assert(now.grown_from(loop_pre)) by {
                        assert(loop_pre.calls_v().is_prefix_of(now.calls_v()));
                    }
                    lemma_grown_trans(*old(self), loop_pre, now);
                    lemma_grown_lookups(loop_pre, now);
                }
                match origin.get_tweet_by_id(target) {
                    Some(fetched) => {
                        proof {
                            let now = *self;
                            lemma_grown_lookups(*old(self), now);
                            lemma_measure_mono(*old(self), now, *origin, tweet@.id);
                            lemma_measure_decreases(now, *origin, tweet@.id, target);
                            assert(origin.tweets_v().contains(fetched@)) by {
                                let k = choose|k: int|
                                    0 <= k < origin.tweets_v().len()
                                        && origin.tweets_v()[k].id == target;
                                assert(origin.tweets_v()[k] == origin.tweet_view(target));
                            }
                        }
                        let ghost before_rec = *self;
                        self.resolve_tweet(origin, &fetched, visited);
                        let edge = TweetReferenceData::from_referenced_tweet(
                            tweet.id,
                            &reference,
                        );
                        let ghost after_rec = *self;
                        self.store.insert_tweet_reference(edge);
                        proof {
                            let now = *self;
                            assert(now.grown_from(after_rec)) by {
                                if now.store.refs_v() != after_rec.store.refs_v() {
                                    assert(now.store.refs_v().subrange(
                                        0,
                                        after_rec.store.refs_v().len() as int,
                                    ) =~= after_rec.store.refs_v());
                                }
                            }
                            lemma_grown_trans(loop_pre, before_rec, after_rec);
                            lemma_grown_trans(loop_pre, after_rec, now);
                            lemma_grown_trans(*old(self), loop_pre, now);
                            lemma_grown_lookups(before_rec, after_rec);
                            lemma_grown_lookups(after_rec, now);
                            lemma_grown_lookups(loop_pre, now);
                            assert(now.store.has_tweet(tweet@.id));
                            assert(now.store.has_tweet(target));
                            lemma_wf_growth(after_rec, now);
                            assert(edge == edge_of(tweet@, i as int));
                            assert(now.store.has_reference(edge_of(tweet@, i as int)));
                            lemma_prefix_index(loop_pre.store.tweets_v(), now.store.tweets_v());
                            lemma_prefix_index(loop_pre.store.users_v(), now.store.users_v());
                            assert forall|x: u64|
                                now.store.has_tweet(x) implies old(self).store.has_tweet(x)
                                || x == tweet@.id || origin.has_tweet(x) by {
                                assert(after_rec.store.has_tweet(x) ==> before_rec
                                    .store.has_tweet(x) || x == fetched@.id
                                    || origin.has_tweet(x));
                            }
                            assert forall|i2: int|
                                old(self).store.tweets_v().len() <= i2
                                    < now.store.tweets_v().len() implies (
                            #[trigger] now.store.tweets_v()[i2]) == tweet@
                                || origin.tweets_v().contains(now.store.tweets_v()[i2]) by {
                                if i2 >= before_rec.store.tweets_v().len() {
                                    assert(now.store.tweets_v()[i2] == fetched@
                                        || origin.tweets_v().contains(
                                        now.store.tweets_v()[i2],
                                    ));
                                } else {
                                    assert(now.store.tweets_v()[i2] == loop_pre
                                        .store.tweets_v()[i2]);
                                }
                            }
                            assert forall|i2: int|
                                old(self).store.users_v().len() <= i2
                                    < now.store.users_v().len() implies origin
                                .users_v().contains(#[trigger] now.store.users_v()[i2]) by {
                                if i2 < before_rec.store.users_v().len() {
                                    assert(now.store.users_v()[i2] == loop_pre
                                        .store.users_v()[i2]);
                                }
                            }
                        }
                    },
                    None => {
                        self.log_gap(
                            IntegrityGap::MissingTweet {
                                source_tweet_id: tweet.id,
                                referenced_tweet_id: target,
                            },
                        );
                        proof {
                            let now = *self;
                            assert(now.grown_from(loop_pre)) by {
                                assert(loop_pre.gaps_v().is_prefix_of(now.gaps_v())) by {
                                    assert(now.gaps_v().subrange(
                                        0,
                                        loop_pre.gaps_v().len() as int,
                                    ) =~= loop_pre.gaps_v());
                                }
                                assert(loop_pre.calls_v().is_prefix_of(now.calls_v()));
                            }
                            lemma_grown_trans(*old(self), loop_pre, now);
                            lemma_grown_lookups(loop_pre, now);
                            assert(!loop_pre.store.has_tweet(target));
                            assert(!old(self).store.has_tweet(target));
                            assert(target != tweet@.id);
                        }
                    },
                }
            }
            i = i + 1;
        }
        proof {
            if !old(self).store.has_tweet(tweet@.id) {
                lemma_tweet_unique(self.store, tweet@);
            }
            assert forall|j: int|
                0 <= j < tweet@.referenced_tweets.len() implies self.reference_settled(
                *origin,
                tweet@,
                j,
            ) by {
                if !self.store.has_reference(edge_of(tweet@, j)) {
                    assert(!self.store.has_tweet(tweet@.referenced_tweets[j].id));
                }
            }
        }
    }

    /// Stores every tweet of `tweets`, each through a full resolution
    /// pass.
    pub fn store_tweets(&mut self, origin: &Origin, tweets: &Vec<Tweet>)
        requires
            old(self).wf(),
            origin.wf(),
        ensures
            final(self).wf(),
            final(self).grown_from(*old(self)),
            forall|i: int|
                0 <= i < tweets@.len() ==> final(self).store.has_tweet(
                    (#[trigger] tweets@[i])@.id,
                ),
            forall|x: u64|
                final(self).store.has_tweet(x) ==> old(self).store.has_tweet(x)
                    || origin.has_tweet(x) || exists|i: int|
                    0 <= i < tweets@.len() && (#[trigger] tweets@[i])@.id == x,
            forall|k: int|
                old(self).store.tweets_v().len() <= k < final(self).store.tweets_v().len()
                    ==> origin.tweets_v().contains(#[trigger] final(self).store.tweets_v()[k])
                    || exists|i: int|
                    0 <= i < tweets@.len() && final(self).store.tweets_v()[k] == (
                    #[trigger] tweets@[i])@,
            forall|k: int|
                old(self).store.users_v().len() <= k < final(self).store.users_v().len()
                    ==> origin.users_v().contains(#[trigger] final(self).store.users_v()[k]),
    {
        let mut i: usize = 0;
        proof {
            assert(self.grown_from(*old(self)));
        }
        while i < tweets.len()
            invariant
                origin.wf(),
                self.wf(),
                i <= tweets@.len(),
                self.grown_from(*old(self)),
                forall|j: int|
                    0 <= j < i ==> self.store.has_tweet((#[trigger] tweets@[j])@.id),
                forall|x: u64|
                    self.store.has_tweet(x) ==> old(self).store.has_tweet(x)
                        || origin.has_tweet(x) || exists|j: int|
                        0 <= j < tweets@.len() && (#[trigger] tweets@[j])@.id == x,
                forall|k: int|
                    old(self).store.tweets_v().len() <= k < self.store.tweets_v().len()
                        ==> origin.tweets_v().contains(#[trigger] self.store.tweets_v()[k])
                        || exists|j: int|
                        0 <= j < tweets@.len() && self.store.tweets_v()[k] == (
                        #[trigger] tweets@[j])@,
                forall|k: int|
                    old(self).store.users_v().len() <= k < self.store.users_v().len()
                        ==> origin.users_v().contains(#[trigger] self.store.users_v()[k]),
            decreases tweets@.len() - i,
        {
            let ghost loop_pre = *self;
            self.store_tweet_with_references(origin, &tweets[i]);
            proof {
                lemma_grown_trans(*old(self), loop_pre, *self);
                lemma_grown_lookups(loop_pre, *self);
                lemma_prefix_index(loop_pre.store.tweets_v(), self.store.tweets_v());
                lemma_prefix_index(loop_pre.store.users_v(), self.store.users_v());
                assert forall|k: int|
                    old(self).store.tweets_v().len() <= k < self.store.tweets_v().len()
                        implies origin.tweets_v().contains(
                    #[trigger] self.store.tweets_v()[k]) || exists|j: int|
                        0 <= j < tweets@.len() && self.store.tweets_v()[k] == (
                        #[trigger] tweets@[j])@ by {
                    if k < loop_pre.store.tweets_v().len() {
                        assert(self.store.tweets_v()[k] == loop_pre.store.tweets_v()[k]);
                    } else {
                        if self.store.tweets_v()[k] == tweets@[i as int]@ {
                            assert(self.store.tweets_v()[k] == (tweets@[i as int])@);
                        }
                    }
                }
            }
            i = i + 1;
        }
    }

    /// Pairs `tweet` with the display data of its author, serving the
    /// author from the store or the origin. With the author available
    /// nowhere, the pairing is given up and nothing but the call log
    /// changes.
    pub fn tweet_data_from_tweet(&mut self, origin: &Origin, tweet: Tweet) -> (r: Option<
        TweetData,
    >)
        requires
            old(self).wf(),
            origin.wf(),
        ensures
            final(self).wf(),
            final(self).grown_from(*old(self)),
            final(self).store.tweets_v() == old(self).store.tweets_v(),
            final(self).store.convs_v() == old(self).store.convs_v(),
            final(self).store.refs_v() == old(self).store.refs_v(),
            final(self).gaps_v() == old(self).gaps_v(),
            old(self).store.has_user(tweet@.author_id) ==> {
                &&& final(self).store_unchanged(*old(self))
                &&& final(self).calls_v() == old(self).calls_v()
            },
            r is Some <==> old(self).store.has_user(tweet@.author_id) || origin.has_user(
                tweet@.author_id,
            ),
            r matches Some(td) ==> td@.tweet == tweet@ && (td@.user == user_data_of(
                old(self).store.user_view(tweet@.author_id),
            ) || td@.user == user_data_of(origin.user_view(tweet@.author_id))),
    {
        let author_id = tweet.author_id;
        match self.load_user_from_id(origin, author_id) {
            Some(user) => Some(TweetData::new(&user, tweet)),
            None => None,
        }
    }

    /// Pairs each tweet of `tweets` with the display data of its author,
    /// filling missing authors from the origin first. A tweet whose author
    /// remains unavailable is left out; the others keep their order.
    pub fn vec_tweet_data_from_vec_tweet(&mut self, origin: &Origin, tweets: Vec<Tweet>) -> (r:
        Vec<TweetData>)
        requires
            old(self).wf(),
            origin.wf(),
        ensures
            final(self).wf(),
            final(self).grown_from(*old(self)),
            final(self).store.tweets_v() == old(self).store.tweets_v(),
            final(self).store.convs_v() == old(self).store.convs_v(),
            final(self).store.refs_v() == old(self).store.refs_v(),
            final(self).gaps_v() == old(self).gaps_v(),
            tweets_of_data(r@) == tweet_views(tweets@).filter(with_author_in(final(self).store)),
            forall|j: int|
                0 <= j < r@.len() ==> (#[trigger] r@[j])@.user == user_data_of(
                    final(self).store.user_view(r@[j]@.tweet.author_id),
                ),
            (forall|i: int|
                0 <= i < tweets@.len() ==> old(self).store.has_user(
                    (#[trigger] tweets@[i])@.author_id,
                )) ==> {
                &&& final(self).store_unchanged(*old(self))
                &&& final(self).calls_v() == old(self).calls_v()
            },
            forall|j: int|
                old(self).calls_v().len() <= j < final(self).calls_v().len() ==> (
                #[trigger] final(self).calls_v()[j]) is FetchUserById,
    {
        let mut i: usize = 0;
        while i < tweets.len()
            invariant
                origin.wf(),
                self.wf(),
                i <= tweets@.len(),
                self.grown_from(*old(self)),
                self.store.tweets_v() == old(self).store.tweets_v(),
                self.store.convs_v() == old(self).store.convs_v(),
                self.store.refs_v() == old(self).store.refs_v(),
                self.gaps_v() == old(self).gaps_v(),
                (forall|k: int|
                    0 <= k < tweets@.len() ==> old(self).store.has_user(
                        (#[trigger] tweets@[k])@.author_id,
                    )) ==> self.store_unchanged(*old(self)) && self.calls_v() == old(self).calls_v(),
                forall|k: int|
                    old(self).calls_v().len() <= k < self.calls_v().len() ==> (
                    #[trigger] self.calls_v()[k]) is FetchUserById,
            decreases tweets@.len() - i,
        {
            let ghost loop_pre = *self;
            let author_id = tweets[i].author_id;
            self.load_user_from_id(origin, author_id);
            proof {
                lemma_grown_trans(*old(self), loop_pre, *self);
                lemma_prefix_index(loop_pre.calls_v(), self.calls_v());
            }
            i = i + 1;
        }
        let ghost pred = with_author_in(self.store);
        let mut r: Vec<TweetData> = Vec::new();
        let mut j: usize = 0;
        proof {
            assert(tweets_of_data(r@) =~= tweet_views(tweets@).take(0).filter(pred));
        }
        while j < tweets.len()
            invariant
                self.wf(),
                j <= tweets@.len(),
                pred == with_author_in(self.store),
                tweets_of_data(r@) == tweet_views(tweets@).take(j as int).filter(pred),
                forall|k: int|
                    0 <= k < r@.len() ==> (#[trigger] r@[k])@.user == user_data_of(
                        self.store.user_view(r@[k]@.tweet.author_id),
                    ),
            decreases tweets@.len() - j,
        {
            let ghost prev = tweets_of_data(r@);
            proof {
                assert(tweet_views(tweets@).take(j + 1) =~= tweet_views(tweets@).take(
                    j as int,
                ).push(tweet_views(tweets@)[j as int]));
                tweet_views(tweets@).take(j as int).lemma_filter_push(
                    tweet_views(tweets@)[j as int],
                    pred,
                );
            }
            match self.store.user_by_id(tweets[j].author_id) {
                Some(user) => {
                    r.push(TweetData::new(&user, tweets[j].clone()));
                    proof {
                        assert(tweets_of_data(r@) =~= prev.push(tweet_views(tweets@)[j as int]));
                    }
                },
                None => {},
            }
            j = j + 1;
        }
        proof {
            assert(tweet_views(tweets@).take(tweets@.len() as int) =~= tweet_views(tweets@));
        }
        r
    }

    /// Asks the origin whether the user with handle `twitter_handle` has
    /// tweeted since the creation time of their most recent stored tweet.
    /// Exactly one origin call is made; the store is untouched.
    pub fn has_new_tweets(&mut self, origin: &Origin, twitter_handle: &str) -> (r: bool)
        requires
            old(self).wf(),
            origin.wf(),
            old(self).store.has_user_handle(twitter_handle@),
            exists|i: int|
                0 <= i < old(self).store.tweets_v().len() && (#[trigger] old(self).store.tweets_v()[i]).author_id == old(self).store.user_view_by_handle(
                    twitter_handle@,
                ).id,
        ensures
            final(self).wf(),
            final(self).store_unchanged(*old(self)),
            final(self).gaps_v() == old(self).gaps_v(),
            final(self).grown_from(*old(self)),
            forall|t: TweetView|
                #[trigger] is_latest_of_author(
                    old(self).store.tweets_v(),
                    old(self).store.user_view_by_handle(twitter_handle@).id,
                    t,
                ) ==> {
                    &&& final(self).calls_v() == old(self).calls_v().push(
                        OriginCallView::HasTweetedSince(twitter_handle@, t.created_at),
                    )
                    &&& r == origin.spec_has_tweeted_since(twitter_handle@, t.created_at)
                },
    {
        let latest = match self.store.latest_tweet_from_user_by_twitter_handle(twitter_handle) {
            Some(t) => t,
            None => {
                proof {
                    assert(false);
                }
                unreached()
            },
        };
        let since = latest.created_at;
        self.log_call(
            OriginCall::HasTweetedSince(String::from_str(twitter_handle), since),
        );
        let r = origin.find_out_if_user_has_tweeted_since(twitter_handle, since);
        proof {
            let uid = old(self).store.user_view_by_handle(twitter_handle@).id;
            assert(is_latest_of_author(old(self).store.tweets_v(), uid, latest@));
            assert forall|t: TweetView|
                #[trigger] is_latest_of_author(old(self).store.tweets_v(), uid, t) implies {
                &&& self.calls_v() == old(self).calls_v().push(
                    OriginCallView::HasTweetedSince(twitter_handle@, t.created_at),
                )
                &&& r == origin.spec_has_tweeted_since(twitter_handle@, t.created_at)
            } by {
                lemma_latest_share_created_at(old(self).store.tweets_v(), uid, t, latest@);
            }
        }
        r
    }

    /// Fetches from the origin the tweets the user with handle
    /// `twitter_handle` created since their most recent stored tweet. The
    /// fetched tweets are returned, not stored; exactly one origin call is
    /// made.
    pub fn load_users_new_tweets(&mut self, origin: &Origin, twitter_handle: &str) -> (r: Vec<
        Tweet,
    >)
        requires
            old(self).wf(),
            origin.wf(),
            old(self).store.has_user_handle(twitter_handle@),
            exists|i: int|
                0 <= i < old(self).store.tweets_v().len() && (#[trigger] old(self).store.tweets_v()[i]).author_id == old(self).store.user_view_by_handle(
                    twitter_handle@,
                ).id,
        ensures
            final(self).wf(),
            final(self).store_unchanged(*old(self)),
            final(self).gaps_v() == old(self).gaps_v(),
            final(self).grown_from(*old(self)),
            forall|t: TweetView|
                #[trigger] is_latest_of_author(
                    old(self).store.tweets_v(),
                    old(self).store.user_view_by_handle(twitter_handle@).id,
                    t,
                ) ==> {
                    &&& final(self).calls_v() == old(self).calls_v().push(
                        OriginCallView::FetchTweetsSince(twitter_handle@, t.created_at),
                    )
                    &&& origin.has_user_handle(twitter_handle@) ==> tweet_views(r@)
                        == origin.tweets_v().filter(
                        by_author_since(
                            origin.user_view_by_handle(twitter_handle@).id,
                            t.created_at,
                        ),
                    )
                },
            !origin.has_user_handle(twitter_handle@) ==> r@.len() == 0,
    {
        let latest = match self.store.latest_tweet_from_user_by_twitter_handle(twitter_handle) {
            Some(t) => t,
            None => {
                proof {
                    assert(false);
                }
                unreached()
            },
        };
        let since = latest.created_at;
        self.log_call(
            OriginCall::FetchTweetsSince(String::from_str(twitter_handle), since),
        );
        let r = origin.get_users_tweets_since(twitter_handle, since);
        proof {
            let uid = old(self).store.user_view_by_handle(twitter_handle@).id;
            assert(is_latest_of_author(old(self).store.tweets_v(), uid, latest@));
            assert forall|t: TweetView|
                #[trigger] is_latest_of_author(old(self).store.tweets_v(), uid, t) implies
                t.created_at == latest@.created_at by {
                lemma_latest_share_created_at(old(self).store.tweets_v(), uid, t, latest@);
            }
        }
        r
    }

    /// Serves the timeline of the user with handle `twitter_handle`:
    /// resolves the user, then serves their stored tweets, newest-first.
    /// With no stored tweets the full timeline is fetched from the origin
    /// and archived. With stored tweets the origin is asked whether
    /// anything newer exists: if not, the stored tweets are returned
    /// untouched and no tweets are fetched; if so, the tweets since the
    /// most recent stored one are fetched and archived, and the updated
    /// timeline is returned. `None` only when the user is available
    /// neither locally nor upstream.
    ///
    /// A user renamed upstream — the origin serving a stored identifier
    /// under a new handle — is not duplicated and not rewritten: the
    /// timeline under the new handle archives the user's origin tweets
    /// but lists none, since no stored user carries that handle yet.
    pub fn load_users_tweets_from_twitter_handle(&mut self, origin: &Origin, twitter_handle: &str) -> (r: Option<Vec<TweetData>>)
        requires
            old(self).wf(),
            origin.wf(),
        ensures
            final(self).wf(),
            final(self).grown_from(*old(self)),
            r is None <==> !old(self).store.has_user_handle(twitter_handle@)
                && !origin.has_user_handle(twitter_handle@),
            r matches Some(v) ==> sorted_desc(tweets_of_data(v@)),
            old(self).store.has_user_handle(twitter_handle@) ==> (r matches Some(v) && {
                &&& tweets_of_data(v@).to_multiset() == final(self).store.tweets_v().filter(
                    by_author(old(self).store.user_view_by_handle(twitter_handle@).id),
                ).to_multiset()
                &&& forall|j: int|
                    0 <= j < v@.len() ==> (#[trigger] v@[j])@.user == user_data_of(
                        old(self).store.user_view_by_handle(twitter_handle@),
                    )
            }),
            !old(self).store.has_user_handle(twitter_handle@) && origin.has_user_handle(
                twitter_handle@,
            ) && !old(self).store.has_user(origin.user_view_by_handle(twitter_handle@).id)
                ==> (r matches Some(v) && {
                &&& tweets_of_data(v@).to_multiset() == final(self).store.tweets_v().filter(
                    by_author(origin.user_view_by_handle(twitter_handle@).id),
                ).to_multiset()
                &&& forall|j: int|
                    0 <= j < v@.len() ==> (#[trigger] v@[j])@.user == user_data_of(
                        origin.user_view_by_handle(twitter_handle@),
                    )
                &&& final(self).store.users_v().contains(
                    origin.user_view_by_handle(twitter_handle@),
                )
            }),
            forall|i: int|
                old(self).store.users_v().len() <= i < final(self).store.users_v().len()
                    ==> origin.users_v().contains(#[trigger] final(self).store.users_v()[i]),
            origin.has_user_handle(twitter_handle@) && old(self).store.tweets_v().filter(
                by_author(origin.user_view_by_handle(twitter_handle@).id),
            ).len() == 0 && (old(self).store.has_user_handle(twitter_handle@) ==> old(self).store.user_view_by_handle(twitter_handle@).id == origin.user_view_by_handle(
                twitter_handle@,
            ).id) ==> forall|j: int|
                0 <= j < origin.tweets_v().len() && (#[trigger] origin.tweets_v()[j]).author_id
                    == origin.user_view_by_handle(twitter_handle@).id ==> final(self).store.has_tweet(origin.tweets_v()[j].id) && (!old(self).store.has_tweet(
                    origin.tweets_v()[j].id,
                ) ==> final(self).store.tweets_v().contains(origin.tweets_v()[j])),
            !old(self).store.has_user_handle(twitter_handle@) && origin.has_user_handle(
                twitter_handle@,
            ) && old(self).store.has_user(origin.user_view_by_handle(twitter_handle@).id)
                ==> (r matches Some(v) && v@.len() == 0 && forall|j: int|
                0 <= j < origin.tweets_v().len() && (#[trigger] origin.tweets_v()[j]).author_id
                    == origin.user_view_by_handle(twitter_handle@).id ==> final(self).store.has_tweet(origin.tweets_v()[j].id)),
            !old(self).store.has_user_handle(twitter_handle@) && origin.has_user_handle(
                twitter_handle@,
            ) && !old(self).store.has_user(origin.user_view_by_handle(twitter_handle@).id)
                && old(self).store.tweets_v().len() == 0 ==> (r matches Some(v)
                && tweets_of_data(v@).to_multiset() == origin.tweets_v().filter(
                by_author(origin.user_view_by_handle(twitter_handle@).id),
            ).to_multiset()),
            forall|t: TweetView|
                {
                    &&& old(self).store.has_user_handle(twitter_handle@)
                    &&& old(self).store.tweets_v().filter(
                        by_author(old(self).store.user_view_by_handle(twitter_handle@).id),
                    ).len() > 0
                    &&& #[trigger] is_latest_of_author(
                        old(self).store.tweets_v(),
                        old(self).store.user_view_by_handle(twitter_handle@).id,
                        t,
                    )
                    &&& !origin.spec_has_tweeted_since(twitter_handle@, t.created_at)
                } ==> {
                    &&& final(self).store_unchanged(*old(self))
                    &&& final(self).gaps_v() == old(self).gaps_v()
                    &&& final(self).calls_v() == old(self).calls_v().push(
                        OriginCallView::HasTweetedSince(twitter_handle@, t.created_at),
                    )
                },
            forall|t: TweetView|
                {
                    &&& old(self).store.has_user_handle(twitter_handle@)
                    &&& old(self).store.tweets_v().filter(
                        by_author(old(self).store.user_view_by_handle(twitter_handle@).id),
                    ).len() > 0
                    &&& #[trigger] is_latest_of_author(
                        old(self).store.tweets_v(),
                        old(self).store.user_view_by_handle(twitter_handle@).id,
                        t,
                    )
                    &&& origin.spec_has_tweeted_since(twitter_handle@, t.created_at)
                } ==> forall|j: int|
                    0 <= j < origin.tweets_v().len() && (
                    #[trigger] origin.tweets_v()[j]).author_id == origin.user_view_by_handle(
                        twitter_handle@,
                    ).id && origin.tweets_v()[j].created_at > t.created_at ==> final(self).store.has_tweet(origin.tweets_v()[j].id),
    {
        broadcast use vstd::seq_lib::group_to_multiset_ensures;

        let ghost h = twitter_handle@;
        let ghost o_uv = origin.user_view_by_handle(h);
        let user = match self.load_user_from_twitter_handle(origin, twitter_handle) {
            Some(u) => u,
            None => {
                return None;
            },
        };
        let ghost after_user = *self;
        let ghost uv = user@;
        let ghost good = old(self).store.has_user_handle(h) || (origin.has_user_handle(h)
            && !old(self).store.has_user(o_uv.id));
        proof {
            if old(self).store.has_user_handle(h) {
                assert(uv == old(self).store.user_view_by_handle(h));
                assert(after_user.store_unchanged(*old(self)));
            }
            if good {
                assert(self.store.users_v().contains(uv)) by {
                    if old(self).store.has_user_handle(h) {
                        let i = choose|i: int|
                            0 <= i < old(self).store.users_v().len() && old(self).store.users_v()[i].username == h;
                        assert(self.store.users_v()[i] == uv);
                    } else {
                        assert(self.store.users_v() == old(self).store.users_v().push(uv));
                        assert(self.store.users_v().last() == uv);
                    }
                }
                lemma_user_unique(self.store, uv);
                assert(uv.username == h);
            }
            // Whatever the user table gained during the lookup came from
            // the origin's catalogue.
            assert forall|i: int|
                old(self).store.users_v().len() <= i < after_user.store.users_v().len()
                    implies origin.users_v().contains(
                #[trigger] after_user.store.users_v()[i]) by {
                assert(after_user.store.users_v() == old(self).store.users_v().push(o_uv));
                assert(after_user.store.users_v()[i] == o_uv);
                assert(origin.has_user_handle(h));
                let k = choose|k: int|
                    0 <= k < origin.users_v().len() && origin.users_v()[k].username == h;
                assert(origin.users_v()[k] == o_uv);
            }
        }
        let stored = self.store.users_tweets(twitter_handle);
        if stored.len() == 0 {
            proof {
                if old(self).store.has_user_handle(h) {
                    assert(tweet_views(stored@).to_multiset().len() == old(self).store.tweets_v().filter(by_author(uv.id)).to_multiset().len());
                    assert(old(self).store.tweets_v().filter(by_author(uv.id)).len() == 0);
                }
            }
            self.log_call(OriginCall::FetchTimeline(String::from_str(twitter_handle)));
            proof {
                lemma_grown_trans(*old(self), after_user, *self);
            }
            let ghost before_fetch = *self;
            let timeline = origin.get_tweets_from_twitter_handle(twitter_handle);
            self.store_tweets(origin, &timeline);
            let ghost after_store = *self;
            proof {
                lemma_grown_trans(*old(self), before_fetch, after_store);
                lemma_grown_lookups(after_user, after_store);
                lemma_prefix_index(after_user.store.users_v(), after_store.store.users_v());
                if good {
                    lemma_user_unique(after_store.store, uv);
                }
                if origin.has_user_handle(h) {
                    let pred = by_author(o_uv.id);
                    assert forall|i: int|
                        0 <= i < timeline@.len() implies origin.tweets_v().contains(
                        (#[trigger] timeline@[i])@) by {
                        assert(tweet_views(timeline@)[i] == timeline@[i]@);
                        assert(origin.tweets_v().filter(pred).contains(timeline@[i]@));
                        origin.tweets_v().lemma_filter_contains_rev(pred, timeline@[i]@);
                    }
                    assert forall|j: int|
                        0 <= j < origin.tweets_v().len() && (#[trigger] origin.tweets_v()[j]).author_id
                            == o_uv.id implies after_store.store.has_tweet(
                        origin.tweets_v()[j].id) && (!old(self).store.has_tweet(
                        origin.tweets_v()[j].id) ==> after_store.store.tweets_v().contains(
                        origin.tweets_v()[j])) by {
                        let v = origin.tweets_v()[j];
                        origin.tweets_v().lemma_filter_contains(pred, j);
                        assert(origin.tweets_v().filter(pred).contains(v));
                        let m = choose|m: int|
                            0 <= m < tweet_views(timeline@).len() && tweet_views(
                                timeline@,
                            )[m] == v;
                        assert(timeline@[m]@ == v);
                        assert(after_store.store.has_tweet(timeline@[m]@.id));
                        if !old(self).store.has_tweet(v.id) {
                            assert(!before_fetch.store.has_tweet(v.id));
                            assert(origin.has_tweet(v.id)) by {
                                assert(origin.tweets_v()[j].id == v.id);
                            }
                            lemma_new_record_is_origin(
                                before_fetch,
                                after_store,
                                *origin,
                                timeline@,
                                v.id,
                            );
                            assert(origin.tweet_view(v.id) == v) by {
                                let n = choose|n: int|
                                    0 <= n < origin.tweets_v().len()
                                        && origin.tweets_v()[n].id == v.id;
                                assert(n == j);
                            }
                        }
                    }
                }
                // The renamed-user corner: the stored user keeps the old
                // handle, so no stored user carries the requested one.
                if !old(self).store.has_user_handle(h) && origin.has_user_handle(h) && old(self).store.has_user(o_uv.id) {
                    assert(after_user.store.users_v() == old(self).store.users_v());
                    assert(!after_store.store.has_user_handle(h)) by {
                        if after_store.store.has_user_handle(h) {
                            let iw = choose|iw: int|
                                0 <= iw < after_store.store.users_v().len()
                                    && after_store.store.users_v()[iw].username == h;
                            let w = after_store.store.users_v()[iw];
                            lemma_prefix_index(
                                old(self).store.users_v(),
                                after_store.store.users_v(),
                            );
                            if iw < old(self).store.users_v().len() {
                                assert(old(self).store.users_v()[iw].username == h);
                            } else {
                                assert(origin.users_v().contains(w));
                                let kw = choose|kw: int|
                                    0 <= kw < origin.users_v().len() && origin.users_v()[kw]
                                        == w;
                                let kh = choose|kh: int|
                                    0 <= kh < origin.users_v().len()
                                        && origin.users_v()[kh].username == h;
                                assert(kw == kh);
                                assert(w == o_uv);
                                let i0 = choose|i0: int|
                                    0 <= i0 < old(self).store.users_v().len() && old(self).store.users_v()[i0].id == o_uv.id;
                                assert(after_store.store.users_v()[i0].id == o_uv.id);
                                assert(i0 < iw);
                            }
                        }
                    }
                }
            }
            let fresh = self.store.users_tweets(twitter_handle);
            let result = TweetData::from_vec_tweet(&user, fresh);
            proof {
                assert(tweets_of_data(result@) =~= tweet_views(fresh@));
                // The empty-store fill returns exactly the origin timeline.
                if good && !old(self).store.has_user_handle(h) && old(self).store.tweets_v().len() == 0 {
                    let pred = by_author(o_uv.id);
                    let ffilter = after_store.store.tweets_v().filter(pred);
                    let ofilter = origin.tweets_v().filter(pred);
                    assert(uv == o_uv);
                    assert(after_store.store.has_user_handle(h));
                    assert(after_store.store.user_view_by_handle(h) == o_uv);
                    assert(tweet_views(fresh@).to_multiset() == ffilter.to_multiset());
                    lemma_filter_distinct_ids(after_store.store.tweets_v(), pred);
                    lemma_filter_distinct_ids(origin.tweets_v(), pred);
                    assert forall|x: TweetView| ffilter.contains(x) implies ofilter.contains(
                        x,
                    ) by {
                        after_store.store.tweets_v().lemma_filter_contains_rev(pred, x);
                        let k = choose|k: int|
                            0 <= k < after_store.store.tweets_v().len()
                                && after_store.store.tweets_v()[k] == x;
                        assert(k >= before_fetch.store.tweets_v().len());
                        assert(origin.tweets_v().contains(x)) by {
                            if exists|i: int|
                                0 <= i < timeline@.len() && x == (#[trigger] timeline@[i])@ {
                                let i = choose|i: int|
                                    0 <= i < timeline@.len() && x == (
                                    #[trigger] timeline@[i])@;
                                assert(origin.tweets_v().contains(timeline@[i]@));
                            }
                        }
                        let n = choose|n: int|
                            0 <= n < origin.tweets_v().len() && origin.tweets_v()[n] == x;
                        origin.tweets_v().lemma_filter_contains(pred, n);
                    }
                    assert forall|x: TweetView| ofilter.contains(x) implies ffilter.contains(
                        x,
                    ) by {
                        origin.tweets_v().lemma_filter_contains_rev(pred, x);
                        let j = choose|j: int|
                            0 <= j < origin.tweets_v().len() && origin.tweets_v()[j] == x;
                        assert(after_store.store.has_tweet(origin.tweets_v()[j].id));
                        assert(!old(self).store.has_tweet(x.id));
                        assert(origin.tweet_view(x.id) == x) by {
                            let n = choose|n: int|
                                0 <= n < origin.tweets_v().len() && origin.tweets_v()[n].id
                                    == x.id;
                            assert(n == j);
                        }
                        lemma_new_record_is_origin(
                            before_fetch,
                            after_store,
                            *origin,
                            timeline@,
                            x.id,
                        );
                        let k = choose|k: int|
                            0 <= k < after_store.store.tweets_v().len()
                                && after_store.store.tweets_v()[k] == x;
                        after_store.store.tweets_v().lemma_filter_contains(pred, k);
                    }
                    lemma_same_members_same_multiset(ffilter, ofilter);
                }
            }
            Some(result)
        } else {
            proof {
                assert(self.store.has_user_handle(h));
                // A stored user carries the handle, so the resolved user
                // was served from the store or inserted: the handle's
                // stored user is exactly `user`.
                assert(good) by {
                    if !old(self).store.has_user_handle(h) {
                        if old(self).store.has_user(o_uv.id) {
                            assert(self.store.users_v() == old(self).store.users_v());
                        }
                    }
                }
                assert(self.store.user_view_by_handle(h) == uv);
                assert(tweet_views(stored@).to_multiset().len() == self.store.tweets_v().filter(
                    by_author(uv.id),
                ).to_multiset().len());
                lemma_author_filter_nonempty(self.store.tweets_v(), uv.id);
                // The fresh-fill guard cannot hold here: the user's stored
                // posts are what made this a cache hit.
                if origin.has_user_handle(h) && old(self).store.tweets_v().filter(
                    by_author(o_uv.id),
                ).len() == 0 && (old(self).store.has_user_handle(h) ==> old(self).store.user_view_by_handle(h).id == o_uv.id) {
                    if old(self).store.has_user_handle(h) {
                        assert(uv.id == o_uv.id);
                    } else {
                        assert(uv == o_uv);
                    }
                    assert(tweet_views(stored@).to_multiset().len() == 0);
                    assert(false);
                }
            }
            if self.has_new_tweets(origin, twitter_handle) {
                let ghost after_ask = *self;
                proof {
                    lemma_grown_trans(*old(self), after_user, after_ask);
                    lemma_grown_lookups(after_user, after_ask);
                    lemma_user_unique(after_ask.store, uv);
                    lemma_author_filter_nonempty(after_ask.store.tweets_v(), uv.id);
                    if old(self).store.has_user_handle(h) {
                        assert forall|t: TweetView|
                            #[trigger] is_latest_of_author(
                                old(self).store.tweets_v(),
                                old(self).store.user_view_by_handle(h).id,
                                t,
                            ) implies origin.spec_has_tweeted_since(h, t.created_at) by {
                            assert(is_latest_of_author(after_user.store.tweets_v(), uv.id, t));
                        }
                    }
                }
                let new_tweets = self.load_users_new_tweets(origin, twitter_handle);
                let ghost after_since = *self;
                proof {
                    lemma_grown_trans(after_user, after_ask, after_since);
                    lemma_grown_trans(*old(self), after_user, after_since);
                }
                self.store_tweets(origin, &new_tweets);
                let ghost after_store = *self;
                proof {
                    lemma_grown_trans(*old(self), after_since, after_store);
                    lemma_grown_lookups(after_user, after_store);
                    lemma_user_unique(after_store.store, uv);
                    lemma_prefix_index(after_user.store.users_v(), after_store.store.users_v());
                    // Every tweet newer than the most recent stored one was
                    // fetched and is now archived.
                    if old(self).store.has_user_handle(h) && origin.has_user_handle(h) {
                        assert forall|t: TweetView|
                            #[trigger] is_latest_of_author(
                                old(self).store.tweets_v(),
                                old(self).store.user_view_by_handle(h).id,
                                t,
                            ) implies forall|j: int|
                            0 <= j < origin.tweets_v().len() && (
                            #[trigger] origin.tweets_v()[j]).author_id == o_uv.id
                                && origin.tweets_v()[j].created_at > t.created_at
                                ==> after_store.store.has_tweet(origin.tweets_v()[j].id) by {
                            assert(is_latest_of_author(after_since.store.tweets_v(), uv.id, t));
                            let pred = by_author_since(o_uv.id, t.created_at);
                            assert(tweet_views(new_tweets@) == origin.tweets_v().filter(pred));
                            assert forall|j: int|
                                0 <= j < origin.tweets_v().len() && (
                                #[trigger] origin.tweets_v()[j]).author_id == o_uv.id
                                    && origin.tweets_v()[j].created_at > t.created_at implies
                                after_store.store.has_tweet(origin.tweets_v()[j].id) by {
                                let v = origin.tweets_v()[j];
                                origin.tweets_v().lemma_filter_contains(pred, j);
                                assert(origin.tweets_v().filter(pred).contains(v));
                                let m = choose|m: int|
                                    0 <= m < tweet_views(new_tweets@).len() && tweet_views(
                                        new_tweets@,
                                    )[m] == v;
                                assert(new_tweets@[m]@ == v);
                                assert(after_store.store.has_tweet(new_tweets@[m]@.id));
                            }
                        }
                    }
                }
                let fresh = self.store.users_tweets(twitter_handle);
                let result = TweetData::from_vec_tweet(&user, fresh);
                proof {
                    assert(tweets_of_data(result@) =~= tweet_views(fresh@));
                }
                Some(result)
            } else {
                let result = TweetData::from_vec_tweet(&user, stored);
                proof {
                    lemma_grown_trans(*old(self), after_user, *self);
                    assert(tweets_of_data(result@) =~= tweet_views(stored@));
                    if old(self).store.has_user_handle(h) {
                        assert forall|t: TweetView|
                            #[trigger] is_latest_of_author(
                                old(self).store.tweets_v(),
                                old(self).store.user_view_by_handle(h).id,
                                t,
                            ) implies {
                            &&& self.store_unchanged(*old(self))
                            &&& self.gaps_v() == old(self).gaps_v()
                            &&& self.calls_v() == old(self).calls_v().push(
                                OriginCallView::HasTweetedSince(h, t.created_at),
                            )
                            &&& !origin.spec_has_tweeted_since(h, t.created_at)
                        } by {
                            assert(is_latest_of_author(after_user.store.tweets_v(), uv.id, t));
                        }
                    }
                }
                Some(result)
            }
        }
    }

    /// Serves tweet `tweet_id` paired with the display data of user
    /// `user_id`, its author. The user and the tweet are each served from
    /// the store when stored — a stored tweet is returned without any
    /// tweet fetch — and fetched from the origin and archived otherwise; a
    /// fetched tweet goes through a full resolution pass. `None` when the
    /// origin reports the tweet absent — a terminal outcome, nothing is
    /// retried — or when the user is available nowhere.
    pub fn load_tweet_from_id(&mut self, origin: &Origin, tweet_id: u64, user_id: u64) -> (r:
        Option<TweetData>)
        requires
            old(self).wf(),
            origin.wf(),
        ensures
            final(self).wf(),
            final(self).grown_from(*old(self)),
            old(self).store.has_tweet(tweet_id) && old(self).store.has_user(user_id) ==> {
                &&& final(self).store_unchanged(*old(self))
                &&& final(self).calls_v() == old(self).calls_v()
                &&& final(self).gaps_v() == old(self).gaps_v()
                &&& (r matches Some(td) && td@.tweet == old(self).store.tweet_view(tweet_id)
                    && td@.user == user_data_of(old(self).store.user_view(user_id)))
            },
            r is Some <==> (old(self).store.has_user(user_id) || origin.has_user(user_id)) && (
            old(self).store.has_tweet(tweet_id) || origin.has_tweet(tweet_id)),
            r matches Some(td) ==> final(self).store.has_tweet(tweet_id) && (td@.tweet == old(self).store.tweet_view(tweet_id) || td@.tweet == origin.tweet_view(tweet_id)),
            r matches Some(td) ==> {
                &&& old(self).store.has_user(user_id) ==> td@.user == user_data_of(
                    old(self).store.user_view(user_id),
                )
                &&& !old(self).store.has_user(user_id) ==> td@.user == user_data_of(
                    origin.user_view(user_id),
                )
            },
            !old(self).store.has_tweet(tweet_id) && origin.has_tweet(tweet_id) && (old(self).store.has_user(user_id) || origin.has_user(user_id)) ==> (r matches Some(td) && {
                &&& td@.tweet == origin.tweet_view(tweet_id)
                &&& final(self).store.tweets_v().contains(origin.tweet_view(tweet_id))
                &&& final(self).store.tweet_view(tweet_id) == origin.tweet_view(tweet_id)
            }),
            !old(self).store.has_tweet(tweet_id) && !origin.has_tweet(tweet_id) ==> final(self).store.tweets_v() == old(self).store.tweets_v(),
    {
        let user = match self.load_user_from_id(origin, user_id) {
            Some(u) => u,
            None => {
                return None;
            },
        };
        let ghost after_user = *self;
        match self.store.tweet_by_id(tweet_id) {
            Some(t) => Some(TweetData::new(&user, t)),
            None => {
                self.log_call(OriginCall::FetchTweet(tweet_id));
                proof {
                    lemma_grown_trans(*old(self), after_user, *self);
                }
                let ghost before_fetch = *self;
                match origin.get_tweet_by_id(tweet_id) {
                    Some(t) => {
                        self.store_tweet_with_references(origin, &t);
                        proof {
                            lemma_grown_trans(*old(self), before_fetch, *self);
                            assert(!before_fetch.store.has_tweet(tweet_id));
                            assert(self.store.tweet_view(tweet_id) == t@);
                            assert(self.store.tweets_v().contains(t@));
                        }
                        Some(TweetData::new(&user, t))
                    },
                    None => None,
                }
            },
        }
    }

    /// Serves the conversation with root `conversation_id`, oldest-first,
    /// each tweet paired with its author's display data. Two or more
    /// stored tweets of the conversation count as a cache hit and trigger
    /// no conversation fetch; one or none — a lone tweet being
    /// indistinguishable from an unresolved thread — has the full
    /// conversation fetched from the origin and archived.
    pub fn load_conversation_from_tweet_id(&mut self, origin: &Origin, conversation_id: u64) -> (r:
        Vec<TweetData>)
        requires
            old(self).wf(),
            origin.wf(),
        ensures
            final(self).wf(),
            final(self).grown_from(*old(self)),
            sorted_asc(tweets_of_data(r@)),
            tweets_of_data(r@).to_multiset() == final(self).store.tweets_v().filter(
                by_conversation(conversation_id),
            ).filter(with_author_in(final(self).store)).to_multiset(),
            forall|j: int|
                0 <= j < r@.len() ==> (#[trigger] r@[j])@.user == user_data_of(
                    final(self).store.user_view(r@[j]@.tweet.author_id),
                ),
            old(self).store.tweets_v().filter(by_conversation(conversation_id)).len() >= 2
                ==> {
                &&& final(self).store.tweets_v() == old(self).store.tweets_v()
                &&& forall|j: int|
                    old(self).calls_v().len() <= j < final(self).calls_v().len() ==> !((
                    #[trigger] final(self).calls_v()[j]) is FetchConversation)
            },
            old(self).store.tweets_v().filter(by_conversation(conversation_id)).len() <= 1
                ==> final(self).calls_v().contains(
                OriginCallView::FetchConversation(conversation_id),
            ),
            old(self).store.tweets_v().filter(by_conversation(conversation_id)).len() <= 1
                ==> forall|j: int|
                0 <= j < origin.tweets_v().len() && (#[trigger] origin.tweets_v()[j]).conversation_id
                    == conversation_id ==> final(self).store.has_tweet(origin.tweets_v()[j].id)
                    && (!old(self).store.has_tweet(origin.tweets_v()[j].id) ==> final(self).store.tweets_v().contains(origin.tweets_v()[j])),
    {
        broadcast use vstd::seq_lib::group_to_multiset_ensures;

        let stored = self.store.conversation(conversation_id);
        if stored.len() > 1 {
            proof {
                assert(tweet_views(stored@).to_multiset().len() == old(self).store.tweets_v().filter(by_conversation(conversation_id)).to_multiset().len());
            }
            let r = self.vec_tweet_data_from_vec_tweet(origin, stored);
            proof {
                lemma_filter_sorted_asc(tweet_views(stored@), with_author_in(self.store));
                lemma_to_multiset_filter(
                    tweet_views(stored@),
                    self.store.tweets_v().filter(by_conversation(conversation_id)),
                    with_author_in(self.store),
                );
            }
            r
        } else {
            proof {
                assert(tweet_views(stored@).to_multiset().len() == old(self).store.tweets_v().filter(by_conversation(conversation_id)).to_multiset().len());
            }
            self.log_call(OriginCall::FetchConversation(conversation_id));
            let ghost after_log = *self;
            proof {
                lemma_grown_trans(*old(self), *old(self), after_log);
                assert(after_log.calls_v().contains(
                    OriginCallView::FetchConversation(conversation_id),
                )) by {
                    assert(after_log.calls_v().last() == OriginCallView::FetchConversation(
                        conversation_id,
                    ));
                }
            }
            let conv = origin.get_conversation_by_tweet_id(conversation_id);
            self.store_tweets(origin, &conv);
            let ghost after_store = *self;
            proof {
                lemma_grown_trans(*old(self), after_log, after_store);
                lemma_prefix_index(after_log.calls_v(), after_store.calls_v());
                let pred = by_conversation(conversation_id);
                assert forall|i: int|
                    0 <= i < conv@.len() implies origin.tweets_v().contains(
                    (#[trigger] conv@[i])@) by {
                    assert(tweet_views(conv@)[i] == conv@[i]@);
                    assert(origin.tweets_v().filter(pred).contains(conv@[i]@));
                    origin.tweets_v().lemma_filter_contains_rev(pred, conv@[i]@);
                }
                assert forall|j: int|
                    0 <= j < origin.tweets_v().len() && (#[trigger] origin.tweets_v()[j]).conversation_id
                        == conversation_id implies after_store.store.has_tweet(
                    origin.tweets_v()[j].id) && (!old(self).store.has_tweet(
                    origin.tweets_v()[j].id) ==> after_store.store.tweets_v().contains(
                    origin.tweets_v()[j])) by {
                    let v = origin.tweets_v()[j];
                    origin.tweets_v().lemma_filter_contains(pred, j);
                    assert(origin.tweets_v().filter(pred).contains(v));
                    let m = choose|m: int|
                        0 <= m < tweet_views(conv@).len() && tweet_views(conv@)[m] == v;
                    assert(conv@[m]@ == v);
                    assert(after_store.store.has_tweet(conv@[m]@.id));
                    if !old(self).store.has_tweet(v.id) {
                        assert(!after_log.store.has_tweet(v.id));
                        assert(origin.has_tweet(v.id)) by {
                            assert(origin.tweets_v()[j].id == v.id);
                        }
                        lemma_new_record_is_origin(after_log, after_store, *origin, conv@, v.id);
                        assert(origin.tweet_view(v.id) == v) by {
                            let n = choose|n: int|
                                0 <= n < origin.tweets_v().len() && origin.tweets_v()[n].id
                                    == v.id;
                            assert(n == j);
                        }
                    }
                }
            }
            let fresh = self.store.conversation(conversation_id);
            let r = self.vec_tweet_data_from_vec_tweet(origin, fresh);
            proof {
                lemma_grown_trans(*old(self), after_store, *self);
                lemma_prefix_index(after_log.calls_v(), self.calls_v());
                assert(self.calls_v().contains(
                    OriginCallView::FetchConversation(conversation_id),
                )) by {
                    let k = after_log.calls_v().len() - 1;
                    assert(self.calls_v()[k] == OriginCallView::FetchConversation(
                        conversation_id,
                    ));
                }
                lemma_filter_sorted_asc(tweet_views(fresh@), with_author_in(self.store));
                lemma_to_multiset_filter(
                    tweet_views(fresh@),
                    self.store.tweets_v().filter(by_conversation(conversation_id)),
                    with_author_in(self.store),
                );
            }
            r
        }
    }

    /// Searches the stored tweets for `search_query` as a substring of
    /// their text, each hit paired with its author's display data. The
    /// search itself is local: no remote fallback exists for it, and only
    /// author lookups may reach the origin.
    pub fn search_tweets_in_db(&mut self, origin: &Origin, search_query: &str) -> (r: Vec<
        TweetData,
    >)
        requires
            old(self).wf(),
            origin.wf(),
        ensures
            final(self).wf(),
            final(self).grown_from(*old(self)),
            final(self).store.tweets_v() == old(self).store.tweets_v(),
            final(self).store.convs_v() == old(self).store.convs_v(),
            final(self).store.refs_v() == old(self).store.refs_v(),
            final(self).gaps_v() == old(self).gaps_v(),
            tweets_of_data(r@) == old(self).store.tweets_v().filter(
                matching_text(search_query@),
            ).filter(with_author_in(final(self).store)),
            forall|j: int|
                0 <= j < r@.len() ==> (#[trigger] r@[j])@.user == user_data_of(
                    final(self).store.user_view(r@[j]@.tweet.author_id),
                ),
            forall|j: int|
                old(self).calls_v().len() <= j < final(self).calls_v().len() ==> (
                #[trigger] final(self).calls_v()[j]) is FetchUserById,
    {
        let matches = self.store.search_tweets(search_query);
        self.vec_tweet_data_from_vec_tweet(origin, matches)
    }

    /// Archives the full conversation of every tweet of `tweets`: each
    /// conversation is fetched from the origin — keyed by the tweet's own
    /// identifier — and every tweet of it is stored through a resolution
    /// pass: afterwards, every origin tweet whose conversation identifier
    /// equals a listed tweet's identifier is stored.
    pub fn seed_conversation_from_tweets(&mut self, origin: &Origin, tweets: &Vec<TweetData>)
        requires
            old(self).wf(),
            origin.wf(),
        ensures
            final(self).wf(),
            final(self).grown_from(*old(self)),
            forall|i: int|
                0 <= i < tweets@.len() ==> final(self).calls_v().contains(
                    OriginCallView::FetchConversation((#[trigger] tweets@[i])@.tweet.id),
                ),
            forall|i: int, j: int|
                0 <= i < tweets@.len() && 0 <= j < origin.tweets_v().len() && (
                #[trigger] origin.tweets_v()[j]).conversation_id == (
                #[trigger] tweets@[i])@.tweet.id ==> final(self).store.has_tweet(
                    origin.tweets_v()[j].id,
                ),
    {
        let mut i: usize = 0;
        while i < tweets.len()
            invariant
                origin.wf(),
                self.wf(),
                i <= tweets@.len(),
                self.grown_from(*old(self)),
                forall|j: int|
                    0 <= j < i ==> self.calls_v().contains(
                        OriginCallView::FetchConversation((#[trigger] tweets@[j])@.tweet.id),
                    ),
                forall|m: int, j: int|
                    0 <= m < i && 0 <= j < origin.tweets_v().len() && (
                    #[trigger] origin.tweets_v()[j]).conversation_id == (
                    #[trigger] tweets@[m])@.tweet.id ==> self.store.has_tweet(
                        origin.tweets_v()[j].id,
                    ),
            decreases tweets@.len() - i,
        {
            let ghost loop_pre = *self;
            self.log_call(OriginCall::FetchConversation(tweets[i].tweet.id));
            let ghost after_log = *self;
            proof {
                assert(after_log.calls_v().last() == OriginCallView::FetchConversation(
                    tweets@[i as int]@.tweet.id,
                ));
                assert(after_log.calls_v().contains(
                    OriginCallView::FetchConversation(tweets@[i as int]@.tweet.id),
                ));
                lemma_grown_trans(*old(self), loop_pre, after_log);
            }
            let conv = origin.get_conversation_by_tweet_id(tweets[i].tweet.id);
            self.store_tweets(origin, &conv);
            proof {
                lemma_grown_trans(*old(self), after_log, *self);
                lemma_grown_lookups(loop_pre, *self);
                lemma_prefix_index(after_log.calls_v(), self.calls_v());
                lemma_prefix_index(loop_pre.calls_v(), self.calls_v());
                let cid = tweets@[i as int]@.tweet.id;
                let pred = by_conversation(cid);
                assert forall|j: int|
                    0 <= j < origin.tweets_v().len() && (#[trigger] origin.tweets_v()[j]).conversation_id
                        == cid implies self.store.has_tweet(origin.tweets_v()[j].id) by {
                    let v = origin.tweets_v()[j];
                    origin.tweets_v().lemma_filter_contains(pred, j);
                    assert(origin.tweets_v().filter(pred).contains(v));
                    let m = choose|m: int|
                        0 <= m < tweet_views(conv@).len() && tweet_views(conv@)[m] == v;
                    assert(conv@[m]@ == v);
                    assert(self.store.has_tweet(conv@[m]@.id));
                }
                assert forall|j: int|
                    0 <= j <= i implies self.calls_v().contains(
                    OriginCallView::FetchConversation((#[trigger] tweets@[j])@.tweet.id),
                ) by {
                    if j < i {
                        let c = OriginCallView::FetchConversation(tweets@[j]@.tweet.id);
                        let k = choose|k: int|
                            0 <= k < loop_pre.calls_v().len() && loop_pre.calls_v()[k] == c;
                        assert(self.calls_v()[k] == c);
                    } else {
                        let c = OriginCallView::FetchConversation(tweets@[i as int]@.tweet.id);
                        let k = after_log.calls_v().len() - 1;
                        assert(self.calls_v()[k] == c);
                    }
                }
            }
            i = i + 1;
        }
    }
}

/// Referential closure: for any stored tweet, the stored users contain its
/// author — unless the failure to retrieve the author is on record as an
/// integrity gap — and the stored conversation-existence records contain
/// its conversation identifier. Holds in every state the engine's
/// operations produce.
pub proof fn lemma_referential_closure(e: Engine, i: int)
    requires
        e.wf(),
        0 <= i < e.store.tweets_v().len(),
    ensures
        e.store.has_conversation(e.store.tweets_v()[i].conversation_id),
        e.store.has_user(e.store.tweets_v()[i].author_id) || e.user_gap_logged(
            e.store.tweets_v()[i].author_id,
        ),
{
}

/// Reference dropping: a tweet that is not stored — in particular one
/// whose fetch reported absence, which resolution never stores — has no
/// reference edge pointing at it. Together with the resolver's
/// postconditions: when tweet `a` references tweet `b` and the origin
/// reports `b` absent, resolving `a` still stores `a`, and no edge from
/// `a` to `b` exists in the store.
pub proof fn lemma_reference_dropping(e: Engine, a: u64, b: u64)
    requires
        e.wf(),
        !e.store.has_tweet(b),
    ensures
        !e.store.has_reference_to(a, b),
{
    if e.store.has_reference_to(a, b) {
        let i = choose|i: int|
            0 <= i < e.store.refs_v().len() && e.store.refs_v()[i].source_tweet_id == a
                && e.store.refs_v()[i].reference_tweet_id == b;
        assert(e.store.has_tweet(e.store.refs_v()[i].reference_tweet_id));
    }
}

} // verus!
