//! Merging freshly fetched records into the archive files' in-memory form:
//! tweets are deduplicated by identifier, conversations by the identifier
//! of their final tweet, users by identifier. The reading and writing of
//! the files themselves stays outside the library; these functions do the
//! deciding.

use vstd::prelude::*;

use crate::records::{Tweet, TweetView, User, UserView};
use crate::store::{distinct_tweet_ids, tweet_views, user_views};

verus! {

/// Whether some tweet of `s` carries identifier `id`.
pub open spec fn has_id(s: Seq<TweetView>, id: u64) -> bool {
    exists|i: int| 0 <= i < s.len() && s[i].id == id
}

/// Whether some user of `s` carries identifier `id`.
pub open spec fn has_user_id(s: Seq<UserView>, id: u64) -> bool {
    exists|i: int| 0 <= i < s.len() && s[i].id == id
}

/// Whether some conversation of `cs` ends in the tweet with identifier
/// `id` — the identifier under which a conversation is filed.
pub open spec fn has_conversation_ending_in(cs: Seq<Vec<Tweet>>, id: u64) -> bool {
    exists|i: int|
        0 <= i < cs.len() && (#[trigger] cs[i])@.len() > 0 && cs[i]@.last()@.id == id
}

/// Copies a list of tweets element by element.
fn clone_tweets(tweets: &Vec<Tweet>) -> (r: Vec<Tweet>)
    ensures
        tweet_views(r@) == tweet_views(tweets@),
{
    let mut r: Vec<Tweet> = Vec::new();
    let mut i: usize = 0;
    while i < tweets.len()
        invariant
            i <= tweets@.len(),
            r@.len() == i,
            forall|j: int| 0 <= j < i ==> tweet_views(r@)[j] == tweet_views(tweets@)[j],
        decreases tweets@.len() - i,
    {
        r.push(tweets[i].clone());
        i = i + 1;
    }
    proof {
        assert(tweet_views(r@) =~= tweet_views(tweets@));
    }
    r
}

/// The tweets of `new` that survive merging into `existing`: the first
/// occurrence of each identifier that `existing` does not hold, in the
/// order `new` lists them.
pub open spec fn unseen_tweets(existing: Seq<TweetView>, new: Seq<TweetView>) -> Seq<TweetView>
    decreases new.len(),
{
    if new.len() == 0 {
        Seq::empty()
    } else if has_id(existing, new.last().id) || has_id(new.drop_last(), new.last().id) {
        unseen_tweets(existing, new.drop_last())
    } else {
        unseen_tweets(existing, new.drop_last()).push(new.last())
    }
}

/// An identifier occurs in `unseen_tweets(existing, new)` exactly when it
/// occurs in `new` but not in `existing`.
proof fn lemma_unseen_ids(existing: Seq<TweetView>, new: Seq<TweetView>, x: u64)
    ensures
        has_id(unseen_tweets(existing, new), x) <==> has_id(new, x) && !has_id(existing, x),
    decreases new.len(),
{
    if new.len() > 0 {
        let prefix = new.drop_last();
        let last = new.last();
        lemma_unseen_ids(existing, prefix, x);
        let u = unseen_tweets(existing, prefix);
        if has_id(existing, last.id) || has_id(prefix, last.id) {
            assert(has_id(new, x) ==> has_id(prefix, x) || x == last.id) by {
                if has_id(new, x) {
                    let k = choose|k: int| 0 <= k < new.len() && new[k].id == x;
                    if k < prefix.len() {
                        assert(prefix[k].id == x);
                    }
                }
            }
            assert(has_id(prefix, x) ==> has_id(new, x)) by {
                if has_id(prefix, x) {
                    let k = choose|k: int| 0 <= k < prefix.len() && prefix[k].id == x;
                    assert(new[k].id == x);
                }
            }
        } else {
            assert forall|y: u64| has_id(u.push(last), y) implies has_id(u, y) || y
                == last.id by {
                let k = choose|k: int| 0 <= k < u.push(last).len() && u.push(last)[k].id == y;
                if k < u.len() {
                    assert(u[k].id == y);
                }
            }
            assert(has_id(u.push(last), last.id)) by {
                assert(u.push(last).last().id == last.id);
            }
            assert forall|y: u64| has_id(u, y) implies has_id(u.push(last), y) by {
                let k = choose|k: int| 0 <= k < u.len() && u[k].id == y;
                assert(u.push(last)[k].id == y);
            }
            assert(has_id(new, x) <==> has_id(prefix, x) || x == last.id) by {
                if has_id(new, x) {
                    let k = choose|k: int| 0 <= k < new.len() && new[k].id == x;
                    if k < prefix.len() {
                        assert(prefix[k].id == x);
                    }
                }
                if has_id(prefix, x) {
                    let k = choose|k: int| 0 <= k < prefix.len() && prefix[k].id == x;
                    assert(new[k].id == x);
                }
                assert(new.last().id == last.id);
            }
        }
    }
}

/// Appends to `tweets` every tweet of `new_tweets` whose identifier it
/// does not yet hold, keeping the existing tweets and their order: the
/// final list is the old one followed by the input's unseen-identifier
/// tweets, first occurrences, in input order. A list without duplicate
/// identifiers stays without them.
pub fn merge_tweets(tweets: &mut Vec<Tweet>, new_tweets: &Vec<Tweet>)
    ensures
        tweet_views(old(tweets)@).is_prefix_of(tweet_views(final(tweets)@)),
        forall|x: u64|
            has_id(tweet_views(final(tweets)@), x) <==> has_id(tweet_views(old(tweets)@), x)
                || has_id(tweet_views(new_tweets@), x),
        forall|j: int|
            old(tweets)@.len() <= j < final(tweets)@.len() ==> tweet_views(
                new_tweets@,
            ).contains(#[trigger] tweet_views(final(tweets)@)[j]),
        distinct_tweet_ids(tweet_views(old(tweets)@)) ==> distinct_tweet_ids(
            tweet_views(final(tweets)@),
        ),
        tweet_views(final(tweets)@) == tweet_views(old(tweets)@) + unseen_tweets(
            tweet_views(old(tweets)@),
            tweet_views(new_tweets@),
        ),
{
    let mut i: usize = 0;
    while i < new_tweets.len()
        invariant
            i <= new_tweets@.len(),
            tweet_views(old(tweets)@).is_prefix_of(tweet_views(tweets@)),
            forall|x: u64|
                has_id(tweet_views(tweets@), x) <==> has_id(tweet_views(old(tweets)@), x)
                    || has_id(tweet_views(new_tweets@).take(i as int), x),
            forall|j: int|
                old(tweets)@.len() <= j < tweets@.len() ==> tweet_views(new_tweets@).contains(
                    #[trigger] tweet_views(tweets@)[j],
                ),
            distinct_tweet_ids(tweet_views(old(tweets)@)) ==> distinct_tweet_ids(
                tweet_views(tweets@),
            ),
            tweet_views(tweets@) == tweet_views(old(tweets)@) + unseen_tweets(
                tweet_views(old(tweets)@),
                tweet_views(new_tweets@).take(i as int),
            ),
        decreases new_tweets@.len() - i,
    {
        let t = &new_tweets[i];
        let ghost prev = tweet_views(tweets@);
        let mut found = false;
        let mut j: usize = 0;
        while j < tweets.len()
            invariant
                j <= tweets@.len(),
                tweet_views(tweets@) == prev,
                t == &new_tweets[i as int],
                i < new_tweets@.len(),
                found ==> has_id(tweet_views(tweets@), t@.id),
                !found ==> forall|k: int| 0 <= k < j ==> tweet_views(tweets@)[k].id != t@.id,
            decreases tweets@.len() - j,
        {
            if tweets[j].id == t.id {
                proof {
                    assert(tweet_views(tweets@)[j as int].id == t@.id);
                }
                found = true;
            }
            j = j + 1;
        }
        if !found {
            tweets.push(t.clone());
            proof {
                assert(tweet_views(tweets@) =~= prev.push(t@));
                assert(tweet_views(tweets@).subrange(
                    0,
                    tweet_views(old(tweets)@).len() as int,
                ) =~= tweet_views(old(tweets)@));
                assert(tweet_views(tweets@).last() == t@);
                assert(tweet_views(new_tweets@).contains(t@)) by {
                    assert(tweet_views(new_tweets@)[i as int] == t@);
                }
            }
        }
        proof {
            assert(tweet_views(new_tweets@).take(i + 1) =~= tweet_views(new_tweets@).take(
                i as int,
            ).push(tweet_views(new_tweets@)[i as int]));
            let ghost existing = tweet_views(old(tweets)@);
            let ghost taken = tweet_views(new_tweets@).take(i as int);
            let ghost tv = tweet_views(new_tweets@)[i as int];
            assert(tweet_views(new_tweets@).take(i + 1).drop_last() =~= taken);
            assert(tweet_views(new_tweets@).take(i + 1).last() == tv);
            lemma_unseen_ids(existing, taken, tv.id);
            assert(found <==> has_id(existing, tv.id) || has_id(taken, tv.id)) by {
                assert(prev =~= existing + unseen_tweets(existing, taken));
                if found {
                    let k = choose|k: int| 0 <= k < prev.len() && prev[k].id == tv.id;
                    if k < existing.len() {
                        assert(existing[k].id == tv.id);
                    } else {
                        assert(unseen_tweets(existing, taken)[k - existing.len()].id
                            == tv.id);
                        assert(has_id(unseen_tweets(existing, taken), tv.id));
                    }
                } else {
                    if has_id(existing, tv.id) {
                        let k = choose|k: int|
                            0 <= k < existing.len() && existing[k].id == tv.id;
                        assert(prev[k].id == tv.id);
                    }
                    if has_id(unseen_tweets(existing, taken), tv.id) {
                        let k = choose|k: int|
                            0 <= k < unseen_tweets(existing, taken).len() && unseen_tweets(
                                existing,
                                taken,
                            )[k].id == tv.id;
                        assert(prev[existing.len() + k].id == tv.id);
                    }
                }
            }
            if found {
                assert(unseen_tweets(existing, tweet_views(new_tweets@).take(i + 1))
                    =~= unseen_tweets(existing, taken));
                assert(tweet_views(tweets@) =~= existing + unseen_tweets(
                    existing,
                    tweet_views(new_tweets@).take(i + 1),
                ));
            } else {
                assert(unseen_tweets(existing, tweet_views(new_tweets@).take(i + 1))
                    =~= unseen_tweets(existing, taken).push(tv));
                assert(tweet_views(tweets@) =~= existing + unseen_tweets(
                    existing,
                    tweet_views(new_tweets@).take(i + 1),
                ));
            }
            assert forall|x: u64|
                has_id(tweet_views(tweets@), x) <==> has_id(tweet_views(old(tweets)@), x)
                    || has_id(tweet_views(new_tweets@).take(i + 1), x) by {
                let cur = tweet_views(tweets@);
                let taken = tweet_views(new_tweets@).take(i + 1);
                if has_id(cur, x) {
                    let k = choose|k: int| 0 <= k < cur.len() && cur[k].id == x;
                    if k < prev.len() {
                        assert(prev[k].id == x);
                    } else {
                        assert(cur[k] == t@);
                        assert(taken[i as int].id == x);
                    }
                }
                if has_id(taken, x) {
                    let k = choose|k: int| 0 <= k < taken.len() && taken[k].id == x;
                    if k < i {
                        assert(tweet_views(new_tweets@).take(i as int)[k].id == x);
                    } else {
                        assert(taken[k] == t@);
                        if !found {
                            assert(cur.last().id == x);
                        }
                    }
                }
                if has_id(prev, x) {
                    let k = choose|k: int| 0 <= k < prev.len() && prev[k].id == x;
                    assert(cur[k].id == x);
                }
            }
        }
        i = i + 1;
    }
    proof {
        assert(tweet_views(new_tweets@).take(new_tweets@.len() as int) =~= tweet_views(
            new_tweets@,
        ));
    }
}

/// Appends `conversation` to `conversations` unless one filed under the
/// same identifier — the identifier of its final tweet — is already there;
/// in that case nothing changes.
pub fn add_conversation(conversations: &mut Vec<Vec<Tweet>>, conversation: &Vec<Tweet>)
    requires
        conversation@.len() > 0,
        forall|i: int| 0 <= i < old(conversations)@.len() ==> (#[trigger] old(conversations)@[i])@.len() > 0,
    ensures
        old(conversations)@.len() <= final(conversations)@.len() <= old(conversations)@.len()
            + 1,
        forall|i: int|
            0 <= i < old(conversations)@.len() ==> #[trigger] final(conversations)@[i] == old(conversations)@[i],
        has_conversation_ending_in(old(conversations)@, conversation@.last()@.id) ==> final(conversations)@ == old(conversations)@,
        !has_conversation_ending_in(old(conversations)@, conversation@.last()@.id) ==> {
            &&& final(conversations)@.len() == old(conversations)@.len() + 1
            &&& tweet_views(final(conversations)@.last()@) == tweet_views(conversation@)
        },
        has_conversation_ending_in(final(conversations)@, conversation@.last()@.id),
{
    let root_id = conversation[conversation.len() - 1].id;
    let mut i: usize = 0;
    while i < conversations.len()
        invariant
            conversations == old(conversations),
            i <= conversations@.len(),
            root_id == conversation@.last()@.id,
            conversation@.len() > 0,
            forall|k: int|
                0 <= k < conversations@.len() ==> (#[trigger] conversations@[k])@.len() > 0,
            forall|k: int|
                0 <= k < i ==> (#[trigger] conversations@[k])@.last()@.id != root_id,
        decreases conversations@.len() - i,
    {
        let stored = &conversations[i];
        if stored[stored.len() - 1].id == root_id {
            proof {
                assert((conversations@[i as int])@.last()@.id == root_id);
            }
            return ;
        }
        i = i + 1;
    }
    let ghost prev = conversations@;
    conversations.push(clone_tweets(conversation));
    proof {
        assert(conversations@.last()@.len() == conversation@.len()) by {
            assert(tweet_views(conversations@.last()@).len() == tweet_views(
                conversation@,
            ).len());
        }
        assert(conversations@.last()@.last()@.id == conversation@.last()@.id) by {
            let n = conversation@.len() as int;
            assert(tweet_views(conversations@.last()@)[n - 1] == tweet_views(
                conversation@,
            )[n - 1]);
        }
    }
}

/// Finds the stored conversation filed under identifier `id` — the one
/// whose final tweet carries `id` — if any.
pub fn find_conversation(conversations: &Vec<Vec<Tweet>>, id: u64) -> (r: Option<Vec<Tweet>>)
    requires
        forall|i: int|
            0 <= i < conversations@.len() ==> (#[trigger] conversations@[i])@.len() > 0,
    ensures
        r is Some <==> has_conversation_ending_in(conversations@, id),
        r matches Some(c) ==> exists|i: int|
            0 <= i < conversations@.len() && tweet_views(c@) == tweet_views(
                (#[trigger] conversations@[i])@,
            ) && (conversations@[i])@.last()@.id == id,
{
    let mut i: usize = 0;
    while i < conversations.len()
        invariant
            i <= conversations@.len(),
            forall|k: int|
                0 <= k < conversations@.len() ==> (#[trigger] conversations@[k])@.len() > 0,
            forall|k: int|
                0 <= k < i ==> (#[trigger] conversations@[k])@.last()@.id != id,
        decreases conversations@.len() - i,
    {
        let stored = &conversations[i];
        if stored[stored.len() - 1].id == id {
            proof {
                assert((conversations@[i as int])@.last()@.id == id);
            }
            return Some(clone_tweets(stored));
        }
        i = i + 1;
    }
    None
}

/// Appends `user` to `users` unless one with its identifier is already
/// there; in that case nothing changes. A handle change upstream never
/// duplicates a user: deduplication goes by identifier alone.
pub fn add_user(users: &mut Vec<User>, user: &User)
    ensures
        user_views(old(users)@).is_prefix_of(user_views(final(users)@)),
        has_user_id(user_views(old(users)@), user@.id) ==> user_views(final(users)@)
            == user_views(old(users)@),
        !has_user_id(user_views(old(users)@), user@.id) ==> user_views(final(users)@)
            == user_views(old(users)@).push(user@),
        has_user_id(user_views(final(users)@), user@.id),
{
    let mut i: usize = 0;
    while i < users.len()
        invariant
            users == old(users),
            i <= users@.len(),
            forall|k: int| 0 <= k < i ==> user_views(users@)[k].id != user@.id,
        decreases users@.len() - i,
    {
        if users[i].id == user.id {
            proof {
                assert(user_views(users@)[i as int].id == user@.id);
            }
            return ;
        }
        i = i + 1;
    }
    let ghost prev = user_views(users@);
    users.push(user.clone());
    proof {
        assert(user_views(users@) =~= prev.push(user@));
        assert(user_views(users@)[prev.len() as int].id == user@.id);
    }
}

} // verus!
