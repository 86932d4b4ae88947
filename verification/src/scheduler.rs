//! What a scheduled job does: which kind of digest it builds, which feeds go into an
//! RSS digest, and which saved links a "read it later" digest marks as read.
use vstd::prelude::*;
use crate::models::{Feed, ReadItLaterArticle};
use crate::text::str_eq;
use std::collections::HashSet;

verus! {

broadcast use vstd::seq_lib::group_to_multiset_ensures, vstd::std_specs::hash::group_hash_axioms;

/// The kind of digest a schedule builds.
#[derive(Debug, Clone, Copy, PartialEq, Eq, Structural)]
pub enum JobKind {
    Rss,
    ReadItLater,
    Unknown,
}

/// The kind of digest for a stored schedule type.
pub open spec fn job_kind_of(t: Seq<char>) -> JobKind {
    if t == "rss"@ {
        JobKind::Rss
    } else if t == "read_it_later"@ {
        JobKind::ReadItLater
    } else {
        JobKind::Unknown
    }
}

/// The kind of digest a schedule of type `schedule_type` builds.
pub fn job_kind(schedule_type: &str) -> (k: JobKind)
    ensures
        k == job_kind_of(schedule_type@),
{
    if str_eq(schedule_type, "rss") {
        JobKind::Rss
    } else if str_eq(schedule_type, "read_it_later") {
        JobKind::ReadItLater
    } else {
        JobKind::Unknown
    }
}

/// The key by which feeds are told apart: the id, or 0 for a feed without one.
pub open spec fn feed_key(f: Feed) -> i64 {
    match f.id {
        Some(i) => i,
        None => 0,
    }
}

/// The feeds of all categories, one category after another.
pub open spec fn flatten(lists: Seq<Vec<Feed>>) -> Seq<Feed>
    decreases lists.len(),
{
    if lists.len() == 0 {
        Seq::empty()
    } else {
        flatten(lists.drop_last()) + lists.last()@
    }
}

/// Some feed of `s` before position `n` has key `k`.
pub open spec fn key_seen(s: Seq<Feed>, n: int, k: i64) -> bool {
    exists|j: int| 0 <= j < n && feed_key(s[j]) == k
}

/// The feeds of `s` whose key no earlier feed has, in order.
pub open spec fn dedup_feeds(s: Seq<Feed>) -> Seq<Feed>
    decreases s.len(),
{
    if s.len() == 0 {
        Seq::empty()
    } else {
        let p = dedup_feeds(s.drop_last());
        if key_seen(s, s.len() - 1, feed_key(s.last())) {
            p
        } else {
            p.push(s.last())
        }
    }
}

/// The number of leading feeds of `s` whose position is at most `p`.
pub open spec fn prefix_le(s: Seq<Feed>, p: i64) -> nat
    decreases s.len(),
{
    if s.len() == 0 || s[0].position > p {
        0
    } else {
        1 + prefix_le(s.drop_first(), p)
    }
}

/// `s` sorted by position, feeds of equal position keeping their order (a stable sort,
/// as `sort_by_key` is).
pub open spec fn sort_by_position(s: Seq<Feed>) -> Seq<Feed>
    decreases s.len(),
{
    if s.len() == 0 {
        Seq::empty()
    } else {
        let p = sort_by_position(s.drop_last());
        p.insert(prefix_le(p, s.last().position) as int, s.last())
    }
}

/// The feeds of a scheduled RSS digest when the schedule names categories: the feeds of
/// those categories, each feed once, in position order.
pub open spec fn scheduled_feeds(lists: Seq<Vec<Feed>>) -> Seq<Feed> {
    sort_by_position(dedup_feeds(flatten(lists)))
}

proof fn lemma_prefix_le_bound(s: Seq<Feed>, p: i64)
    ensures
        prefix_le(s, p) <= s.len(),
        forall|i: int| 0 <= i < prefix_le(s, p) ==> (#[trigger] s[i]).position <= p,
        prefix_le(s, p) < s.len() ==> s[prefix_le(s, p) as int].position > p,
    decreases s.len(),
{
    if s.len() > 0 && s[0].position <= p {
        lemma_prefix_le_bound(s.drop_first(), p);
        assert forall|i: int| 0 <= i < prefix_le(s, p) implies (#[trigger] s[i]).position <= p by {
            if i > 0 {
                assert(s[i] == s.drop_first()[i - 1]);
            }
        }
    }
}

/// `s` is in position order.
pub open spec fn position_sorted(s: Seq<Feed>) -> bool {
    forall|i: int, j: int| 0 <= i < j < s.len() ==> (#[trigger] s[i]).position <= (#[trigger] s[j]).position
}

/// Sorting by position gives the same feeds, in position order.
pub proof fn lemma_sort_by_position(s: Seq<Feed>)
    ensures
        position_sorted(sort_by_position(s)),
        sort_by_position(s).to_multiset() == s.to_multiset(),
        sort_by_position(s).len() == s.len(),
    decreases s.len(),
{
    if s.len() > 0 {
        let p = sort_by_position(s.drop_last());
        lemma_sort_by_position(s.drop_last());
        let x = s.last();
        let k = prefix_le(p, x.position) as int;
        lemma_prefix_le_bound(p, x.position);
        let r = p.insert(k, x);
        assert forall|i: int, j: int| 0 <= i < j < r.len() implies (#[trigger] r[i]).position <= (#[trigger] r[j]).position by {
            if i < k && j == k {
            } else if i < k && j > k {
                assert(r[i] == p[i]);
                assert(r[j] == p[j - 1]);
            } else if i == k && j > k {
                assert(r[j] == p[j - 1]);
                if k < p.len() {
                    assert(p[k].position > x.position);
                    if j - 1 > k {
                        assert(p[k].position <= p[j - 1].position);
                    }
                }
            } else if i > k {
                assert(r[i] == p[i - 1]);
                assert(r[j] == p[j - 1]);
            } else {
                assert(r[i] == p[i]);
                assert(r[j] == p[j]);
            }
        }
        assert(s =~= s.drop_last().push(x));
        vstd::seq_lib::to_multiset_insert(p, k, x);
    }
}

/// Dropping repeated keys keeps each key of `s` exactly once.
pub proof fn lemma_dedup_feeds(s: Seq<Feed>)
    ensures
        forall|i: int, j: int|
            0 <= i < j < dedup_feeds(s).len() ==> feed_key(#[trigger] dedup_feeds(s)[i])
                != feed_key(#[trigger] dedup_feeds(s)[j]),
        forall|i: int| 0 <= i < s.len() ==> key_seen(dedup_feeds(s), dedup_feeds(s).len() as int, feed_key(#[trigger] s[i])),
        forall|i: int| 0 <= i < dedup_feeds(s).len() ==> s.contains(#[trigger] dedup_feeds(s)[i]),
    decreases s.len(),
{
    if s.len() > 0 {
        let q = s.drop_last();
        lemma_dedup_feeds(q);
        let p = dedup_feeds(q);
        let d = dedup_feeds(s);
        assert forall|j: int| 0 <= j < s.len() - 1 implies #[trigger] s[j] == q[j] by {}
        assert(key_seen(s, s.len() - 1, feed_key(s.last())) == key_seen(q, q.len() as int, feed_key(s.last())));
        if key_seen(s, s.len() - 1, feed_key(s.last())) {
            assert forall|i: int| 0 <= i < s.len() implies key_seen(d, d.len() as int, feed_key(#[trigger] s[i])) by {
                if i == s.len() - 1 {
                    let j = choose|j: int| 0 <= j < q.len() && feed_key(q[j]) == feed_key(s.last());
                    assert(key_seen(p, p.len() as int, feed_key(q[j])));
                } else {
                    assert(key_seen(p, p.len() as int, feed_key(q[i])));
                }
            }
            assert forall|i: int| 0 <= i < d.len() implies s.contains(#[trigger] d[i]) by {
                assert(q.contains(d[i]));
                let j = choose|j: int| 0 <= j < q.len() && q[j] == d[i];
                assert(s[j] == d[i]);
            }
        } else {
            assert forall|i: int, j: int| 0 <= i < j < d.len() implies feed_key(#[trigger] d[i]) != feed_key(#[trigger] d[j]) by {
                if j == d.len() - 1 {
                    assert(d[i] == p[i]);
                    assert(q.contains(p[i]));
                    let w = choose|w: int| 0 <= w < q.len() && q[w] == p[i];
                    if feed_key(d[i]) == feed_key(d[j]) {
                        assert(key_seen(q, q.len() as int, feed_key(s.last())));
                    }
                } else {
                    assert(d[i] == p[i]);
                    assert(d[j] == p[j]);
                }
            }
            assert forall|i: int| 0 <= i < s.len() implies key_seen(d, d.len() as int, feed_key(#[trigger] s[i])) by {
                if i == s.len() - 1 {
                    assert(d[d.len() - 1] == s.last());
                } else {
                    assert(key_seen(p, p.len() as int, feed_key(q[i])));
                    let w = choose|w: int| 0 <= w < p.len() && feed_key(p[w]) == feed_key(q[i]);
                    assert(d[w] == p[w]);
                }
            }
            assert forall|i: int| 0 <= i < d.len() implies s.contains(#[trigger] d[i]) by {
                if i == d.len() - 1 {
                    assert(s[s.len() - 1] == d[i]);
                } else {
                    assert(d[i] == p[i]);
                    assert(q.contains(d[i]));
                    let j = choose|j: int| 0 <= j < q.len() && q[j] == d[i];
                    assert(s[j] == d[i]);
                }
            }
        }
    }
}

/// The feeds of a scheduled RSS digest, from the feeds of each selected category:
/// each feed once (the first time it is met), then in position order.
pub fn collect_scheduled_feeds(lists: Vec<Vec<Feed>>) -> (feeds: Vec<Feed>)
    ensures
        feeds@ == scheduled_feeds(lists@),
{
    let ghost all = lists@;
    assert(all.len() == lists.len());
    let mut lists = lists;
    let mut flat: Vec<Feed> = Vec::new();
    let mut k: usize = 0;
    while lists.len() > 0
        invariant
            k + lists.len() == all.len(),
            all.len() <= usize::MAX,
            lists@ == all.skip(k as int),
            flat@ == flatten(all.take(k as int)),
        decreases lists.len(),
    {
        let mut l = lists.remove(0);
        assert(all.take(k + 1).drop_last() =~= all.take(k as int));
        assert(l == all[k as int]);
        flat.append(&mut l);
        k = k + 1;
        assert(lists@ =~= all.skip(k as int));
    }
    assert(all.take(k as int) =~= all);
    let ghost fl = flat@;
    assert(fl.len() == flat.len());
    // keep the first feed of each key
    let mut kept: Vec<Feed> = Vec::new();
    let mut seen_ids: HashSet<i64> = HashSet::new();
    let mut i: usize = 0;
    while flat.len() > 0
        invariant
            i + flat.len() == fl.len(),
            fl.len() <= usize::MAX,
            flat@ == fl.skip(i as int),
            kept@ == dedup_feeds(fl.take(i as int)),
            forall|k: i64| #[trigger] seen_ids@.contains(k) <==> key_seen(fl, i as int, k),
        decreases flat.len(),
    {
        let f = flat.remove(0);
        assert(f == fl[i as int]);
        let key = match f.id {
            Some(v) => v,
            None => 0,
        };
        let fresh = seen_ids.insert(key);
        assert(fresh == !key_seen(fl, i as int, key));
        assert forall|k: i64| #[trigger] seen_ids@.contains(k) <==> key_seen(fl, i + 1, k) by {
            if key_seen(fl, i + 1, k) && k != key {
                let w = choose|w: int| 0 <= w < i + 1 && feed_key(fl[w]) == k;
                assert(w < i);
            }
            if k == key {
                assert(feed_key(fl[i as int]) == key);
            }
        }
        let ghost t = fl.take(i + 1);
        assert(t.drop_last() =~= fl.take(i as int));
        assert(key_seen(t, t.len() - 1, feed_key(t.last())) == key_seen(fl, i as int, key)) by {
            if key_seen(fl, i as int, key) {
                let w = choose|w: int| 0 <= w < i && feed_key(fl[w]) == key;
                assert(t[w] == fl[w]);
            }
            if key_seen(t, t.len() - 1, feed_key(t.last())) {
                let w = choose|w: int| 0 <= w < t.len() - 1 && feed_key(t[w]) == feed_key(t.last());
                assert(t[w] == fl[w]);
            }
        }
        if fresh {
            kept.push(f);
        }
        i = i + 1;
        assert(flat@ =~= fl.skip(i as int));
    }
    assert(fl.take(i as int) =~= fl);
    let ghost dd = kept@;
    assert(dd.len() == kept.len());
    // stable insertion by position
    let mut sorted: Vec<Feed> = Vec::new();
    let mut n: usize = 0;
    while kept.len() > 0
        invariant
            n + kept.len() == dd.len(),
            dd.len() <= usize::MAX,
            kept@ == dd.skip(n as int),
            sorted@ == sort_by_position(dd.take(n as int)),
        decreases kept.len(),
    {
        let f = kept.remove(0);
        assert(f == dd[n as int]);
        let mut p: usize = 0;
        let ghost s0 = sorted@;
        assert(s0.skip(0) =~= s0);
        while p < sorted.len() && sorted[p].position <= f.position
            invariant
                p <= sorted.len(),
                sorted@ == s0,
                prefix_le(s0, f.position) == p + prefix_le(s0.skip(p as int), f.position),
            decreases sorted.len() - p,
        {
            assert(s0.skip(p as int).drop_first() =~= s0.skip(p + 1));
            p = p + 1;
        }
        sorted.insert(p, f);
        assert(dd.take(n + 1).drop_last() =~= dd.take(n as int));
        n = n + 1;
        assert(kept@ =~= dd.skip(n as int));
    }
    assert(dd.take(n as int) =~= dd);
    sorted
}

/// The ids of the saved links of a "read it later" digest, in order; links without an
/// id are skipped.
pub open spec fn article_ids(arts: Seq<ReadItLaterArticle>) -> Seq<i64>
    decreases arts.len(),
{
    if arts.len() == 0 {
        Seq::empty()
    } else {
        let p = article_ids(arts.drop_last());
        match arts.last().id {
            Some(id) => p.push(id),
            None => p,
        }
    }
}

/// The ids of the saved links to mark as read once their digest is built.
pub fn read_it_later_ids(articles: &Vec<ReadItLaterArticle>) -> (ids: Vec<i64>)
    ensures
        ids@ == article_ids(articles@),
{
    let mut ids: Vec<i64> = Vec::new();
    let mut i: usize = 0;
    while i < articles.len()
        invariant
            i <= articles.len(),
            ids@ == article_ids(articles@.take(i as int)),
        decreases articles.len() - i,
    {
        assert(articles@.take(i + 1).drop_last() =~= articles@.take(i as int));
        match articles[i].id {
            Some(id) => ids.push(id),
            None => {},
        }
        i = i + 1;
    }
    assert(articles@.take(i as int) =~= articles@);
    ids
}

} // verus!
