//! Which posts the built site lists, and in what order.

use vstd::prelude::*;

use crate::content::Post;
use crate::date::ymd_before;

verus! {

/// `a` is older than `b`.
pub open spec fn older(a: Post, b: Post) -> bool {
    ymd_before(a.date@, b.date@)
}

/// The first index at or after `from` where `r` holds a post older than `p`,
/// or `r.len()`.
pub open spec fn first_older_from(r: Seq<Post>, p: Post, from: int) -> int
    decreases r.len() - from,
{
    if from >= r.len() {
        r.len() as int
    } else if older(r[from], p) {
        from
    } else {
        first_older_from(r, p, from + 1)
    }
}

/// `p` placed into `r` before the first post older than it: after every
/// post of its own date already there.
pub open spec fn insert_newest_first(r: Seq<Post>, p: Post) -> Seq<Post> {
    let k = first_older_from(r, p, 0);
    r.take(k) + seq![p] + r.skip(k)
}

/// The posts of `s` ordered newest first; posts of one date keep their order
/// in `s` (a stable sort by date, newest first).
pub open spec fn newest_first(s: Seq<Post>) -> Seq<Post>
    decreases s.len(),
{
    if s.len() == 0 {
        Seq::empty()
    } else {
        insert_newest_first(newest_first(s.drop_last()), s.last())
    }
}

/// Whether a post is published.
pub open spec fn is_published() -> spec_fn(Post) -> bool {
    |p: Post| p.published
}

/// The posts the site lists: the published ones, newest first.
pub open spec fn listing(s: Seq<Post>) -> Seq<Post> {
    newest_first(s.filter(is_published()))
}

/// `r` lists no post before a newer one.
pub open spec fn is_newest_first(r: Seq<Post>) -> bool {
    forall|i: int, j: int| 0 <= i < j < r.len() ==> !older(#[trigger] r[i], #[trigger] r[j])
}

proof fn lemma_first_older_from(r: Seq<Post>, p: Post, from: int)
    requires
        0 <= from <= r.len(),
    ensures
        from <= first_older_from(r, p, from) <= r.len(),
        forall|i: int| from <= i < first_older_from(r, p, from) ==> !older(#[trigger] r[i], p),
        first_older_from(r, p, from) < r.len() ==> older(r[first_older_from(r, p, from)], p),
    decreases r.len() - from,
{
    if from < r.len() && !older(r[from], p) {
        lemma_first_older_from(r, p, from + 1);
    }
}

/// Placing a post into a list ordered newest first keeps it so; every post
/// after the new one is older than it.
proof fn lemma_insert_keeps_order(r: Seq<Post>, p: Post)
    requires
        is_newest_first(r),
    ensures
        is_newest_first(insert_newest_first(r, p)),
        forall|i: int|
            first_older_from(r, p, 0) <= i < r.len() ==> older(#[trigger] r[i], p),
{
    lemma_first_older_from(r, p, 0);
    let k = first_older_from(r, p, 0);
    let q = insert_newest_first(r, p);
    assert forall|i: int| k <= i < r.len() implies older(#[trigger] r[i], p) by {
        if i > k {
            assert(!older(r[k], r[i]));
        }
    }
    assert(q.len() == r.len() + 1);
    assert forall|i: int, j: int| 0 <= i < j < q.len() implies !older(#[trigger] q[i], #[trigger] q[j]) by {
        if j < k {
            assert(q[i] == r[i] && q[j] == r[j]);
        } else if j == k {
            assert(q[i] == r[i] && q[j] == p);
        } else if i < k {
            assert(q[i] == r[i] && q[j] == r[j - 1]);
            assert(!older(r[i], r[j - 1]));
        } else if i == k {
            assert(q[i] == p && q[j] == r[j - 1]);
            assert(older(r[j - 1], p));
        } else {
            assert(q[i] == r[i - 1] && q[j] == r[j - 1]);
        }
    }
}

/// The listing is ordered newest first.
pub proof fn lemma_newest_first_sorted(s: Seq<Post>)
    ensures
        is_newest_first(newest_first(s)),
    decreases s.len(),
{
    if s.len() > 0 {
        lemma_newest_first_sorted(s.drop_last());
        lemma_insert_keeps_order(newest_first(s.drop_last()), s.last());
    }
}

/// Ordering newest first neither adds, drops nor repeats a post.
pub proof fn lemma_newest_first_permutes(s: Seq<Post>)
    ensures
        newest_first(s).to_multiset() == s.to_multiset(),
    decreases s.len(),
{
    broadcast use vstd::seq_lib::group_seq_properties;
    broadcast use vstd::multiset::group_multiset_axioms;

    if s.len() > 0 {
        let r = newest_first(s.drop_last());
        lemma_newest_first_permutes(s.drop_last());
        lemma_first_older_from(r, s.last(), 0);
        let k = first_older_from(r, s.last(), 0);
        vstd::seq_lib::lemma_multiset_commutative(r.take(k) + seq![s.last()], r.skip(k));
        vstd::seq_lib::lemma_multiset_commutative(r.take(k), seq![s.last()]);
        vstd::seq_lib::lemma_multiset_commutative(r.take(k), r.skip(k));
        assert(r.take(k) + r.skip(k) =~= r);
        assert(s =~= s.drop_last().push(s.last()));
        assert(s.drop_last().push(s.last()).to_multiset() =~= s.drop_last().to_multiset().insert(
            s.last(),
        ));
        assert(seq![s.last()].to_multiset() =~= vstd::multiset::Multiset::empty().insert(s.last()));
    }
}

/// The posts of date `d`.
pub open spec fn of_date(d: (int, int, int)) -> spec_fn(Post) -> bool {
    |p: Post| p.date@ == d
}

/// Ordering newest first keeps the posts of each date in their order.
pub proof fn lemma_newest_first_stable(s: Seq<Post>, d: (int, int, int))
    ensures
        newest_first(s).filter(of_date(d)) == s.filter(of_date(d)),
    decreases s.len(),
{
    broadcast use vstd::seq_lib::group_seq_properties;

    if s.len() > 0 {
        let p = s.last();
        let r = newest_first(s.drop_last());
        lemma_newest_first_stable(s.drop_last(), d);
        lemma_newest_first_sorted(s.drop_last());
        lemma_insert_keeps_order(r, p);
        lemma_first_older_from(r, p, 0);
        let k = first_older_from(r, p, 0);
        let pre = r.take(k);
        let post = r.skip(k);
        Seq::filter_distributes_over_add(pre + seq![p], post, of_date(d));
        Seq::filter_distributes_over_add(pre, seq![p], of_date(d));
        Seq::filter_distributes_over_add(pre, post, of_date(d));
        assert(pre + post =~= r);
        assert(s =~= s.drop_last().push(p));
        s.drop_last().lemma_filter_push(p, of_date(d));
        reveal(Seq::filter);
        assert(seq![p].drop_last() =~= Seq::<Post>::empty());
        if p.date@ == d {
            assert forall|i: int| 0 <= i < post.len() implies !of_date(d)(#[trigger] post[i]) by {
                assert(post[i] == r[k + i]);
                assert(older(r[k + i], p));
            }
            lemma_filter_none(post, of_date(d));
            assert(seq![p].filter(of_date(d)) =~= seq![p]);
        } else {
            assert(seq![p].filter(of_date(d)) =~= Seq::<Post>::empty());
        }
    }
}

/// The site lists exactly its published posts, each once, newest first,
/// and posts of one date in the order the files were read.
pub proof fn lemma_listing(s: Seq<Post>, d: (int, int, int))
    ensures
        is_newest_first(listing(s)),
        forall|i: int, j: int|
            0 <= i < j < listing(s).len() ==> !ymd_before(
                #[trigger] listing(s)[i].date@,
                #[trigger] listing(s)[j].date@,
            ),
        listing(s).to_multiset() == s.filter(is_published()).to_multiset(),
        forall|i: int| 0 <= i < listing(s).len() ==> (#[trigger] listing(s)[i]).published,
        listing(s).filter(of_date(d)) == s.filter(is_published()).filter(of_date(d)),
{
    broadcast use vstd::seq_lib::group_seq_properties;
    broadcast use vstd::multiset::group_multiset_axioms;

    let f = s.filter(is_published());
    lemma_newest_first_sorted(f);
    lemma_newest_first_permutes(f);
    lemma_newest_first_stable(f, d);
    assert forall|i: int| 0 <= i < listing(s).len() implies (#[trigger] listing(s)[i]).published by {
        let x = listing(s)[i];
        vstd::seq_lib::to_multiset_contains(listing(s), x);
        assert(listing(s).contains(x));
        assert(listing(s).to_multiset().count(x) > 0);
        vstd::seq_lib::to_multiset_contains(f, x);
        assert(f.contains(x));
        let j = choose|j: int| 0 <= j < f.len() && f[j] == x;
        s.lemma_filter_pred(is_published(), j);
    }
}

proof fn lemma_filter_none(s: Seq<Post>, f: spec_fn(Post) -> bool)
    requires
        forall|i: int| 0 <= i < s.len() ==> !f(#[trigger] s[i]),
    ensures
        s.filter(f) == Seq::<Post>::empty(),
    decreases s.len(),
{
    reveal(Seq::filter);
    if s.len() > 0 {
        lemma_filter_none(s.drop_last(), f);
    }
}

/// The index in `out` where `p` goes: before the first post older than it.
fn insert_position(out: &Vec<Post>, p: &Post) -> (k: usize)
    ensures
        k as int == first_older_from(out@, *p, 0),
{
    let mut k: usize = 0;
    while k < out.len()
        invariant
            k <= out@.len(),
            first_older_from(out@, *p, 0) == first_older_from(out@, *p, k as int),
        decreases out@.len() - k,
    {
        if out[k].date.is_before(&p.date) {
            return k;
        }
        k = k + 1;
    }
    k
}

/// The posts the site lists: the published ones, newest first, posts of one
/// date in the order given.
pub fn published_newest_first(posts: Vec<Post>) -> (out: Vec<Post>)
    ensures
        out@ == listing(posts@),
        forall|i: int, j: int|
            0 <= i < j < out@.len() ==> !ymd_before(#[trigger] out@[i].date@, #[trigger] out@[j].date@),
        forall|i: int| 0 <= i < out@.len() ==> (#[trigger] out@[i]).published,
        out@.to_multiset() == posts@.filter(|p: Post| p.published).to_multiset(),
        forall|d: (int, int, int)|
            #![trigger out@.filter(of_date(d))]
            out@.filter(of_date(d)) == posts@.filter(|p: Post| p.published).filter(of_date(d)),
{
    let ghost orig = posts@;
    let mut rest = posts;
    let mut out: Vec<Post> = Vec::new();
    let ghost mut n: int = 0;
    proof {
        reveal(Seq::filter);
        assert(orig.take(0).filter(is_published()) =~= Seq::<Post>::empty());
    }
    while rest.len() > 0
        invariant
            0 <= n <= orig.len(),
            rest@ == orig.skip(n),
            out@ == newest_first(orig.take(n).filter(is_published())),
        decreases rest@.len(),
    {
        let p = rest.remove(0);
        proof {
            assert(p == orig[n]);
            assert(orig.take(n + 1) =~= orig.take(n).push(p));
            orig.take(n).lemma_filter_push(p, is_published());
            assert(rest@ =~= orig.skip(n + 1));
        }
        if p.published {
            let k = insert_position(&out, &p);
            proof {
                lemma_first_older_from(out@, p, 0);
                let f = orig.take(n).filter(is_published());
                assert(f.push(p).drop_last() =~= f);
            }
            let ghost before = out@;
            out.insert(k, p);
            proof {
                assert(out@ =~= insert_newest_first(before, p));
            }
        }
        proof {
            n = n + 1;
        }
    }
    proof {
        assert(orig.take(n) =~= orig);
        assert(is_published() == (|p: Post| p.published));
        lemma_listing(orig, (0, 0, 0));
        assert forall|d: (int, int, int)|
            #![trigger out@.filter(of_date(d))]
            out@.filter(of_date(d)) == orig.filter(|p: Post| p.published).filter(of_date(d)) by {
            lemma_listing(orig, d);
        }
    }
    out
}

/// The number of posts the home page shows: five, or fewer when there are
/// fewer.
pub open spec fn recent_count(n: int) -> int {
    if n < 5 {
        n
    } else {
        5
    }
}

/// The home page's posts: the first five of a listing.
pub fn recent_posts(posts: &[Post]) -> (out: &[Post])
    ensures
        out@ == posts@.take(recent_count(posts@.len() as int)),
        out@.len() == if posts@.len() < 5 {
            posts@.len()
        } else {
            5
        },
        forall|i: int| 0 <= i < out@.len() ==> #[trigger] out@[i] == posts@[i],
{
    let k: usize = if posts.len() < 5 {
        posts.len()
    } else {
        5
    };
    let out = vstd::slice::slice_subrange(posts, 0, k);
    assert(out@ =~= posts@.take(k as int));
    out
}

} // verus!
