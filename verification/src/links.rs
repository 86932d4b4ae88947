//! The previous and next links between the articles of one source.
use vstd::prelude::*;

verus! {

/// The view of an optional string.
pub open spec fn opt_view(o: Option<String>) -> Option<Seq<char>> {
    match o {
        Some(s) => Some(s@),
        None => None,
    }
}

/// Every index of `groups` is below `n` and none occurs twice.
pub open spec fn groups_partition(groups: Seq<Seq<usize>>, n: int) -> bool {
    &&& forall|k: int, m: int|
        0 <= k < groups.len() && 0 <= m < groups[k].len() ==> #[trigger] groups[k][m] < n
    &&& forall|k1: int, m1: int, k2: int, m2: int|
        0 <= k1 < groups.len() && 0 <= m1 < groups[k1].len() && 0 <= k2 < groups.len() && 0
            <= m2 < groups[k2].len() && (k1 != k2 || m1 != m2) ==> #[trigger] groups[k1][m1]
            != #[trigger] groups[k2][m2]
}

/// Index `i` occurs in `groups`, before group `k`, or in group `k` before position `m`.
pub open spec fn placed_before(groups: Seq<Seq<usize>>, i: int, k: int, m: int) -> bool {
    exists|a: int, b: int|
        0 <= a < groups.len() && 0 <= b < groups[a].len() && (a < k || (a == k && b < m))
            && #[trigger] groups[a][b] == i
}

/// `prev` and `next` give, for each index of a group, the file of the index just before
/// it and just after it in its group; indices in no group have neither.
pub open spec fn links_describe(
    groups: Seq<Seq<usize>>,
    files: Seq<String>,
    prev: Seq<Option<String>>,
    next: Seq<Option<String>>,
) -> bool {
    &&& prev.len() == files.len()
    &&& next.len() == files.len()
    &&& forall|k: int, m: int|
        0 <= k < groups.len() && 0 <= m < groups[k].len() ==> {
            &&& opt_view(prev[#[trigger] groups[k][m] as int]) == if m > 0 {
                Some(files[groups[k][m - 1] as int]@)
            } else {
                None
            }
            &&& opt_view(next[groups[k][m] as int]) == if m + 1 < groups[k].len() {
                Some(files[groups[k][m + 1] as int]@)
            } else {
                None
            }
        }
    &&& forall|i: int|
        #![trigger prev[i]]
        #![trigger next[i]]
        0 <= i < files.len() && !placed_before(groups, i, groups.len() as int, 0) ==> prev[i] is None
            && next[i] is None
}

/// Every index of `groups` is below `n`.
pub open spec fn groups_in_range(groups: Seq<Seq<usize>>, n: int) -> bool {
    forall|k: int, m: int| 0 <= k < groups.len() && 0 <= m < groups[k].len() ==> #[trigger] groups[k][m] < n
}

/// The previous links `s` after the first `m` indices of group `grp` are visited: each
/// visited index but the first gets the file of the index before it.
pub open spec fn prev_writes(grp: Seq<usize>, files: Seq<String>, s: Seq<Option<Seq<char>>>, m: int) -> Seq<
    Option<Seq<char>>,
>
    decreases m,
{
    if m <= 0 {
        s
    } else {
        let t = prev_writes(grp, files, s, m - 1);
        if m - 1 > 0 {
            t.update(grp[m - 1] as int, Some(files[grp[m - 2] as int]@))
        } else {
            t
        }
    }
}

/// The next links `s` after the first `m` indices of group `grp` are visited: each
/// visited index but the last gets the file of the index after it.
pub open spec fn next_writes(grp: Seq<usize>, files: Seq<String>, s: Seq<Option<Seq<char>>>, m: int) -> Seq<
    Option<Seq<char>>,
>
    decreases m,
{
    if m <= 0 {
        s
    } else {
        let t = next_writes(grp, files, s, m - 1);
        if m < grp.len() {
            t.update(grp[m - 1] as int, Some(files[grp[m] as int]@))
        } else {
            t
        }
    }
}

/// The previous links after the first `k` groups are visited, starting from none; a
/// later write to the same index replaces an earlier one.
pub open spec fn prev_links_of(groups: Seq<Seq<usize>>, files: Seq<String>, k: int) -> Seq<Option<Seq<char>>>
    decreases k,
{
    if k <= 0 {
        Seq::new(files.len(), |i: int| None)
    } else {
        prev_writes(groups[k - 1], files, prev_links_of(groups, files, k - 1), groups[k - 1].len() as int)
    }
}

/// The next links after the first `k` groups are visited, starting from none; a later
/// write to the same index replaces an earlier one.
pub open spec fn next_links_of(groups: Seq<Seq<usize>>, files: Seq<String>, k: int) -> Seq<Option<Seq<char>>>
    decreases k,
{
    if k <= 0 {
        Seq::new(files.len(), |i: int| None)
    } else {
        next_writes(groups[k - 1], files, next_links_of(groups, files, k - 1), groups[k - 1].len() as int)
    }
}

/// The views of a sequence of optional strings.
pub open spec fn opt_views(v: Seq<Option<String>>) -> Seq<Option<Seq<char>>> {
    v.map_values(|o: Option<String>| opt_view(o))
}

/// For each article, the file of the article before it and after it among the articles
/// of its source; `source_indices` holds the articles of each source in order. Sources
/// are visited in order and, within a source, its articles in order; an article listed
/// more than once keeps the links of its last listing. When no article is listed twice
/// the links are exactly those of `links_describe`.
pub fn generate_prev_next_links(
    source_indices: &Vec<Vec<usize>>,
    article_filenames: &Vec<String>,
) -> (links: (Vec<Option<String>>, Vec<Option<String>>))
    requires
        groups_in_range(source_indices@.map_values(|v: Vec<usize>| v@), article_filenames.len() as int),
    ensures
        opt_views(links.0@) == prev_links_of(
            source_indices@.map_values(|v: Vec<usize>| v@),
            article_filenames@,
            source_indices.len() as int,
        ),
        opt_views(links.1@) == next_links_of(
            source_indices@.map_values(|v: Vec<usize>| v@),
            article_filenames@,
            source_indices.len() as int,
        ),
        groups_partition(source_indices@.map_values(|v: Vec<usize>| v@), article_filenames.len() as int)
            ==> links_describe(source_indices@.map_values(|v: Vec<usize>| v@), article_filenames@, links.0@, links.1@),
{
    let n = article_filenames.len();
    let ghost g = source_indices@.map_values(|v: Vec<usize>| v@);
    let ghost files = article_filenames@;
    let mut prev: Vec<Option<String>> = Vec::new();
    let mut next: Vec<Option<String>> = Vec::new();
    let mut i: usize = 0;
    while i < n
        invariant
            i <= n,
            n == article_filenames.len(),
            prev.len() == i,
            next.len() == i,
            forall|j: int| 0 <= j < i ==> (#[trigger] prev@[j]) is None && next@[j] is None,
        decreases n - i,
    {
        prev.push(None);
        next.push(None);
        i = i + 1;
    }
    assert(opt_views(prev@) =~= prev_links_of(g, files, 0));
    assert(opt_views(next@) =~= next_links_of(g, files, 0));
    let mut k: usize = 0;
    while k < source_indices.len()
        invariant
            g == source_indices@.map_values(|v: Vec<usize>| v@),
            files == article_filenames@,
            n == files.len(),
            groups_in_range(g, n as int),
            k <= g.len(),
            prev.len() == n,
            next.len() == n,
            opt_views(prev@) == prev_links_of(g, files, k as int),
            opt_views(next@) == next_links_of(g, files, k as int),
            groups_partition(g, n as int) ==> forall|a: int, b: int|
                0 <= a < k && 0 <= b < g[a].len() ==> {
                    &&& opt_view(prev@[#[trigger] g[a][b] as int]) == if b > 0 {
                        Some(files[g[a][b - 1] as int]@)
                    } else {
                        None
                    }
                    &&& opt_view(next@[g[a][b] as int]) == if b + 1 < g[a].len() {
                        Some(files[g[a][b + 1] as int]@)
                    } else {
                        None
                    }
                },
            groups_partition(g, n as int) ==> forall|x: int|
                0 <= x < n && !placed_before(g, x, k as int, 0) ==> (#[trigger] prev@[x]) is None
                    && next@[x] is None,
        decreases g.len() - k,
    {
        let grp = &source_indices[k];
        let mut m: usize = 0;
        while m < grp.len()
            invariant
                g == source_indices@.map_values(|v: Vec<usize>| v@),
                files == article_filenames@,
                n == files.len(),
                groups_in_range(g, n as int),
                k < g.len(),
                grp@ == g[k as int],
                m <= grp.len(),
                prev.len() == n,
                next.len() == n,
                opt_views(prev@) == prev_writes(g[k as int], files, prev_links_of(g, files, k as int), m as int),
                opt_views(next@) == next_writes(g[k as int], files, next_links_of(g, files, k as int), m as int),
                groups_partition(g, n as int) ==> forall|a: int, b: int|
                    0 <= a < g.len() && 0 <= b < g[a].len() && (a < k || (a == k && b < m)) ==> {
                        &&& opt_view(prev@[#[trigger] g[a][b] as int]) == if b > 0 {
                            Some(files[g[a][b - 1] as int]@)
                        } else {
                            None
                        }
                        &&& opt_view(next@[g[a][b] as int]) == if b + 1 < g[a].len() {
                            Some(files[g[a][b + 1] as int]@)
                        } else {
                            None
                        }
                    },
                groups_partition(g, n as int) ==> forall|x: int|
                    0 <= x < n && !placed_before(g, x, k as int, m as int) ==> (
                    #[trigger] prev@[x]) is None && next@[x] is None,
            decreases grp.len() - m,
        {
            let idx = grp[m];
            assert(g[k as int][m as int] == idx);
            let ghost pv0 = prev@;
            let ghost nv0 = next@;
            if m > 0 {
                assert(g[k as int][m - 1] < n);
                prev.set(idx, Some(article_filenames[grp[m - 1]].clone()));
                assert(opt_views(prev@) =~= opt_views(pv0).update(idx as int, Some(files[g[k as int][m - 1] as int]@)));
            }
            if m + 1 < grp.len() {
                assert(g[k as int][m + 1] < n);
                next.set(idx, Some(article_filenames[grp[m + 1]].clone()));
                assert(opt_views(next@) =~= opt_views(nv0).update(idx as int, Some(files[g[k as int][m + 1] as int]@)));
            }
            assert(opt_views(prev@) == prev_writes(g[k as int], files, prev_links_of(g, files, k as int), m + 1));
            assert(opt_views(next@) == next_writes(g[k as int], files, next_links_of(g, files, k as int), m + 1));
            proof { if groups_partition(g, n as int) {
                assert forall|a: int, b: int|
                    0 <= a < g.len() && 0 <= b < g[a].len() && (a < k || (a == k && b < m + 1)) implies {
                        &&& opt_view(prev@[#[trigger] g[a][b] as int]) == if b > 0 {
                            Some(files[g[a][b - 1] as int]@)
                        } else {
                            None
                        }
                        &&& opt_view(next@[g[a][b] as int]) == if b + 1 < g[a].len() {
                            Some(files[g[a][b + 1] as int]@)
                        } else {
                            None
                        }
                    } by {
                    if !(a == k && b == m) {
                        assert(g[a][b] != g[k as int][m as int]);
                    } else {
                        assert(!placed_before(g, idx as int, k as int, m as int)) by {
                            if placed_before(g, idx as int, k as int, m as int) {
                                let (a2, b2) = choose|a2: int, b2: int|
                                    0 <= a2 < g.len() && 0 <= b2 < g[a2].len() && (a2 < k || (a2 == k && b2 < m))
                                        && #[trigger] g[a2][b2] == idx as int;
                                assert(g[a2][b2] != g[k as int][m as int]);
                            }
                        }
                    }
                }
                assert forall|x: int|
                    0 <= x < n && !placed_before(g, x, k as int, m + 1) implies (
                    #[trigger] prev@[x]) is None && next@[x] is None by {
                    if x == idx {
                        assert(g[k as int][m as int] == x);
                        assert(placed_before(g, x, k as int, m + 1));
                    }
                    if placed_before(g, x, k as int, m as int) {
                        let (a2, b2) = choose|a2: int, b2: int|
                            0 <= a2 < g.len() && 0 <= b2 < g[a2].len() && (a2 < k || (a2 == k && b2 < m))
                                && #[trigger] g[a2][b2] == x;
                        assert(placed_before(g, x, k as int, m + 1));
                    }
                }
            }}
            m = m + 1;
        }
        proof { if groups_partition(g, n as int) {
            assert forall|x: int|
                0 <= x < n && !placed_before(g, x, k + 1, 0) implies (#[trigger] prev@[x]) is None
                    && next@[x] is None by {
                if placed_before(g, x, k as int, m as int) {
                    let (a2, b2) = choose|a2: int, b2: int|
                        0 <= a2 < g.len() && 0 <= b2 < g[a2].len() && (a2 < k || (a2 == k && b2 < m))
                            && #[trigger] g[a2][b2] == x;
                    assert(placed_before(g, x, k + 1, 0));
                }
            }
        }}
        k = k + 1;
    }
    (prev, next)
}

/// When the files are distinct, the next link of `a` names the file of `b` exactly when
/// the previous link of `b` names the file of `a`: following "next" and then "previous"
/// comes back to the same article.
pub proof fn lemma_links_inverse(
    groups: Seq<Seq<usize>>,
    files: Seq<String>,
    prev: Seq<Option<String>>,
    next: Seq<Option<String>>,
    a: int,
    b: int,
)
    requires
        groups_partition(groups, files.len() as int),
        links_describe(groups, files, prev, next),
        forall|i: int, j: int| 0 <= i < files.len() && 0 <= j < files.len() && i != j ==> #[trigger] files[i]@ != #[trigger] files[j]@,
        0 <= a < files.len(),
        0 <= b < files.len(),
    ensures
        opt_view(next[a]) == Some(files[b]@) <==> opt_view(prev[b]) == Some(files[a]@),
{
    if opt_view(next[a]) == Some(files[b]@) {
        if placed_before(groups, a, groups.len() as int, 0) {
            let (k, m) = choose|k: int, m: int|
                0 <= k < groups.len() && 0 <= m < groups[k].len() && (k < groups.len() || (k == groups.len() && m < 0))
                    && #[trigger] groups[k][m] == a;
            assert(m + 1 < groups[k].len());
            let c = groups[k][m + 1] as int;
            assert(files[c]@ == files[b]@);
            assert(c == b);
            assert(groups[k][m + 1] < files.len());
            assert(opt_view(prev[groups[k][m + 1] as int]) == Some(files[groups[k][m] as int]@));
            assert(opt_view(prev[b]) == Some(files[a]@));
        } else {
            assert(next[a] is None);
        }
    }
    if opt_view(prev[b]) == Some(files[a]@) {
        if placed_before(groups, b, groups.len() as int, 0) {
            let (k, m) = choose|k: int, m: int|
                0 <= k < groups.len() && 0 <= m < groups[k].len() && (k < groups.len() || (k == groups.len() && m < 0))
                    && #[trigger] groups[k][m] == b;
            assert(m > 0);
            let c = groups[k][m - 1] as int;
            assert(files[c]@ == files[a]@);
            assert(c == a);
            assert(groups[k][m - 1] < files.len());
            assert(opt_view(next[groups[k][m - 1] as int]) == Some(files[groups[k][m] as int]@));
            assert(opt_view(next[a]) == Some(files[b]@));
        } else {
            assert(prev[b] is None);
        }
    }
}

} // verus!
