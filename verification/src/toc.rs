//! The master table of contents: the sources grouped by category, the categories in
//! lexicographic order and the sources of each category in digest order.
use vstd::prelude::*;
use crate::order::{seq_lt, chars_eq, chars_lt, lemma_seq_lt_irreflexive, lemma_seq_lt_transitive,
    lemma_seq_lt_total};
use crate::templates::{CategoryGroup, TocEntry, toc_entry_view, category_group_view};
use crate::order::lemma_seq_lt_asymmetric;
use crate::text::chars_of;

verus! {

/// The (file, name) pairs of the sources, among the first `k`, whose category is `c`.
pub open spec fn group_entries(
    names: Seq<String>,
    cats: Seq<String>,
    tocs: Seq<String>,
    c: Seq<char>,
    k: int,
) -> Seq<(Seq<char>, Seq<char>)>
    decreases k,
{
    if k <= 0 {
        Seq::empty()
    } else {
        let p = group_entries(names, cats, tocs, c, k - 1);
        if cats[k - 1]@ == c {
            p.push((tocs[k - 1]@, names[k - 1]@))
        } else {
            p
        }
    }
}

/// Some group has category `c`.
pub open spec fn has_group(groups: Seq<CategoryGroup>, c: Seq<char>) -> bool {
    exists|g: int| 0 <= g < groups.len() && groups[g].category@ == c
}

/// Some source has category `c`.
pub open spec fn has_category(cats: Seq<String>, c: Seq<char>) -> bool {
    exists|j: int| 0 <= j < cats.len() && cats[j]@ == c
}

/// `groups` has one group per category of the sources, in lexicographic order of the
/// categories, each listing the sources of its category in their order.
pub open spec fn groups_describe(
    names: Seq<String>,
    cats: Seq<String>,
    tocs: Seq<String>,
    groups: Seq<CategoryGroup>,
) -> bool {
    &&& forall|a: int, b: int|
        0 <= a < b < groups.len() ==> seq_lt(
            (#[trigger] groups[a]).category@,
            (#[trigger] groups[b]).category@,
        )
    &&& forall|j: int| 0 <= j < cats.len() ==> has_group(groups, #[trigger] cats[j]@)
    &&& forall|g: int| 0 <= g < groups.len() ==> has_category(cats, (#[trigger] groups[g]).category@)
    &&& forall|g: int|
        0 <= g < groups.len() ==> (#[trigger] groups[g]).sources@.map_values(|e: TocEntry| toc_entry_view(e))
            == group_entries(names, cats, tocs, groups[g].category@, cats.len() as int)
}

/// `cs` is strictly increasing.
pub open spec fn strictly_sorted(cs: Seq<Seq<char>>) -> bool {
    forall|a: int, b: int| 0 <= a < b < cs.len() ==> seq_lt(#[trigger] cs[a], #[trigger] cs[b])
}

/// The distinct categories of the sources, in lexicographic order.
pub open spec fn category_order(cats: Seq<String>) -> Seq<Seq<char>> {
    choose|cs: Seq<Seq<char>>|
        strictly_sorted(cs) && forall|x: Seq<char>| cs.contains(x) <==> has_category(cats, x)
}

/// The groups of the master table of contents, as (category, entries) pairs.
pub open spec fn expected_groups(names: Seq<String>, cats: Seq<String>, tocs: Seq<String>) -> Seq<
    (Seq<char>, Seq<(Seq<char>, Seq<char>)>),
> {
    category_order(cats).map_values(
        |c: Seq<char>| (c, group_entries(names, cats, tocs, c, cats.len() as int)),
    )
}

/// Two strictly increasing sequences with the same elements are equal.
pub proof fn lemma_sorted_unique(a: Seq<Seq<char>>, b: Seq<Seq<char>>)
    requires
        strictly_sorted(a),
        strictly_sorted(b),
        forall|x: Seq<char>| a.contains(x) <==> b.contains(x),
    ensures
        a == b,
    decreases a.len(),
{
    if a.len() == 0 {
        if b.len() > 0 {
            assert(b.contains(b[0]));
        }
        assert(a =~= b);
    } else {
        assert(a.contains(a[0]));
        let j = choose|j: int| 0 <= j < b.len() && b[j] == a[0];
        assert(b.contains(b[0]));
        let i = choose|i: int| 0 <= i < a.len() && a[i] == b[0];
        if j > 0 {
            assert(seq_lt(b[0], b[j]));
            if i > 0 {
                assert(seq_lt(a[0], a[i]));
                lemma_seq_lt_asymmetric(a[0], b[0]);
            } else {
                lemma_seq_lt_irreflexive(a[0]);
            }
        }
        let a2 = a.drop_first();
        let b2 = b.drop_first();
        assert forall|a3: int, b3: int| 0 <= a3 < b3 < a2.len() implies seq_lt(#[trigger] a2[a3], #[trigger] a2[b3]) by {
            assert(a2[a3] == a[a3 + 1] && a2[b3] == a[b3 + 1]);
        }
        assert forall|a3: int, b3: int| 0 <= a3 < b3 < b2.len() implies seq_lt(#[trigger] b2[a3], #[trigger] b2[b3]) by {
            assert(b2[a3] == b[a3 + 1] && b2[b3] == b[b3 + 1]);
        }
        assert forall|x: Seq<char>| a2.contains(x) <==> b2.contains(x) by {
            if a2.contains(x) {
                let p = choose|p: int| 0 <= p < a2.len() && a2[p] == x;
                assert(a.contains(x)) by { assert(a[p + 1] == x); }
                let q = choose|q: int| 0 <= q < b.len() && b[q] == x;
                if q == 0 {
                    assert(seq_lt(a[0], a[p + 1]));
                    lemma_seq_lt_irreflexive(x);
                }
                assert(b2[q - 1] == x);
            }
            if b2.contains(x) {
                let p = choose|p: int| 0 <= p < b2.len() && b2[p] == x;
                assert(b.contains(x)) by { assert(b[p + 1] == x); }
                let q = choose|q: int| 0 <= q < a.len() && a[q] == x;
                if q == 0 {
                    assert(seq_lt(b[0], b[p + 1]));
                    lemma_seq_lt_irreflexive(x);
                }
                assert(a2[q - 1] == x);
            }
        }
        lemma_sorted_unique(a2, b2);
        assert(a =~= b) by {
            assert forall|k: int| 0 <= k < a.len() implies a[k] == b[k] by {
                if k > 0 {
                    assert(a[k] == a2[k - 1]);
                    assert(b[k] == b2[k - 1]);
                }
            }
        }
    }
}

fn sorted_categories(cats: &Vec<String>) -> (r: Vec<Vec<char>>)
    ensures
        strictly_sorted(r@.map_values(|v: Vec<char>| v@)),
        forall|j: int| 0 <= j < cats.len() ==> r@.map_values(|v: Vec<char>| v@).contains(#[trigger] cats@[j]@),
        forall|g: int| 0 <= g < r.len() ==> has_category(cats@, #[trigger] r@[g]@),
{
    let mut r: Vec<Vec<char>> = Vec::new();
    let mut j: usize = 0;
    while j < cats.len()
        invariant
            j <= cats.len(),
            strictly_sorted(r@.map_values(|v: Vec<char>| v@)),
            forall|q: int| 0 <= q < j ==> r@.map_values(|v: Vec<char>| v@).contains(#[trigger] cats@[q]@),
            forall|g: int| 0 <= g < r.len() ==> has_category(cats@, #[trigger] r@[g]@),
        decreases cats.len() - j,
    {
        let c = chars_of(cats[j].as_str());
        let ghost rv = r@.map_values(|v: Vec<char>| v@);
        let mut p: usize = 0;
        while p < r.len() && chars_lt(&r[p], &c)
            invariant
                p <= r.len(),
                rv == r@.map_values(|v: Vec<char>| v@),
                forall|a: int| 0 <= a < p ==> seq_lt(#[trigger] rv[a], c@),
            decreases r.len() - p,
        {
            p = p + 1;
        }
        if p < r.len() && chars_eq(&r[p], &c) {
            assert(rv[p as int] == cats@[j as int]@);
        } else {
            proof {
                if p < r.len() {
                    lemma_seq_lt_total(rv[p as int], c@);
                    assert(seq_lt(c@, rv[p as int]));
                    assert forall|b: int| p <= b < rv.len() implies seq_lt(c@, #[trigger] rv[b]) by {
                        if b > p {
                            lemma_seq_lt_transitive(c@, rv[p as int], rv[b]);
                        }
                    }
                }
            }
            r.insert(p, c);
            proof {
                let nv = r@.map_values(|v: Vec<char>| v@);
                assert(nv =~= rv.insert(p as int, cats@[j as int]@));
                assert forall|a: int, b: int| 0 <= a < b < nv.len() implies seq_lt(#[trigger] nv[a], #[trigger] nv[b]) by {
                    if a < p && b > p {
                        lemma_seq_lt_transitive(nv[a], nv[p as int], nv[b]);
                    }
                }
                assert forall|q: int| 0 <= q < j implies nv.contains(#[trigger] cats@[q]@) by {
                    let w = choose|w: int| 0 <= w < rv.len() && rv[w] == cats@[q]@;
                    if w < p {
                        assert(nv[w] == rv[w]);
                    } else {
                        assert(nv[w + 1] == rv[w]);
                    }
                }
                assert(nv[p as int] == cats@[j as int]@);
                assert forall|g: int| 0 <= g < r.len() implies has_category(cats@, #[trigger] r@[g]@) by {
                    if g < p {
                        assert(r@[g]@ == rv[g]);
                    } else if g > p {
                        assert(r@[g]@ == rv[g - 1]);
                    } else {
                        assert(cats@[j as int]@ == r@[g]@);
                    }
                }
            }
        }
        proof {
            let nv = r@.map_values(|v: Vec<char>| v@);
            assert forall|q: int| 0 <= q < j + 1 implies nv.contains(#[trigger] cats@[q]@) by {
                if q == j {
                    if p < rv.len() && rv[p as int] == cats@[j as int]@ {
                        assert(nv[p as int] == cats@[q]@);
                    } else {
                        assert(nv[p as int] == cats@[q]@);
                    }
                }
            }
        }
        j = j + 1;
    }
    r
}

/// The sources, each with its category and the file name of its table of contents,
/// grouped for the master table of contents.
pub fn category_groups(names: &Vec<String>, categories: &Vec<String>, toc_files: &Vec<String>) -> (groups: Vec<CategoryGroup>)
    requires
        names.len() == categories.len(),
        toc_files.len() == categories.len(),
    ensures
        groups_describe(names@, categories@, toc_files@, groups@),
        groups@.map_values(|g: CategoryGroup| category_group_view(g)) == expected_groups(
            names@,
            categories@,
            toc_files@,
        ),
{
    let cs = sorted_categories(categories);
    let ghost csv = cs@.map_values(|v: Vec<char>| v@);
    let mut groups: Vec<CategoryGroup> = Vec::new();
    let mut g: usize = 0;
    while g < cs.len()
        invariant
            g <= cs.len(),
            csv == cs@.map_values(|v: Vec<char>| v@),
            names.len() == categories.len(),
            toc_files.len() == categories.len(),
            groups.len() == g,
            forall|a: int| 0 <= a < g ==> (#[trigger] groups@[a]).category@ == csv[a],
            forall|a: int|
                0 <= a < g ==> (#[trigger] groups@[a]).sources@.map_values(|e: TocEntry| toc_entry_view(e))
                    == group_entries(names@, categories@, toc_files@, csv[a], categories.len() as int),
        decreases cs.len() - g,
    {
        let c = &cs[g];
        let mut entries: Vec<TocEntry> = Vec::new();
        let mut j: usize = 0;
        while j < categories.len()
            invariant
                j <= categories.len(),
                names.len() == categories.len(),
                toc_files.len() == categories.len(),
                entries@.map_values(|e: TocEntry| toc_entry_view(e)) == group_entries(names@, categories@, toc_files@, c@, j as int),
            decreases categories.len() - j,
        {
            let cj = chars_of(categories[j].as_str());
            let ghost before = entries@;
            if chars_eq(&cj, c) {
                entries.push(TocEntry { toc_filename: toc_files[j].clone(), name: names[j].clone() });
                assert(entries@.map_values(|e: TocEntry| toc_entry_view(e)) =~= before.map_values(|e: TocEntry| toc_entry_view(e)).push((toc_files@[j as int]@, names@[j as int]@)));
            }
            j = j + 1;
        }
        let category = crate::text::string_of(c);
        groups.push(CategoryGroup { category, sources: entries });
        g = g + 1;
    }
    proof {
        let gv = groups@;
        assert forall|a: int, b: int| 0 <= a < b < gv.len() implies seq_lt((#[trigger] gv[a]).category@, (#[trigger] gv[b]).category@) by {
            assert(csv[a] == gv[a].category@);
            assert(csv[b] == gv[b].category@);
        }
        assert forall|j: int| 0 <= j < categories.len() implies has_group(gv, #[trigger] categories@[j]@) by {
            let w = choose|w: int| 0 <= w < csv.len() && csv[w] == categories@[j]@;
            assert(gv[w].category@ == categories@[j]@);
        }
        assert forall|a: int| 0 <= a < gv.len() implies has_category(categories@, (#[trigger] gv[a]).category@) by {
            assert(cs@[a]@ == csv[a]);
        }
        assert forall|x: Seq<char>| csv.contains(x) <==> has_category(categories@, x) by {
            if csv.contains(x) {
                let w = choose|w: int| 0 <= w < csv.len() && csv[w] == x;
                assert(cs@[w]@ == csv[w]);
            }
            if has_category(categories@, x) {
                let j = choose|j: int| 0 <= j < categories.len() && categories@[j]@ == x;
                assert(csv.contains(categories@[j]@));
            }
        }
        let co = category_order(categories@);
        assert(strictly_sorted(co) && forall|x: Seq<char>| co.contains(x) <==> has_category(categories@, x));
        lemma_sorted_unique(co, csv);
        assert(gv.map_values(|g: CategoryGroup| category_group_view(g)) =~= expected_groups(names@, categories@, toc_files@));
    }
    groups
}


proof fn lemma_group_entries_has(names: Seq<String>, cats: Seq<String>, tocs: Seq<String>, j: int, k: int)
    requires
        0 <= j < k <= cats.len(),
        names.len() == cats.len(),
        tocs.len() == cats.len(),
    ensures
        group_entries(names, cats, tocs, cats[j]@, k).contains((tocs[j]@, names[j]@)),
    decreases k,
{
    let c = cats[j]@;
    let p = group_entries(names, cats, tocs, c, k - 1);
    if j == k - 1 {
        assert(p.push((tocs[j]@, names[j]@))[p.len() as int] == (tocs[j]@, names[j]@));
    } else {
        lemma_group_entries_has(names, cats, tocs, j, k - 1);
        let q = choose|q: int| 0 <= q < p.len() && p[q] == (tocs[j]@, names[j]@);
        if cats[k - 1]@ == c {
            assert(p.push((tocs[k - 1]@, names[k - 1]@))[q] == (tocs[j]@, names[j]@));
        }
    }
}

/// Every source appears in the master table of contents: exactly one group carries its
/// category, and that group lists the source with the file of its table of contents.
pub proof fn lemma_source_listed_once(
    names: Seq<String>,
    cats: Seq<String>,
    tocs: Seq<String>,
    groups: Seq<CategoryGroup>,
    j: int,
)
    requires
        names.len() == cats.len(),
        tocs.len() == cats.len(),
        groups_describe(names, cats, tocs, groups),
        0 <= j < cats.len(),
    ensures
        has_group(groups, cats[j]@),
        forall|a: int, b: int|
            0 <= a < groups.len() && 0 <= b < groups.len() && (#[trigger] groups[a]).category@
                == cats[j]@ && (#[trigger] groups[b]).category@ == cats[j]@ ==> a == b,
        forall|g: int|
            0 <= g < groups.len() && (#[trigger] groups[g]).category@ == cats[j]@ ==> groups[g].sources@.map_values(
                |e: TocEntry| toc_entry_view(e),
            ).contains((tocs[j]@, names[j]@)),
{
    assert(has_group(groups, cats[j]@));
    assert forall|a: int, b: int|
        0 <= a < groups.len() && 0 <= b < groups.len() && (#[trigger] groups[a]).category@
            == cats[j]@ && (#[trigger] groups[b]).category@ == cats[j]@ implies a == b by {
        lemma_seq_lt_irreflexive(cats[j]@);
        if a < b {
            assert(seq_lt(groups[a].category@, groups[b].category@));
        } else if b < a {
            assert(seq_lt(groups[b].category@, groups[a].category@));
        }
    }
    lemma_group_entries_has(names, cats, tocs, j, cats.len() as int);
    assert forall|g: int|
        0 <= g < groups.len() && (#[trigger] groups[g]).category@ == cats[j]@ implies groups[g].sources@.map_values(
            |e: TocEntry| toc_entry_view(e),
        ).contains((tocs[j]@, names[j]@)) by {
        assert(groups[g].sources@.map_values(|e: TocEntry| toc_entry_view(e)) == group_entries(
            names,
            cats,
            tocs,
            groups[g].category@,
            cats.len() as int,
        ));
    }
}

} // verus!
