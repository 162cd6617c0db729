//! Which entries of a directory are offered, in what order, and as what.

use vstd::prelude::*;

verus! {

/// What a directory entry is.
#[derive(Clone, Copy, Debug, PartialEq, Eq, Structural)]
pub enum EntryKind {
    Directory,
    File,
    Other,
}

/// One entry of a directory listing.
#[derive(Debug)]
pub struct DirEntry {
    pub name: String,
    pub kind: EntryKind,
    pub is_symlink: bool,
}

/// The kind shown with a completion candidate.
#[derive(Clone, Copy, Debug, PartialEq, Eq, Structural)]
pub enum CandidateKind {
    Folder,
    File,
}

/// A completion candidate: the entry's name and its kind, if it is a
/// directory or a regular file.
#[derive(Debug)]
pub struct Candidate {
    pub label: String,
    pub kind: Option<CandidateKind>,
}

/// The lowercase form of `s`, by `str::to_lowercase`.
pub uninterp spec fn lower_of(s: Seq<char>) -> Seq<char>;

/// Relies on `str::to_lowercase`: the result depends on the characters alone.
#[verifier::external_body]
fn lowercase(s: &str) -> (r: Vec<char>)
    ensures
        r@ == lower_of(s@),
{
    s.to_lowercase().chars().collect()
}

/// Strict lexicographic order by code point.
pub open spec fn lex_lt(a: Seq<char>, b: Seq<char>) -> bool
    decreases a.len(),
{
    if b.len() == 0 {
        false
    } else if a.len() == 0 {
        true
    } else if a[0] != b[0] {
        a[0] < b[0]
    } else {
        lex_lt(a.drop_first(), b.drop_first())
    }
}

/// The entry is listed: it is no symbolic link, and hidden (dot) entries are
/// listed only when `show_hidden`.
pub open spec fn is_listed(e: DirEntry, show_hidden: bool) -> bool {
    &&& !e.is_symlink
    &&& show_hidden || !(e.name@.len() > 0 && e.name@[0] == '.')
}

/// Entry `i` comes before entry `j`: directories first, then by lowercase
/// name, and entries with equal keys in the order they were read.
pub open spec fn comes_before(es: Seq<DirEntry>, i: int, j: int) -> bool {
    let di = es[i].kind == EntryKind::Directory;
    let dj = es[j].kind == EntryKind::Directory;
    let li = lower_of(es[i].name@);
    let lj = lower_of(es[j].name@);
    ||| di && !dj
    ||| di == dj && lex_lt(li, lj)
    ||| di == dj && li == lj && i < j
}

/// `order` lists each listed entry of `es` once, in display order.
pub open spec fn is_listing_order(es: Seq<DirEntry>, show_hidden: bool, order: Seq<usize>) -> bool {
    &&& forall|k: int| 0 <= k < order.len() ==> order[k] < es.len()
    &&& forall|j: int|
        0 <= j < es.len() ==> (is_listed(es[j], show_hidden) <==> order.contains(j as usize))
    &&& forall|a: int, b: int|
        0 <= a < b < order.len() ==> comes_before(es, order[a] as int, order[b] as int)
}

/// The candidate kind of an entry kind.
pub open spec fn candidate_kind(k: EntryKind) -> Option<CandidateKind> {
    match k {
        EntryKind::Directory => Some(CandidateKind::Folder),
        EntryKind::File => Some(CandidateKind::File),
        EntryKind::Other => None,
    }
}

proof fn lemma_lex_trichotomy(a: Seq<char>, b: Seq<char>)
    ensures
        a == b || lex_lt(a, b) || lex_lt(b, a),
        !(lex_lt(a, b) && lex_lt(b, a)),
        !lex_lt(a, a),
    decreases a.len(),
{
    if a.len() > 0 && b.len() > 0 && a[0] == b[0] {
        lemma_lex_trichotomy(a.drop_first(), b.drop_first());
        if a.drop_first() == b.drop_first() {
            assert(a =~= seq![a[0]] + a.drop_first());
            assert(b =~= seq![b[0]] + b.drop_first());
        }
    } else if a.len() > 0 && b.len() > 0 {
    } else if a.len() == 0 && b.len() == 0 {
        assert(a =~= b);
    }
    if a.len() > 0 {
        lemma_lex_trichotomy(a.drop_first(), a.drop_first());
    }
}

proof fn lemma_lex_transitive(a: Seq<char>, b: Seq<char>, c: Seq<char>)
    requires
        lex_lt(a, b),
        lex_lt(b, c),
    ensures
        lex_lt(a, c),
    decreases a.len(),
{
    if a.len() > 0 && a[0] == b[0] && b[0] == c[0] {
        lemma_lex_transitive(a.drop_first(), b.drop_first(), c.drop_first());
    }
}

proof fn lemma_before_total(es: Seq<DirEntry>, i: int, j: int)
    requires
        i != j,
    ensures
        comes_before(es, i, j) || comes_before(es, j, i),
        !(comes_before(es, i, j) && comes_before(es, j, i)),
{
    lemma_lex_trichotomy(lower_of(es[i].name@), lower_of(es[j].name@));
}

proof fn lemma_before_transitive(es: Seq<DirEntry>, i: int, j: int, k: int)
    requires
        comes_before(es, i, j),
        comes_before(es, j, k),
    ensures
        comes_before(es, i, k),
{
    let li = lower_of(es[i].name@);
    let lj = lower_of(es[j].name@);
    let lk = lower_of(es[k].name@);
    if lex_lt(li, lj) && lex_lt(lj, lk) {
        lemma_lex_transitive(li, lj, lk);
    }
}

pub open spec fn strictly_ordered(es: Seq<DirEntry>, order: Seq<usize>) -> bool {
    forall|a: int, b: int|
        0 <= a < b < order.len() ==> comes_before(es, order[a] as int, order[b] as int)
}

proof fn lemma_before_irreflexive(es: Seq<DirEntry>, i: int)
    ensures
        !comes_before(es, i, i),
{
    lemma_lex_trichotomy(lower_of(es[i].name@), lower_of(es[i].name@));
}

proof fn lemma_same_members_same_order(es: Seq<DirEntry>, o1: Seq<usize>, o2: Seq<usize>)
    requires
        strictly_ordered(es, o1),
        strictly_ordered(es, o2),
        forall|x: usize| o1.contains(x) <==> o2.contains(x),
    ensures
        o1 == o2,
    decreases o1.len(),
{
    if o1.len() == 0 {
        if o2.len() > 0 {
            assert(o2.contains(o2[0]));
        }
        assert(o1 =~= o2);
    } else {
        assert(o1.contains(o1[0]));
        let a = o1[0];
        assert(o2.contains(a));
        let b = o2[0];
        assert(o2.contains(b));
        if a != b {
            let j = choose|j: int| 0 <= j < o1.len() && o1[j] == b;
            let i = choose|i: int| 0 <= i < o2.len() && o2[i] == a;
            assert(comes_before(es, o1[0] as int, o1[j] as int));
            assert(comes_before(es, o2[0] as int, o2[i] as int));
            lemma_before_total(es, a as int, b as int);
        }
        assert(a == b);
        let r1 = o1.drop_first();
        let r2 = o2.drop_first();
        assert forall|x: usize| r1.contains(x) <==> r2.contains(x) by {
            if r1.contains(x) {
                let j = choose|j: int| 0 <= j < r1.len() && r1[j] == x;
                assert(o1[j + 1] == x);
                assert(comes_before(es, o1[0] as int, o1[j + 1] as int));
                lemma_before_irreflexive(es, a as int);
                assert(o2.contains(x));
                let i = choose|i: int| 0 <= i < o2.len() && o2[i] == x;
                assert(i != 0);
                assert(r2[i - 1] == x);
            }
            if r2.contains(x) {
                let j = choose|j: int| 0 <= j < r2.len() && r2[j] == x;
                assert(o2[j + 1] == x);
                assert(comes_before(es, o2[0] as int, o2[j + 1] as int));
                lemma_before_irreflexive(es, a as int);
                assert(o1.contains(x));
                let i = choose|i: int| 0 <= i < o1.len() && o1[i] == x;
                assert(i != 0);
                assert(r1[i - 1] == x);
            }
        }
        lemma_same_members_same_order(es, r1, r2);
        assert(o1 =~= seq![a] + r1);
        assert(o2 =~= seq![b] + r2);
    }
}

/// The listing order is determined: two orders that both meet
/// `is_listing_order` for the same entries are the same.
pub proof fn lemma_listing_order_unique(
    es: Seq<DirEntry>,
    show_hidden: bool,
    o1: Seq<usize>,
    o2: Seq<usize>,
)
    requires
        is_listing_order(es, show_hidden, o1),
        is_listing_order(es, show_hidden, o2),
    ensures
        o1 == o2,
{
    assert forall|x: usize| o1.contains(x) <==> o2.contains(x) by {
        if o1.contains(x) {
            let j = choose|j: int| 0 <= j < o1.len() && o1[j] == x;
            assert(is_listed(es[x as int], show_hidden));
        }
        if o2.contains(x) {
            let j = choose|j: int| 0 <= j < o2.len() && o2[j] == x;
            assert(is_listed(es[x as int], show_hidden));
        }
    }
    lemma_same_members_same_order(es, o1, o2);
}

fn lex_less(a: &Vec<char>, b: &Vec<char>) -> (r: bool)
    ensures
        r == lex_lt(a@, b@),
{
    let mut k: usize = 0;
    assert(a@.subrange(0, a@.len() as int) =~= a@);
    assert(b@.subrange(0, b@.len() as int) =~= b@);
    while k < a.len() && k < b.len()
        invariant
            k <= a@.len(),
            k <= b@.len(),
            lex_lt(a@, b@) == lex_lt(
                a@.subrange(k as int, a@.len() as int),
                b@.subrange(k as int, b@.len() as int),
            ),
        decreases a@.len() - k,
    {
        let ghost sa = a@.subrange(k as int, a@.len() as int);
        let ghost sb = b@.subrange(k as int, b@.len() as int);
        if a[k] != b[k] {
            return a[k] < b[k];
        }
        assert(sa.drop_first() =~= a@.subrange(k + 1, a@.len() as int));
        assert(sb.drop_first() =~= b@.subrange(k + 1, b@.len() as int));
        k = k + 1;
    }
    k < b.len()
}

fn before(es: &Vec<DirEntry>, lowers: &Vec<Vec<char>>, i: usize, j: usize) -> (r: bool)
    requires
        i < es@.len(),
        j < es@.len(),
        lowers@.len() == es@.len(),
        forall|k: int| 0 <= k < es@.len() ==> #[trigger] lowers@[k]@ == lower_of(es@[k].name@),
    ensures
        r == comes_before(es@, i as int, j as int),
{
    let di = es[i].kind == EntryKind::Directory;
    let dj = es[j].kind == EntryKind::Directory;
    if di != dj {
        return di;
    }
    if lex_less(&lowers[i], &lowers[j]) {
        return true;
    }
    if lex_less(&lowers[j], &lowers[i]) {
        proof {
            lemma_lex_trichotomy(lowers@[i as int]@, lowers@[j as int]@);
        }
        return false;
    }
    proof {
        lemma_lex_trichotomy(lowers@[i as int]@, lowers@[j as int]@);
    }
    i < j
}

fn listed(e: &DirEntry, show_hidden: bool) -> (r: bool)
    ensures
        r == is_listed(*e, show_hidden),
{
    if e.is_symlink {
        return false;
    }
    if show_hidden {
        return true;
    }
    let s = e.name.as_str();
    !(s.unicode_len() > 0 && s.get_char(0) == '.')
}

/// The order in which the entries of `es` are shown: symbolic links and,
/// unless `show_hidden`, dot entries are left out; directories come first,
/// then the others, each group by lowercase name.
pub fn listing_order(es: &Vec<DirEntry>, show_hidden: bool) -> (r: Vec<usize>)
    ensures
        is_listing_order(es@, show_hidden, r@),
{
    let mut lowers: Vec<Vec<char>> = Vec::new();
    let mut n: usize = 0;
    while n < es.len()
        invariant
            n <= es@.len(),
            lowers@.len() == n,
            forall|k: int| 0 <= k < n ==> #[trigger] lowers@[k]@ == lower_of(es@[k].name@),
        decreases es@.len() - n,
    {
        lowers.push(lowercase(es[n].name.as_str()));
        n = n + 1;
    }
    let mut order: Vec<usize> = Vec::new();
    let mut i: usize = 0;
    while i < es.len()
        invariant
            i <= es@.len(),
            lowers@.len() == es@.len(),
            forall|k: int| 0 <= k < es@.len() ==> #[trigger] lowers@[k]@ == lower_of(es@[k].name@),
            forall|k: int| 0 <= k < order@.len() ==> order@[k] < i,
            forall|j: int|
                0 <= j < es@.len() ==> (j < i && is_listed(es@[j], show_hidden) <==> order@.contains(
                    j as usize,
                )),
            forall|a: int, b: int|
                0 <= a < b < order@.len() ==> comes_before(es@, order@[a] as int, order@[b] as int),
        decreases es@.len() - i,
    {
        if listed(&es[i], show_hidden) {
            let mut p: usize = 0;
            while p < order.len() && !before(es, &lowers, i, order[p])
                invariant
                    p <= order@.len(),
                    i < es@.len(),
                    lowers@.len() == es@.len(),
                    forall|k: int|
                        0 <= k < es@.len() ==> #[trigger] lowers@[k]@ == lower_of(es@[k].name@),
                    forall|k: int| 0 <= k < order@.len() ==> order@[k] < i,
                    forall|a: int| 0 <= a < p ==> comes_before(es@, order@[a] as int, i as int),
                decreases order@.len() - p,
            {
                proof {
                    lemma_before_total(es@, i as int, order@[p as int] as int);
                }
                p = p + 1;
            }
            let ghost old_order = order@;
            order.insert(p, i);
            proof {
                assert forall|a: int, b: int| 0 <= a < b < order@.len() implies comes_before(
                    es@,
                    order@[a] as int,
                    order@[b] as int,
                ) by {
                    if b == p as int {
                    } else if a == p as int {
                        let q = old_order[b - 1] as int;
                        if b - 1 > p as int {
                            lemma_before_transitive(es@, i as int, old_order[p as int] as int, q);
                        }
                    } else if a < p && b > p {
                        assert(comes_before(es@, order@[a] as int, i as int));
                        assert(comes_before(es@, i as int, order@[b] as int)) by {
                            if b - 1 > p as int {
                                lemma_before_transitive(
                                    es@,
                                    i as int,
                                    old_order[p as int] as int,
                                    old_order[b - 1] as int,
                                );
                            }
                        }
                        lemma_before_transitive(es@, order@[a] as int, i as int, order@[b] as int);
                    }
                }
                assert forall|j: int|
                    0 <= j < es@.len() implies (j < i + 1 && is_listed(es@[j], show_hidden)
                    <==> order@.contains(j as usize)) by {
                    if order@.contains(j as usize) {
                        let w = choose|w: int| 0 <= w < order@.len() && order@[w] == j as usize;
                        if w != p as int {
                            let w2 = if w < p {
                                w
                            } else {
                                w - 1
                            };
                            assert(old_order[w2] == j as usize);
                        }
                    }
                    if j < i && is_listed(es@[j], show_hidden) {
                        let w = choose|w: int| 0 <= w < old_order.len() && old_order[w] == j as usize;
                        if w < p {
                            assert(order@[w] == j as usize);
                        } else {
                            assert(order@[w + 1] == j as usize);
                        }
                    }
                    if j == i {
                        assert(order@[p as int] == j as usize);
                    }
                }
            }
        } else {
            proof {
                assert forall|j: int|
                    0 <= j < es@.len() implies (j < i + 1 && is_listed(es@[j], show_hidden)
                    <==> order@.contains(j as usize)) by {
                    if order@.contains(j as usize) {
                        let w = choose|w: int| 0 <= w < order@.len() && order@[w] == j as usize;
                    }
                }
            }
        }
        i = i + 1;
    }
    order
}

fn kind_of(k: EntryKind) -> (r: Option<CandidateKind>)
    ensures
        r == candidate_kind(k),
{
    match k {
        EntryKind::Directory => Some(CandidateKind::Folder),
        EntryKind::File => Some(CandidateKind::File),
        EntryKind::Other => None,
    }
}

/// The completion candidates for a directory listing, in listing order; an
/// unreadable directory (`None`) gives none.
pub fn completion_items(listing: Option<&Vec<DirEntry>>) -> (r: Vec<Candidate>)
    ensures
        listing is None ==> r@.len() == 0,
        listing matches Some(es) ==> exists|order: Seq<usize>|
            {
                &&& is_listing_order(es@, false, order)
                &&& r@.len() == order.len()
                &&& forall|k: int|
                    0 <= k < order.len() ==> r@[k].label@ == es@[order[k] as int].name@ && r@[k].kind
                        == candidate_kind(es@[order[k] as int].kind)
            },
{
    let mut r: Vec<Candidate> = Vec::new();
    match listing {
        None => r,
        Some(es) => {
            let order = listing_order(es, false);
            let mut k: usize = 0;
            while k < order.len()
                invariant
                    k <= order@.len(),
                    is_listing_order(es@, false, order@),
                    r@.len() == k,
                    forall|m: int|
                        0 <= m < k ==> r@[m].label@ == es@[order@[m] as int].name@ && r@[m].kind
                            == candidate_kind(es@[order@[m] as int].kind),
                decreases order@.len() - k,
            {
                let e = &es[order[k]];
                r.push(Candidate { label: e.name.clone(), kind: kind_of(e.kind) });
                k = k + 1;
            }
            r
        },
    }
}

} // verus!
