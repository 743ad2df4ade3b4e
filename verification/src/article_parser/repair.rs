//! The redirect resolver: rewrites every link that points at a redirect to
//! the final target of its redirect chain, and compresses the chains in the
//! mapping itself so that later lookups resolve in one hop.
//!
//! A chain is followed with a step budget equal to the size of the mapping.
//! A chain that terminates does so within that budget (it can consume each
//! key at most once); a chain that does not terminate within it loops, and
//! the affected link and entries are left as they are instead of looping
//! forever.

use vstd::prelude::*;

verus! {

broadcast use vstd::std_specs::hash::group_hash_axioms;

use super::{ArticleParser, ArticleParserView, ContentPage, ContentPageView};
use std::collections::HashMap;

/// Follow the redirect chain from `x` for at most `fuel` hops: the first id
/// reached that is not a key of `m`, or `None` when the budget runs out.
pub open spec fn walk(m: Map<u64, u64>, x: u64, fuel: nat) -> Option<u64>
    decreases fuel,
{
    if !m.dom().contains(x) {
        Some(x)
    } else if fuel == 0 {
        None
    } else {
        walk(m, m[x], (fuel - 1) as nat)
    }
}

/// The final target of `x` under `m`, with the step budget fixed at the size
/// of the mapping: `Some(final target)` for a terminating chain, `None` for
/// a cyclic one.
pub open spec fn resolve(m: Map<u64, u64>, x: u64) -> Option<u64> {
    walk(m, x, m.dom().len())
}

/// Rewrite every entry on the chain from `x` (within `fuel` hops) to point
/// directly at `dest`.
pub open spec fn compress(m: Map<u64, u64>, x: u64, dest: u64, fuel: nat) -> Map<u64, u64>
    decreases fuel,
{
    if !m.dom().contains(x) || fuel == 0 {
        m
    } else {
        compress(m.insert(x, dest), m[x], dest, (fuel - 1) as nat)
    }
}

pub proof fn lemma_compress_dom(m: Map<u64, u64>, x: u64, dest: u64, fuel: nat)
    ensures
        compress(m, x, dest, fuel).dom() == m.dom(),
    decreases fuel,
{
    if !m.dom().contains(x) || fuel == 0 {
    } else {
        lemma_compress_dom(m.insert(x, dest), m[x], dest, (fuel - 1) as nat);
        assert(m.insert(x, dest).dom() =~= m.dom());
    }
}

/// `count` with one more change recorded; pinned at the top of `u64`.
pub open spec fn bump(c: u64) -> u64 {
    if c == u64::MAX {
        c
    } else {
        (c + 1) as u64
    }
}

/// One link repaired against `m`: the updated mapping, the value the link
/// takes, and whether it changed.  A link whose chain does not terminate is
/// left unchanged and compresses nothing.
pub open spec fn repair_one(m: Map<u64, u64>, link: u64) -> (Map<u64, u64>, u64, bool) {
    match resolve(m, link) {
        Option::None => (m, link, false),
        Option::Some(dest) => (compress(m, link, dest, m.dom().len()), dest, dest != link),
    }
}

/// The first `n` entries of `links` repaired in order, starting from
/// mapping `m` and change count `c`.
pub open spec fn repair_links_prefix(m: Map<u64, u64>, links: Seq<u64>, n: int, c: u64) -> (
    Map<u64, u64>,
    Seq<u64>,
    u64,
)
    decreases n,
{
    if n <= 0 || n > links.len() {
        (m, links, c)
    } else {
        let r1 = repair_links_prefix(m, links, n - 1, c);
        let r2 = repair_one(r1.0, r1.1[n - 1]);
        (r2.0, r1.1.update(n - 1, r2.1), if r2.2 {
            bump(r1.2)
        } else {
            r1.2
        })
    }
}

/// The first `n` pages of `pages` repaired in order.
pub open spec fn repair_pages_prefix(m: Map<u64, u64>, pages: Seq<ContentPageView>, n: int, c: u64)
    -> (Map<u64, u64>, Seq<ContentPageView>, u64)
    decreases n,
{
    if n <= 0 || n > pages.len() {
        (m, pages, c)
    } else {
        let r1 = repair_pages_prefix(m, pages, n - 1, c);
        let p = r1.1[n - 1];
        let r2 = repair_links_prefix(r1.0, p.links, p.links.len() as int, r1.2);
        (
            r2.0,
            r1.1.update(
                n - 1,
                ContentPageView { title: p.title, title_hash: p.title_hash, links: r2.1 },
            ),
            r2.2,
        )
    }
}

pub proof fn lemma_repair_links_prefix_len(m: Map<u64, u64>, links: Seq<u64>, n: int, c: u64)
    ensures
        repair_links_prefix(m, links, n, c).1.len() == links.len(),
    decreases n,
{
    if n <= 0 || n > links.len() {
    } else {
        lemma_repair_links_prefix_len(m, links, n - 1, c);
    }
}

pub proof fn lemma_repair_pages_prefix_len(
    m: Map<u64, u64>,
    pages: Seq<ContentPageView>,
    n: int,
    c: u64,
)
    ensures
        repair_pages_prefix(m, pages, n, c).1.len() == pages.len(),
    decreases n,
{
    if n <= 0 || n > pages.len() {
    } else {
        lemma_repair_pages_prefix_len(m, pages, n - 1, c);
    }
}

/// The whole result set repaired: every link of every page, in order.
pub open spec fn spec_repair(v: ArticleParserView) -> (ArticleParserView, u64) {
    let r = repair_pages_prefix(v.redirects, v.content_pages, v.content_pages.len() as int, 0);
    (ArticleParserView { content_pages: r.1, redirects: r.0 }, r.2)
}

pub proof fn lemma_walk_fuel_agree(m: Map<u64, u64>, x: u64, f1: nat, f2: nat)
    requires
        walk(m, x, f1) is Some,
        walk(m, x, f2) is Some,
    ensures
        walk(m, x, f1) == walk(m, x, f2),
    decreases f1,
{
    if m.dom().contains(x) {
        lemma_walk_fuel_agree(m, m[x], (f1 - 1) as nat, (f2 - 1) as nat);
    }
}

pub proof fn lemma_walk_fuel_mono(m: Map<u64, u64>, x: u64, f1: nat, f2: nat)
    requires
        walk(m, x, f1) is Some,
        f1 <= f2,
    ensures
        walk(m, x, f2) == walk(m, x, f1),
    decreases f1,
{
    if m.dom().contains(x) {
        lemma_walk_fuel_mono(m, m[x], (f1 - 1) as nat, (f2 - 1) as nat);
    }
}

/// Where a walk ends is never a key of the mapping.
pub proof fn lemma_walk_result_not_key(m: Map<u64, u64>, x: u64, f: nat)
    requires
        walk(m, x, f) is Some,
    ensures
        !m.dom().contains(walk(m, x, f)->0),
    decreases f,
{
    if m.dom().contains(x) {
        lemma_walk_result_not_key(m, m[x], (f - 1) as nat);
    }
}

/// Rewriting one entry of a terminating chain to point directly at its final
/// target changes no terminating walk.
pub proof fn lemma_insert_preserves_walk(m: Map<u64, u64>, a: u64, da: u64, x: u64, f: nat)
    requires
        m.dom().contains(a),
        resolve(m, a) == Some(da),
        walk(m, x, f) is Some,
    ensures
        walk(m.insert(a, da), x, f) == walk(m, x, f),
    decreases f,
{
    let m2 = m.insert(a, da);
    assert(m2.dom() =~= m.dom());
    if !m.dom().contains(x) {
    } else if x == a {
        lemma_walk_result_not_key(m, a, m.dom().len());
        assert(!m2.dom().contains(da));
        assert(f > 0);
        assert(walk(m2, da, (f - 1) as nat) == Some(da));
        assert(walk(m2, x, f) == Some(da));
        lemma_walk_fuel_agree(m, a, f, m.dom().len());
    } else {
        lemma_insert_preserves_walk(m, a, da, m[x], (f - 1) as nat);
    }
}

/// Compressing a terminating chain changes no terminating walk.
pub proof fn lemma_compress_preserves_walk(
    m: Map<u64, u64>,
    start: u64,
    dest: u64,
    fuel: nat,
    x: u64,
    f: nat,
)
    requires
        resolve(m, start) == Some(dest),
        walk(m, x, f) is Some,
    ensures
        walk(compress(m, start, dest, fuel), x, f) == walk(m, x, f),
    decreases fuel,
{
    if !m.dom().contains(start) || fuel == 0 {
    } else {
        let m2 = m.insert(start, dest);
        assert(m2.dom() =~= m.dom());
        lemma_insert_preserves_walk(m, start, dest, x, f);
        // the tail of the chain still resolves to the same target in m2
        assert(walk(m, m[start], (m.dom().len() - 1) as nat) == Some(dest));
        lemma_walk_fuel_mono(m, m[start], (m.dom().len() - 1) as nat, m.dom().len());
        lemma_insert_preserves_walk(m, start, dest, m[start], m.dom().len());
        assert(resolve(m2, m[start]) == Some(dest));
        lemma_compress_preserves_walk(m2, m[start], dest, (fuel - 1) as nat, x, f);
    }
}

proof fn lemma_links_prefix_shape(m: Map<u64, u64>, links: Seq<u64>, n: int, c: u64)
    ensures
        repair_links_prefix(m, links, n, c).0.dom() == m.dom(),
        repair_links_prefix(m, links, n, c).1.len() == links.len(),
    decreases n,
{
    if n <= 0 || n > links.len() {
    } else {
        lemma_links_prefix_shape(m, links, n - 1, c);
        let r1 = repair_links_prefix(m, links, n - 1, c);
        match resolve(r1.0, r1.1[n - 1]) {
            Option::None => {},
            Option::Some(d) => {
                lemma_compress_dom(r1.0, r1.1[n - 1], d, r1.0.dom().len());
            },
        }
    }
}

proof fn lemma_pages_prefix_shape(m: Map<u64, u64>, pages: Seq<ContentPageView>, n: int, c: u64)
    ensures
        ({
            let r = repair_pages_prefix(m, pages, n, c);
            &&& r.0.dom() == m.dom()
            &&& r.1.len() == pages.len()
            &&& forall|i: int|
                0 <= i < pages.len() ==> (#[trigger] r.1[i]).title == pages[i].title && r.1[i].title_hash
                    == pages[i].title_hash && r.1[i].links.len() == pages[i].links.len()
        }),
    decreases n,
{
    if n <= 0 || n > pages.len() {
    } else {
        lemma_pages_prefix_shape(m, pages, n - 1, c);
        let r1 = repair_pages_prefix(m, pages, n - 1, c);
        let p = r1.1[n - 1];
        lemma_links_prefix_shape(r1.0, p.links, p.links.len() as int, r1.2);
    }
}

/// Repair changes only link values and redirect targets, and terminates on
/// every input: the number and order of pages, their titles and title
/// hashes, the number of links of each page, and the redirect mapping's key
/// set are all unchanged, whether or not the mapping holds cycles.
pub proof fn lemma_repair_preserves_shape(v: ArticleParserView)
    ensures
        ({
            let r = spec_repair(v).0;
            &&& r.redirects.dom() == v.redirects.dom()
            &&& r.content_pages.len() == v.content_pages.len()
            &&& forall|i: int|
                0 <= i < v.content_pages.len() ==> (#[trigger] r.content_pages[i]).title
                    == v.content_pages[i].title && r.content_pages[i].title_hash
                    == v.content_pages[i].title_hash && r.content_pages[i].links.len()
                    == v.content_pages[i].links.len()
        }),
{
    lemma_pages_prefix_shape(v.redirects, v.content_pages, v.content_pages.len() as int, 0);
}

/// Every link of every page has a terminating redirect chain.
pub open spec fn all_links_resolve(v: ArticleParserView) -> bool {
    forall|i: int, j: int|
        0 <= i < v.content_pages.len() && 0 <= j < v.content_pages[i].links.len() ==> resolve(
            v.redirects,
            #[trigger] v.content_pages[i].links[j],
        ) is Some
}

/// No link of any page is a key of the redirect mapping.
pub open spec fn all_links_settled(v: ArticleParserView) -> bool {
    forall|i: int, j: int|
        0 <= i < v.content_pages.len() && 0 <= j < v.content_pages[i].links.len()
            ==> !v.redirects.dom().contains(#[trigger] v.content_pages[i].links[j])
}

/// The id reached after `k` hops from `x`; a non-key hops to itself.
pub open spec fn hop(m: Map<u64, u64>, x: u64, k: nat) -> u64
    decreases k,
{
    if k == 0 {
        x
    } else if !m.dom().contains(x) {
        x
    } else {
        hop(m, m[x], (k - 1) as nat)
    }
}

proof fn lemma_hop_add(m: Map<u64, u64>, x: u64, a: nat, b: nat)
    ensures
        hop(m, x, a + b) == hop(m, hop(m, x, a), b),
    decreases a,
{
    if a == 0 {
    } else if !m.dom().contains(x) {
        assert(hop(m, x, a) == x);
        assert(hop(m, x, a + b) == x);
        assert(hop(m, x, b) == x);
    } else {
        lemma_hop_add(m, m[x], (a - 1) as nat, b);
    }
}

proof fn lemma_hop_stall(m: Map<u64, u64>, x: u64, j: nat, k: nat)
    requires
        j <= k,
        !m.dom().contains(hop(m, x, j)),
    ensures
        hop(m, x, k) == hop(m, x, j),
{
    lemma_hop_add(m, x, j, (k - j) as nat);
    assert(hop(m, hop(m, x, j), (k - j) as nat) == hop(m, x, j));
}

/// Walking with fuel `f` is walking `k` hops and then walking with the rest
/// of the fuel.
proof fn lemma_walk_hop(m: Map<u64, u64>, x: u64, k: nat, f: nat)
    requires
        k <= f,
    ensures
        walk(m, x, f) == walk(m, hop(m, x, k), (f - k) as nat),
    decreases k,
{
    if k == 0 {
    } else if !m.dom().contains(x) {
        assert(hop(m, x, k) == x);
    } else {
        lemma_walk_hop(m, m[x], (k - 1) as nat, (f - 1) as nat);
    }
}

/// A walk whose first `f` hops all stay on keys runs out of fuel.
proof fn lemma_walk_exhaust(m: Map<u64, u64>, x: u64, f: nat)
    requires
        forall|j: nat| j <= f ==> m.dom().contains(#[trigger] hop(m, x, j)),
    ensures
        walk(m, x, f) is None,
    decreases f,
{
    assert(m.dom().contains(hop(m, x, 0)));
    if f == 0 {
    } else {
        assert forall|j: nat| j <= (f - 1) as nat implies m.dom().contains(
            #[trigger] hop(m, m[x], j),
        ) by {
            assert(hop(m, x, (j + 1) as nat) == hop(m, m[x], j));
            assert(m.dom().contains(hop(m, x, (j + 1) as nat)));
        }
        lemma_walk_exhaust(m, m[x], (f - 1) as nat);
    }
}

/// From an id that hops back to itself no walk terminates, with any fuel.
proof fn lemma_cycle_walk_none(m: Map<u64, u64>, x: u64, k: nat, f: nat)
    requires
        1 <= k,
        m.dom().contains(x),
        hop(m, x, k) == x,
    ensures
        walk(m, x, f) is None,
    decreases f,
{
    if f < k {
        assert forall|j: nat| j <= f implies m.dom().contains(#[trigger] hop(m, x, j)) by {
            if !m.dom().contains(hop(m, x, j)) {
                lemma_hop_stall(m, x, j, k);
            }
        }
        lemma_walk_exhaust(m, x, f);
    } else {
        lemma_walk_hop(m, x, k, f);
        lemma_cycle_walk_none(m, x, k, (f - k) as nat);
    }
}

/// A terminating walk exits at its first non-key hop.
proof fn lemma_walk_some_exit(m: Map<u64, u64>, x: u64, f: nat) -> (j: nat)
    requires
        walk(m, x, f) is Some,
    ensures
        j <= f,
        !m.dom().contains(hop(m, x, j)),
        forall|i: nat| i < j ==> m.dom().contains(#[trigger] hop(m, x, i)),
        walk(m, x, f) == Some(hop(m, x, j)),
    decreases f,
{
    if !m.dom().contains(x) {
        0
    } else {
        let j1 = lemma_walk_some_exit(m, m[x], (f - 1) as nat);
        let j = (j1 + 1) as nat;
        assert forall|i: nat| i < j implies m.dom().contains(#[trigger] hop(m, x, i)) by {
            if i != 0 {
                assert(hop(m, x, i) == hop(m, m[x], (i - 1) as nat));
            }
        }
        assert(hop(m, x, j) == hop(m, m[x], j1));
        j
    }
}

/// A chain that terminates at all does so within as many hops as the
/// mapping has keys: the keys it crosses are distinct, so the fixed step
/// budget of [`resolve`] captures every terminating chain.
proof fn lemma_walk_fuel_bound(m: Map<u64, u64>, x: u64, f: nat)
    requires
        m.dom().finite(),
        walk(m, x, f) is Some,
    ensures
        resolve(m, x) == walk(m, x, f),
{
    let j = lemma_walk_some_exit(m, x, f);
    let ids = Seq::<u64>::new(j, |i: int| hop(m, x, i as nat));
    assert forall|a: int, b: int|
        0 <= a < ids.len() && 0 <= b < ids.len() && a != b implies ids[a] != ids[b] by {
        let lo = if a < b {
            a
        } else {
            b
        };
        let hi = if a < b {
            b
        } else {
            a
        };
        if ids[lo] == ids[hi] {
            let y = hop(m, x, lo as nat);
            lemma_hop_add(m, x, lo as nat, (hi - lo) as nat);
            assert(hop(m, y, (hi - lo) as nat) == y);
            lemma_walk_hop(m, x, lo as nat, f);
            lemma_cycle_walk_none(m, y, (hi - lo) as nat, (f - lo) as nat);
            assert(false);
        }
    }
    assert(ids.no_duplicates());
    ids.unique_seq_to_set();
    assert forall|y: u64| ids.to_set().contains(y) implies m.dom().contains(y) by {
        let i = choose|i: int| 0 <= i < ids.len() && ids[i] == y;
        assert(m.dom().contains(hop(m, x, i as nat)));
    }
    vstd::set_lib::lemma_len_subset(ids.to_set(), m.dom());
    assert(j <= m.dom().len());
    lemma_walk_hop(m, x, j, j);
    assert(walk(m, x, j) == Some(hop(m, x, j)));
    lemma_walk_fuel_mono(m, x, j, m.dom().len());
    lemma_walk_fuel_agree(m, x, m.dom().len(), f);
}

/// A walk that terminates after one compression insert also terminated,
/// with the same target, before it (with some fuel).
proof fn lemma_insert_reverse_walk(m: Map<u64, u64>, a: u64, da: u64, x: u64, f: nat) -> (g: nat)
    requires
        m.dom().contains(a),
        resolve(m, a) == Some(da),
        walk(m.insert(a, da), x, f) is Some,
    ensures
        walk(m, x, g) == walk(m.insert(a, da), x, f),
    decreases f,
{
    let m2 = m.insert(a, da);
    assert(m2.dom() =~= m.dom());
    if !m.dom().contains(x) {
        0
    } else if x == a {
        lemma_walk_result_not_key(m, a, m.dom().len());
        assert(f > 0);
        assert(walk(m2, da, (f - 1) as nat) == Some(da));
        assert(walk(m2, a, f) == Some(da));
        m.dom().len()
    } else {
        let g1 = lemma_insert_reverse_walk(m, a, da, m[x], (f - 1) as nat);
        assert(walk(m, x, g1 + 1) == walk(m, m[x], g1));
        (g1 + 1) as nat
    }
}

proof fn lemma_insert_preserves_resolve_none(m: Map<u64, u64>, a: u64, da: u64, x: u64)
    requires
        m.dom().finite(),
        m.dom().contains(a),
        resolve(m, a) == Some(da),
        resolve(m, x) is None,
    ensures
        resolve(m.insert(a, da), x) is None,
{
    let m2 = m.insert(a, da);
    assert(m2.dom() =~= m.dom());
    if resolve(m2, x) is Some {
        let g = lemma_insert_reverse_walk(m, a, da, x, m2.dom().len());
        lemma_walk_fuel_bound(m, x, g);
        assert(false);
    }
}

/// Compressing a terminating chain turns no non-terminating walk into a
/// terminating one.
proof fn lemma_compress_preserves_resolve_none(
    m: Map<u64, u64>,
    start: u64,
    dest: u64,
    fuel: nat,
    x: u64,
)
    requires
        m.dom().finite(),
        resolve(m, start) == Some(dest),
        resolve(m, x) is None,
    ensures
        resolve(compress(m, start, dest, fuel), x) is None,
    decreases fuel,
{
    if !m.dom().contains(start) || fuel == 0 {
    } else {
        let m2 = m.insert(start, dest);
        assert(m2.dom() =~= m.dom());
        lemma_insert_preserves_resolve_none(m, start, dest, x);
        assert(walk(m, m[start], (m.dom().len() - 1) as nat) == Some(dest));
        lemma_walk_fuel_mono(m, m[start], (m.dom().len() - 1) as nat, m.dom().len());
        lemma_insert_preserves_walk(m, start, dest, m[start], m.dom().len());
        assert(resolve(m2, m[start]) == Some(dest));
        lemma_compress_preserves_resolve_none(m2, m[start], dest, (fuel - 1) as nat, x);
    }
}

proof fn lemma_links_prefix_resolved(m: Map<u64, u64>, links: Seq<u64>, n: int, c: u64)
    requires
        m.dom().finite(),
        0 <= n <= links.len(),
    ensures
        ({
            let r = repair_links_prefix(m, links, n, c);
            &&& r.0.dom() == m.dom()
            &&& r.1.len() == links.len()
            &&& forall|x: u64, f: nat|
                walk(m, x, f) is Some ==> #[trigger] walk(r.0, x, f) == walk(m, x, f)
            &&& forall|x: u64| resolve(m, x) is None ==> #[trigger] resolve(r.0, x) is None
            &&& forall|j: int|
                0 <= j < n ==> !r.0.dom().contains(#[trigger] r.1[j]) || (resolve(r.0, r.1[j])
                    is None && r.1[j] == links[j])
            &&& forall|j: int| n <= j < links.len() ==> #[trigger] r.1[j] == links[j]
        }),
    decreases n,
{
    if n <= 0 {
    } else {
        lemma_links_prefix_resolved(m, links, n - 1, c);
        let r1 = repair_links_prefix(m, links, n - 1, c);
        let l = r1.1[n - 1];
        assert(l == links[n - 1]);
        let r = repair_links_prefix(m, links, n, c);
        match resolve(r1.0, l) {
            Option::None => {
                assert(r.0 == r1.0 && r.1 == r1.1.update(n - 1, l));
                assert(resolve(r.0, r.1[n - 1]) is None);
            },
            Option::Some(d) => {
                lemma_walk_result_not_key(r1.0, l, r1.0.dom().len());
                lemma_compress_dom(r1.0, l, d, r1.0.dom().len());
                let m2 = compress(r1.0, l, d, r1.0.dom().len());
                assert forall|x: u64, f: nat| walk(m, x, f) is Some implies #[trigger] walk(
                    m2,
                    x,
                    f,
                ) == walk(m, x, f) by {
                    lemma_compress_preserves_walk(r1.0, l, d, r1.0.dom().len(), x, f);
                }
                assert forall|x: u64| resolve(m, x) is None implies #[trigger] resolve(m2, x)
                    is None by {
                    lemma_compress_preserves_resolve_none(r1.0, l, d, r1.0.dom().len(), x);
                }
                assert(r.0 == m2 && r.1 == r1.1.update(n - 1, d));
                assert(!r.0.dom().contains(d));
                assert forall|j: int|
                    0 <= j < n implies !r.0.dom().contains(#[trigger] r.1[j]) || (resolve(
                    r.0,
                    r.1[j],
                ) is None && r.1[j] == links[j]) by {
                    if j < n - 1 {
                        assert(r.1[j] == r1.1[j]);
                        if r1.0.dom().contains(r1.1[j]) {
                            lemma_compress_preserves_resolve_none(
                                r1.0,
                                l,
                                d,
                                r1.0.dom().len(),
                                r1.1[j],
                            );
                        }
                    }
                }
            },
        }
    }
}

proof fn lemma_pages_prefix_resolved(m: Map<u64, u64>, pages: Seq<ContentPageView>, n: int, c: u64)
    requires
        m.dom().finite(),
        0 <= n <= pages.len(),
    ensures
        ({
            let r = repair_pages_prefix(m, pages, n, c);
            &&& r.0.dom() == m.dom()
            &&& r.1.len() == pages.len()
            &&& forall|x: u64, f: nat|
                walk(m, x, f) is Some ==> #[trigger] walk(r.0, x, f) == walk(m, x, f)
            &&& forall|x: u64| resolve(m, x) is None ==> #[trigger] resolve(r.0, x) is None
            &&& forall|i: int, j: int|
                0 <= i < n && 0 <= j < r.1[i].links.len() ==> !r.0.dom().contains(
                    #[trigger] r.1[i].links[j],
                ) || (resolve(r.0, r.1[i].links[j]) is None && r.1[i].links[j]
                    == pages[i].links[j])
            &&& forall|i: int| n <= i < pages.len() ==> #[trigger] r.1[i] == pages[i]
        }),
    decreases n,
{
    if n <= 0 {
    } else {
        lemma_pages_prefix_resolved(m, pages, n - 1, c);
        let r1 = repair_pages_prefix(m, pages, n - 1, c);
        let p = r1.1[n - 1];
        assert(p == pages[n - 1]);
        lemma_links_prefix_resolved(r1.0, p.links, p.links.len() as int, r1.2);
        let rr = repair_links_prefix(r1.0, p.links, p.links.len() as int, r1.2);
        assert forall|x: u64, f: nat| walk(m, x, f) is Some implies #[trigger] walk(rr.0, x, f)
            == walk(m, x, f) by {
            assert(walk(r1.0, x, f) == walk(m, x, f));
        }
        assert forall|x: u64| resolve(m, x) is None implies #[trigger] resolve(rr.0, x)
            is None by {
            assert(resolve(r1.0, x) is None);
        }
        let np = ContentPageView { title: p.title, title_hash: p.title_hash, links: rr.1 };
        let r = repair_pages_prefix(m, pages, n, c);
        assert(r.0 == rr.0 && r.1 == r1.1.update(n - 1, np));
        assert forall|i: int, j: int|
            0 <= i < n && 0 <= j < r.1[i].links.len() implies !r.0.dom().contains(
            #[trigger] r.1[i].links[j],
        ) || (resolve(r.0, r.1[i].links[j]) is None && r.1[i].links[j] == pages[i].links[j]) by {
            if i < n - 1 {
                assert(r.1[i] == r1.1[i]);
                if r1.0.dom().contains(r1.1[i].links[j]) && resolve(r1.0, r1.1[i].links[j])
                    is None {
                    assert(resolve(rr.0, r1.1[i].links[j]) is None);
                }
            } else {
                assert(r.1[i] == np);
            }
        }
    }
}

proof fn lemma_links_prefix_noop(m: Map<u64, u64>, links: Seq<u64>, n: int, c: u64)
    requires
        forall|j: int|
            0 <= j < links.len() ==> !m.dom().contains(#[trigger] links[j]) || resolve(
                m,
                links[j],
            ) is None,
    ensures
        repair_links_prefix(m, links, n, c) == (m, links, c),
    decreases n,
{
    if n <= 0 || n > links.len() {
    } else {
        lemma_links_prefix_noop(m, links, n - 1, c);
        let l = links[n - 1];
        if !m.dom().contains(l) {
            assert(resolve(m, l) == Some(l));
            assert(compress(m, l, l, m.dom().len()) == m);
        }
        assert(links.update(n - 1, l) =~= links);
    }
}

proof fn lemma_pages_prefix_noop(m: Map<u64, u64>, pages: Seq<ContentPageView>, n: int, c: u64)
    requires
        forall|i: int, j: int|
            0 <= i < pages.len() && 0 <= j < pages[i].links.len() ==> !m.dom().contains(
                #[trigger] pages[i].links[j],
            ) || resolve(m, pages[i].links[j]) is None,
    ensures
        repair_pages_prefix(m, pages, n, c) == (m, pages, c),
    decreases n,
{
    if n <= 0 || n > pages.len() {
    } else {
        lemma_pages_prefix_noop(m, pages, n - 1, c);
        let p = pages[n - 1];
        lemma_links_prefix_noop(m, p.links, p.links.len() as int, c);
        assert(ContentPageView { title: p.title, title_hash: p.title_hash, links: p.links } == p);
        assert(pages.update(n - 1, p) =~= pages);
    }
}

/// After repair no multi-hop indirection survives: on a result set whose
/// redirect chains all terminate, every link of every content page points at
/// an id that is not a key of the redirect mapping.
pub proof fn lemma_repair_settles_links(v: ArticleParserView)
    requires
        v.redirects.dom().finite(),
        all_links_resolve(v),
    ensures
        all_links_settled(spec_repair(v).0),
{
    lemma_pages_prefix_resolved(v.redirects, v.content_pages, v.content_pages.len() as int, 0);
    lemma_pages_prefix_shape(v.redirects, v.content_pages, v.content_pages.len() as int, 0);
    let r = spec_repair(v).0;
    assert forall|i: int, j: int|
        0 <= i < r.content_pages.len() && 0 <= j < r.content_pages[i].links.len() implies !r
        .redirects.dom().contains(#[trigger] r.content_pages[i].links[j]) by {
        assert(r.content_pages[i].links.len() == v.content_pages[i].links.len());
        assert(resolve(v.redirects, v.content_pages[i].links[j]) is Some);
        if r.redirects.dom().contains(r.content_pages[i].links[j]) {
            assert(resolve(r.redirects, r.content_pages[i].links[j]) is None
                && r.content_pages[i].links[j] == v.content_pages[i].links[j]);
            assert(walk(r.redirects, v.content_pages[i].links[j], v.redirects.dom().len())
                == walk(v.redirects, v.content_pages[i].links[j], v.redirects.dom().len()));
            assert(false);
        }
    }
}

/// Running the redirect resolver twice in succession is a no-op: after one
/// repair every link either lies outside the mapping's key set or sits on a
/// chain that does not terminate, so a second repair returns the same result
/// set and reports zero changed links.
pub proof fn lemma_repair_idempotent(v: ArticleParserView)
    requires
        v.redirects.dom().finite(),
    ensures
        ({
            let first = spec_repair(v);
            let second = spec_repair(first.0);
            second.0 == first.0 && second.1 == 0
        }),
{
    lemma_pages_prefix_resolved(v.redirects, v.content_pages, v.content_pages.len() as int, 0);
    let first = spec_repair(v);
    lemma_pages_prefix_noop(
        first.0.redirects,
        first.0.content_pages,
        first.0.content_pages.len() as int,
        0,
    );
    let second = spec_repair(first.0);
    assert(second.0.content_pages == first.0.content_pages && second.0.redirects
        == first.0.redirects);
    assert(second.0 == first.0);
}


/// Follow the chain from `start`, with a budget of `m.len()` hops.
fn walk_exec(m: &HashMap<u64, u64>, start: u64) -> (r: Option<u64>)
    ensures
        r == resolve(m@, start),
{
    let mut cur = start;
    let mut fuel = m.len();
    loop
        invariant
            walk(m@, cur, fuel as nat) == resolve(m@, start),
        decreases fuel,
    {
        match m.get(&cur) {
            Option::None => {
                assert(walk(m@, cur, fuel as nat) == Option::Some(cur));
                return Some(cur);
            },
            Option::Some(t) => {
                if fuel == 0 {
                    return None;
                }
                cur = *t;
                fuel = fuel - 1;
            },
        }
    }
}

/// Rewrite every entry on the chain from `start` to point at `dest`, with a
/// budget of `m.len()` hops.
fn compress_exec(m: &mut HashMap<u64, u64>, start: u64, dest: u64)
    ensures
        final(m)@ == compress(old(m)@, start, dest, old(m)@.dom().len()),
        final(m)@.dom() == old(m)@.dom(),
{
    let mut cur = start;
    let mut fuel = m.len();
    loop
        invariant
            compress(m@, cur, dest, fuel as nat) == compress(
                old(m)@,
                start,
                dest,
                old(m)@.dom().len(),
            ),
        decreases fuel,
    {
        match m.get(&cur) {
            Option::None => {
                assert(compress(m@, cur, dest, fuel as nat) == m@);
                proof {
                    lemma_compress_dom(old(m)@, start, dest, old(m)@.dom().len());
                }
                return ;
            },
            Option::Some(t) => {
                if fuel == 0 {
                    assert(compress(m@, cur, dest, fuel as nat) == m@);
                    proof {
                        lemma_compress_dom(old(m)@, start, dest, old(m)@.dom().len());
                    }
                    return ;
                }
                let t = *t;
                m.insert(cur, dest);
                cur = t;
                fuel = fuel - 1;
            },
        }
    }
}

impl ArticleParser {
    /// Repair every link of every content page (see [`spec_repair`]), and
    /// return how many links were changed (pinned at `u64::MAX`).
    pub fn repair_redirects(&mut self) -> (count: u64)
        ensures
            ({
                let r = spec_repair(old(self)@);
                final(self)@ == r.0 && count == r.1
            }),
    {
        let mut count: u64 = 0;
        let npages = self.content_pages.len();
        let mut i: usize = 0;
        while i < npages
            invariant
                i <= npages,
                npages == self.content_pages@.len(),
                ({
                    let r = repair_pages_prefix(
                        old(self)@.redirects,
                        old(self)@.content_pages,
                        i as int,
                        0,
                    );
                    self@.redirects == r.0 && self@.content_pages == r.1 && count == r.2
                }),
            decreases npages - i,
        {
            let nlinks = self.content_pages[i].links.len();
            let ghost m_in = self@.redirects;
            let ghost pages_in = self@.content_pages;
            let ghost count_in = count;
            let mut j: usize = 0;
            while j < nlinks
                invariant
                    i < npages,
                    j <= nlinks,
                    npages == self.content_pages@.len(),
                    nlinks == self.content_pages@[i as int].links@.len(),
                    self.content_pages@[i as int]@.title == pages_in[i as int].title,
                    self.content_pages@[i as int]@.title_hash == pages_in[i as int].title_hash,
                    forall|k: int|
                        0 <= k < npages && k != i ==> self.content_pages@.map_values(
                            |q: ContentPage| q@,
                        )[k] == pages_in[k],
                    ({
                        let r = repair_links_prefix(
                            m_in,
                            pages_in[i as int].links,
                            j as int,
                            count_in,
                        );
                        self@.redirects == r.0 && self.content_pages@[i as int].links@ == r.1
                            && count == r.2
                    }),
                decreases nlinks - j,
            {
                let ghost links0 = pages_in[i as int].links;
                let ghost m_before = self@.redirects;
                let ghost links_before = self.content_pages@[i as int].links@;
                let ghost count_before = count;
                let link = self.content_pages[i].links[j];
                let dest_opt = walk_exec(&self.redirects, link);
                match dest_opt {
                    Option::None => {},
                    Option::Some(dest) => {
                        compress_exec(&mut self.redirects, link, dest);
                        if dest != link {
                            self.content_pages[i].links[j] = dest;
                            if count != u64::MAX {
                                count = count + 1;
                            }
                        }
                    },
                }
                proof {
                    lemma_repair_links_prefix_len(m_in, links0, j as int, count_in);
                    let r1 = repair_links_prefix(m_in, links0, j as int, count_in);
                    let one = repair_one(r1.0, link);
                    let r2 = repair_links_prefix(m_in, links0, j + 1, count_in);
                    assert(r1.0 == m_before && r1.1 == links_before && r1.2 == count_before);
                    assert(links0.len() == links_before.len());
                    assert(j + 1 <= links0.len());
                    assert(links_before[j as int] == link);
                    assert(r2.0 == one.0 && r2.1 == links_before.update(j as int, one.1) && r2.2
                        == (if one.2 {
                        bump(count_before)
                    } else {
                        count_before
                    }));
                    assert(self@.redirects == one.0);
                    assert(self.content_pages@[i as int].links@ =~= links_before.update(
                        j as int,
                        one.1,
                    ));
                }
                j = j + 1;
            }
            proof {
                lemma_repair_pages_prefix_len(
                    old(self)@.redirects,
                    old(self)@.content_pages,
                    i as int,
                    0,
                );
                let r1 = repair_pages_prefix(
                    old(self)@.redirects,
                    old(self)@.content_pages,
                    i as int,
                    0,
                );
                let r2 = repair_pages_prefix(
                    old(self)@.redirects,
                    old(self)@.content_pages,
                    i + 1,
                    0,
                );
                assert(old(self)@.content_pages.len() == npages);
                assert(i + 1 <= old(self)@.content_pages.len());
                assert(r1.1 == pages_in && r1.0 == m_in && r1.2 == count_in);
                let p = pages_in[i as int];
                let rr = repair_links_prefix(m_in, p.links, p.links.len() as int, count_in);
                assert(self@.redirects == rr.0 && count == rr.2);
                assert(self.content_pages@[i as int].links@ == rr.1);
                assert(self@.content_pages =~= r2.1);
            }
            i = i + 1;
        }
        proof {
            assert(self@.content_pages =~= spec_repair(old(self)@).0.content_pages);
        }
        count
    }
}

} // verus!
