//! Merging one parser's result set into another: content pages are
//! concatenated in order, and the redirect mappings are unioned (an entry of
//! the incoming parser wins when both map the same title hash).

use vstd::prelude::*;

verus! {

broadcast use vstd::std_specs::hash::group_hash_axioms;

use super::ArticleParser;
use std::collections::HashMap;

/// The mapping built by inserting the first `n` of `pairs` in order.
pub open spec fn pairs_map(pairs: Seq<(u64, u64)>, n: int) -> Map<u64, u64>
    decreases n,
{
    if n <= 0 {
        Map::empty()
    } else {
        pairs_map(pairs, n - 1).insert(pairs[n - 1].0, pairs[n - 1].1)
    }
}

proof fn lemma_pairs_map_sub(pairs: Seq<(u64, u64)>, m: Map<u64, u64>, n: int)
    requires
        forall|i: int|
            0 <= i < pairs.len() ==> m.contains_key(#[trigger] pairs[i].0) && m[pairs[i].0]
                == pairs[i].1,
        0 <= n <= pairs.len(),
    ensures
        forall|k: u64|
            #[trigger] pairs_map(pairs, n).contains_key(k) ==> m.contains_key(k) && pairs_map(
                pairs,
                n,
            )[k] == m[k],
        forall|i: int| 0 <= i < n ==> pairs_map(pairs, n).contains_key(#[trigger] pairs[i].0),
    decreases n,
{
    if n <= 0 {
    } else {
        lemma_pairs_map_sub(pairs, m, n - 1);
        assert forall|k: u64| #[trigger]
            pairs_map(pairs, n).contains_key(k) implies m.contains_key(k) && pairs_map(pairs, n)[k]
            == m[k] by {
            if k != pairs[n - 1].0 {
                assert(pairs_map(pairs, n - 1).contains_key(k));
            }
        }
    }
}

/// Relies on `HashMap::iter`: it yields exactly the entries of the map, each
/// key once.  The order in which a hash map is walked is not stable across
/// processes, so the contract says nothing about the order of the pairs.
#[verifier::external_body]
fn map_entries(m: &HashMap<u64, u64>) -> (r: Vec<(u64, u64)>)
    ensures
        r@.len() == m@.len(),
        forall|i: int|
            0 <= i < r@.len() ==> m@.contains_key(#[trigger] r@[i].0) && m@[r@[i].0] == r@[i].1,
        forall|k: u64| #[trigger] m@.contains_key(k) ==> exists|i: int|
            0 <= i < r@.len() && r@[i].0 == k,
{
    m.iter().map(|(k, v)| (*k, *v)).collect()
}

/// Merging loses no redirect entry: every key of either mapping is a key of
/// the union, and a key of the union comes from one of the two mappings.
pub proof fn lemma_merge_keeps_all_keys(a: Map<u64, u64>, b: Map<u64, u64>)
    ensures
        a.union_prefer_right(b).dom() == a.dom() + b.dom(),
        forall|k: u64|
            a.union_prefer_right(b).contains_key(k) ==> a.union_prefer_right(b)[k] == (
            if b.contains_key(k) {
                b[k]
            } else {
                a[k]
            }),
{
    assert(a.union_prefer_right(b).dom() =~= a.dom() + b.dom());
}

impl ArticleParser {
    /// Append `other`'s content pages to this parser's, in `other`'s order,
    /// and union `other`'s redirect mapping into this parser's.
    pub fn merge_with(&mut self, other: ArticleParser)
        ensures
            final(self)@.content_pages == old(self)@.content_pages + other@.content_pages,
            final(self)@.redirects == old(self)@.redirects.union_prefer_right(other@.redirects),
    {
        let ArticleParser { content_pages: mut opages, redirects: oredirects } = other;
        self.content_pages.append(&mut opages);
        proof {
            assert(self@.content_pages =~= old(self)@.content_pages + other@.content_pages);
        }
        let entries = map_entries(&oredirects);
        let n = entries.len();
        let mut idx: usize = 0;
        while idx < n
            invariant
                n == entries@.len(),
                idx <= n,
                self@.content_pages == old(self)@.content_pages + other@.content_pages,
                self@.redirects == old(self)@.redirects.union_prefer_right(
                    pairs_map(entries@, idx as int),
                ),
                forall|i: int|
                    0 <= i < n ==> other@.redirects.contains_key(#[trigger] entries@[i].0)
                        && other@.redirects[entries@[i].0] == entries@[i].1,
            decreases n - idx,
        {
            let pair = entries[idx];
            self.redirects.insert(pair.0, pair.1);
            proof {
                assert(self@.redirects =~= old(self)@.redirects.union_prefer_right(
                    pairs_map(entries@, idx + 1),
                ));
            }
            idx = idx + 1;
        }
        proof {
            lemma_pairs_map_sub(entries@, other@.redirects, n as int);
            assert forall|k: u64| #[trigger]
                other@.redirects.contains_key(k) implies pairs_map(
                entries@,
                n as int,
            ).contains_key(k) by {
                let i = choose|i: int| 0 <= i < entries@.len() && entries@[i].0 == k;
                assert(pairs_map(entries@, n as int).contains_key(entries@[i].0));
            }
            assert(pairs_map(entries@, n as int) =~= other@.redirects);
        }
    }
}

} // verus!
