//! Keyword search over the text nodes of a page.

use vstd::prelude::*;
use crate::text::{
    chars_of, contains, count_occurrences, find_chars, first_occurrence, lemma_count_positive,
    is_first_occurrence, lemma_first_occurrence, non_overlapping_count, occurs_at, string_views,
};

verus! {

/// The longest excerpt, in characters, kept of a text node that holds the keyword.
pub const EXCERPT_LIMIT: usize = 70;

/// What is kept of a text node `node` in which `keyword` occurs: a node of at most
/// `EXCERPT_LIMIT` characters is kept whole; of a longer one, the part that starts at the
/// keyword's first occurrence, cut to `EXCERPT_LIMIT` characters.
pub open spec fn excerpt(node: Seq<char>, keyword: Seq<char>) -> Seq<char> {
    if node.len() > EXCERPT_LIMIT {
        let start = match first_occurrence(node, keyword) {
            Some(p) => p,
            None => 0,
        };
        let tail = node.skip(start);
        if tail.len() > EXCERPT_LIMIT {
            tail.take(EXCERPT_LIMIT as int)
        } else {
            tail
        }
    } else {
        node
    }
}

/// How many times `keyword` counts as appearing in a text node: its non-overlapping
/// occurrences; the empty keyword counts once in every node.
pub open spec fn keyword_count(node: Seq<char>, keyword: Seq<char>) -> nat {
    if keyword.len() == 0 {
        1
    } else {
        non_overlapping_count(node, keyword)
    }
}

/// A text node in which the keyword occurs, the excerpt shown of it, and how many times the
/// keyword appears in it.
pub struct KeywordMatch {
    text: String,
    excerpt: String,
    occurrences: usize,
}

impl View for KeywordMatch {
    type V = (Seq<char>, Seq<char>, nat);

    closed spec fn view(&self) -> (Seq<char>, Seq<char>, nat) {
        (self.text@, self.excerpt@, self.occurrences as nat)
    }
}

impl KeywordMatch {
    /// A match counts at least one appearance of the keyword.
    #[verifier::type_invariant]
    spec fn counts_an_appearance(self) -> bool {
        self.occurrences >= 1
    }

    /// The whole text node.
    pub fn text(&self) -> (r: &str)
        ensures
            r@ == self@.0,
    {
        self.text.as_str()
    }

    /// The excerpt shown of the node.
    pub fn excerpt(&self) -> (r: &str)
        ensures
            r@ == self@.1,
    {
        self.excerpt.as_str()
    }

    /// How many times the keyword appears in the node; at least once.
    pub fn occurrences(&self) -> (r: usize)
        ensures
            r == self@.2,
            r >= 1,
    {
        proof {
            use_type_invariant(self);
        }
        self.occurrences
    }

    /// The excerpt, taken out of the match.
    pub fn into_excerpt(self) -> (r: String)
        ensures
            r@ == self@.1,
    {
        self.excerpt
    }
}

/// The views of a sequence of matches.
pub open spec fn match_views(v: Seq<KeywordMatch>) -> Seq<(Seq<char>, Seq<char>, nat)> {
    v.map_values(|m: KeywordMatch| m@)
}

/// The nodes, in order, in which `keyword` occurs, each with its excerpt and the number of
/// times the keyword appears in it.
pub open spec fn keyword_matches(nodes: Seq<Seq<char>>, keyword: Seq<char>) -> Seq<
    (Seq<char>, Seq<char>, nat),
>
    decreases nodes.len(),
{
    if nodes.len() == 0 {
        seq![]
    } else {
        let before = keyword_matches(nodes.drop_last(), keyword);
        let node = nodes.last();
        if contains(node, keyword) {
            before.push((node, excerpt(node, keyword), keyword_count(node, keyword)))
        } else {
            before
        }
    }
}

/// The excerpt of `node`, whose characters are `chars`, where the keyword first occurs at `start`.
fn excerpt_of(node: &String, chars: &Vec<char>, keyword: Ghost<Seq<char>>, start: usize) -> (e: String)
    requires
        chars@ == node@,
        first_occurrence(node@, keyword@) == Some(start as int),
    ensures
        e@ == excerpt(node@, keyword@),
{
    proof {
        lemma_first_occurrence(node@, keyword@);
    }
    let len = chars.len();
    if len > EXCERPT_LIMIT {
        let rest = len - start;
        let end = if rest > EXCERPT_LIMIT { start + EXCERPT_LIMIT } else { len };
        let part = node.as_str().substring_char(start, end);
        let e = String::from_str(part);
        assert(e@ =~= excerpt(node@, keyword@));
        e
    } else {
        node.clone()
    }
}

/// The text nodes among `nodes` in which `keyword` occurs, in order, each with its excerpt
/// and the number of times the keyword appears in it.
pub fn find_keyword_matches(nodes: &Vec<String>, keyword: &str) -> (r: Vec<KeywordMatch>)
    ensures
        match_views(r@) == keyword_matches(string_views(nodes@), keyword@),
{
    let needle = chars_of(keyword);
    let mut r: Vec<KeywordMatch> = Vec::new();
    let n = nodes.len();
    let ghost all = string_views(nodes@);
    for i in 0..n
        invariant
            n == nodes@.len(),
            all == string_views(nodes@),
            needle@ == keyword@,
            match_views(r@) == keyword_matches(all.take(i as int), keyword@),
    {
        let node = &nodes[i];
        let hay = chars_of(node.as_str());
        assert(all.take(i + 1).drop_last() =~= all.take(i as int));
        assert(all.take(i + 1).last() == node@);
        match find_chars(&hay, &needle) {
            Some(start) => {
                let e = excerpt_of(node, &hay, Ghost(keyword@), start);
                let occurrences = if needle.len() == 0 {
                    1
                } else {
                    proof {
                        lemma_first_occurrence(node@, keyword@);
                        lemma_count_positive(node@, keyword@);
                    }
                    count_occurrences(&hay, &needle)
                };
                r.push(KeywordMatch { text: node.clone(), excerpt: e, occurrences });
                assert(match_views(r@) =~= keyword_matches(all.take(i + 1), keyword@));
            },
            None => {
                assert(match_views(r@) =~= keyword_matches(all.take(i + 1), keyword@));
            },
        }
    }
    assert(all.take(n as int) =~= all);
    r
}

/// The excerpt of a node that holds the keyword is a contiguous piece of the node of at most
/// `EXCERPT_LIMIT` characters; a short node is kept whole, and the excerpt of a long one
/// begins with the keyword whenever the keyword itself fits in the limit.
pub proof fn lemma_excerpt_shape(node: Seq<char>, keyword: Seq<char>)
    requires
        contains(node, keyword),
    ensures
        excerpt(node, keyword).len() <= EXCERPT_LIMIT,
        exists|i: int|
            0 <= i && i + excerpt(node, keyword).len() <= node.len() && #[trigger] node.subrange(
                i,
                i + excerpt(node, keyword).len(),
            ) == excerpt(node, keyword),
        node.len() <= EXCERPT_LIMIT ==> excerpt(node, keyword) == node,
        node.len() > EXCERPT_LIMIT && keyword.len() <= EXCERPT_LIMIT ==> excerpt(node, keyword).take(
            keyword.len() as int,
        ) == keyword,
        node.len() > EXCERPT_LIMIT ==> exists|p: int|
            #[trigger] is_first_occurrence(node, keyword, p) && excerpt(node, keyword) == node.subrange(
                p,
                p + if node.len() - p > EXCERPT_LIMIT {
                    EXCERPT_LIMIT as int
                } else {
                    node.len() - p
                },
            ),
{
    lemma_first_occurrence(node, keyword);
    let e = excerpt(node, keyword);
    if node.len() > EXCERPT_LIMIT {
        let p = first_occurrence(node, keyword)->0;
        assert(node.subrange(p, p + e.len()) =~= e);
        assert(is_first_occurrence(node, keyword, p));
        if keyword.len() <= EXCERPT_LIMIT {
            assert(e.take(keyword.len() as int) =~= node.subrange(p, p + keyword.len()));
        }
    } else {
        assert(node.subrange(0, 0 + e.len() as int) =~= e);
    }
}

/// Each match is a node in which the keyword occurs, paired with its excerpt and the number
/// of times the keyword appears in it (at least one), and there is one match for each such
/// node.
pub proof fn lemma_matches_hold_keyword(nodes: Seq<Seq<char>>, keyword: Seq<char>)
    ensures
        forall|i: int|
            0 <= i < keyword_matches(nodes, keyword).len() ==> contains(
                #[trigger] keyword_matches(nodes, keyword)[i].0,
                keyword,
            ) && keyword_matches(nodes, keyword)[i].1 == excerpt(
                keyword_matches(nodes, keyword)[i].0,
                keyword,
            ) && keyword_matches(nodes, keyword)[i].2 == keyword_count(
                keyword_matches(nodes, keyword)[i].0,
                keyword,
            ) && keyword_matches(nodes, keyword)[i].2 >= 1,
        keyword_matches(nodes, keyword).len() == count_containing(nodes, keyword),
    decreases nodes.len(),
{
    if nodes.len() > 0 {
        lemma_matches_hold_keyword(nodes.drop_last(), keyword);
        if keyword.len() > 0 {
            lemma_count_positive(nodes.last(), keyword);
        }
    }
}

/// Searching one more node keeps the earlier matches in place and appends that node's match,
/// if it holds the keyword.
pub proof fn lemma_matches_append(nodes: Seq<Seq<char>>, node: Seq<char>, keyword: Seq<char>)
    ensures
        contains(node, keyword) ==> keyword_matches(nodes.push(node), keyword) == keyword_matches(
            nodes,
            keyword,
        ).push((node, excerpt(node, keyword), keyword_count(node, keyword))),
        !contains(node, keyword) ==> keyword_matches(nodes.push(node), keyword) == keyword_matches(
            nodes,
            keyword,
        ),
{
    assert(nodes.push(node).drop_last() =~= nodes);
}

/// The node of every match is one of the searched nodes.
pub proof fn lemma_matches_are_nodes(nodes: Seq<Seq<char>>, keyword: Seq<char>)
    ensures
        forall|i: int|
            0 <= i < keyword_matches(nodes, keyword).len() ==> nodes.contains(
                (#[trigger] keyword_matches(nodes, keyword)[i]).0,
            ),
    decreases nodes.len(),
{
    if nodes.len() > 0 {
        let rest = nodes.drop_last();
        lemma_matches_are_nodes(rest, keyword);
        let ms = keyword_matches(nodes, keyword);
        let before = keyword_matches(rest, keyword);
        assert forall|i: int| 0 <= i < ms.len() implies nodes.contains((#[trigger] ms[i]).0) by {
            if i < before.len() {
                assert(ms[i] == before[i]);
                assert(rest.contains(before[i].0));
                let k = choose|k: int| 0 <= k < rest.len() && rest[k] == before[i].0;
                assert(nodes[k] == rest[k]);
            } else {
                assert(nodes[nodes.len() - 1] == nodes.last());
            }
        }
    }
}

/// The appearances of `keyword` over all nodes, counted per node as `keyword_count` does for
/// the nodes that hold it.
pub open spec fn total_appearances(nodes: Seq<Seq<char>>, keyword: Seq<char>) -> nat
    decreases nodes.len(),
{
    if nodes.len() == 0 {
        0
    } else {
        total_appearances(nodes.drop_last(), keyword) + if contains(nodes.last(), keyword) {
            keyword_count(nodes.last(), keyword)
        } else {
            0
        }
    }
}

/// The sum of the counts of a list of matches.
pub open spec fn match_total(matches: Seq<(Seq<char>, Seq<char>, nat)>) -> nat
    decreases matches.len(),
{
    if matches.len() == 0 {
        0
    } else {
        match_total(matches.drop_last()) + matches.last().2
    }
}

/// The matches count every appearance of a non-empty keyword in the nodes: the number of
/// its non-overlapping occurrences, summed over all nodes; the empty keyword counts once
/// per node.
pub proof fn lemma_match_total(nodes: Seq<Seq<char>>, keyword: Seq<char>)
    ensures
        match_total(keyword_matches(nodes, keyword)) == total_appearances(nodes, keyword),
        keyword.len() > 0 ==> total_appearances(nodes, keyword) == total_occurrences(
            nodes,
            keyword,
        ),
        keyword.len() == 0 ==> total_appearances(nodes, keyword) == nodes.len(),
    decreases nodes.len(),
{
    if nodes.len() > 0 {
        lemma_match_total(nodes.drop_last(), keyword);
        let before = keyword_matches(nodes.drop_last(), keyword);
        if contains(nodes.last(), keyword) {
            assert(keyword_matches(nodes, keyword).drop_last() =~= before);
        }
        if keyword.len() > 0 {
            lemma_count_positive(nodes.last(), keyword);
        } else {
            assert(occurs_at(nodes.last(), keyword, 0)) by {
                assert(nodes.last().subrange(0, 0) =~= keyword);
            }
        }
    }
}

/// Every match counts at least one appearance, so the counts add up to at least the number of
/// matches.
pub proof fn lemma_match_total_covers_matches(nodes: Seq<Seq<char>>, keyword: Seq<char>)
    ensures
        match_total(keyword_matches(nodes, keyword)) >= keyword_matches(nodes, keyword).len(),
    decreases nodes.len(),
{
    if nodes.len() > 0 {
        lemma_match_total_covers_matches(nodes.drop_last(), keyword);
        if contains(nodes.last(), keyword) {
            assert(keyword_matches(nodes, keyword).drop_last() =~= keyword_matches(
                nodes.drop_last(),
                keyword,
            ));
            if keyword.len() > 0 {
                lemma_count_positive(nodes.last(), keyword);
            }
        }
    }
}

/// The non-overlapping occurrences of `keyword`, summed over all nodes.
pub open spec fn total_occurrences(nodes: Seq<Seq<char>>, keyword: Seq<char>) -> nat
    decreases nodes.len(),
{
    if nodes.len() == 0 {
        0
    } else {
        total_occurrences(nodes.drop_last(), keyword) + non_overlapping_count(nodes.last(), keyword)
    }
}

/// The number of nodes in which `keyword` occurs.
pub open spec fn count_containing(nodes: Seq<Seq<char>>, keyword: Seq<char>) -> nat
    decreases nodes.len(),
{
    if nodes.len() == 0 {
        0
    } else {
        count_containing(nodes.drop_last(), keyword) + if contains(nodes.last(), keyword) {
            1nat
        } else {
            0nat
        }
    }
}

} // verus!
