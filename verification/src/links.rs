//! Which pages a crawl visits, and the keyword it looks for on them.

use vstd::prelude::*;
use crate::html::{all_matches_attribute, optional_views, select_all_attributes};
use crate::text::{chars_of, contains, find_chars, first_occurrence, string_views};

verus! {

/// The keyword with each space and each slash replaced by a plus sign, as it stands in the
/// query of a search request.
pub open spec fn query_text(keyword: Seq<char>) -> Seq<char> {
    Seq::new(
        keyword.len(),
        |i: int|
            if keyword[i] == ' ' || keyword[i] == '/' {
                '+'
            } else {
                keyword[i]
            },
    )
}

/// The address of the search request that asks for up to a hundred pages on `keyword`.
pub open spec fn search_url(keyword: Seq<char>) -> Seq<char> {
    "https://www.google.com/search?q="@ + query_text(keyword) + "&num=100"@
}

/// The address of the search request that asks for up to a hundred pages on `keyword`.
pub fn google_search_url(keyword: &str) -> (r: String)
    ensures
        r@ == search_url(keyword@),
{
    proof {
        reveal_strlit("+");
    }
    let mut r = String::from_str("https://www.google.com/search?q=");
    let ghost prefix = r@;
    let n = keyword.unicode_len();
    for i in 0..n
        invariant
            n == keyword@.len(),
            r@ == prefix + query_text(keyword@).take(i as int),
    {
        let c = keyword.get_char(i);
        let ghost before = r@;
        if c == ' ' || c == '/' {
            r.append("+");
            proof {
                reveal_strlit("+");
            }
            assert(r@ =~= before.push('+'));
        } else {
            r.append(keyword.substring_char(i, i + 1));
            assert(r@ =~= before.push(c));
        }
        assert(query_text(keyword@).take(i + 1) =~= query_text(keyword@).take(i as int).push(
            query_text(keyword@)[i as int],
        ));
        assert(r@ =~= prefix + query_text(keyword@).take(i + 1));
    }
    assert(query_text(keyword@).take(n as int) =~= query_text(keyword@));
    r.append("&num=100");
    r
}

/// The text looked for on each page: what follows the first slash of the keyword, where it
/// has one ("Street Fighter/Ken" looks for "Ken"), else the whole keyword.
pub open spec fn search_pattern(keyword: Seq<char>) -> Seq<char> {
    match first_occurrence(keyword, seq!['/']) {
        Some(p) => keyword.skip(p + 1),
        None => keyword,
    }
}

/// The text looked for on each page for `keyword`.
pub fn keyword_pattern(keyword: &str) -> (r: String)
    ensures
        r@ == search_pattern(keyword@),
{
    let chars = chars_of(keyword);
    let len = chars.len();
    let slash = vec!['/'];
    assert(slash@ =~= seq!['/']);
    match find_chars(&chars, &slash) {
        Some(p) => {
            proof {
                crate::text::lemma_first_occurrence(keyword@, seq!['/']);
                assert(first_occurrence(keyword@, seq!['/']) == Some(p as int));
                assert(crate::text::occurs_at(keyword@, seq!['/'], p as int));
                assert(seq!['/'].len() == 1);
                assert(p + 1 <= len);
            }
            String::from_str(keyword.substring_char(p + 1, len))
        },
        None => {
            assert(slash@ =~= seq!['/']);
            String::from_str(keyword)
        },
    }
}

/// The pieces of `s` between its spaces, in order; `n` spaces give `n + 1` pieces, some of
/// them empty.
pub open spec fn split_spaces(s: Seq<char>) -> Seq<Seq<char>>
    decreases s.len(),
{
    if s.len() == 0 {
        seq![seq![]]
    } else {
        let pieces = split_spaces(s.drop_last());
        if s.last() == ' ' {
            pieces.push(seq![])
        } else {
            pieces.update(pieces.len() - 1, pieces.last().push(s.last()))
        }
    }
}

/// The pieces joined again, a space between each two.
pub open spec fn join_spaces(pieces: Seq<Seq<char>>) -> Seq<char>
    decreases pieces.len(),
{
    if pieces.len() == 0 {
        seq![]
    } else if pieces.len() == 1 {
        pieces[0]
    } else {
        join_spaces(pieces.drop_last()) + seq![' '] + pieces.last()
    }
}

/// Splitting always gives at least one piece.
proof fn lemma_split_nonempty(s: Seq<char>)
    ensures
        split_spaces(s).len() >= 1,
    decreases s.len(),
{
    if s.len() > 0 {
        lemma_split_nonempty(s.drop_last());
    }
}

/// Splitting at the spaces loses nothing: joining the pieces with single spaces gives back
/// the text, and no piece holds a space.
pub proof fn lemma_split_join(s: Seq<char>)
    ensures
        join_spaces(split_spaces(s)) == s,
        forall|k: int, j: int|
            0 <= k < split_spaces(s).len() && 0 <= j < split_spaces(s)[k].len()
                ==> split_spaces(s)[k][j] != ' ',
    decreases s.len(),
{
    if s.len() > 0 {
        let t = s.drop_last();
        let c = s.last();
        lemma_split_join(t);
        lemma_split_nonempty(t);
        let p = split_spaces(t);
        let q = split_spaces(s);
        if c == ' ' {
            assert(q.drop_last() =~= p);
            assert(join_spaces(q) =~= s);
            assert forall|k: int, j: int| 0 <= k < q.len() && 0 <= j < q[k].len() implies q[k][j]
                != ' ' by {
                if k < p.len() {
                    assert(q[k] == p[k]);
                }
            }
        } else {
            if p.len() == 1 {
                assert(join_spaces(q) =~= s);
            } else {
                assert(q.drop_last() =~= p.drop_last());
                assert(q.last() == p.last().push(c));
                assert(join_spaces(p) == join_spaces(p.drop_last()) + seq![' '] + p.last());
                assert(join_spaces(q) == join_spaces(q.drop_last()) + seq![' '] + q.last());
                assert(s =~= t.push(c));
                assert(join_spaces(q) =~= s);
            }
            assert forall|k: int, j: int| 0 <= k < q.len() && 0 <= j < q[k].len() implies q[k][j]
                != ' ' by {
                if k < p.len() - 1 {
                    assert(q[k] == p[k]);
                } else {
                    if j < p.last().len() {
                        assert(q[k][j] == p[k][j]);
                    }
                }
            }
        }
    } else {
        assert(join_spaces(split_spaces(s)) =~= s);
    }
}

/// The addresses in `websites`, which are separated by single spaces.
pub fn split_websites(websites: &str) -> (r: Vec<String>)
    ensures
        string_views(r@) == split_spaces(websites@),
{
    let n = websites.unicode_len();
    let mut pieces: Vec<String> = Vec::new();
    let mut start: usize = 0;
    assert(websites@.take(0) =~= seq![]);
    assert(string_views(pieces@).push(websites@.subrange(0, 0)) =~= seq![seq![]]);
    for i in 0..n
        invariant
            n == websites@.len(),
            start <= i,
            string_views(pieces@).push(websites@.subrange(start as int, i as int)) == split_spaces(
                websites@.take(i as int),
            ),
    {
        let ghost s = websites@.take(i + 1);
        assert(s.drop_last() =~= websites@.take(i as int));
        proof {
            lemma_split_nonempty(s.drop_last());
        }
        let ghost before = string_views(pieces@);
        if websites.get_char(i) == ' ' {
            let ghost piece = websites@.subrange(start as int, i as int);
            pieces.push(String::from_str(websites.substring_char(start, i)));
            start = i + 1;
            assert(string_views(pieces@) =~= before.push(piece));
            assert(websites@.subrange(start as int, i + 1) =~= seq![]);
            assert(string_views(pieces@).push(websites@.subrange(start as int, i + 1)) =~= split_spaces(s));
        } else {
            assert(websites@.subrange(start as int, i + 1) =~= websites@.subrange(start as int, i as int).push(websites@[i as int]));
            assert(string_views(pieces@).push(websites@.subrange(start as int, i + 1)) =~= split_spaces(s));
        }
    }
    pieces.push(String::from_str(websites.substring_char(start, n)));
    assert(websites@.take(n as int) =~= websites@);
    assert(string_views(pieces@) =~= split_spaces(websites@));
    pieces
}

/// The text that marks where a result link's target begins.
pub open spec fn query_marker() -> Seq<char> {
    seq!['?', 'q', '=']
}

/// The address that a result link of the search page leads to: what follows the first
/// `?q=` of its `href`, up to the next `&`; none where either is missing.
pub open spec fn link_target(href: Seq<char>) -> Option<Seq<char>> {
    match first_occurrence(href, query_marker()) {
        Some(p) => {
            let rest = href.skip(p + 3);
            match first_occurrence(rest, seq!['&']) {
                Some(e) => Some(rest.take(e)),
                None => None,
            }
        },
        None => None,
    }
}

/// The targets, in order, of those result links whose `href` is present and gives one.
pub open spec fn result_links(hrefs: Seq<Option<Seq<char>>>) -> Seq<Seq<char>>
    decreases hrefs.len(),
{
    if hrefs.len() == 0 {
        seq![]
    } else {
        let before = result_links(hrefs.drop_last());
        match hrefs.last() {
            Some(h) => match link_target(h) {
                Some(t) => before.push(t),
                None => before,
            },
            None => before,
        }
    }
}

/// The number of hrefs that are present and give a link target.
pub open spec fn count_targets(hrefs: Seq<Option<Seq<char>>>) -> nat
    decreases hrefs.len(),
{
    if hrefs.len() == 0 {
        0
    } else {
        count_targets(hrefs.drop_last()) + match hrefs.last() {
            Some(h) => if link_target(h) is Some {
                1nat
            } else {
                0nat
            },
            None => 0nat,
        }
    }
}

/// Every result link that gives a target contributes its target, after those of the links
/// before it, and nothing else contributes: one more link with a target appends exactly that
/// target, and a link without one changes nothing.
pub proof fn lemma_result_links(hrefs: Seq<Option<Seq<char>>>, next: Option<Seq<char>>)
    ensures
        result_links(hrefs).len() == count_targets(hrefs),
        next matches Some(h) ==> (link_target(h) matches Some(t) ==> result_links(
            hrefs.push(next),
        ) == result_links(hrefs).push(t)),
        !(next matches Some(h) && link_target(h) is Some) ==> result_links(hrefs.push(next))
            == result_links(hrefs),
    decreases hrefs.len(),
{
    assert(hrefs.push(next).drop_last() =~= hrefs);
    if hrefs.len() > 0 {
        lemma_result_links(hrefs.drop_last(), hrefs.last());
    }
}

/// The address that the link with this `href` leads to.
fn target_of(href: &String) -> (r: Option<String>)
    ensures
        crate::html::optional_view(r) == link_target(href@),
{
    let chars = chars_of(href.as_str());
    let len = chars.len();
    let marker = vec!['?', 'q', '='];
    assert(marker@ =~= query_marker());
    match find_chars(&chars, &marker) {
        Some(p) => {
            proof {
                crate::text::lemma_first_occurrence(href@, query_marker());
                assert(crate::text::occurs_at(href@, query_marker(), p as int));
                assert(p + 3 <= len);
            }
            let rest = href.as_str().substring_char(p + 3, len);
            assert(rest@ =~= href@.skip(p + 3));
            let rest_chars = chars_of(rest);
            let amp = vec!['&'];
            assert(amp@ =~= seq!['&']);
            match find_chars(&rest_chars, &amp) {
                Some(e) => {
                    proof {
                        crate::text::lemma_first_occurrence(rest@, seq!['&']);
                        assert(crate::text::occurs_at(rest@, seq!['&'], e as int));
                    }
                    let t = String::from_str(rest.substring_char(0, e));
                    assert(t@ =~= rest@.take(e as int));
                    Some(t)
                },
                None => None,
            }
        },
        None => None,
    }
}

/// The targets, in order, of the result links whose `href` is present and gives one.
pub fn link_targets(hrefs: &Vec<Option<String>>) -> (r: Vec<String>)
    ensures
        string_views(r@) == result_links(optional_views(hrefs@)),
{
    let ghost all = optional_views(hrefs@);
    let mut r: Vec<String> = Vec::new();
    let n = hrefs.len();
    for i in 0..n
        invariant
            n == hrefs@.len(),
            all == optional_views(hrefs@),
            string_views(r@) == result_links(all.take(i as int)),
    {
        assert(all.take(i + 1).drop_last() =~= all.take(i as int));
        assert(all.take(i + 1).last() == crate::html::optional_view(hrefs@[i as int]));
        let ghost before = string_views(r@);
        match &hrefs[i] {
            Some(h) => {
                match target_of(h) {
                    Some(t) => {
                        r.push(t);
                        assert(string_views(r@) =~= before.push(link_target(h@)->0));
                    },
                    None => {},
                }
            },
            None => {},
        }
    }
    assert(all.take(n as int) =~= all);
    r
}

/// The addresses that the result links of a search page lead to.
pub open spec fn search_results(document: Seq<char>) -> Seq<Seq<char>> {
    result_links(all_matches_attribute(document, "div.egMi0.kCrYT > a"@, "href"@))
}

/// The addresses that the result links of the search page `document` lead to, in order.
pub fn google_result_links(document: &str) -> (r: Vec<String>)
    ensures
        string_views(r@) == search_results(document@),
{
    let hrefs = select_all_attributes(document, "div.egMi0.kCrYT > a", "href");
    link_targets(&hrefs)
}

/// Where the pages to crawl come from.
pub enum SiteSource {
    /// No addresses were given: the pages are those that this search request finds.
    Search(String),
    /// The addresses that were given.
    Listed(Vec<String>),
}

/// Where the pages to crawl for `keyword` come from: the search request for the keyword when
/// `websites` is empty, else the space-separated addresses in it.
pub fn site_source(keyword: &str, websites: &str) -> (r: SiteSource)
    ensures
        websites@.len() == 0 ==> (r matches SiteSource::Search(url) && url@ == search_url(
            keyword@,
        )),
        websites@.len() != 0 ==> (r matches SiteSource::Listed(sites) && string_views(sites@)
            == split_spaces(websites@)),
{
    if websites.is_empty() {
        SiteSource::Search(google_search_url(keyword))
    } else {
        SiteSource::Listed(split_websites(websites))
    }
}

/// The query text has one character per character of the keyword and holds no space and no
/// slash; every other character of the keyword stays in place.
pub proof fn lemma_query_text(keyword: Seq<char>)
    ensures
        query_text(keyword).len() == keyword.len(),
        forall|i: int|
            0 <= i < keyword.len() ==> #[trigger] query_text(keyword)[i] != ' '
                && query_text(keyword)[i] != '/',
        forall|i: int|
            0 <= i < keyword.len() && keyword[i] != ' ' && keyword[i] != '/'
                ==> #[trigger] query_text(keyword)[i] == keyword[i],
{
}

/// A keyword with a slash is its context, that slash and the search pattern, where the
/// context holds no slash; a keyword without one is its own pattern.
pub proof fn lemma_search_pattern(keyword: Seq<char>)
    ensures
        !contains(keyword, seq!['/']) ==> search_pattern(keyword) == keyword,
        contains(keyword, seq!['/']) ==> exists|p: int|
            0 <= p < keyword.len() && keyword == keyword.take(p) + seq!['/'] + search_pattern(
                keyword,
            ) && !contains(#[trigger] keyword.take(p), seq!['/']),
{
    crate::text::lemma_first_occurrence(keyword, seq!['/']);
    if contains(keyword, seq!['/']) {
        let p = first_occurrence(keyword, seq!['/'])->0;
        assert(keyword.subrange(p, p + 1) == seq!['/']);
        assert(keyword[p] == keyword.subrange(p, p + 1)[0]);
        assert(keyword =~= keyword.take(p) + seq!['/'] + search_pattern(keyword));
        assert forall|j: int| !crate::text::occurs_at(keyword.take(p), seq!['/'], j) by {
            if crate::text::occurs_at(keyword.take(p), seq!['/'], j) {
                assert(keyword.take(p).subrange(j, j + 1) =~= keyword.subrange(j, j + 1));
                assert(crate::text::occurs_at(keyword, seq!['/'], j));
            }
        }
    }
}

/// The target of a result link is the piece of its `href` between its first `?q=` and the
/// `&` that next follows: it holds no `&`, and an `&` stands right after it.
pub proof fn lemma_link_target(href: Seq<char>)
    ensures
        link_target(href) matches Some(t) ==> exists|p: int|
            #![trigger crate::text::is_first_occurrence(href, query_marker(), p)]
            crate::text::is_first_occurrence(href, query_marker(), p) && p + 3 + t.len()
                < href.len() && href.subrange(p + 3, p + 3 + t.len()) == t && href[p + 3
                + t.len()] == '&',
        link_target(href) matches Some(t) ==> forall|i: int| 0 <= i < t.len() ==> t[i] != '&',
        link_target(href) is None ==> !contains(href, query_marker())
            || !contains(href.skip(first_occurrence(href, query_marker())->0 + 3), seq!['&']),
{
    crate::text::lemma_first_occurrence(href, query_marker());
    if let Some(p) = first_occurrence(href, query_marker()) {
        let rest = href.skip(p + 3);
        crate::text::lemma_first_occurrence(rest, seq!['&']);
        if let Some(e) = first_occurrence(rest, seq!['&']) {
            let t = rest.take(e);
            assert(href.subrange(p + 3, p + 3 + t.len()) =~= t);
            assert(rest.subrange(e, e + 1)[0] == '&');
            assert(href[p + 3 + e] == rest[e]);
            assert forall|i: int| 0 <= i < t.len() implies t[i] != '&' by {
                if t[i] == '&' {
                    assert(rest.subrange(i, i + 1) =~= seq!['&']);
                    assert(crate::text::occurs_at(rest, seq!['&'], i));
                }
            }
        }
    }
}

} // verus!
