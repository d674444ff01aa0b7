//! What a search reads off one page: the matching text nodes and the page's meta information.

use vstd::prelude::*;
use crate::html::{
    first_match_attribute, first_match_text_nodes, select_first_attribute,
    select_first_text_nodes,
};
use crate::search::{find_keyword_matches, keyword_matches, match_views, KeywordMatch};

verus! {

/// The concatenation of a list of strings.
pub open spec fn concat_all(parts: Seq<Seq<char>>) -> Seq<char>
    decreases parts.len(),
{
    if parts.len() == 0 {
        seq![]
    } else {
        concat_all(parts.drop_last()) + parts.last()
    }
}

/// Joining one more string appends it, and the length of the joined strings is the sum of
/// their lengths.
pub proof fn lemma_concat_all(parts: Seq<Seq<char>>, part: Seq<char>)
    ensures
        concat_all(parts.push(part)) == concat_all(parts) + part,
        concat_all(parts.push(part)).len() == concat_all(parts).len() + part.len(),
{
    assert(parts.push(part).drop_last() =~= parts);
}

/// The abstract content of a `PageScan`.
pub struct ScanView {
    pub matches: Seq<(Seq<char>, Seq<char>, nat)>,
    pub title: Seq<char>,
    pub snippet: Seq<char>,
    pub update_time: Seq<char>,
}

/// What a keyword search finds on one page: the text nodes of the page's `<body>` that hold
/// the keyword, and, when there is at least one, the page's title, its description and the
/// time it was last modified (each empty where the page does not give it).
pub struct PageScan {
    pub matches: Vec<KeywordMatch>,
    pub title: String,
    pub snippet: String,
    pub update_time: String,
}

impl View for PageScan {
    type V = ScanView;

    open spec fn view(&self) -> ScanView {
        ScanView {
            matches: match_views(self.matches@),
            title: self.title@,
            snippet: self.snippet@,
            update_time: self.update_time@,
        }
    }
}

/// An optional string, or the empty string in its absence.
pub open spec fn or_empty(v: Option<Seq<char>>) -> Seq<char> {
    match v {
        Some(s) => s,
        None => seq![],
    }
}

/// The text nodes of the page's `<body>`; none where it has no body.
pub open spec fn body_text_nodes(document: Seq<char>) -> Seq<Seq<char>> {
    match first_match_text_nodes(document, "body"@) {
        Some(nodes) => nodes,
        None => seq![],
    }
}

/// The text of the page's `<title>`, or empty.
pub open spec fn page_title(document: Seq<char>) -> Seq<char> {
    match first_match_text_nodes(document, "title"@) {
        Some(parts) => concat_all(parts),
        None => seq![],
    }
}

/// The `content` of the page's `<meta name="description">`, or empty.
pub open spec fn page_description(document: Seq<char>) -> Seq<char> {
    or_empty(first_match_attribute(document, "meta[name=\"description\"]"@, "content"@))
}

/// The `content` of the page's `<meta name="last-modified">`, or empty.
pub open spec fn page_last_modified(document: Seq<char>) -> Seq<char> {
    or_empty(first_match_attribute(document, "meta[name=\"last-modified\"]"@, "content"@))
}

/// The scan of `document` for `keyword`: the meta information is read only when the keyword
/// occurs; otherwise all of it is empty.
pub open spec fn page_scan(keyword: Seq<char>, document: Seq<char>) -> ScanView {
    let matches = keyword_matches(body_text_nodes(document), keyword);
    if matches.len() == 0 {
        ScanView { matches, title: seq![], snippet: seq![], update_time: seq![] }
    } else {
        ScanView {
            matches,
            title: page_title(document),
            snippet: page_description(document),
            update_time: page_last_modified(document),
        }
    }
}

/// The concatenation of `parts`.
fn join_parts(parts: &Vec<String>) -> (r: String)
    ensures
        r@ == concat_all(crate::text::string_views(parts@)),
{
    let mut r = String::new();
    let ghost all = crate::text::string_views(parts@);
    let n = parts.len();
    for i in 0..n
        invariant
            n == parts@.len(),
            all == crate::text::string_views(parts@),
            r@ == concat_all(all.take(i as int)),
    {
        r.append(parts[i].as_str());
        assert(all.take(i + 1).drop_last() =~= all.take(i as int));
    }
    assert(all.take(n as int) =~= all);
    r
}

/// An optional string, or the empty string in its absence.
fn unwrap_or_empty(v: Option<String>) -> (r: String)
    ensures
        r@ == or_empty(crate::html::optional_view(v)),
{
    match v {
        Some(s) => s,
        None => String::new(),
    }
}

/// Searches the page whose HTML source is `document` for `keyword`.
pub fn scan_page(keyword: &str, document: &str) -> (r: PageScan)
    ensures
        r@ == page_scan(keyword@, document@),
{
    let nodes = match select_first_text_nodes(document, "body") {
        Some(nodes) => nodes,
        None => Vec::new(),
    };
    assert(crate::text::string_views(nodes@) =~= body_text_nodes(document@));
    let matches = find_keyword_matches(&nodes, keyword);
    if matches.len() == 0 {
        return PageScan {
            matches,
            title: String::new(),
            snippet: String::new(),
            update_time: String::new(),
        };
    }
    let title = match select_first_text_nodes(document, "title") {
        Some(parts) => join_parts(&parts),
        None => String::new(),
    };
    let snippet = unwrap_or_empty(
        select_first_attribute(document, "meta[name=\"description\"]", "content"),
    );
    let update_time = unwrap_or_empty(
        select_first_attribute(document, "meta[name=\"last-modified\"]", "content"),
    );
    PageScan { matches, title, snippet, update_time }
}

/// The text searched is exactly the text below the document's first `<body>` element, and the
/// meta information comes from its first `<title>`, `<meta name="description">` and
/// `<meta name="last-modified">`, read only when the keyword was found.
pub proof fn lemma_scan_reads_body_and_meta(keyword: Seq<char>, document: Seq<char>)
    ensures
        ({
            let scan = page_scan(keyword, document);
            let body = first_match_text_nodes(document, "body"@);
            &&& body is None ==> scan.matches.len() == 0
            &&& body matches Some(nodes) ==> scan.matches == keyword_matches(nodes, keyword)
            &&& scan.matches.len() == 0 ==> scan.title.len() == 0 && scan.snippet.len() == 0
                && scan.update_time.len() == 0
            &&& scan.matches.len() > 0 ==> {
                &&& first_match_text_nodes(document, "title"@) is None ==> scan.title.len() == 0
                &&& first_match_text_nodes(document, "title"@) matches Some(parts) ==> scan.title
                    == concat_all(parts)
                &&& first_match_attribute(document, "meta[name=\"description\"]"@, "content"@)
                    is None ==> scan.snippet.len() == 0
                &&& first_match_attribute(document, "meta[name=\"description\"]"@, "content"@)
                    matches Some(d) ==> scan.snippet == d
                &&& first_match_attribute(document, "meta[name=\"last-modified\"]"@, "content"@)
                    is None ==> scan.update_time.len() == 0
                &&& first_match_attribute(document, "meta[name=\"last-modified\"]"@, "content"@)
                    matches Some(t) ==> scan.update_time == t
            }
        }),
{
    if first_match_text_nodes(document, "body"@) is None {
        assert(keyword_matches(seq![], keyword) =~= seq![]);
    }
}

} // verus!
