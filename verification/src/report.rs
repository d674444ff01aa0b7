//! The report of one searched page.

use vstd::prelude::*;
use crate::page::{PageScan, ScanView};
use crate::search::{match_total, match_views, EXCERPT_LIMIT};
use crate::text::{contains, is_first_occurrence, string_views};

verus! {

/// The abstract content of a `ReportEntry`.
pub struct ReportView {
    pub title: Seq<char>,
    pub url: Seq<char>,
    pub snippet: Seq<char>,
    pub frequency: nat,
    pub update_time: Seq<char>,
    pub results: Seq<(Seq<char>, Seq<char>)>,
}

/// The views of a list of string pairs.
pub open spec fn pair_views(v: Seq<(String, String)>) -> Seq<(Seq<char>, Seq<char>)> {
    v.map_values(|p: (String, String)| (p.0@, p.1@))
}

/// The report of a page on which the keyword was not found: everything empty.
pub open spec fn empty_report() -> ReportView {
    ReportView {
        title: seq![],
        url: seq![],
        snippet: seq![],
        frequency: 0,
        update_time: seq![],
        results: seq![],
    }
}

/// A count, held at `usize::MAX` where it would not fit.
pub open spec fn capped(x: nat) -> nat {
    if x > usize::MAX {
        usize::MAX as nat
    } else {
        x
    }
}

/// The report of the page at `url` whose scan is `scan`, where `sentiments[i]` is the
/// sentiment analysis of the text node of the `i`-th match: the empty report where nothing
/// matched; otherwise the scan's meta information, how many times the keyword appears on the
/// page (the sum of the matches' counts), and each match's excerpt beside its sentiment.
pub open spec fn report_of(url: Seq<char>, scan: ScanView, sentiments: Seq<Seq<char>>) -> ReportView {
    if scan.matches.len() == 0 {
        empty_report()
    } else {
        ReportView {
            title: scan.title,
            url,
            snippet: scan.snippet,
            frequency: capped(match_total(scan.matches)),
            update_time: scan.update_time,
            results: Seq::new(scan.matches.len(), |i: int| (scan.matches[i].1, sentiments[i])),
        }
    }
}

/// The search result of one web page.
///
/// `frequency` is how many times the keyword appears in the page's text, and
/// `results_list` holds, for each text node that holds it, in order, the excerpt shown of
/// the node and its sentiment analysis.
#[derive(Debug)]
pub struct ReportEntry {
    title: String,
    url: String,
    snippet: String,
    frequency: usize,
    update_time: String,
    results_list: Vec<(String, String)>,
}

impl View for ReportEntry {
    type V = ReportView;

    closed spec fn view(&self) -> ReportView {
        ReportView {
            title: self.title@,
            url: self.url@,
            snippet: self.snippet@,
            frequency: self.frequency as nat,
            update_time: self.update_time@,
            results: pair_views(self.results_list@),
        }
    }
}

impl Clone for ReportEntry {
    /// A copy of the report.
    fn clone(&self) -> (r: Self)
        ensures
            r@ == self@,
    {
        proof {
            use_type_invariant(self);
        }
        let n = self.results_list.len();
        let mut results_list: Vec<(String, String)> = Vec::new();
        for i in 0..n
            invariant
                n == self.results_list@.len(),
                results_list@.len() == i,
                forall|j: int|
                    0 <= j < i ==> #[trigger] pair_views(results_list@)[j] == pair_views(
                        self.results_list@,
                    )[j],
        {
            let ghost before = results_list@;
            let pair = &self.results_list[i];
            results_list.push((pair.0.clone(), pair.1.clone()));
            assert forall|j: int| 0 <= j < i implies #[trigger] pair_views(results_list@)[j]
                == pair_views(before)[j] by {
                assert(results_list@[j] == before[j]);
            }
        }
        assert(pair_views(results_list@) =~= pair_views(self.results_list@));
        ReportEntry {
            title: self.title.clone(),
            url: self.url.clone(),
            snippet: self.snippet.clone(),
            frequency: self.frequency,
            update_time: self.update_time.clone(),
            results_list,
        }
    }
}

impl ReportEntry {
    /// Every result stands for at least one counted appearance, and a report counts none
    /// exactly when it has no result.
    #[verifier::type_invariant]
    spec fn well_formed(self) -> bool {
        &&& self.results_list@.len() <= self.frequency
        &&& (self.frequency == 0 <==> self.results_list@.len() == 0)
    }

    /// The report of the page at `url` whose scan is `scan`; `sentiments` holds the sentiment
    /// analysis of each matching text node, in the order of `scan.matches`.
    pub fn from_scan(url: &str, scan: PageScan, sentiments: Vec<String>) -> (r: ReportEntry)
        requires
            sentiments@.len() == scan.matches@.len(),
        ensures
            r@ == report_of(url@, scan@, string_views(sentiments@)),
            r@.results.len() == scan@.matches.len(),
            forall|i: int|
                0 <= i < r@.results.len() ==> #[trigger] r@.results[i] == (
                    scan@.matches[i].1,
                    sentiments@[i]@,
                ),
    {
        let n = scan.matches.len();
        if n == 0 {
            let r = ReportEntry {
                title: String::new(),
                url: String::new(),
                snippet: String::new(),
                frequency: 0,
                update_time: String::new(),
                results_list: Vec::new(),
            };
            assert(r@.results =~= seq![]);
            return r;
        }
        let ghost sv = scan@;
        let ghost ss = string_views(sentiments@);
        let mut results_list: Vec<(String, String)> = Vec::new();
        let mut frequency: usize = 0;
        let mut matches = scan.matches;
        let mut sentiments = sentiments;
        let mut i: usize = 0;
        assert(sv.matches.take(0) =~= seq![]);
        while i < n
            invariant
                n == sv.matches.len(),
                n == ss.len(),
                i <= n,
                match_views(matches@) == sv.matches.skip(i as int),
                string_views(sentiments@) == ss.skip(i as int),
                results_list@.len() == i,
                frequency == capped(match_total(sv.matches.take(i as int))),
                match_total(sv.matches.take(i as int)) >= i,
                forall|j: int|
                    0 <= j < i ==> #[trigger] pair_views(results_list@)[j] == (
                        sv.matches[j].1,
                        ss[j],
                    ),
            decreases n - i,
        {
            let ghost before_matches = matches@;
            let ghost before_sentiments = sentiments@;
            assert(match_views(before_matches).len() == before_matches.len());
            assert(string_views(before_sentiments).len() == before_sentiments.len());
            let m = matches.remove(0);
            let sentiment = sentiments.remove(0);
            assert(m@ == sv.matches[i as int]) by {
                assert(match_views(before_matches)[0] == sv.matches.skip(i as int)[0]);
            }
            assert(sentiment@ == ss[i as int]) by {
                assert(string_views(before_sentiments)[0] == ss.skip(i as int)[0]);
            }
            assert(sv.matches.take(i + 1).drop_last() =~= sv.matches.take(i as int));
            frequency = frequency.saturating_add(m.occurrences());
            let ghost before = results_list@;
            results_list.push((m.into_excerpt(), sentiment));
            assert forall|j: int| 0 <= j < i implies #[trigger] pair_views(results_list@)[j]
                == pair_views(before)[j] by {
                assert(results_list@[j] == before[j]);
            }
            assert forall|k: int| 0 <= k < matches@.len() implies #[trigger] match_views(matches@)[k]
                == sv.matches.skip(i + 1)[k] by {
                assert(matches@[k] == before_matches[k + 1]);
                assert(match_views(before_matches)[k + 1] == sv.matches.skip(i as int)[k + 1]);
            }
            assert(match_views(matches@) =~= sv.matches.skip(i + 1));
            assert forall|k: int| 0 <= k < sentiments@.len() implies #[trigger] string_views(
                sentiments@,
            )[k] == ss.skip(i + 1)[k] by {
                assert(sentiments@[k] == before_sentiments[k + 1]);
                assert(string_views(before_sentiments)[k + 1] == ss.skip(i as int)[k + 1]);
            }
            assert(string_views(sentiments@) =~= ss.skip(i + 1));
            i = i + 1;
        }
        assert(sv.matches.take(n as int) =~= sv.matches);
        let r = ReportEntry {
            title: scan.title,
            url: String::from_str(url),
            snippet: scan.snippet,
            frequency,
            update_time: scan.update_time,
            results_list,
        };
        assert(r@.results =~= report_of(url@, sv, ss).results);
        r
    }

    /// The title of the page.
    pub fn title(&self) -> (r: &str)
        ensures
            r@ == self@.title,
    {
        self.title.as_str()
    }

    /// The address of the page.
    pub fn url(&self) -> (r: &str)
        ensures
            r@ == self@.url,
    {
        self.url.as_str()
    }

    /// The description of the page.
    pub fn snippet(&self) -> (r: &str)
        ensures
            r@ == self@.snippet,
    {
        self.snippet.as_str()
    }

    /// How many times the keyword appears in the page's text.
    pub fn frequency(&self) -> (r: usize)
        ensures
            r == self@.frequency,
            self@.results.len() <= r,
            r == 0 <==> self@.results.len() == 0,
    {
        proof {
            use_type_invariant(self);
        }
        self.frequency
    }

    /// When the page was last modified, as the page states it.
    pub fn update_time(&self) -> (r: &str)
        ensures
            r@ == self@.update_time,
    {
        self.update_time.as_str()
    }

    /// For each matching text node, its excerpt and its sentiment analysis.
    pub fn results_list(&self) -> (r: &Vec<(String, String)>)
        ensures
            pair_views(r@) == self@.results,
    {
        &self.results_list
    }
}

/// The views of a list of reports.
pub open spec fn report_views(v: Seq<ReportEntry>) -> Seq<ReportView> {
    v.map_values(|r: ReportEntry| r@)
}

/// The reports, in order, of the pages on which the keyword was found.
pub open spec fn found_reports(s: Seq<ReportView>) -> Seq<ReportView>
    decreases s.len(),
{
    if s.len() == 0 {
        seq![]
    } else {
        let before = found_reports(s.drop_last());
        if s.last().frequency != 0 {
            before.push(s.last())
        } else {
            before
        }
    }
}

/// One more report keeps the earlier kept reports in place and is appended when it found the
/// keyword.
pub proof fn lemma_found_reports_append(s: Seq<ReportView>, r: ReportView)
    ensures
        r.frequency != 0 ==> found_reports(s.push(r)) == found_reports(s).push(r),
        r.frequency == 0 ==> found_reports(s.push(r)) == found_reports(s),
{
    assert(s.push(r).drop_last() =~= s);
}

/// Keeps, in order, the reports of the pages on which the keyword was found.
pub fn keep_found_reports(reports: Vec<ReportEntry>) -> (r: Vec<ReportEntry>)
    ensures
        report_views(r@) == found_reports(report_views(reports@)),
{
    let ghost all = report_views(reports@);
    let mut rest = reports;
    let mut kept: Vec<ReportEntry> = Vec::new();
    let ghost mut done: int = 0;
    while rest.len() > 0
        invariant
            0 <= done <= all.len(),
            report_views(rest@) == all.skip(done),
            report_views(kept@) == found_reports(all.take(done)),
        decreases rest@.len(),
    {
        let ghost before = rest@;
        assert(report_views(before).len() == before.len());
        assert(done < all.len());
        let entry = rest.remove(0);
        assert(all[done] == entry@) by {
            assert(all.skip(done)[0] == report_views(before)[0]);
            assert(report_views(before)[0] == before[0]@);
        }
        assert(all.take(done + 1).drop_last() =~= all.take(done));
        let found = entry.frequency() != 0;
        let ghost kept_before = kept@;
        if found {
            kept.push(entry);
            assert(report_views(kept@) =~= report_views(kept_before).push(all[done]));
        }
        assert forall|k: int| 0 <= k < rest@.len() implies #[trigger] report_views(rest@)[k]
            == all.skip(done + 1)[k] by {
            assert(rest@[k] == before[k + 1]);
            assert(report_views(before)[k + 1] == all.skip(done)[k + 1]);
        }
        assert(report_views(rest@) =~= all.skip(done + 1));
        proof {
            done = done + 1;
        }
    }
    assert(all.take(done) =~= all);
    kept
}

/// A page's report counts every appearance of the keyword in the text of the page's body:
/// for a non-empty keyword, its non-overlapping occurrences summed over the body's text nodes
/// (the empty keyword counts once per node), held at `usize::MAX`. It holds one result per text
/// node that holds the keyword, never more results than appearances (below that cap), and is the empty report
/// exactly when the keyword does not appear.
pub proof fn lemma_report_counts_appearances(
    url: Seq<char>,
    keyword: Seq<char>,
    document: Seq<char>,
    sentiments: Seq<Seq<char>>,
)
    ensures
        ({
            let nodes = crate::page::body_text_nodes(document);
            let r = report_of(url, crate::page::page_scan(keyword, document), sentiments);
            &&& keyword.len() > 0 ==> r.frequency == capped(
                crate::search::total_occurrences(nodes, keyword),
            )
            &&& keyword.len() == 0 ==> r.frequency == capped(nodes.len())
            &&& r.results.len() == crate::search::count_containing(nodes, keyword)
            &&& capped(r.results.len()) <= r.frequency
            &&& (r.frequency == 0 <==> r == empty_report())
            &&& r.frequency != 0 ==> r.url == url
        }),
{
    let nodes = crate::page::body_text_nodes(document);
    crate::search::lemma_matches_hold_keyword(nodes, keyword);
    crate::search::lemma_match_total(nodes, keyword);
    crate::search::lemma_match_total_covers_matches(nodes, keyword);
    let r = report_of(url, crate::page::page_scan(keyword, document), sentiments);
    if crate::search::keyword_matches(nodes, keyword).len() == 0 {
        assert(r == empty_report());
    }
}

/// Each result of a page's report is the excerpt of a text node of the page's body that holds
/// the keyword, beside that node's sentiment: the excerpt is a piece of the node of at most
/// `EXCERPT_LIMIT` characters, the whole node when it is that short, and, in a longer node,
/// the part that starts at the keyword's first occurrence.
pub proof fn lemma_report_results_are_excerpts(
    url: Seq<char>,
    keyword: Seq<char>,
    document: Seq<char>,
    sentiments: Seq<Seq<char>>,
)
    ensures
        ({
            let scan = crate::page::page_scan(keyword, document);
            let r = report_of(url, scan, sentiments);
            &&& r.results.len() == scan.matches.len()
            &&& forall|i: int|
                0 <= i < r.results.len() ==> {
                    let node = scan.matches[i].0;
                    let shown = (#[trigger] r.results[i]).0;
                    &&& contains(node, keyword)
                    &&& crate::page::body_text_nodes(document).contains(node)
                    &&& r.results[i].1 == sentiments[i]
                    &&& shown.len() <= EXCERPT_LIMIT
                    &&& node.len() <= EXCERPT_LIMIT ==> shown == node
                    &&& node.len() > EXCERPT_LIMIT ==> exists|p: int|
                        #[trigger] is_first_occurrence(node, keyword, p) && shown == node.subrange(
                            p,
                            p + if node.len() - p > EXCERPT_LIMIT {
                                EXCERPT_LIMIT as int
                            } else {
                                node.len() - p
                            },
                        )
                }
        }),
{
    let nodes = crate::page::body_text_nodes(document);
    let scan = crate::page::page_scan(keyword, document);
    let r = report_of(url, scan, sentiments);
    crate::search::lemma_matches_hold_keyword(nodes, keyword);
    crate::search::lemma_matches_are_nodes(nodes, keyword);
    assert forall|i: int| 0 <= i < r.results.len() implies {
        let node = scan.matches[i].0;
        let shown = (#[trigger] r.results[i]).0;
        &&& contains(node, keyword)
        &&& nodes.contains(node)
        &&& r.results[i].1 == sentiments[i]
        &&& shown.len() <= EXCERPT_LIMIT
        &&& node.len() <= EXCERPT_LIMIT ==> shown == node
        &&& node.len() > EXCERPT_LIMIT ==> exists|p: int|
            #[trigger] is_first_occurrence(node, keyword, p) && shown == node.subrange(
                p,
                p + if node.len() - p > EXCERPT_LIMIT {
                    EXCERPT_LIMIT as int
                } else {
                    node.len() - p
                },
            )
    } by {
        let node = scan.matches[i].0;
        assert(contains(node, keyword));
        crate::search::lemma_excerpt_shape(node, keyword);
    }
}

/// Every kept report found the keyword, no report that found it is dropped, and nothing is
/// added.
pub proof fn lemma_found_reports(s: Seq<ReportView>)
    ensures
        found_reports(s).len() <= s.len(),
        forall|i: int| 0 <= i < found_reports(s).len() ==> #[trigger] found_reports(s)[i].frequency
            != 0 && s.contains(found_reports(s)[i]),
        forall|j: int| 0 <= j < s.len() && #[trigger] s[j].frequency != 0 ==> found_reports(
            s,
        ).contains(s[j]),
    decreases s.len(),
{
    if s.len() > 0 {
        let t = s.drop_last();
        lemma_found_reports(t);
        let f = found_reports(s);
        let g = found_reports(t);
        assert forall|i: int| 0 <= i < f.len() implies #[trigger] f[i].frequency != 0
            && s.contains(f[i]) by {
            if i < g.len() {
                assert(f[i] == g[i]);
                assert(0 <= i < found_reports(t).len());
                assert(found_reports(t)[i].frequency != 0);
                assert(t.contains(g[i]));
                let k = choose|k: int| 0 <= k < t.len() && t[k] == g[i];
                assert(s[k] == t[k]);
            } else {
                assert(s[s.len() - 1] == s.last());
            }
        }
        assert forall|j: int| 0 <= j < s.len() && #[trigger] s[j].frequency != 0 implies f.contains(
            s[j],
        ) by {
            if j < t.len() {
                assert(t[j] == s[j]);
                assert(t[j].frequency != 0);
                assert(g.contains(t[j]));
                let k = choose|k: int| 0 <= k < g.len() && g[k] == t[j];
                assert(f[k] == g[k]);
            } else {
                assert(f[f.len() - 1] == s.last());
            }
        }
    }
}

} // verus!
