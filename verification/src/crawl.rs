//! A whole crawl: the reports of the searched pages on which the keyword appears.

use vstd::prelude::*;
use crate::links::{search_pattern, search_results, split_spaces};
use crate::page::{body_text_nodes, page_scan, PageScan, ScanView};
use crate::report::{
    capped, found_reports, keep_found_reports, lemma_found_reports,
    lemma_report_counts_appearances, report_of, report_views, ReportEntry, ReportView,
};
use crate::search::total_appearances;
use crate::text::string_views;

verus! {

/// A page that was fetched and searched: its address, its scan, and the sentiment analysis of
/// the text node of each match, in the order of the matches.
pub struct SearchedPage {
    pub url: String,
    pub scan: PageScan,
    pub sentiments: Vec<String>,
}

impl View for SearchedPage {
    type V = (Seq<char>, ScanView, Seq<Seq<char>>);

    open spec fn view(&self) -> (Seq<char>, ScanView, Seq<Seq<char>>) {
        (self.url@, self.scan@, string_views(self.sentiments@))
    }
}

/// The views of a list of searched pages.
pub open spec fn searched_views(v: Seq<SearchedPage>) -> Seq<(Seq<char>, ScanView, Seq<Seq<char>>)> {
    v.map_values(|p: SearchedPage| p@)
}

/// The report of each searched page.
pub open spec fn page_reports(pages: Seq<(Seq<char>, ScanView, Seq<Seq<char>>)>) -> Seq<ReportView> {
    pages.map_values(|p: (Seq<char>, ScanView, Seq<Seq<char>>)| report_of(p.0, p.1, p.2))
}

/// The outcome of a crawl over the searched pages: the reports, in the pages' order, of those
/// on which the keyword appears.
pub open spec fn crawl_reports(pages: Seq<(Seq<char>, ScanView, Seq<Seq<char>>)>) -> Seq<ReportView> {
    found_reports(page_reports(pages))
}

/// The reports, in order, of the searched pages on which the keyword appears.
pub fn collect_reports(pages: Vec<SearchedPage>) -> (r: Vec<ReportEntry>)
    requires
        forall|i: int|
            0 <= i < pages@.len() ==> (#[trigger] pages@[i]).sentiments@.len()
                == pages@[i].scan.matches@.len(),
    ensures
        report_views(r@) == crawl_reports(searched_views(pages@)),
{
    let ghost all = searched_views(pages@);
    let mut rest = pages;
    let mut reports: Vec<ReportEntry> = Vec::new();
    let ghost mut done: int = 0;
    while rest.len() > 0
        invariant
            0 <= done <= all.len(),
            searched_views(rest@) == all.skip(done),
            report_views(reports@) == page_reports(all.take(done)),
            forall|i: int|
                0 <= i < rest@.len() ==> (#[trigger] rest@[i]).sentiments@.len()
                    == rest@[i].scan.matches@.len(),
        decreases rest@.len(),
    {
        let ghost before = rest@;
        assert(searched_views(before).len() == before.len());
        assert(done < all.len());
        let page = rest.remove(0);
        assert(all[done] == page@) by {
            assert(all.skip(done)[0] == searched_views(before)[0]);
        }
        assert(before[0] == page);
        let ghost reports_before = reports@;
        let ghost pv = page@;
        let report = ReportEntry::from_scan(page.url.as_str(), page.scan, page.sentiments);
        assert(report@ == report_of(pv.0, pv.1, pv.2));
        reports.push(report);
        assert(all.take(done + 1).drop_last() =~= all.take(done));
        assert(report_views(reports@) =~= report_views(reports_before).push(report_of(pv.0, pv.1, pv.2)));
        assert(page_reports(all.take(done + 1)) =~= page_reports(all.take(done)).push(
            report_of(all[done].0, all[done].1, all[done].2),
        ));
        assert(report_views(reports@) =~= page_reports(all.take(done + 1)));
        assert forall|k: int| 0 <= k < rest@.len() implies #[trigger] searched_views(rest@)[k]
            == all.skip(done + 1)[k] by {
            assert(rest@[k] == before[k + 1]);
            assert(searched_views(before)[k + 1] == all.skip(done)[k + 1]);
        }
        assert(searched_views(rest@) =~= all.skip(done + 1));
        assert forall|i: int| 0 <= i < rest@.len() implies (#[trigger] rest@[i]).sentiments@.len()
            == rest@[i].scan.matches@.len() by {
            assert(rest@[i] == before[i + 1]);
        }
        proof {
            done = done + 1;
        }
    }
    assert(all.take(done) =~= all);
    keep_found_reports(reports)
}

/// The addresses a crawl for `keyword` searches: those listed in `websites`, or, when it is
/// empty, those that the search page `search_page` links to.
pub open spec fn crawl_sites(websites: Seq<char>, search_page: Seq<char>) -> Seq<Seq<char>> {
    if websites.len() == 0 {
        search_results(search_page)
    } else {
        split_spaces(websites)
    }
}

/// Each searched page is one of the crawl's sites, was scanned for the text that follows the
/// keyword's first slash (the whole keyword if it has none) in the document fetched for it,
/// and has one sentiment per match.
pub open spec fn searched_faithfully(
    keyword: Seq<char>,
    sites: Seq<Seq<char>>,
    pages: Seq<(Seq<char>, ScanView, Seq<Seq<char>>)>,
    documents: Seq<Seq<char>>,
) -> bool {
    &&& pages.len() == documents.len()
    &&& forall|i: int|
        0 <= i < pages.len() ==> {
            &&& sites.contains((#[trigger] pages[i]).0)
            &&& pages[i].1 == page_scan(search_pattern(keyword), documents[i])
            &&& pages[i].2.len() == pages[i].1.matches.len()
        }
}

/// The outcome of a crawl: every report comes from a searched site on which the searched text
/// appears and counts its appearances there; every searched site on which it appears has its
/// report kept; and there are no more reports than searched sites.
pub proof fn lemma_crawl(
    keyword: Seq<char>,
    websites: Seq<char>,
    search_page: Seq<char>,
    pages: Seq<(Seq<char>, ScanView, Seq<Seq<char>>)>,
    documents: Seq<Seq<char>>,
)
    requires
        searched_faithfully(keyword, crawl_sites(websites, search_page), pages, documents),
    ensures
        crawl_reports(pages).len() <= pages.len(),
        forall|k: int|
            0 <= k < crawl_reports(pages).len() ==> exists|i: int|
                0 <= i < pages.len() && #[trigger] crawl_reports(pages)[k] == report_of(
                    pages[i].0,
                    pages[i].1,
                    pages[i].2,
                ) && crawl_reports(pages)[k].frequency > 0 && crawl_reports(pages)[k].url
                    == pages[i].0 && crawl_sites(websites, search_page).contains(pages[i].0)
                    && crawl_reports(pages)[k].frequency == capped(
                    total_appearances(
                        body_text_nodes(documents[i]),
                        search_pattern(keyword),
                    ),
                ),
        forall|i: int|
            0 <= i < pages.len() && total_appearances(
                body_text_nodes(documents[i]),
                search_pattern(keyword),
            ) > 0 ==> crawl_reports(pages).contains(
                #[trigger] report_of(pages[i].0, pages[i].1, pages[i].2),
            ),
{
    let reports = page_reports(pages);
    let pattern = search_pattern(keyword);
    lemma_found_reports(reports);
    assert forall|i: int| #![trigger reports[i]] 0 <= i < pages.len() implies {
        &&& reports[i] == report_of(pages[i].0, pages[i].1, pages[i].2)
        &&& reports[i].frequency == capped(
            total_appearances(body_text_nodes(documents[i]), pattern),
        )
        &&& (reports[i].frequency != 0 ==> reports[i].url == pages[i].0)
    } by {
        lemma_report_counts_appearances(pages[i].0, pattern, documents[i], pages[i].2);
        crate::search::lemma_match_total(body_text_nodes(documents[i]), pattern);
        assert(reports[i] == report_of(pages[i].0, pages[i].1, pages[i].2));
    }
    assert forall|k: int| 0 <= k < crawl_reports(pages).len() implies exists|i: int|
        0 <= i < pages.len() && #[trigger] crawl_reports(pages)[k] == report_of(
            pages[i].0,
            pages[i].1,
            pages[i].2,
        ) && crawl_reports(pages)[k].frequency > 0 && crawl_reports(pages)[k].url == pages[i].0
            && crawl_sites(websites, search_page).contains(pages[i].0)
            && crawl_reports(pages)[k].frequency == capped(
            total_appearances(body_text_nodes(documents[i]), pattern),
        ) by {
        let f = crawl_reports(pages);
        assert(f == found_reports(reports));
        assert(found_reports(reports)[k].frequency != 0);
        assert(reports.contains(f[k]));
        let i = choose|i: int| 0 <= i < reports.len() && reports[i] == f[k];
        assert(reports[i] == report_of(pages[i].0, pages[i].1, pages[i].2));
        let _ = pages[i];
    }
    assert forall|i: int|
        0 <= i < pages.len() && total_appearances(body_text_nodes(documents[i]), pattern)
            > 0 implies crawl_reports(pages).contains(
        #[trigger] report_of(pages[i].0, pages[i].1, pages[i].2),
    ) by {
        assert(reports[i] == report_of(pages[i].0, pages[i].1, pages[i].2));
        assert(reports[i].frequency != 0);
    }
}

} // verus!
