use web_crawler::{
    collect_reports, find_keyword_matches, SearchedPage, format_the_result, google_result_links, google_search_url,
    keep_found_reports, keyword_pattern, link_targets, output_box_text, scan_page, site_source,
    split_websites, ReportEntry, SiteSource,
};

const PAGE: &str = "<html><head><title>My Page</title>\
<meta name=\"description\" content=\"A test page\">\
<meta name=\"last-modified\" content=\"2024-01-01\"></head>\
<body><p>Ken wins</p><div>Ryu loses</div><p>Ken again</p></body></html>";

const META_RULE: &str = "-----------------------------------------Below-is-meta-information-------------------------------------------\n";
const RESULTS_RULE: &str = "------------------------------------------Below-are-search-results-------------------------------------------\n";

fn strings(v: &[&str]) -> Vec<String> {
    v.iter().map(|s| s.to_string()).collect()
}

fn report(url: &str, keyword: &str, document: &str) -> ReportEntry {
    let scan = scan_page(keyword, document);
    let sentiments: Vec<String> = (1..=scan.matches.len()).map(|i| format!("s{}", i)).collect();
    ReportEntry::from_scan(url, scan, sentiments)
}

#[test]
fn matches_keep_short_nodes_whole() {
    let nodes = strings(&["hello world", "nothing here", "world"]);
    let m = find_keyword_matches(&nodes, "world");
    assert_eq!(m.len(), 2);
    assert_eq!(m[0].text(), "hello world");
    assert_eq!(m[0].excerpt(), "hello world");
    assert_eq!(m[1].text(), "world");
    assert_eq!(m[1].excerpt(), "world");
}

#[test]
fn matches_are_case_sensitive() {
    let nodes = strings(&["ken", "KEN", "Ken"]);
    let m = find_keyword_matches(&nodes, "Ken");
    assert_eq!(m.len(), 1);
    assert_eq!(m[0].text(), "Ken");
}

#[test]
fn long_node_is_cut_at_keyword() {
    let node = format!("{}Ken{}", "a".repeat(50), "b".repeat(47));
    let m = find_keyword_matches(&vec![node.clone()], "Ken");
    assert_eq!(m.len(), 1);
    assert_eq!(m[0].text(), node);
    assert_eq!(m[0].excerpt(), format!("Ken{}", "b".repeat(47)));
}

#[test]
fn long_tail_is_cut_to_seventy_characters() {
    let node = format!("{}Ken{}", "x".repeat(10), "y".repeat(100));
    let m = find_keyword_matches(&vec![node], "Ken");
    assert_eq!(m[0].excerpt(), format!("Ken{}", "y".repeat(67)));
    assert_eq!(m[0].excerpt().chars().count(), 70);
}

#[test]
fn node_of_exactly_seventy_characters_is_whole() {
    let node = format!("{}Ken", "z".repeat(67));
    let m = find_keyword_matches(&vec![node.clone()], "Ken");
    assert_eq!(m[0].excerpt(), node);
}

#[test]
fn excerpt_counts_characters_not_bytes() {
    let node = format!("{}Ken", "é".repeat(80));
    let m = find_keyword_matches(&vec![node], "Ken");
    assert_eq!(m[0].excerpt(), "Ken");
}

#[test]
fn excerpt_starts_at_first_occurrence() {
    let node = format!("{}Ken{}Ken{}", "a".repeat(30), "b".repeat(30), "c".repeat(30));
    let m = find_keyword_matches(&vec![node], "Ken");
    assert_eq!(m[0].excerpt(), format!("Ken{}Ken{}", "b".repeat(30), "c".repeat(30)));
}

#[test]
fn scan_reads_body_and_meta() {
    let scan = scan_page("Ken", PAGE);
    assert_eq!(scan.matches.len(), 2);
    assert_eq!(scan.matches[0].text(), "Ken wins");
    assert_eq!(scan.matches[1].text(), "Ken again");
    assert_eq!(scan.title, "My Page");
    assert_eq!(scan.snippet, "A test page");
    assert_eq!(scan.update_time, "2024-01-01");
}

#[test]
fn scan_without_match_reads_no_meta() {
    let scan = scan_page("Zangief", PAGE);
    assert_eq!(scan.matches.len(), 0);
    assert_eq!(scan.title, "");
    assert_eq!(scan.snippet, "");
    assert_eq!(scan.update_time, "");
}

#[test]
fn scan_of_page_without_meta() {
    let scan = scan_page("Ken", "<html><body>Ken</body></html>");
    assert_eq!(scan.matches.len(), 1);
    assert_eq!(scan.title, "");
    assert_eq!(scan.snippet, "");
    assert_eq!(scan.update_time, "");
}

#[test]
fn title_joins_its_text() {
    let scan = scan_page("x", "<html><head><title>a &amp; b</title></head><body>x</body></html>");
    assert_eq!(scan.title, "a & b");
}

#[test]
fn report_of_found_keyword() {
    let r = report("https://x.com", "Ken", PAGE);
    assert_eq!(r.title(), "My Page");
    assert_eq!(r.url(), "https://x.com");
    assert_eq!(r.snippet(), "A test page");
    assert_eq!(r.frequency(), 2);
    assert_eq!(r.update_time(), "2024-01-01");
    assert_eq!(
        r.results_list(),
        &vec![
            ("Ken wins".to_string(), "s1".to_string()),
            ("Ken again".to_string(), "s2".to_string())
        ]
    );
}

#[test]
fn frequency_counts_every_appearance() {
    let r = report("https://x.com", "Ken", "<html><body><p>Ken and Ken</p></body></html>");
    assert_eq!(r.frequency(), 2);
    assert_eq!(r.results_list().len(), 1);
    let r = report("https://x.com", "Ken", "<html><body><p>Ken and Ken</p><p>Ken</p><p>Ryu</p></body></html>");
    assert_eq!(r.frequency(), 3);
    assert_eq!(r.results_list().len(), 2);
}

#[test]
fn appearances_do_not_overlap() {
    let m = find_keyword_matches(&strings(&["aaaa", "aaa", "baab"]), "aa");
    assert_eq!(m.len(), 3);
    assert_eq!(m[0].occurrences(), 2);
    assert_eq!(m[1].occurrences(), 1);
    assert_eq!(m[2].occurrences(), 1);
}

#[test]
fn empty_keyword_counts_each_node_once() {
    let m = find_keyword_matches(&strings(&["ab", "", "cde"]), "");
    assert_eq!(m.len(), 3);
    assert!(m.iter().all(|x| x.occurrences() == 1));
    assert_eq!(m[2].excerpt(), "cde");
}

#[test]
fn report_clone_is_equal() {
    let r = report("https://x.com", "Ken", PAGE);
    let c = r.clone();
    assert_eq!(c.title(), r.title());
    assert_eq!(c.url(), r.url());
    assert_eq!(c.snippet(), r.snippet());
    assert_eq!(c.frequency(), r.frequency());
    assert_eq!(c.update_time(), r.update_time());
    assert_eq!(c.results_list(), r.results_list());
}

#[test]
fn crawl_keeps_pages_with_the_keyword() {
    let page = |url: &str, keyword: &str, doc: &str| {
        let scan = scan_page(keyword, doc);
        let sentiments = vec!["neutral".to_string(); scan.matches.len()];
        SearchedPage { url: url.to_string(), scan, sentiments }
    };
    let pages = vec![
        page("https://a.com", "Ken", PAGE),
        page("https://b.com", "Ken", "<html><body>Ryu</body></html>"),
        page("https://c.com", "Ken", "<html><body>Ken, Ken, Ken</body></html>"),
    ];
    let reports = collect_reports(pages);
    assert_eq!(reports.len(), 2);
    assert_eq!(reports[0].url(), "https://a.com");
    assert_eq!(reports[0].frequency(), 2);
    assert_eq!(reports[1].url(), "https://c.com");
    assert_eq!(reports[1].frequency(), 3);
    assert_eq!(
        reports[1].results_list(),
        &vec![("Ken, Ken, Ken".to_string(), "neutral".to_string())]
    );
}

#[test]
fn report_of_missing_keyword_is_empty() {
    let r = report("https://x.com", "Zangief", PAGE);
    assert_eq!(r.title(), "");
    assert_eq!(r.url(), "");
    assert_eq!(r.snippet(), "");
    assert_eq!(r.frequency(), 0);
    assert_eq!(r.update_time(), "");
    assert!(r.results_list().is_empty());
}

#[test]
fn found_reports_are_kept_in_order() {
    let a = report("https://a.com", "Ken", PAGE);
    let b = report("https://b.com", "Zangief", PAGE);
    let c = report("https://c.com", "Ryu", PAGE);
    let kept = keep_found_reports(vec![a, b, c]);
    assert_eq!(kept.len(), 2);
    assert_eq!(kept[0].url(), "https://a.com");
    assert_eq!(kept[1].url(), "https://c.com");
    assert_eq!(kept[1].frequency(), 1);
}

#[test]
fn pattern_is_what_follows_the_slash() {
    assert_eq!(keyword_pattern("Street Fighter/Ken"), "Ken");
    assert_eq!(keyword_pattern("Ken"), "Ken");
    assert_eq!(keyword_pattern("a/b/c"), "b/c");
    assert_eq!(keyword_pattern("/"), "");
    assert_eq!(keyword_pattern(""), "");
}

#[test]
fn search_url_replaces_spaces_and_slashes() {
    assert_eq!(
        google_search_url("Street Fighter/Ken"),
        "https://www.google.com/search?q=Street+Fighter+Ken&num=100"
    );
    assert_eq!(google_search_url(""), "https://www.google.com/search?q=&num=100");
}

#[test]
fn websites_split_at_each_space() {
    assert_eq!(split_websites("a.com b.com"), strings(&["a.com", "b.com"]));
    assert_eq!(split_websites("a  b"), strings(&["a", "", "b"]));
    assert_eq!(split_websites("x "), strings(&["x", ""]));
    assert_eq!(split_websites(""), strings(&[""]));
}

#[test]
fn empty_websites_mean_a_search() {
    match site_source("Street Fighter/Ken", "") {
        SiteSource::Search(url) => assert_eq!(
            url,
            "https://www.google.com/search?q=Street+Fighter+Ken&num=100"
        ),
        SiteSource::Listed(_) => panic!("expected a search"),
    }
    match site_source("Ken", "https://a.com https://b.com") {
        SiteSource::Listed(sites) => assert_eq!(sites, strings(&["https://a.com", "https://b.com"])),
        SiteSource::Search(_) => panic!("expected the listed sites"),
    }
}

#[test]
fn link_targets_follow_q_up_to_ampersand() {
    let hrefs = vec![
        Some("/url?q=x&y".to_string()),
        None,
        Some("no marker".to_string()),
        Some("?q=noamp".to_string()),
        Some("/url?q=https://e.com/a?b&c&d".to_string()),
    ];
    assert_eq!(link_targets(&hrefs), strings(&["x", "https://e.com/a?b"]));
}

#[test]
fn result_links_of_search_page() {
    let doc = "<html><body>\
<div class=\"egMi0 kCrYT\"><a href=\"/url?q=https://a.com/&amp;sa=U\">A</a></div>\
<div class=\"egMi0 kCrYT\"><a href=\"/search?x=1\">B</a></div>\
<div class=\"egMi0 kCrYT\"><a href=\"/url?q=https://b.org/page&amp;sa=U\">C</a></div>\
<div class=\"other\"><a href=\"/url?q=https://c.net/&amp;sa=U\">D</a></div>\
<div class=\"egMi0 kCrYT\"><a>E</a></div>\
</body></html>";
    assert_eq!(google_result_links(doc), strings(&["https://a.com/", "https://b.org/page"]));
}

#[test]
fn result_text_of_one_report() {
    let r = report("https://x.com", "Ken", PAGE);
    let expected = format!(
        "❖  Webpage #1\n{}➤  title: My Page\n➤  url: https://x.com\n➤  snippet: A test page\n\
➤  frequency of the keyword: 2\n➤  latest updated time: 2024-01-01\n{}\
➤  1. Ken wins\n➤  sentiment analysis: s1\n➤  2. Ken again\n➤  sentiment analysis: s2\n\n\n",
        META_RULE, RESULTS_RULE
    );
    assert_eq!(format_the_result(vec![r]), expected);
}

#[test]
fn result_text_numbers_pages_and_matches() {
    let body: String = (0..12).map(|i| format!("<p>Ken {}</p>", i)).collect();
    let doc = format!("<html><body>{}</body></html>", body);
    let a = report("https://a.com", "Ken", &doc);
    let b = report("https://b.com", "Ken", PAGE);
    let text = format_the_result(vec![a, b]);
    assert!(text.starts_with("❖  Webpage #1\n"));
    assert!(text.contains("➤  frequency of the keyword: 12\n"));
    assert!(text.contains("➤  12. Ken 11\n➤  sentiment analysis: s12\n\n\n❖  Webpage #2\n"));
    assert!(text.ends_with("➤  2. Ken again\n➤  sentiment analysis: s2\n\n\n"));
}

#[test]
fn no_reports_give_empty_text() {
    assert_eq!(format_the_result(Vec::new()), "");
}

#[test]
fn output_box_shows_prefix() {
    let short = "a".repeat(999);
    assert_eq!(output_box_text(&short), short);
    let medium = "b".repeat(2500);
    assert_eq!(output_box_text(&medium), medium);
    let long = "é".repeat(3500);
    assert_eq!(output_box_text(&long), "é".repeat(3000));
}
