# web_crawler

A keyword crawler for web pages. The library under `src/` is verified with Verus:

- `text`: character-level search (first occurrence of a pattern).
- `search`: which text nodes hold the keyword, how many times it appears in each
  (non-overlapping occurrences), and the excerpt (at most 70 characters, starting at the
  keyword in long nodes) shown of each.
- `html`: the queries on HTML documents that the `scraper` crate answers.
- `page`: the scan of one page: matching body text, title, description, last-modified time.
- `report`: `ReportEntry`, the report of one page, and the filter that keeps pages with hits.
- `crawl`: the reports of all searched pages on which the keyword appears.
- `links`: the search request URL, the result links of a search page, the split of a list of
  addresses, and the pattern looked for (what follows a `/` in the keyword).
- `render`: the text shown to the user and the part of it the output box displays.

`app/` is the terminal program: it fetches pages, computes the sentiment analysis of
matching text, runs the searches concurrently and drives the user interface.
