//! The text shown to the user: the formatted search results and the part of it that the
//! output box displays.

use vstd::prelude::*;
use crate::report::{ReportEntry, ReportView, report_views};

verus! {

/// The character of a decimal digit.
pub open spec fn digit_char(d: nat) -> char {
    if d == 0 {
        '0'
    } else if d == 1 {
        '1'
    } else if d == 2 {
        '2'
    } else if d == 3 {
        '3'
    } else if d == 4 {
        '4'
    } else if d == 5 {
        '5'
    } else if d == 6 {
        '6'
    } else if d == 7 {
        '7'
    } else if d == 8 {
        '8'
    } else {
        '9'
    }
}

/// The decimal numeral of `n`, without leading zeros.
pub open spec fn decimal(n: nat) -> Seq<char>
    decreases n,
{
    if n < 10 {
        seq![digit_char(n)]
    } else {
        decimal(n / 10).push(digit_char(n % 10))
    }
}

/// The value of a digit character.
pub open spec fn digit_value(c: char) -> nat {
    (c as int - '0' as int) as nat
}

/// The value of a decimal numeral.
pub open spec fn numeral_value(s: Seq<char>) -> nat
    decreases s.len(),
{
    if s.len() == 0 {
        0
    } else {
        numeral_value(s.drop_last()) * 10 + digit_value(s.last())
    }
}

/// The numeral of `n` reads back as `n`, consists of digits only, and starts with a zero only
/// when it is the numeral of zero.
pub proof fn lemma_decimal_value(n: nat)
    ensures
        numeral_value(decimal(n)) == n,
        decimal(n).len() >= 1,
        forall|i: int| 0 <= i < decimal(n).len() ==> '0' <= #[trigger] decimal(n)[i] <= '9',
        decimal(n)[0] == '0' ==> n == 0,
    decreases n,
{
    if n >= 10 {
        lemma_decimal_value(n / 10);
        let d = decimal(n);
        let h = decimal(n / 10);
        assert(d.drop_last() =~= h);
        assert(digit_value(digit_char(n % 10)) == n % 10);
        assert(d.last() == digit_char(n % 10));
        assert(numeral_value(d) == numeral_value(h) * 10 + digit_value(d.last()));
        assert((n / 10) * 10 + n % 10 == n);
        assert(d[0] == h[0]);
        assert forall|i: int| 0 <= i < d.len() implies '0' <= #[trigger] d[i] <= '9' by {
            if i < h.len() {
                assert(d[i] == h[i]);
            }
        }
    } else {
        assert(decimal(n).drop_last() =~= seq![]);
        assert(digit_value(digit_char(n)) == n);
        assert(numeral_value(decimal(n)) == numeral_value(seq![]) * 10 + digit_value(digit_char(n)));
    }
}

/// The numeral of a single digit.
fn digit_str(d: usize) -> (r: &'static str)
    requires
        d < 10,
    ensures
        r@ == seq![digit_char(d as nat)],
{
    if d == 0 {
        proof { reveal_strlit("0"); }
        "0"
    } else if d == 1 {
        proof { reveal_strlit("1"); }
        "1"
    } else if d == 2 {
        proof { reveal_strlit("2"); }
        "2"
    } else if d == 3 {
        proof { reveal_strlit("3"); }
        "3"
    } else if d == 4 {
        proof { reveal_strlit("4"); }
        "4"
    } else if d == 5 {
        proof { reveal_strlit("5"); }
        "5"
    } else if d == 6 {
        proof { reveal_strlit("6"); }
        "6"
    } else if d == 7 {
        proof { reveal_strlit("7"); }
        "7"
    } else if d == 8 {
        proof { reveal_strlit("8"); }
        "8"
    } else {
        proof { reveal_strlit("9"); }
        "9"
    }
}

/// Appends the decimal numeral of `n` to `out`.
fn push_decimal(out: &mut String, n: usize)
    ensures
        final(out)@ == old(out)@ + decimal(n as nat),
    decreases n,
{
    if n >= 10 {
        push_decimal(out, n / 10);
    }
    out.append(digit_str(n % 10));
    assert(out@ =~= old(out)@ + decimal(n as nat));
}

/// The two lines shown of the `index`-th match of a page: its excerpt and its sentiment.
pub open spec fn result_lines(index: nat, result: (Seq<char>, Seq<char>)) -> Seq<char> {
    "➤  "@ + decimal(index) + ". "@ + result.0 + "\n"@ + "➤  sentiment analysis: "@ + result.1
        + "\n"@
}

/// The lines of all matches of a page, numbered from one.
pub open spec fn results_text(results: Seq<(Seq<char>, Seq<char>)>) -> Seq<char>
    decreases results.len(),
{
    if results.len() == 0 {
        seq![]
    } else {
        results_text(results.drop_last()) + result_lines(results.len(), results.last())
    }
}

/// The head of the block shown for the `index`-th page: its number and meta information.
pub open spec fn entry_head(index: nat, entry: ReportView) -> Seq<char> {
    "❖  Webpage #"@ + decimal(index) + "\n"@
        + "-----------------------------------------Below-is-meta-information-------------------------------------------\n"@
        + "➤  title: "@ + entry.title + "\n"@
        + "➤  url: "@ + entry.url + "\n"@
        + "➤  snippet: "@ + entry.snippet + "\n"@
        + "➤  frequency of the keyword: "@ + decimal(entry.frequency) + "\n"@
        + "➤  latest updated time: "@ + entry.update_time + "\n"@
        + "------------------------------------------Below-are-search-results-------------------------------------------\n"@
}

/// The block shown for the `index`-th page: its number, its meta information and its matches.
pub open spec fn entry_text(index: nat, entry: ReportView) -> Seq<char> {
    entry_head(index, entry) + results_text(entry.results) + "\n\n"@
}

/// The frequency line of a page's block names the report's frequency: right after the label
/// `➤  frequency of the keyword: ` stand only digits, up to the end of the line, and they read
/// back as the frequency.
pub proof fn lemma_entry_frequency_line(index: nat, entry: ReportView)
    ensures
        exists|p: int, q: int|
            #![trigger entry_text(index, entry).subrange(p, q)]
            "➤  frequency of the keyword: "@.len() <= p < q < entry_text(index, entry).len()
                && entry_text(index, entry).subrange(
                p - "➤  frequency of the keyword: "@.len(),
                p,
            ) == "➤  frequency of the keyword: "@ && numeral_value(
                entry_text(index, entry).subrange(p, q),
            ) == entry.frequency && (forall|j: int|
                p <= j < q ==> '0' <= #[trigger] entry_text(index, entry)[j] <= '9')
                && entry_text(index, entry)[q] == '\n',
{
    reveal_strlit("\n");
    let label = "➤  frequency of the keyword: "@;
    let before = "❖  Webpage #"@ + decimal(index) + "\n"@
        + "-----------------------------------------Below-is-meta-information-------------------------------------------\n"@
        + "➤  title: "@ + entry.title + "\n"@
        + "➤  url: "@ + entry.url + "\n"@
        + "➤  snippet: "@ + entry.snippet + "\n"@;
    let d = decimal(entry.frequency);
    let after = "\n"@ + "➤  latest updated time: "@ + entry.update_time + "\n"@
        + "------------------------------------------Below-are-search-results-------------------------------------------\n"@
        + results_text(entry.results) + "\n\n"@;
    let t = entry_text(index, entry);
    assert(t =~= before + label + d + after);
    lemma_decimal_value(entry.frequency);
    let p: int = (before.len() + label.len()) as int;
    let q: int = p + d.len();
    assert(t.subrange(p, q) =~= d);
    assert(t.subrange(p - label.len(), p) =~= label);
    assert(t[q] == after[0]);
    assert forall|j: int| p <= j < q implies '0' <= #[trigger] t[j] <= '9' by {
        assert(t[j] == d[j - p]);
    }
}

/// A text holds each of its pieces.
proof fn lemma_holds_piece(before: Seq<char>, piece: Seq<char>, after: Seq<char>)
    ensures
        crate::text::contains(before + piece + after, piece),
{
    let t = before + piece + after;
    assert(t.subrange(before.len() as int, (before.len() + piece.len()) as int) =~= piece);
    assert(crate::text::occurs_at(t, piece, before.len() as int));
}

/// The lines of the matches hold, for each match in order, its number, its excerpt and its
/// sentiment.
pub proof fn lemma_results_text(results: Seq<(Seq<char>, Seq<char>)>)
    ensures
        forall|j: int|
            0 <= j < results.len() ==> crate::text::contains(
                results_text(results),
                "➤  "@ + decimal((j + 1) as nat) + ". "@ + (#[trigger] results[j]).0 + "\n"@
                    + "➤  sentiment analysis: "@ + results[j].1 + "\n"@,
            ),
    decreases results.len(),
{
    if results.len() > 0 {
        let rest = results.drop_last();
        lemma_results_text(rest);
        let t = results_text(results);
        assert forall|j: int| 0 <= j < results.len() implies crate::text::contains(
            t,
            "➤  "@ + decimal((j + 1) as nat) + ". "@ + (#[trigger] results[j]).0 + "\n"@
                + "➤  sentiment analysis: "@ + results[j].1 + "\n"@,
        ) by {
            let line = "➤  "@ + decimal((j + 1) as nat) + ". "@ + results[j].0 + "\n"@
                + "➤  sentiment analysis: "@ + results[j].1 + "\n"@;
            if j < rest.len() {
                assert(rest[j] == results[j]);
                assert(crate::text::contains(results_text(rest), line));
                let i = choose|i: int| crate::text::occurs_at(results_text(rest), line, i);
                assert(t.subrange(i, i + line.len()) =~= results_text(rest).subrange(
                    i,
                    i + line.len(),
                ));
                assert(crate::text::occurs_at(t, line, i));
            } else {
                assert(t =~= results_text(rest) + line + seq![]);
                lemma_holds_piece(results_text(rest), line, seq![]);
            }
        }
    }
}

/// A page's block begins with its number and holds a line for each piece of the report's
/// meta information, labelled and ending the line, and the lines of every match, numbered
/// from one.
#[verifier::rlimit(60)]
#[verifier::spinoff_prover]
pub proof fn lemma_entry_lines(index: nat, entry: ReportView)
    ensures
        entry_text(index, entry).take(("❖  Webpage #"@ + decimal(index) + "\n"@).len() as int)
            == "❖  Webpage #"@ + decimal(index) + "\n"@,
        crate::text::contains(entry_text(index, entry), "➤  title: "@ + entry.title + "\n"@),
        crate::text::contains(entry_text(index, entry), "➤  url: "@ + entry.url + "\n"@),
        crate::text::contains(entry_text(index, entry), "➤  snippet: "@ + entry.snippet + "\n"@),
        crate::text::contains(
            entry_text(index, entry),
            "➤  latest updated time: "@ + entry.update_time + "\n"@,
        ),
        forall|j: int|
            0 <= j < entry.results.len() ==> crate::text::contains(
                entry_text(index, entry),
                "➤  "@ + decimal((j + 1) as nat) + ". "@ + (#[trigger] entry.results[j]).0 + "\n"@
                    + "➤  sentiment analysis: "@ + entry.results[j].1 + "\n"@,
            ),
{
    let t = entry_text(index, entry);
    let number = "❖  Webpage #"@ + decimal(index) + "\n"@;
    let rule = "-----------------------------------------Below-is-meta-information-------------------------------------------\n"@;
    let title = "➤  title: "@ + entry.title + "\n"@;
    let url = "➤  url: "@ + entry.url + "\n"@;
    let snippet = "➤  snippet: "@ + entry.snippet + "\n"@;
    let frequency = "➤  frequency of the keyword: "@ + decimal(entry.frequency) + "\n"@;
    let updated = "➤  latest updated time: "@ + entry.update_time + "\n"@;
    let rule2 = "------------------------------------------Below-are-search-results-------------------------------------------\n"@;
    let results = results_text(entry.results);
    let end = "\n\n"@;
    assert(t =~= number + rule + title + url + snippet + frequency + updated + rule2 + results
        + end);
    assert(t.take(number.len() as int) =~= number);
    assert(t =~= number + rule + title + (url + snippet + frequency + updated + rule2 + results
        + end));
    lemma_holds_piece(number + rule, title, url + snippet + frequency + updated + rule2 + results
        + end);
    assert(t =~= (number + rule + title) + url + (snippet + frequency + updated + rule2 + results
        + end));
    lemma_holds_piece(number + rule + title, url, snippet + frequency + updated + rule2 + results
        + end);
    assert(t =~= (number + rule + title + url) + snippet + (frequency + updated + rule2 + results
        + end));
    lemma_holds_piece(number + rule + title + url, snippet, frequency + updated + rule2 + results
        + end);
    let head = number + rule + title + url + snippet + frequency;
    assert(t =~= head + updated + (rule2 + results + end));
    lemma_holds_piece(head, updated, rule2 + results + end);
    lemma_results_text(entry.results);
    let front = head + updated + rule2;
    assert(t =~= front + results + end);
    assert forall|j: int| 0 <= j < entry.results.len() implies crate::text::contains(
        t,
        "➤  "@ + decimal((j + 1) as nat) + ". "@ + (#[trigger] entry.results[j]).0 + "\n"@
            + "➤  sentiment analysis: "@ + entry.results[j].1 + "\n"@,
    ) by {
        let line = "➤  "@ + decimal((j + 1) as nat) + ". "@ + entry.results[j].0 + "\n"@
            + "➤  sentiment analysis: "@ + entry.results[j].1 + "\n"@;
        assert(crate::text::contains(results, line));
        let i = choose|i: int| crate::text::occurs_at(results, line, i);
        assert(t.subrange(front.len() + i, front.len() + i + line.len()) =~= results.subrange(
            i,
            i + line.len(),
        ));
        assert(crate::text::occurs_at(t, line, front.len() + i));
    }
}

/// The text of the first `k` pages begins the text of all pages.
proof fn lemma_report_text_prefix(entries: Seq<ReportView>, k: int)
    requires
        0 <= k <= entries.len(),
    ensures
        report_text(entries.take(k)).len() <= report_text(entries).len(),
        report_text(entries).take(report_text(entries.take(k)).len() as int) == report_text(
            entries.take(k),
        ),
    decreases entries.len(),
{
    if k == entries.len() {
        assert(entries.take(k) =~= entries);
        assert(report_text(entries).take(report_text(entries).len() as int) =~= report_text(
            entries,
        ));
    } else {
        let before = entries.drop_last();
        lemma_report_text_prefix(before, k);
        assert(before.take(k) =~= entries.take(k));
        let p = report_text(entries.take(k)).len() as int;
        assert(report_text(entries).take(p) =~= report_text(before).take(p));
    }
}

/// The text of all reports holds the blocks of the pages one after another, numbered from one:
/// the text of the first `k` pages begins it, and the block of the `k + 1`-th page directly
/// follows.
pub proof fn lemma_report_text_blocks(entries: Seq<ReportView>, k: int)
    requires
        0 <= k < entries.len(),
    ensures
        ({
            let start = report_text(entries.take(k)).len() as int;
            let block = entry_text((k + 1) as nat, entries[k]);
            &&& start + block.len() <= report_text(entries).len()
            &&& report_text(entries).take(start) == report_text(entries.take(k))
            &&& report_text(entries).subrange(start, start + block.len()) == block
        }),
{
    lemma_report_text_prefix(entries, k);
    lemma_report_text_prefix(entries, k + 1);
    assert(entries.take(k + 1).drop_last() =~= entries.take(k));
    assert(entries.take(k + 1).last() == entries[k]);
    let start = report_text(entries.take(k)).len() as int;
    let block = entry_text((k + 1) as nat, entries[k]);
    let t = report_text(entries);
    let upto = report_text(entries.take(k + 1));
    assert(upto == report_text(entries.take(k)) + block);
    assert(t.subrange(start, start + block.len()) =~= upto.subrange(start, start + block.len()));
}

/// The text of all reports: one block per page, numbered from one.
pub open spec fn report_text(entries: Seq<ReportView>) -> Seq<char>
    decreases entries.len(),
{
    if entries.len() == 0 {
        seq![]
    } else {
        report_text(entries.drop_last()) + entry_text(entries.len(), entries.last())
    }
}

/// Appends the head of the block of the `index`-th page to `out`.
#[verifier::spinoff_prover]
fn push_entry_head(out: &mut String, index: usize, entry: &ReportEntry)
    ensures
        final(out)@ == old(out)@ + entry_head(index as nat, entry@),
{
    out.append("❖  Webpage #");
    push_decimal(out, index);
    out.append("\n");
    out.append(
        "-----------------------------------------Below-is-meta-information-------------------------------------------\n",
    );
    out.append("➤  title: ");
    out.append(entry.title());
    out.append("\n");
    out.append("➤  url: ");
    out.append(entry.url());
    out.append("\n");
    out.append("➤  snippet: ");
    out.append(entry.snippet());
    out.append("\n");
    out.append("➤  frequency of the keyword: ");
    push_decimal(out, entry.frequency());
    out.append("\n");
    out.append("➤  latest updated time: ");
    out.append(entry.update_time());
    out.append("\n");
    out.append(
        "------------------------------------------Below-are-search-results-------------------------------------------\n",
    );
    assert(out@ =~= old(out)@ + entry_head(index as nat, entry@));
}

/// Appends the lines of the matches of `entry` to `out`.
fn push_results(out: &mut String, entry: &ReportEntry)
    ensures
        final(out)@ == old(out)@ + results_text(entry@.results),
{
    let ghost head = out@;
    let results = entry.results_list();
    let ghost rv = entry@.results;
    let n = results.len();
    for i in 0..n
        invariant
            n == rv.len(),
            rv == crate::report::pair_views(results@),
            out@ == head + results_text(rv.take(i as int)),
    {
        let ghost before = out@;
        out.append("➤  ");
        push_decimal(out, i + 1);
        out.append(". ");
        out.append(results[i].0.as_str());
        out.append("\n");
        out.append("➤  sentiment analysis: ");
        out.append(results[i].1.as_str());
        out.append("\n");
        assert(rv.take(i + 1).drop_last() =~= rv.take(i as int));
        assert(rv[i as int] == (results@[i as int].0@, results@[i as int].1@));
        assert(out@ =~= before + result_lines((i + 1) as nat, rv[i as int]));
    }
    assert(rv.take(n as int) =~= rv);
}

/// Appends the block of the `index`-th page to `out`.
fn push_entry(out: &mut String, index: usize, entry: &ReportEntry)
    ensures
        final(out)@ == old(out)@ + entry_text(index as nat, entry@),
{
    push_entry_head(out, index, entry);
    push_results(out, entry);
    out.append("\n\n");
    assert(out@ =~= old(out)@ + entry_text(index as nat, entry@));
}

/// The search results as the text shown to the user: for each report, numbered from one, its
/// meta information followed by its numbered matches and their sentiment analyses.
pub fn format_the_result(result_vec: Vec<ReportEntry>) -> (r: String)
    ensures
        r@ == report_text(report_views(result_vec@)),
{
    let mut out = String::new();
    let ghost all = report_views(result_vec@);
    let n = result_vec.len();
    for i in 0..n
        invariant
            n == result_vec@.len(),
            all == report_views(result_vec@),
            out@ == report_text(all.take(i as int)),
    {
        push_entry(&mut out, i + 1, &result_vec[i]);
        assert(all.take(i + 1).drop_last() =~= all.take(i as int));
        assert(all[i as int] == result_vec@[i as int]@);
    }
    assert(all.take(n as int) =~= all);
    out
}

/// At least this many characters make the output box show only a prefix of the text.
pub const OUTPUT_SHORT_LIMIT: usize = 1000;

/// The number of characters that the output box shows of a text that is not short.
pub const OUTPUT_SHOWN: usize = 3000;

/// What the output box shows of `text`: all of a text shorter than `OUTPUT_SHORT_LIMIT`
/// characters, else its first `OUTPUT_SHOWN` characters (all of it, when it has fewer).
pub open spec fn shown_text(text: Seq<char>) -> Seq<char> {
    if text.len() < OUTPUT_SHORT_LIMIT {
        text
    } else if text.len() > OUTPUT_SHOWN {
        text.take(OUTPUT_SHOWN as int)
    } else {
        text
    }
}

/// What the output box shows of `text`.
pub fn output_box_text(text: &str) -> (r: String)
    ensures
        r@ == shown_text(text@),
{
    let n = text.unicode_len();
    if n < OUTPUT_SHORT_LIMIT || n <= OUTPUT_SHOWN {
        String::from_str(text)
    } else {
        String::from_str(text.substring_char(0, OUTPUT_SHOWN))
    }
}

/// The output box shows a prefix of the text: all of a text of at most `OUTPUT_SHOWN`
/// characters, and exactly the first `OUTPUT_SHOWN` characters of a longer one.
pub proof fn lemma_shown_text(text: Seq<char>)
    ensures
        shown_text(text).len() == if text.len() > OUTPUT_SHOWN {
            OUTPUT_SHOWN as nat
        } else {
            text.len()
        },
        shown_text(text) == text.take(shown_text(text).len() as int),
        text.len() <= OUTPUT_SHOWN ==> shown_text(text) == text,
{
    assert(text.take(text.len() as int) =~= text);
}

} // verus!
