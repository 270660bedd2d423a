//! What a report says: which results it shows, the lines about each, and
//! the summary.
//!
//! The lines are data, not text: colours and layout are the renderer's.

use crate::types::{
    select_by_status, status_among, ReasonView, RepoResult, RepoResultView, Status,
};
use crate::seqs::{lemma_filter_next, lemma_filter_none};
use vstd::prelude::*;

verus! {

/// The test whether a result has the verdict `status`.
pub open spec fn has_status(status: Status) -> spec_fn(RepoResult) -> bool {
    |result: RepoResult| result.status == status
}

/// The test whether a result passes `filter`: with a verdict given, the
/// results with that verdict pass; without one, all do.
pub open spec fn passes(filter: Option<Status>) -> spec_fn(RepoResult) -> bool {
    |result: RepoResult|
        match filter {
            Some(status) => result.status == status,
            None => true,
        }
}

/// Selects the results to show, in their order.
pub fn filter_results<'a>(
    results: &'a [RepoResult],
    filter: Option<Status>,
) -> (shown: Vec<&'a RepoResult>)
    ensures
        shown@.map_values(|result: &RepoResult| *result) == results@.filter(passes(filter)),
{
    let shown = match filter {
        None => select_by_status(results, true, true, true),
        Some(Status::Safe) => select_by_status(results, true, false, false),
        Some(Status::Unsafe) => select_by_status(results, false, true, false),
        Some(Status::Unknown) => select_by_status(results, false, false, true),
    };
    proof {
        assert(passes(filter) =~= match filter {
            None => status_among(true, true, true),
            Some(Status::Safe) => status_among(true, false, false),
            Some(Status::Unsafe) => status_among(false, true, false),
            Some(Status::Unknown) => status_among(false, false, true),
        });
    }
    shown
}

/// How many results there are, and how many of each verdict.
#[derive(Debug, Clone, Copy, PartialEq, Eq, Structural)]
pub struct Summary {
    /// The number of results.
    pub total: usize,
    /// The number of results with the verdict `Safe`.
    pub safe_count: usize,
    /// The number of results with the verdict `Unsafe`.
    pub unsafe_count: usize,
    /// The number of results with the verdict `Unknown`.
    pub unknown_count: usize,
}

/// Counts the results of each verdict.
pub fn summarize(results: &[RepoResult]) -> (summary: Summary)
    ensures
        summary.total == results@.len(),
        summary.safe_count == results@.filter(has_status(Status::Safe)).len(),
        summary.unsafe_count == results@.filter(has_status(Status::Unsafe)).len(),
        summary.unknown_count == results@.filter(has_status(Status::Unknown)).len(),
        summary.safe_count + summary.unsafe_count + summary.unknown_count == summary.total,
{
    let mut safe_count: usize = 0;
    let mut unsafe_count: usize = 0;
    let mut unknown_count: usize = 0;
    let mut i: usize = 0;
    proof {
        lemma_filter_none(results@.take(0), has_status(Status::Safe));
        lemma_filter_none(results@.take(0), has_status(Status::Unsafe));
        lemma_filter_none(results@.take(0), has_status(Status::Unknown));
    }
    while i < results.len()
        invariant
            i <= results@.len(),
            safe_count == results@.take(i as int).filter(has_status(Status::Safe)).len(),
            unsafe_count == results@.take(i as int).filter(has_status(Status::Unsafe)).len(),
            unknown_count == results@.take(i as int).filter(has_status(Status::Unknown)).len(),
            safe_count + unsafe_count + unknown_count == i,
        decreases results@.len() - i,
    {
        proof {
            lemma_filter_next(results@, i as int, has_status(Status::Safe));
            lemma_filter_next(results@, i as int, has_status(Status::Unsafe));
            lemma_filter_next(results@, i as int, has_status(Status::Unknown));
        }
        match results[i].status {
            Status::Safe => {
                safe_count += 1;
            },
            Status::Unsafe => {
                unsafe_count += 1;
            },
            Status::Unknown => {
                unknown_count += 1;
            },
        }
        i += 1;
    }
    assert(results@.take(results@.len() as int) =~= results@);
    Summary { total: results.len(), safe_count, unsafe_count, unknown_count }
}

/// One line of the report on a repository.
#[derive(Debug, Clone, PartialEq, Eq)]
pub enum ReportLine {
    /// The path and the verdict.
    Header { path: String, status: Status },
    /// A finding, described.
    Finding(String),
    /// The number of dirty entries.
    DirtyFiles(usize),
    /// The number of stash entries.
    StashEntries(usize),
    /// The number of local-only commits.
    LocalOnlyCommits(usize),
    /// The message of a failed Git invocation.
    Error(String),
    /// An empty line, after the report on a repository.
    Blank,
    /// The notice that no result passes the filter.
    NoMatch,
    /// The rule above the summary.
    Rule,
    /// The summary.
    Totals(Summary),
}

/// The mathematical value of a `ReportLine`.
pub enum ReportLineView {
    Header { path: Seq<char>, status: Status },
    Finding(Seq<char>),
    DirtyFiles(nat),
    StashEntries(nat),
    LocalOnlyCommits(nat),
    Error(Seq<char>),
    Blank,
    NoMatch,
    Rule,
    Totals(Summary),
}

impl View for ReportLine {
    type V = ReportLineView;

    open spec fn view(&self) -> ReportLineView {
        match self {
            ReportLine::Header { path, status } => ReportLineView::Header {
                path: path@,
                status: *status,
            },
            ReportLine::Finding(text) => ReportLineView::Finding(text@),
            ReportLine::DirtyFiles(count) => ReportLineView::DirtyFiles(*count as nat),
            ReportLine::StashEntries(count) => ReportLineView::StashEntries(*count as nat),
            ReportLine::LocalOnlyCommits(count) => ReportLineView::LocalOnlyCommits(*count as nat),
            ReportLine::Error(message) => ReportLineView::Error(message@),
            ReportLine::Blank => ReportLineView::Blank,
            ReportLine::NoMatch => ReportLineView::NoMatch,
            ReportLine::Rule => ReportLineView::Rule,
            ReportLine::Totals(summary) => ReportLineView::Totals(*summary),
        }
    }
}

impl DeepView for ReportLine {
    type V = ReportLineView;

    open spec fn deep_view(&self) -> ReportLineView {
        self@
    }
}

/// The lines that tell the counts of a result: each count that is not
/// zero has its line.
pub open spec fn count_lines(result: RepoResultView) -> Seq<ReportLineView> {
    (if result.dirty_count > 0 {
        seq![ReportLineView::DirtyFiles(result.dirty_count)]
    } else {
        Seq::empty()
    }) + (if result.stash_count > 0 {
        seq![ReportLineView::StashEntries(result.stash_count)]
    } else {
        Seq::empty()
    }) + (if result.local_only_commit_count > 0 {
        seq![ReportLineView::LocalOnlyCommits(result.local_only_commit_count)]
    } else {
        Seq::empty()
    })
}

/// The report on a result: the header, a line for each finding in the
/// order of the findings, the counts that are not zero, and a line for
/// each error.
pub open spec fn report(result: RepoResultView) -> Seq<ReportLineView> {
    seq![ReportLineView::Header { path: result.path, status: result.status }]
        + result.reasons.map_values(
        |reason: ReasonView| ReportLineView::Finding(reason.description()),
    ) + count_lines(result) + result.errors.map_values(
        |message: Seq<char>| ReportLineView::Error(message),
    )
}

/// Writes the report on `result`.
pub fn repo_report(result: &RepoResult) -> (lines: Vec<ReportLine>)
    ensures
        lines.deep_view() == report(result@),
{
    let ghost findings = result@.reasons.map_values(
        |reason: ReasonView| ReportLineView::Finding(reason.description()),
    );
    let ghost errors = result@.errors.map_values(
        |message: Seq<char>| ReportLineView::Error(message),
    );
    let ghost header = seq![ReportLineView::Header { path: result@.path, status: result@.status }];
    let mut lines: Vec<ReportLine> = Vec::new();
    lines.push(ReportLine::Header { path: result.path.clone(), status: result.status });
    assert(lines.deep_view() =~= header + findings.take(0));
    let mut i: usize = 0;
    while i < result.reasons.len()
        invariant
            i <= result.reasons@.len(),
            findings == result@.reasons.map_values(
                |reason: ReasonView| ReportLineView::Finding(reason.description()),
            ),
            header == seq![ReportLineView::Header { path: result@.path, status: result@.status }],
            lines.deep_view() == header + findings.take(i as int),
        decreases result.reasons@.len() - i,
    {
        let ghost before = lines.deep_view();
        let text = result.reasons[i].to_string();
        lines.push(ReportLine::Finding(text));
        proof {
            assert(result@.reasons[i as int] == result.reasons@[i as int]@);
            assert(lines.deep_view() =~= before.push(findings[i as int]));
            assert(before.push(findings[i as int]) =~= header + findings.take(i + 1));
        }
        i += 1;
    }
    assert(findings.take(findings.len() as int) =~= findings);
    let ghost shown = lines.deep_view();
    if result.dirty_count > 0 {
        lines.push(ReportLine::DirtyFiles(result.dirty_count));
    }
    if result.stash_count > 0 {
        lines.push(ReportLine::StashEntries(result.stash_count));
    }
    if result.local_only_commit_count > 0 {
        lines.push(ReportLine::LocalOnlyCommits(result.local_only_commit_count));
    }
    assert(lines.deep_view() =~= shown + count_lines(result@));
    let ghost counted = lines.deep_view();
    assert(counted =~= counted + errors.take(0));
    let mut k: usize = 0;
    while k < result.errors.len()
        invariant
            k <= result.errors@.len(),
            errors == result@.errors.map_values(
                |message: Seq<char>| ReportLineView::Error(message),
            ),
            lines.deep_view() == counted + errors.take(k as int),
        decreases result.errors@.len() - k,
    {
        let ghost before = lines.deep_view();
        lines.push(ReportLine::Error(result.errors[k].clone()));
        proof {
            assert(result@.errors[k as int] == result.errors@[k as int]@);
            assert(lines.deep_view() =~= before.push(errors[k as int]));
            assert(before.push(errors[k as int]) =~= counted + errors.take(k + 1));
        }
        k += 1;
    }
    assert(errors.take(errors.len() as int) =~= errors);
    lines
}

/// The reports on `shown`, one after the other, an empty line after each.
pub open spec fn reports(shown: Seq<RepoResult>) -> Seq<ReportLineView>
    decreases shown.len(),
{
    if shown.len() == 0 {
        Seq::empty()
    } else {
        reports(shown.drop_last()) + report(shown.last()@) + seq![ReportLineView::Blank]
    }
}

/// The summary of `results`.
pub open spec fn summary_of(results: Seq<RepoResult>) -> Summary {
    Summary {
        total: results.len() as usize,
        safe_count: results.filter(has_status(Status::Safe)).len() as usize,
        unsafe_count: results.filter(has_status(Status::Unsafe)).len() as usize,
        unknown_count: results.filter(has_status(Status::Unknown)).len() as usize,
    }
}

/// The whole report in words: the reports on the results that pass
/// `filter`, then a rule and the summary of all results, those that did
/// not pass too. Where no result passes, the report is the notice of that
/// and nothing else.
pub open spec fn spec_text_report(
    results: Seq<RepoResult>,
    filter: Option<Status>,
) -> Seq<ReportLineView> {
    let shown = results.filter(passes(filter));
    if shown.len() == 0 {
        seq![ReportLineView::NoMatch]
    } else {
        reports(shown) + seq![ReportLineView::Rule, ReportLineView::Totals(summary_of(results))]
    }
}

/// Writes the whole report in words on `results`, restricted to the
/// verdict `filter` if one is given.
pub fn text_report(results: &[RepoResult], filter: Option<Status>) -> (lines: Vec<ReportLine>)
    ensures
        lines.deep_view() == spec_text_report(results@, filter),
{
    let shown = filter_results(results, filter);
    let ghost passing = results@.filter(passes(filter));
    let mut lines: Vec<ReportLine> = Vec::new();
    if shown.len() == 0 {
        lines.push(ReportLine::NoMatch);
        assert(lines.deep_view() =~= seq![ReportLineView::NoMatch]);
        return lines;
    }
    let mut i: usize = 0;
    assert(passing.take(0) =~= Seq::<RepoResult>::empty());
    assert(lines.deep_view() =~= reports(passing.take(0)));
    while i < shown.len()
        invariant
            i <= shown@.len(),
            shown@.map_values(|result: &RepoResult| *result) == passing,
            lines.deep_view() == reports(passing.take(i as int)),
        decreases shown@.len() - i,
    {
        let ghost before = lines.deep_view();
        let mut block = repo_report(shown[i]);
        let ghost added = block.deep_view();
        proof {
            assert(passing.take(i + 1).drop_last() =~= passing.take(i as int));
            assert(passing.take(i + 1).last() == *shown@[i as int]);
        }
        lines.append(&mut block);
        assert(lines.deep_view() =~= before + added);
        lines.push(ReportLine::Blank);
        assert(lines.deep_view() =~= before + added + seq![ReportLineView::Blank]);
        i += 1;
    }
    assert(passing.take(passing.len() as int) =~= passing);
    let ghost listed = lines.deep_view();
    let summary = summarize(results);
    lines.push(ReportLine::Rule);
    lines.push(ReportLine::Totals(summary));
    assert(lines.deep_view() =~= listed + seq![
        ReportLineView::Rule,
        ReportLineView::Totals(summary_of(results@)),
    ]);
    lines
}

/// The label of a candidate for deletion in the list that is shown before
/// anything is deleted.
pub open spec fn spec_candidate_label(status: Status) -> Seq<char> {
    match status {
        Status::Safe => "SAFE"@,
        Status::Unknown => "UNKNOWN"@,
        Status::Unsafe => "?"@,
    }
}

/// The label of a candidate for deletion with the verdict `status`.
pub fn candidate_label(status: Status) -> (label: String)
    ensures
        label@ == spec_candidate_label(status),
{
    match status {
        Status::Safe => "SAFE".to_string(),
        Status::Unknown => "UNKNOWN".to_string(),
        Status::Unsafe => "?".to_string(),
    }
}

} // verus!
