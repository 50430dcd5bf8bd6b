//! Seasons: the entries of a channel, ordered by date and split where the year
//! changes.

use vstd::prelude::*;
use vstd::string::*;
use crate::record::CatalogueEntry;
use crate::text::{zero_padded, zero_padded_string};
use crate::ordering::{is_ordered, sorted_by_date, lemma_sorted_by_date};

verus! {

/// The videos that a channel published in one year, ordered by date.
#[derive(Debug, Clone)]
pub struct Season<'a> {
    /// The rank of the season's year among the years of the channel, from 1.
    pub number: usize,
    /// The videos of the season; the position of a video, counted from 1, is
    /// the number of its episode.
    pub videos: Vec<&'a CatalogueEntry>,
}

/// A channel and its seasons, in ascending order.
#[derive(Debug, Clone)]
pub struct SeasonedStructure<'a> {
    pub channel_name: String,
    pub seasons: Vec<Season<'a>>,
}

/// The code of episode `episode` of season `season`: `S`, the season in at
/// least three digits, `E`, the episode in at least three digits.
pub open spec fn episode_code_of(season: nat, episode: nat) -> Seq<char> {
    seq!['S'] + zero_padded(season, 3) + seq!['E'] + zero_padded(episode, 3)
}

impl<'a> Season<'a> {
    /// The code under which episode `episode` of this season is listed.
    pub fn episode_code(&self, episode: usize) -> (r: String)
        ensures
            r@ == episode_code_of(self.number as nat, episode as nat),
    {
        proof {
            reveal_strlit("S");
            reveal_strlit("E");
            assert("S"@ =~= seq!['S']);
            assert("E"@ =~= seq!['E']);
        }
        let mut out = String::new();
        out.append("S");
        out.append(zero_padded_string(self.number, 3).as_str());
        out.append("E");
        out.append(zero_padded_string(episode, 3).as_str());
        assert(out@ =~= episode_code_of(self.number as nat, episode as nat));
        out
    }
}

/// Whether `runs` splits `s` into its runs of equal year: the runs, one after
/// the other, give `s`; no run is empty; all entries of a run lie in one
/// year; and where one run ends and the next begins the year changes.
pub open spec fn is_year_runs(s: Seq<&CatalogueEntry>, runs: Seq<Seq<&CatalogueEntry>>) -> bool {
    &&& runs.flatten() == s
    &&& forall|k: int| 0 <= k < runs.len() ==> (#[trigger] runs[k]).len() > 0
    &&& forall|k: int, i: int|
        0 <= k < runs.len() && 0 <= i < runs[k].len() ==> (#[trigger] runs[k][i]).date.year
            == runs[k][0].date.year
    &&& forall|k: int|
        0 <= k < runs.len() - 1 ==> (#[trigger] runs[k]).last().date.year != runs[k
            + 1][0].date.year
}

/// The contents of the vectors in `runs`.
pub open spec fn run_views<'a>(runs: Seq<Vec<&'a CatalogueEntry>>) -> Seq<Seq<&'a CatalogueEntry>> {
    runs.map_values(|r: Vec<&'a CatalogueEntry>| r@)
}

/// The videos of each of `seasons`.
pub open spec fn season_videos<'a>(seasons: Seq<Season<'a>>) -> Seq<Seq<&'a CatalogueEntry>> {
    seasons.map_values(|s: Season<'a>| s.videos@)
}

/// Whether `seasons` are the seasons of a channel whose entries are `vids`:
/// the seasons are numbered from 1 in steps of 1, and their videos are the
/// runs of equal year of the entries ordered by date.
pub open spec fn is_seasons_of(vids: Seq<&CatalogueEntry>, seasons: Seq<Season>) -> bool {
    &&& forall|k: int| 0 <= k < seasons.len() ==> (#[trigger] seasons[k]).number == k + 1
    &&& is_year_runs(sorted_by_date(vids), season_videos(seasons))
}

/// Splits `vids` with itertools' `chunk_by`, keyed by the year of each entry's
/// date, and collects each group it hands out into a vector. The contract says
/// what `chunk_by` documents: consecutive entries of the same key form one
/// group, so the groups are the runs of equal year, in order.
#[verifier::external_body]
pub(crate) fn chunk_by_year<'a>(vids: &Vec<&'a CatalogueEntry>) -> (runs: Vec<
    Vec<&'a CatalogueEntry>,
>)
    ensures
        is_year_runs(vids@, run_views(runs@)),
{
    let chunks = itertools::Itertools::chunk_by(vids.iter(), |v| v.date.year);
    let mut runs = Vec::new();
    for (_, chunk) in &chunks {
        runs.push(chunk.copied().collect());
    }
    runs
}

/// What is left of a division into runs of equal year after its first run is
/// the division of what is left of the entries.
proof fn lemma_year_runs_rest(s: Seq<&CatalogueEntry>, a: Seq<Seq<&CatalogueEntry>>)
    requires
        is_year_runs(s, a),
        a.len() > 0,
    ensures
        a[0].len() <= s.len(),
        a[0] == s.take(a[0].len() as int),
        is_year_runs(s.skip(a[0].len() as int), a.drop_first()),
{
    let rest = a.drop_first();
    assert(s =~= a[0] + rest.flatten());
    assert(a[0] =~= s.take(a[0].len() as int));
    assert(rest.flatten() =~= s.skip(a[0].len() as int));
    assert forall|k: int| 0 <= k < rest.len() implies (#[trigger] rest[k]).len() > 0 by {
        assert(rest[k] == a[k + 1]);
    }
    assert forall|k: int, i: int| 0 <= k < rest.len() && 0 <= i < rest[k].len() implies (
    #[trigger] rest[k][i]).date.year == rest[k][0].date.year by {
        assert(rest[k] == a[k + 1]);
        assert(a[k + 1][i].date.year == a[k + 1][0].date.year);
    }
    assert forall|k: int| 0 <= k < rest.len() - 1 implies (#[trigger] rest[k]).last().date.year
        != rest[k + 1][0].date.year by {
        assert(rest[k] == a[k + 1]);
        assert(rest[k + 1] == a[k + 2]);
        assert(a[k + 1].last().date.year != a[k + 2][0].date.year);
    }
}

/// The first run of a division into runs of equal year is not shorter than
/// that of another division of the same entries.
proof fn lemma_first_run_is_longest(
    s: Seq<&CatalogueEntry>,
    a: Seq<Seq<&CatalogueEntry>>,
    b: Seq<Seq<&CatalogueEntry>>,
)
    requires
        is_year_runs(s, a),
        is_year_runs(s, b),
        a.len() > 0,
        b.len() > 0,
    ensures
        a[0].len() >= b[0].len(),
{
    lemma_year_runs_rest(s, a);
    lemma_year_runs_rest(s, b);
    let n = a[0].len() as int;
    if n < b[0].len() {
        let rest = a.drop_first();
        assert(b[0][n].date.year == b[0][0].date.year);
        assert(b[0][n] == s[n]);
        assert(b[0][0] == s[0]);
        assert(a[0][0] == s[0]);
        assert(a[0].last() == a[0][n - 1]);
        assert(a[0][n - 1].date.year == a[0][0].date.year);
        assert(rest.flatten().len() > 0);
        assert(rest.len() > 0);
        assert(rest[0] == a[1]);
        assert(a[1].len() > 0);
        assert(rest.flatten() =~= rest[0] + rest.drop_first().flatten());
        assert(rest.flatten()[0] == a[1][0]);
        assert(s.skip(n)[0] == s[n]);
        assert(a[0].last().date.year != a[1][0].date.year);
    }
}

/// Entries have only one division into runs of equal year.
pub proof fn lemma_year_runs_are_unique(
    s: Seq<&CatalogueEntry>,
    a: Seq<Seq<&CatalogueEntry>>,
    b: Seq<Seq<&CatalogueEntry>>,
)
    requires
        is_year_runs(s, a),
        is_year_runs(s, b),
    ensures
        a == b,
    decreases a.len(),
{
    if a.len() == 0 || b.len() == 0 {
        if a.len() > 0 {
            assert(a[0].len() > 0);
            assert(a.flatten() =~= a[0] + a.drop_first().flatten());
        }
        if b.len() > 0 {
            assert(b[0].len() > 0);
            assert(b.flatten() =~= b[0] + b.drop_first().flatten());
        }
        assert(a =~= b);
    } else {
        lemma_first_run_is_longest(s, a, b);
        lemma_first_run_is_longest(s, b, a);
        lemma_year_runs_rest(s, a);
        lemma_year_runs_rest(s, b);
        lemma_year_runs_are_unique(s.skip(a[0].len() as int), a.drop_first(), b.drop_first());
        assert(a =~= seq![a[0]] + a.drop_first());
        assert(b =~= seq![b[0]] + b.drop_first());
    }
}

/// The entries of a channel determine the videos of its seasons.
pub proof fn lemma_seasons_are_determined(
    vids: Seq<&CatalogueEntry>,
    seasons: Seq<Season>,
    others: Seq<Season>,
)
    requires
        is_seasons_of(vids, seasons),
        is_seasons_of(vids, others),
    ensures
        seasons.len() == others.len(),
        forall|k: int|
            0 <= k < seasons.len() ==> (#[trigger] seasons[k]).number == others[k].number
                && seasons[k].videos@ == others[k].videos@,
{
    lemma_year_runs_are_unique(sorted_by_date(vids), season_videos(seasons), season_videos(others));
    assert forall|k: int| 0 <= k < seasons.len() implies (#[trigger] seasons[k]).number
        == others[k].number && seasons[k].videos@ == others[k].videos@ by {
        assert(season_videos(seasons)[k] == seasons[k].videos@);
        assert(season_videos(others)[k] == others[k].videos@);
    }
}

/// The number of entries that stand before run `k` once the runs are put one
/// after the other.
pub open spec fn run_start(runs: Seq<Seq<&CatalogueEntry>>, k: int) -> int
    decreases k,
{
    if k <= 0 {
        0
    } else {
        run_start(runs, k - 1) + runs[k - 1].len()
    }
}

/// Entry `i` of run `k` stands at position `run_start(runs, k) + i` of the
/// runs put one after the other.
pub proof fn lemma_flatten_index(runs: Seq<Seq<&CatalogueEntry>>, k: int, i: int)
    requires
        0 <= k < runs.len(),
        0 <= i < runs[k].len(),
    ensures
        0 <= run_start(runs, k),
        run_start(runs, k) + i < runs.flatten().len(),
        runs.flatten()[run_start(runs, k) + i] == runs[k][i],
    decreases runs.len(),
{
    let front = runs.drop_last();
    assert(runs =~= front.push(runs.last()));
    front.lemma_flatten_push(runs.last());
    lemma_run_start_prefix(runs, front, k);
    if k == runs.len() - 1 {
        lemma_run_start_is_length(front);
        lemma_run_start_prefix(runs, front, front.len() as int);
    } else {
        lemma_flatten_index(front, k, i);
    }
}

/// Where a run starts depends only on the runs before it.
pub proof fn lemma_run_start_prefix(
    runs: Seq<Seq<&CatalogueEntry>>,
    front: Seq<Seq<&CatalogueEntry>>,
    k: int,
)
    requires
        0 <= k <= front.len() <= runs.len(),
        forall|j: int| 0 <= j < front.len() ==> front[j] == runs[j],
    ensures
        run_start(runs, k) == run_start(front, k),
    decreases k,
{
    if k > 0 {
        lemma_run_start_prefix(runs, front, k - 1);
    }
}

/// Behind the last run stand all entries.
pub proof fn lemma_run_start_is_length(runs: Seq<Seq<&CatalogueEntry>>)
    ensures
        run_start(runs, runs.len() as int) == runs.flatten().len(),
    decreases runs.len(),
{
    if runs.len() > 0 {
        let front = runs.drop_last();
        assert(runs =~= front.push(runs.last()));
        front.lemma_flatten_push(runs.last());
        lemma_run_start_is_length(front);
        lemma_run_start_prefix(runs, front, front.len() as int);
    }
}

/// A later run starts where the earlier one has ended, or further on.
pub proof fn lemma_run_start_grows(runs: Seq<Seq<&CatalogueEntry>>, k: int, m: int)
    requires
        0 <= k < m <= runs.len(),
    ensures
        run_start(runs, k) + runs[k].len() <= run_start(runs, m),
    decreases m,
{
    if m > k + 1 {
        lemma_run_start_grows(runs, k, m - 1);
    }
}

/// The seasons of a channel are numbered in strictly ascending order; within
/// each season the dates never go down; and the videos of all seasons
/// together are the entries of the channel, each as often as it was given.
pub proof fn lemma_seasons_keep_the_channel(vids: Seq<&CatalogueEntry>, seasons: Seq<Season>)
    requires
        is_seasons_of(vids, seasons),
    ensures
        forall|k: int, m: int|
            0 <= k < m < seasons.len() ==> (#[trigger] seasons[k]).number < (
            #[trigger] seasons[m]).number,
        forall|k: int| 0 <= k < seasons.len() ==> is_ordered((#[trigger] seasons[k]).videos@),
        season_videos(seasons).flatten().to_multiset() == vids.to_multiset(),
{
    lemma_sorted_by_date(vids);
    let runs = season_videos(seasons);
    let flat = sorted_by_date(vids);
    assert forall|k: int| 0 <= k < seasons.len() implies is_ordered(
        (#[trigger] seasons[k]).videos@,
    ) by {
        let run = seasons[k].videos@;
        assert(run == runs[k]);
        assert forall|i: int, j: int| 0 <= i < j < run.len() implies run[i].date.le(
            run[j].date,
        ) by {
            lemma_flatten_index(runs, k, i);
            lemma_flatten_index(runs, k, j);
            assert(flat[run_start(runs, k) + i].date.le(flat[run_start(runs, k) + j].date));
        }
    }
}

/// Seasons stand for years in ascending order: every video of a later season
/// lies in a later year than every video of an earlier season.
pub proof fn lemma_seasons_ascend_by_year(
    vids: Seq<&CatalogueEntry>,
    seasons: Seq<Season>,
    k: int,
    m: int,
    i: int,
    j: int,
)
    requires
        is_seasons_of(vids, seasons),
        0 <= k < m < seasons.len(),
        0 <= i < seasons[k].videos@.len(),
        0 <= j < seasons[m].videos@.len(),
    ensures
        seasons[k].videos@[i].date.year < seasons[m].videos@[j].date.year,
    decreases m - k,
{
    lemma_sorted_by_date(vids);
    let runs = season_videos(seasons);
    let flat = sorted_by_date(vids);
    assert(runs[k] == seasons[k].videos@);
    assert(runs[m] == seasons[m].videos@);
    assert(runs[k + 1] == seasons[k + 1].videos@);
    let last = runs[k].len() - 1;
    lemma_flatten_index(runs, k, last);
    lemma_flatten_index(runs, k + 1, 0);
    lemma_run_start_grows(runs, k, k + 1);
    assert(flat[run_start(runs, k) + last].date.le(flat[run_start(runs, k + 1)].date));
    assert(runs[k][i].date.year == runs[k][0].date.year);
    assert(runs[k][last].date.year == runs[k][0].date.year);
    assert(runs[k].last() == runs[k][last]);
    assert(runs[k][0].date.year < runs[k + 1][0].date.year);
    if m == k + 1 {
        assert(runs[m][j].date.year == runs[m][0].date.year);
    } else {
        lemma_seasons_ascend_by_year(vids, seasons, k + 1, m, 0, j);
    }
}

} // verus!
