//! What is known of one disease: the totals of each region that reported it,
//! and its course in one region.

use vstd::prelude::*;
use crate::date::Date;
use crate::id::Id;
use crate::population::{
    bracket, bracketing_range, estimate_on, latest_estimate, latest_known,
    lemma_bracketing_range_suffices, population_on, series, series_of, PopulationSample,
};
use crate::error::Failure;
use crate::region::{descends, reads_below};
use crate::timeline::{arrange, chronological, lemma_chronological_order, Dated};

verus! {

/// What a region reported of the disease on one date: running totals, each
/// absent where the region gave none.
#[derive(Debug, PartialEq, Eq)]
pub struct Observation {
    pub region: String,
    pub date: Date,
    pub cases: Option<i64>,
    pub deaths: Option<i64>,
    pub recoveries: Option<i64>,
}

impl Clone for Observation {
    fn clone(&self) -> (copy: Self)
        ensures
            copy == *self,
    {
        Observation {
            region: self.region.clone(),
            date: self.date,
            cases: self.cases,
            deaths: self.deaths,
            recoveries: self.recoveries,
        }
    }
}

impl Dated for Observation {
    open spec fn date(&self) -> Date {
        self.date
    }

    fn day(&self) -> (day: Date) {
        self.date
    }
}

/// The totals of one region, with the region's latest known population.
#[derive(Debug, PartialEq, Eq)]
pub struct Summary {
    pub region: String,
    pub cases: Option<i64>,
    pub deaths: Option<i64>,
    pub recoveries: Option<i64>,
    pub population: Option<i64>,
}

/// An observation together with the population that held on its date.
#[derive(Debug, PartialEq, Eq)]
pub struct ResolvedStat {
    pub region: String,
    pub date: Date,
    pub cases: Option<i64>,
    pub deaths: Option<i64>,
    pub recoveries: Option<i64>,
    pub population: Option<i64>,
}

/// A reference on the disease. One without a region is about every region.
#[derive(Debug, PartialEq, Eq)]
pub struct Link {
    pub region: Option<String>,
    pub uri: String,
    pub description: String,
}

impl Clone for Link {
    fn clone(&self) -> (copy: Self)
        ensures
            copy == *self,
    {
        let region = match &self.region {
            Some(tag) => Some(tag.clone()),
            None => None,
        };
        Link { region, uri: self.uri.clone(), description: self.description.clone() }
    }
}

/// The course of the disease in one region.
#[derive(Debug, PartialEq, Eq)]
pub struct Course {
    /// The references that apply to the region.
    pub links: Vec<Link>,
    /// The region's observations by date.
    pub stats: Vec<ResolvedStat>,
    /// The population samples that bracket the observations.
    pub population: Vec<PopulationSample>,
}

/// Holds of the observations that `region` reported.
pub open spec fn observed_in(region: Seq<char>) -> spec_fn(Observation) -> bool {
    |observation: Observation| observation.region@ == region
}

/// The regions that reported, each once, in the order of their first report.
pub open spec fn reporting_regions(observations: Seq<Observation>) -> Seq<Seq<char>>
    decreases observations.len(),
{
    if observations.len() == 0 {
        Seq::empty()
    } else {
        let front = reporting_regions(observations.drop_last());
        if front.contains(observations.last().region@) {
            front
        } else {
            front.push(observations.last().region@)
        }
    }
}

/// The greater of two counts. An absent count yields to the other.
pub open spec fn greater(a: Option<i64>, b: Option<i64>) -> Option<i64> {
    match (a, b) {
        (Some(x), Some(y)) => Some(if x >= y { x } else { y }),
        (Some(x), None) => Some(x),
        (None, _) => b,
    }
}

/// The greatest of the counts that are present.
pub open spec fn peak(counts: Seq<Option<i64>>) -> Option<i64>
    decreases counts.len(),
{
    if counts.len() == 0 {
        None
    } else {
        greater(peak(counts.drop_last()), counts.last())
    }
}

/// The cases of each observation.
pub open spec fn cases_of(observations: Seq<Observation>) -> Seq<Option<i64>> {
    observations.map_values(|observation: Observation| observation.cases)
}

/// The deaths of each observation.
pub open spec fn deaths_of(observations: Seq<Observation>) -> Seq<Option<i64>> {
    observations.map_values(|observation: Observation| observation.deaths)
}

/// The recoveries of each observation.
pub open spec fn recoveries_of(observations: Seq<Observation>) -> Seq<Option<i64>> {
    observations.map_values(|observation: Observation| observation.recoveries)
}

/// The summary of `region` is `summary`: the greatest count of each kind over
/// all that the region reported, and its latest known population.
pub open spec fn summarizes(
    summary: Summary,
    observations: Seq<Observation>,
    populations: Seq<PopulationSample>,
    region: Seq<char>,
) -> bool {
    let reports = observations.filter(observed_in(region));
    &&& summary.region@ == region
    &&& summary.cases == peak(cases_of(reports))
    &&& summary.deaths == peak(deaths_of(reports))
    &&& summary.recoveries == peak(recoveries_of(reports))
    &&& summary.population == latest_known(series(populations, region))
}

/// A peak is absent exactly if every count is; otherwise it is one of the
/// counts, and none is greater.
pub proof fn lemma_peak(counts: Seq<Option<i64>>)
    ensures
        peak(counts) is None <==> forall|i: int| 0 <= i < counts.len() ==> counts[i] is None,
        peak(counts) matches Some(top) ==> {
            &&& exists|i: int| 0 <= i < counts.len() && counts[i] == Some(top)
            &&& forall|i: int|
                0 <= i < counts.len() && #[trigger] counts[i] is Some ==> counts[i].unwrap() <= top
        },
    decreases counts.len(),
{
    if counts.len() > 0 {
        let front = counts.drop_last();
        lemma_peak(front);
        assert forall|i: int| 0 <= i < front.len() implies front[i] == counts[i] by {}
        if let Some(top) = peak(counts) {
            if counts.last() == Some(top) {
                assert(counts[counts.len() - 1] == Some(top));
            } else {
                let i = choose|i: int| 0 <= i < front.len() && front[i] == Some(top);
                assert(counts[i] == Some(top));
            }
        }
        if peak(counts) is None {
            assert forall|i: int| 0 <= i < counts.len() implies counts[i] is None by {
                if i < front.len() {
                    assert(front[i] is None);
                }
            }
        } else if forall|i: int| 0 <= i < counts.len() ==> counts[i] is None {
            assert(counts[counts.len() - 1] is None);
            assert forall|i: int| 0 <= i < front.len() implies front[i] is None by {
                assert(counts[i] is None);
            }
        }
    }
}

/// A region is among the reporting regions exactly if an observation names
/// it, and it is there once.
pub proof fn lemma_reporting_regions(observations: Seq<Observation>)
    ensures
        reporting_regions(observations).no_duplicates(),
        forall|region: Seq<char>| #[trigger]
            reporting_regions(observations).contains(region) <==> exists|i: int|
                0 <= i < observations.len() && #[trigger] observations[i].region@ == region,
    decreases observations.len(),
{
    if observations.len() > 0 {
        let front = observations.drop_last();
        let last = observations.last();
        let before = reporting_regions(front);
        let all = reporting_regions(observations);
        lemma_reporting_regions(front);
        assert forall|region: Seq<char>| #[trigger]
            all.contains(region) implies exists|i: int|
            0 <= i < observations.len() && #[trigger] observations[i].region@ == region by {
            if before.contains(region) {
                let i = choose|i: int| 0 <= i < front.len() && #[trigger] front[i].region@ == region;
                assert(observations[i].region@ == region);
            } else {
                let k = choose|k: int| 0 <= k < all.len() && all[k] == region;
                if k < before.len() {
                    assert(before[k] == region);
                }
                assert(observations[observations.len() - 1].region@ == region);
            }
        }
        assert forall|region: Seq<char>|
            (exists|i: int|
                0 <= i < observations.len() && #[trigger] observations[i].region@
                    == region) implies #[trigger] all.contains(region) by {
            let i = choose|i: int|
                0 <= i < observations.len() && #[trigger] observations[i].region@ == region;
            if i < front.len() {
                assert(front[i].region@ == region);
                assert(before.contains(region));
                let k = choose|k: int| 0 <= k < before.len() && before[k] == region;
                assert(all[k] == region);
            } else {
                if before.contains(last.region@) {
                } else {
                    assert(all[all.len() - 1] == region);
                }
            }
        }
    }
}

/// The characters of each name.
pub open spec fn names_of(regions: Seq<String>) -> Seq<Seq<char>> {
    regions.map_values(|region: String| region@)
}

/// Whether `name` is among `regions`.
fn lists(regions: &Vec<String>, name: &String) -> (listed: bool)
    ensures
        listed == names_of(regions@).contains(name@),
{
    let mut k: usize = 0;
    while k < regions.len()
        invariant
            k <= regions.len(),
            forall|j: int| 0 <= j < k ==> names_of(regions@)[j] != name@,
        decreases regions.len() - k,
    {
        if regions[k] == *name {
            proof {
                assert(names_of(regions@)[k as int] == name@);
            }
            return true;
        }
        k += 1;
    }
    false
}

/// The regions that reported, each once, in the order of their first report.
pub fn reporting(observations: &Vec<Observation>) -> (regions: Vec<String>)
    ensures
        names_of(regions@) == reporting_regions(observations@),
{
    let mut regions: Vec<String> = Vec::new();
    let mut i: usize = 0;
    proof {
        assert(names_of(regions@) =~= reporting_regions(observations@.take(0)));
    }
    while i < observations.len()
        invariant
            i <= observations.len(),
            names_of(regions@) == reporting_regions(observations@.take(i as int)),
        decreases observations.len() - i,
    {
        let name = &observations[i].region;
        proof {
            let upto = observations@.take(i + 1);
            assert(upto.drop_last() =~= observations@.take(i as int));
            assert(upto.last() == observations[i as int]);
        }
        if !lists(&regions, name) {
            let ghost before = names_of(regions@);
            regions.push(name.clone());
            proof {
                assert(names_of(regions@) =~= before.push(name@));
            }
        }
        i += 1;
    }
    proof {
        assert(observations@.take(i as int) =~= observations@);
    }
    regions
}

/// The greater of two counts. An absent count yields to the other.
pub fn larger(a: Option<i64>, b: Option<i64>) -> (top: Option<i64>)
    ensures
        top == greater(a, b),
{
    match (a, b) {
        (Some(x), Some(y)) => Some(if x >= y { x } else { y }),
        (Some(x), None) => Some(x),
        (None, _) => b,
    }
}

/// The summary of one region: over all that it reported, the greatest count
/// of cases, of deaths and of recoveries, with its latest known population.
pub fn summarize_region(
    observations: &Vec<Observation>,
    populations: &Vec<PopulationSample>,
    region: &String,
) -> (summary: Summary)
    ensures
        summarizes(summary, observations@, populations@, region@),
{
    let mut cases: Option<i64> = None;
    let mut deaths: Option<i64> = None;
    let mut recoveries: Option<i64> = None;
    let mut i: usize = 0;
    proof {
        broadcast use vstd::seq_lib::group_filter_ensures;

        assert(observations@.take(0).filter(observed_in(region@)).len() == 0);
    }
    while i < observations.len()
        invariant
            i <= observations.len(),
            cases == peak(cases_of(observations@.take(i as int).filter(observed_in(region@)))),
            deaths == peak(deaths_of(observations@.take(i as int).filter(observed_in(region@)))),
            recoveries == peak(
                recoveries_of(observations@.take(i as int).filter(observed_in(region@))),
            ),
        decreases observations.len() - i,
    {
        let seen = &observations[i];
        proof {
            broadcast use Seq::lemma_filter_push;

            let before = observations@.take(i as int).filter(observed_in(region@));
            assert(observations@.take(i + 1) =~= observations@.take(i as int).push(*seen));
            assert(cases_of(before.push(*seen)).drop_last() =~= cases_of(before));
            assert(deaths_of(before.push(*seen)).drop_last() =~= deaths_of(before));
            assert(recoveries_of(before.push(*seen)).drop_last() =~= recoveries_of(before));
        }
        if seen.region == *region {
            cases = larger(cases, seen.cases);
            deaths = larger(deaths, seen.deaths);
            recoveries = larger(recoveries, seen.recoveries);
        }
        i += 1;
    }
    proof {
        assert(observations@.take(i as int) =~= observations@);
    }
    let population = latest_estimate(&series_of(populations, region));
    Summary { region: region.clone(), cases, deaths, recoveries, population }
}

/// The summary of every region that reported, in the order of the regions'
/// first reports.
pub fn summarize(observations: &Vec<Observation>, populations: &Vec<PopulationSample>) -> (out:
    Vec<Summary>)
    ensures
        out.len() == reporting_regions(observations@).len(),
        forall|k: int|
            0 <= k < out.len() ==> summarizes(
                #[trigger] out[k],
                observations@,
                populations@,
                reporting_regions(observations@)[k],
            ),
{
    let regions = reporting(observations);
    let mut out: Vec<Summary> = Vec::new();
    let mut k: usize = 0;
    while k < regions.len()
        invariant
            k <= regions.len(),
            out.len() == k,
            names_of(regions@) == reporting_regions(observations@),
            forall|j: int|
                0 <= j < k ==> summarizes(
                    #[trigger] out[j],
                    observations@,
                    populations@,
                    reporting_regions(observations@)[j],
                ),
        decreases regions.len() - k,
    {
        proof {
            assert(names_of(regions@)[k as int] == regions[k as int]@);
        }
        out.push(summarize_region(observations, populations, &regions[k]));
        k += 1;
    }
    out
}

/// A disease with the summaries of the regions that reported it.
#[derive(Debug, PartialEq, Eq)]
pub struct Profile<D> {
    pub disease: D,
    pub stats: Vec<Summary>,
}

/// The profile of the disease whose record is `disease`: the record itself
/// and the summary of every region among `observations`, which are those of
/// this disease. Fails with `NotFound` exactly if there is no record.
pub fn get_disease_by_id<D>(
    disease: Option<D>,
    observations: &Vec<Observation>,
    populations: &Vec<PopulationSample>,
) -> (found: Result<Profile<D>, Failure>)
    ensures
        match found {
            Ok(profile) => {
                &&& disease == Some(profile.disease)
                &&& profile.stats.len() == reporting_regions(observations@).len()
                &&& forall|k: int|
                    0 <= k < profile.stats.len() ==> summarizes(
                        #[trigger] profile.stats[k],
                        observations@,
                        populations@,
                        reporting_regions(observations@)[k],
                    )
            },
            Err(failure) => disease is None && failure == Failure::NotFound,
        },
{
    match disease {
        Some(record) => Ok(Profile { disease: record, stats: summarize(observations, populations) }),
        None => Err(Failure::NotFound),
    }
}

/// Holds of the references that apply to `region`: those without a region,
/// those of `region` itself and those of a region that `region` lies in.
pub open spec fn applies_to(region: Seq<char>) -> spec_fn(Link) -> bool {
    |link: Link|
        match link.region {
            Some(tag) => descends(region, tag@),
            None => true,
        }
}

/// The observation with the population that holds on its date in `bracket`.
pub open spec fn resolved_in(bracket: Seq<PopulationSample>) -> spec_fn(Observation) -> ResolvedStat {
    |seen: Observation|
        ResolvedStat {
            region: seen.region,
            date: seen.date,
            cases: seen.cases,
            deaths: seen.deaths,
            recoveries: seen.recoveries,
            population: population_on(bracket, seen.date),
        }
}

/// The observations of `region` by date, those of one date in stored order.
pub open spec fn history(observations: Seq<Observation>, region: Seq<char>) -> Seq<Observation> {
    chronological(observations.filter(observed_in(region)))
}

/// The population samples that bracket a history: of a chronological series,
/// the bracketing range from the history's first date to its last. Empty for
/// an empty history.
pub open spec fn bracket_of(history: Seq<Observation>, series: Seq<PopulationSample>) -> Seq<
    PopulationSample,
> {
    if history.len() == 0 {
        Seq::empty()
    } else {
        bracketing_range(series, history.first().date, history.last().date)
    }
}

/// The references among `links` that apply to `region`, in their order.
pub fn links_for(links: &Vec<Link>, region: &Id) -> (out: Vec<Link>)
    ensures
        out@ == links@.filter(applies_to(region@)),
{
    let mut out: Vec<Link> = Vec::new();
    let mut i: usize = 0;
    while i < links.len()
        invariant
            i <= links.len(),
            out@ == links@.take(i as int).filter(applies_to(region@)),
        decreases links.len() - i,
    {
        proof {
            broadcast use Seq::lemma_filter_push;

            assert(links@.take(i + 1) =~= links@.take(i as int).push(links[i as int]));
        }
        let applies = match &links[i].region {
            Some(tag) => reads_below(region.as_str(), tag.as_str()),
            None => true,
        };
        if applies {
            out.push(links[i].clone());
        }
        i += 1;
    }
    proof {
        assert(links@.take(i as int) =~= links@);
    }
    out
}

/// The observations of `region`, arranged by date.
pub fn history_of(observations: &Vec<Observation>, region: &Id) -> (out: Vec<Observation>)
    ensures
        out@ == history(observations@, region@),
{
    let mut own: Vec<Observation> = Vec::new();
    let mut i: usize = 0;
    while i < observations.len()
        invariant
            i <= observations.len(),
            own@ == observations@.take(i as int).filter(observed_in(region@)),
        decreases observations.len() - i,
    {
        proof {
            broadcast use Seq::lemma_filter_push;

            assert(observations@.take(i + 1) =~= observations@.take(i as int).push(
                observations[i as int],
            ));
        }
        if region.names(&observations[i].region) {
            own.push(observations[i].clone());
        }
        i += 1;
    }
    proof {
        assert(observations@.take(i as int) =~= observations@);
    }
    arrange(own)
}

/// The course of the disease in `region`, from the references, observations
/// and population samples of this disease and of all regions.
///
/// The references are those that apply to the region. The observations are
/// those of exactly this region, by date. The population samples are the
/// region's bracketing range from the first observation's date to the last
/// one's, none where the region has no observation. Each observation carries
/// the population that holds on its date among those samples, which is the
/// one that holds on it among all samples of the region; its counts are as
/// they were reported.
pub fn get_disease_by_id_in_region(
    links: &Vec<Link>,
    observations: &Vec<Observation>,
    populations: &Vec<PopulationSample>,
    region: &Id,
) -> (course: Course)
    ensures
        course.links@ == links@.filter(applies_to(region@)),
        course.population@ == bracket_of(
            history(observations@, region@),
            series(populations@, region@),
        ),
        course.stats@ == history(observations@, region@).map_values(
            resolved_in(course.population@),
        ),
        course.stats@ == history(observations@, region@).map_values(
            resolved_in(series(populations@, region@)),
        ),
        forall|i: int, j: int|
            0 <= i <= j < course.stats.len() ==> course.stats[i].date.ordinal()
                <= course.stats[j].date.ordinal(),
{
    let own = history_of(observations, region);
    let population = if own.len() > 0 {
        let series = series_of(populations, region.as_string());
        bracket(&series, own[0].date, own[own.len() - 1].date)
    } else {
        Vec::new()
    };
    let mut stats: Vec<ResolvedStat> = Vec::new();
    let mut i: usize = 0;
    while i < own.len()
        invariant
            i <= own.len(),
            stats@ == own@.take(i as int).map_values(resolved_in(population@)),
        decreases own.len() - i,
    {
        let seen = &own[i];
        let ghost before = stats@;
        stats.push(
            ResolvedStat {
                region: seen.region.clone(),
                date: seen.date,
                cases: seen.cases,
                deaths: seen.deaths,
                recoveries: seen.recoveries,
                population: estimate_on(&population, seen.date),
            },
        );
        proof {
            assert(own@.take(i + 1) =~= own@.take(i as int).push(*seen));
            assert(stats@ =~= own@.take(i + 1).map_values(resolved_in(population@)));
        }
        i += 1;
    }
    proof {
        assert(own@.take(i as int) =~= own@);
        let whole = series(populations@, region@);
        lemma_chronological_order(observations@.filter(observed_in(region@)));
        assert forall|k: int| 0 <= k < own.len() implies resolved_in(population@)(own[k])
            == resolved_in(whole)(own[k]) by {
            lemma_bracketing_range_suffices(whole, own[0].date, own[own.len() - 1].date, own[k].date);
        }
        assert(own@.map_values(resolved_in(population@)) =~= own@.map_values(resolved_in(whole)));
    }
    Course { links: links_for(links, region), stats, population }
}

} // verus!
