//! Population estimates of a region, and the estimate that holds on a date.

use vstd::prelude::*;
use crate::date::Date;
use crate::id::Id;
use crate::timeline::{arrange, chronological, is_chronological, lemma_chronological_order, Dated};

verus! {

/// A population estimate: the region it is for, the date it was taken on and,
/// where one was reported, the number of inhabitants.
#[derive(Debug, PartialEq, Eq)]
pub struct PopulationSample {
    pub region: String,
    pub date: Date,
    pub population: Option<i64>,
}

impl Clone for PopulationSample {
    fn clone(&self) -> (copy: Self)
        ensures
            copy == *self,
    {
        PopulationSample {
            region: self.region.clone(),
            date: self.date,
            population: self.population,
        }
    }
}

impl Dated for PopulationSample {
    open spec fn date(&self) -> Date {
        self.date
    }

    fn day(&self) -> (day: Date) {
        self.date
    }
}

/// Holds of the samples taken for `region`.
pub open spec fn sampled_in(region: Seq<char>) -> spec_fn(PopulationSample) -> bool {
    |sample: PopulationSample| sample.region@ == region
}

/// The samples of `region` by date, samples of one date in stored order.
pub open spec fn series(samples: Seq<PopulationSample>, region: Seq<char>) -> Seq<
    PopulationSample,
> {
    chronological(samples.filter(sampled_in(region)))
}

/// Position `i` holds the last sample dated before `day`.
pub open spec fn is_latest_before(series: Seq<PopulationSample>, day: Date, i: int) -> bool {
    &&& 0 <= i < series.len()
    &&& series[i].date.ordinal() < day.ordinal()
    &&& forall|j: int| i < j < series.len() ==> series[j].date.ordinal() >= day.ordinal()
}

/// Position `i` holds the first sample dated after `day`.
pub open spec fn is_earliest_after(series: Seq<PopulationSample>, day: Date, i: int) -> bool {
    &&& 0 <= i < series.len()
    &&& series[i].date.ordinal() > day.ordinal()
    &&& forall|j: int| 0 <= j < i ==> series[j].date.ordinal() <= day.ordinal()
}

/// Holds of the dates from `from` to `to`, both included.
pub open spec fn within(from: Date, to: Date) -> spec_fn(PopulationSample) -> bool {
    |sample: PopulationSample| from.ordinal() <= sample.date.ordinal() <= to.ordinal()
}

/// The sample at position `i` belongs to the bracketing range of `from` to
/// `to`: it is dated within the interval, or it is the last one before it, or
/// the first one after it.
pub open spec fn brackets(series: Seq<PopulationSample>, from: Date, to: Date, i: int) -> bool {
    ||| within(from, to)(series[i])
    ||| is_latest_before(series, from, i)
    ||| is_earliest_after(series, to, i)
}

/// The samples among the first `n` of `series` that belong to the bracketing
/// range of `from` to `to`, in order.
pub open spec fn bracketing_prefix(
    series: Seq<PopulationSample>,
    from: Date,
    to: Date,
    n: nat,
) -> Seq<PopulationSample>
    decreases n,
{
    if n == 0 {
        Seq::empty()
    } else {
        let front = bracketing_prefix(series, from, to, (n - 1) as nat);
        if brackets(series, from, to, n - 1) {
            front.push(series[n - 1])
        } else {
            front
        }
    }
}

/// The bracketing range of `from` to `to` in a chronological series: every
/// sample dated within the interval, the latest sample before it and the
/// earliest sample after it, in the order of the series.
pub open spec fn bracketing_range(series: Seq<PopulationSample>, from: Date, to: Date) -> Seq<
    PopulationSample,
> {
    bracketing_prefix(series, from, to, series.len())
}

/// The population of the last sample that reports one.
pub open spec fn latest_known(series: Seq<PopulationSample>) -> Option<i64>
    decreases series.len(),
{
    if series.len() == 0 {
        None
    } else if series.last().population is Some {
        series.last().population
    } else {
        latest_known(series.drop_last())
    }
}

/// The last sample dated `day` or earlier.
pub open spec fn latest_upto(series: Seq<PopulationSample>, day: Date) -> Option<PopulationSample>
    decreases series.len(),
{
    if series.len() == 0 {
        None
    } else if series.last().date.ordinal() <= day.ordinal() {
        Some(series.last())
    } else {
        latest_upto(series.drop_last(), day)
    }
}

/// The sample of a chronological series that holds on `day`: the last one
/// dated `day` or earlier; before the first sample, the first one.
pub open spec fn in_force(series: Seq<PopulationSample>, day: Date) -> Option<PopulationSample> {
    match latest_upto(series, day) {
        Some(sample) => Some(sample),
        None => if series.len() > 0 {
            Some(series[0])
        } else {
            None
        },
    }
}

/// The population that holds on `day`, as far as the sample in force reports
/// one.
pub open spec fn population_on(series: Seq<PopulationSample>, day: Date) -> Option<i64> {
    match in_force(series, day) {
        Some(sample) => sample.population,
        None => None,
    }
}

/// What `resolve` answers from a chronological series: without a date the
/// latest known population, with one the population that holds on it.
pub open spec fn resolved(series: Seq<PopulationSample>, date: Option<Date>) -> Option<i64> {
    match date {
        Some(day) => population_on(series, day),
        None => latest_known(series),
    }
}

/// One where a position among the first `n` holds the latest sample before
/// `day`, zero where none does.
pub open spec fn leading(series: Seq<PopulationSample>, day: Date, n: nat) -> nat {
    if exists|i: int| 0 <= i < n && is_latest_before(series, day, i) {
        1
    } else {
        0
    }
}

/// One where a position among the first `n` holds the earliest sample after
/// `day`, zero where none does.
pub open spec fn trailing(series: Seq<PopulationSample>, day: Date, n: nat) -> nat {
    if exists|i: int| 0 <= i < n && is_earliest_after(series, day, i) {
        1
    } else {
        0
    }
}

/// Among the first `n` samples the bracketing range holds those dated within
/// the interval and at most one on either side of it.
pub proof fn lemma_bracketing_prefix_bound(
    series: Seq<PopulationSample>,
    from: Date,
    to: Date,
    n: nat,
)
    requires
        n <= series.len(),
    ensures
        bracketing_prefix(series, from, to, n).len() <= series.take(n as int).filter(
            within(from, to),
        ).len() + leading(series, from, n) + trailing(series, to, n),
    decreases n,
{
    broadcast use Seq::lemma_filter_push;

    if n > 0 {
        let m = (n - 1) as nat;
        lemma_bracketing_prefix_bound(series, from, to, m);
        assert(series.take(n as int) =~= series.take(m as int).push(series[m as int]));
        if is_latest_before(series, from, m as int) {
            assert(leading(series, from, n) == 1);
            assert(leading(series, from, m) == 0);
        } else {
            assert(leading(series, from, m) <= leading(series, from, n));
        }
        if is_earliest_after(series, to, m as int) {
            assert(trailing(series, to, n) == 1);
            assert(trailing(series, to, m) == 0);
        } else {
            assert(trailing(series, to, m) <= trailing(series, to, n));
        }
    }
}

/// A bracketing range is at most two samples longer than the number of
/// samples dated within its interval.
pub proof fn lemma_bracketing_range_bound(series: Seq<PopulationSample>, from: Date, to: Date)
    ensures
        bracketing_range(series, from, to).len() <= series.filter(within(from, to)).len() + 2,
{
    lemma_bracketing_prefix_bound(series, from, to, series.len());
    assert(series.take(series.len() as int) =~= series);
}

/// Asked again with the same samples, region and interval, `resolve_range`
/// answers with the same samples.
pub proof fn lemma_resolve_range_repeats(
    samples: Seq<PopulationSample>,
    region: Seq<char>,
    from: Date,
    to: Date,
    first: Seq<PopulationSample>,
    second: Seq<PopulationSample>,
)
    requires
        first == bracketing_range(series(samples, region), from, to),
        second == bracketing_range(series(samples, region), from, to),
    ensures
        first == second,
{
}

/// A region without samples has an empty bracketing range for every interval
/// and no population on any date or without one.
pub proof fn lemma_unsampled_region(
    samples: Seq<PopulationSample>,
    region: Seq<char>,
    from: Date,
    to: Date,
    date: Option<Date>,
)
    requires
        samples.filter(sampled_in(region)).len() == 0,
    ensures
        bracketing_range(series(samples, region), from, to) == Seq::<PopulationSample>::empty(),
        resolved(series(samples, region), date) is None,
{
}

/// The last sample that reports a population gives the latest known one;
/// there is none exactly if no sample reports a population.
pub proof fn lemma_latest_known(series: Seq<PopulationSample>)
    ensures
        latest_known(series) is None <==> forall|i: int|
            0 <= i < series.len() ==> (#[trigger] series[i]).population is None,
        latest_known(series) is Some ==> exists|i: int|
            {
                &&& 0 <= i < series.len()
                &&& (#[trigger] series[i]).population == latest_known(series)
                &&& forall|j: int| i < j < series.len() ==> (#[trigger] series[j]).population is None
            },
    decreases series.len(),
{
    if series.len() > 0 {
        let front = series.drop_last();
        lemma_latest_known(front);
        assert forall|i: int| 0 <= i < front.len() implies front[i] == series[i] by {}
        if series.last().population is Some {
            assert(series[series.len() - 1].population == latest_known(series));
        } else if latest_known(series) is Some {
            let i = choose|i: int|
                {
                    &&& 0 <= i < front.len()
                    &&& (#[trigger] front[i]).population == latest_known(front)
                    &&& forall|j: int|
                        i < j < front.len() ==> (#[trigger] front[j]).population is None
                };
            assert(series[i].population == latest_known(series));
            assert forall|j: int| i < j < series.len() implies (#[trigger] series[j]).population
                is None by {
                if j < front.len() {
                    assert(front[j].population is None);
                }
            }
        } else {
            assert forall|i: int| 0 <= i < series.len() implies (#[trigger] series[i]).population
                is None by {
                if i < front.len() {
                    assert(front[i].population is None);
                }
            }
        }
    }
}

/// The latest sample up to `day` stands at the last position dated `day` or
/// earlier; there is none exactly if every sample is dated later.
pub proof fn lemma_latest_upto(series: Seq<PopulationSample>, day: Date)
    ensures
        latest_upto(series, day) is None <==> forall|i: int|
            0 <= i < series.len() ==> series[i].date.ordinal() > day.ordinal(),
        latest_upto(series, day) is Some ==> exists|i: int|
            {
                &&& 0 <= i < series.len()
                &&& Some(#[trigger] series[i]) == latest_upto(series, day)
                &&& series[i].date.ordinal() <= day.ordinal()
                &&& forall|j: int| i < j < series.len() ==> series[j].date.ordinal() > day.ordinal()
            },
    decreases series.len(),
{
    if series.len() > 0 {
        let front = series.drop_last();
        lemma_latest_upto(front, day);
        assert forall|i: int| 0 <= i < front.len() implies front[i] == series[i] by {}
        if series.last().date.ordinal() <= day.ordinal() {
            assert(Some(series[series.len() - 1]) == latest_upto(series, day));
        } else if latest_upto(series, day) is Some {
            let i = choose|i: int|
                {
                    &&& 0 <= i < front.len()
                    &&& Some(#[trigger] front[i]) == latest_upto(front, day)
                    &&& front[i].date.ordinal() <= day.ordinal()
                    &&& forall|j: int|
                        i < j < front.len() ==> front[j].date.ordinal() > day.ordinal()
                };
            assert(Some(series[i]) == latest_upto(series, day));
            assert forall|j: int| i < j < series.len() implies series[j].date.ordinal()
                > day.ordinal() by {
                if j < front.len() {
                    assert(front[j].date.ordinal() > day.ordinal());
                }
            }
        } else {
            assert forall|i: int| 0 <= i < series.len() implies series[i].date.ordinal()
                > day.ordinal() by {
                if i < front.len() {
                    assert(front[i].date.ordinal() > day.ordinal());
                }
            }
        }
    }
}

/// The sample stands in `series` at one of the first `n` positions, one that
/// belongs to the bracketing range of `from` to `to`.
pub open spec fn is_bracketed(
    series: Seq<PopulationSample>,
    from: Date,
    to: Date,
    n: nat,
    sample: PopulationSample,
) -> bool {
    exists|i: int| 0 <= i < n && brackets(series, from, to, i) && #[trigger] series[i] == sample
}

/// Every sample of a bracketing range is a sample of the series, taken from a
/// position that belongs to the range.
pub proof fn lemma_bracketing_prefix_members(
    series: Seq<PopulationSample>,
    from: Date,
    to: Date,
    n: nat,
)
    requires
        n <= series.len(),
    ensures
        bracketing_prefix(series, from, to, n).len() <= n,
        forall|k: int|
            0 <= k < bracketing_prefix(series, from, to, n).len() ==> is_bracketed(
                series,
                from,
                to,
                n,
                #[trigger] bracketing_prefix(series, from, to, n)[k],
            ),
    decreases n,
{
    if n > 0 {
        let m = (n - 1) as nat;
        let before = bracketing_prefix(series, from, to, m);
        let now = bracketing_prefix(series, from, to, n);
        lemma_bracketing_prefix_members(series, from, to, m);
        assert forall|k: int| 0 <= k < now.len() implies is_bracketed(
            series,
            from,
            to,
            n,
            #[trigger] now[k],
        ) by {
            if k < before.len() {
                assert(is_bracketed(series, from, to, m, before[k]));
                let i = choose|i: int|
                    0 <= i < m && brackets(series, from, to, i) && #[trigger] series[i]
                        == before[k];
                assert(brackets(series, from, to, i) && series[i] == now[k]);
            } else {
                assert(brackets(series, from, to, m as int) && series[m as int] == now[k]);
            }
        }
    }
}

/// The bracketing range of a chronological series is chronological.
pub proof fn lemma_bracketing_range_chronological(
    series: Seq<PopulationSample>,
    from: Date,
    to: Date,
)
    requires
        is_chronological(series),
    ensures
        is_chronological(bracketing_range(series, from, to)),
{
    lemma_bracketing_prefix_chronological(series, from, to, series.len());
}

proof fn lemma_bracketing_prefix_chronological(
    series: Seq<PopulationSample>,
    from: Date,
    to: Date,
    n: nat,
)
    requires
        is_chronological(series),
        n <= series.len(),
    ensures
        is_chronological(bracketing_prefix(series, from, to, n)),
    decreases n,
{
    if n > 0 {
        let m = (n - 1) as nat;
        let before = bracketing_prefix(series, from, to, m);
        let now = bracketing_prefix(series, from, to, n);
        lemma_bracketing_prefix_chronological(series, from, to, m);
        lemma_bracketing_prefix_members(series, from, to, m);
        assert forall|i: int, j: int| 0 <= i <= j < now.len() implies now[i].date().ordinal()
            <= now[j].date().ordinal() by {
            if j == before.len() && i < j {
                assert(is_bracketed(series, from, to, m, before[i]));
                let at = choose|at: int|
                    0 <= at < m && brackets(series, from, to, at) && #[trigger] series[at]
                        == before[i];
                assert(series[at].date().ordinal() <= series[m as int].date().ordinal());
            }
        }
    }
}

/// The position in `series` from which the bracketing range took its `k`-th
/// sample among the first `n`.
pub open spec fn origin(series: Seq<PopulationSample>, from: Date, to: Date, n: nat, k: int) -> int
    decreases n,
{
    if n == 0 {
        0
    } else {
        let m = (n - 1) as nat;
        if brackets(series, from, to, m as int) && k == bracketing_prefix(series, from, to, m).len() {
            m as int
        } else {
            origin(series, from, to, m, k)
        }
    }
}

/// Each sample of a bracketing range stands in the series at its origin, a
/// position that belongs to the range, and the origins rise with the samples.
pub proof fn lemma_origin(series: Seq<PopulationSample>, from: Date, to: Date, n: nat)
    requires
        n <= series.len(),
    ensures
        forall|k: int|
            0 <= k < bracketing_prefix(series, from, to, n).len() ==> {
                let at = #[trigger] origin(series, from, to, n, k);
                &&& 0 <= at < n
                &&& brackets(series, from, to, at)
                &&& series[at] == bracketing_prefix(series, from, to, n)[k]
            },
        forall|k: int, l: int|
            0 <= k < l < bracketing_prefix(series, from, to, n).len() ==> #[trigger] origin(
                series,
                from,
                to,
                n,
                k,
            ) < #[trigger] origin(series, from, to, n, l),
    decreases n,
{
    if n > 0 {
        let m = (n - 1) as nat;
        lemma_origin(series, from, to, m);
        let before = bracketing_prefix(series, from, to, m);
        let now = bracketing_prefix(series, from, to, n);
        assert forall|k: int| 0 <= k < now.len() implies {
            let at = #[trigger] origin(series, from, to, n, k);
            &&& 0 <= at < n
            &&& brackets(series, from, to, at)
            &&& series[at] == now[k]
        } by {
            if k < before.len() {
                assert(origin(series, from, to, n, k) == origin(series, from, to, m, k));
                assert(now[k] == before[k]);
            }
        }
        assert forall|k: int, l: int| 0 <= k < l < now.len() implies #[trigger] origin(
            series,
            from,
            to,
            n,
            k,
        ) < #[trigger] origin(series, from, to, n, l) by {
            assert(origin(series, from, to, n, k) == origin(series, from, to, m, k));
            if l < before.len() {
                assert(origin(series, from, to, n, l) == origin(series, from, to, m, l));
            }
        }
    }
}

/// A sequence whose every position belongs to its own bracketing range is
/// that range.
proof fn lemma_all_bracketed(range: Seq<PopulationSample>, from: Date, to: Date, n: nat)
    requires
        n <= range.len(),
        forall|k: int| 0 <= k < range.len() ==> brackets(range, from, to, k),
    ensures
        bracketing_prefix(range, from, to, n) == range.take(n as int),
    decreases n,
{
    if n > 0 {
        lemma_all_bracketed(range, from, to, (n - 1) as nat);
        assert(range.take(n as int) =~= range.take(n - 1).push(range[n - 1]));
    } else {
        assert(range.take(0) =~= Seq::<PopulationSample>::empty());
    }
}

/// The bracketing range of a bracketing range, for the same interval, is that
/// range.
pub proof fn lemma_bracketing_range_idempotent(series: Seq<PopulationSample>, from: Date, to: Date)
    ensures
        bracketing_range(bracketing_range(series, from, to), from, to) == bracketing_range(
            series,
            from,
            to,
        ),
{
    let range = bracketing_range(series, from, to);
    lemma_origin(series, from, to, series.len());
    assert forall|k: int| 0 <= k < range.len() implies brackets(range, from, to, k) by {
        let at = origin(series, from, to, series.len(), k);
        if within(from, to)(series[at]) {
        } else if is_latest_before(series, from, at) {
            assert forall|l: int| k < l < range.len() implies range[l].date.ordinal()
                >= from.ordinal() by {
                let later = origin(series, from, to, series.len(), l);
                assert(at < later);
            }
        } else {
            assert forall|l: int| 0 <= l < k implies range[l].date.ordinal() <= to.ordinal() by {
                let earlier = origin(series, from, to, series.len(), l);
                assert(earlier < at);
            }
        }
    }
    lemma_all_bracketed(range, from, to, range.len());
    assert(range.take(range.len() as int) =~= range);
}

/// Past the last position dated `day` or earlier, the bracketing range of an
/// interval that holds `day` has that position's sample as its latest up to
/// `day`.
proof fn lemma_bracket_keeps_latest(
    series: Seq<PopulationSample>,
    from: Date,
    to: Date,
    day: Date,
    i: int,
    n: nat,
)
    requires
        from.ordinal() <= day.ordinal() <= to.ordinal(),
        0 <= i < n <= series.len(),
        series[i].date.ordinal() <= day.ordinal(),
        forall|j: int| i < j < series.len() ==> series[j].date.ordinal() > day.ordinal(),
    ensures
        latest_upto(bracketing_prefix(series, from, to, n), day) == Some(series[i]),
    decreases n,
{
    let m = (n - 1) as nat;
    let before = bracketing_prefix(series, from, to, m);
    if m == i {
        assert(brackets(series, from, to, i));
        assert(before.push(series[i]).drop_last() =~= before);
    } else {
        lemma_bracket_keeps_latest(series, from, to, day, i, m);
        assert(before.push(series[m as int]).drop_last() =~= before);
    }
}

/// The bracketing range of an interval that holds `day` begins with the first
/// sample of a series whose samples are all dated after `day`.
proof fn lemma_bracket_keeps_first(
    series: Seq<PopulationSample>,
    from: Date,
    to: Date,
    day: Date,
    n: nat,
)
    requires
        from.ordinal() <= day.ordinal() <= to.ordinal(),
        0 < n <= series.len(),
        forall|j: int| 0 <= j < series.len() ==> series[j].date.ordinal() > day.ordinal(),
    ensures
        bracketing_prefix(series, from, to, n).len() > 0,
        bracketing_prefix(series, from, to, n)[0] == series[0],
    decreases n,
{
    if n == 1 {
        assert(bracketing_prefix(series, from, to, 0).len() == 0);
        assert(brackets(series, from, to, 0));
    } else {
        lemma_bracket_keeps_first(series, from, to, day, (n - 1) as nat);
    }
}

/// On a day within the interval, the bracketing range holds the same sample
/// in force as the whole series, and so the same population.
pub proof fn lemma_bracketing_range_suffices(
    series: Seq<PopulationSample>,
    from: Date,
    to: Date,
    day: Date,
)
    requires
        from.ordinal() <= day.ordinal() <= to.ordinal(),
    ensures
        in_force(bracketing_range(series, from, to), day) == in_force(series, day),
        population_on(bracketing_range(series, from, to), day) == population_on(series, day),
{
    let range = bracketing_range(series, from, to);
    lemma_latest_upto(series, day);
    if latest_upto(series, day) is Some {
        let i = choose|i: int|
            {
                &&& 0 <= i < series.len()
                &&& Some(#[trigger] series[i]) == latest_upto(series, day)
                &&& series[i].date.ordinal() <= day.ordinal()
                &&& forall|j: int| i < j < series.len() ==> series[j].date.ordinal() > day.ordinal()
            };
        lemma_bracket_keeps_latest(series, from, to, day, i, series.len());
    } else {
        lemma_bracketing_prefix_members(series, from, to, series.len());
        lemma_latest_upto(range, day);
        assert forall|k: int| 0 <= k < range.len() implies range[k].date.ordinal()
            > day.ordinal() by {
            assert(is_bracketed(series, from, to, series.len(), range[k]));
            let i = choose|i: int|
                0 <= i < series.len() && brackets(series, from, to, i) && #[trigger] series[i]
                    == range[k];
            assert(series[i].date.ordinal() > day.ordinal());
        }
        if series.len() > 0 {
            lemma_bracket_keeps_first(series, from, to, day, series.len());
        }
    }
}

/// The samples of `region`, arranged by date.
pub fn series_of(samples: &Vec<PopulationSample>, region: &String) -> (out: Vec<PopulationSample>)
    ensures
        out@ == series(samples@, region@),
{
    let mut own: Vec<PopulationSample> = Vec::new();
    let mut i: usize = 0;
    while i < samples.len()
        invariant
            i <= samples.len(),
            own@ == samples@.take(i as int).filter(sampled_in(region@)),
        decreases samples.len() - i,
    {
        proof {
            broadcast use Seq::lemma_filter_push;

            assert(samples@.take(i + 1) =~= samples@.take(i as int).push(samples[i as int]));
        }
        if samples[i].region == *region {
            own.push(samples[i].clone());
        }
        i += 1;
    }
    proof {
        assert(samples@.take(i as int) =~= samples@);
    }
    arrange(own)
}

/// The position of the last sample dated before `day`.
fn last_before(series: &Vec<PopulationSample>, day: Date) -> (found: Option<usize>)
    ensures
        match found {
            Some(i) => is_latest_before(series@, day, i as int),
            None => forall|i: int| 0 <= i < series.len() ==> series[i].date.ordinal() >= day.ordinal(),
        },
{
    let mut i: usize = series.len();
    while i > 0
        invariant
            i <= series.len(),
            forall|j: int| i <= j < series.len() ==> series[j].date.ordinal() >= day.ordinal(),
        decreases i,
    {
        if series[i - 1].date.is_before(&day) {
            return Some(i - 1);
        }
        i -= 1;
    }
    None
}

/// The position of the first sample dated after `day`.
fn first_after(series: &Vec<PopulationSample>, day: Date) -> (found: Option<usize>)
    ensures
        match found {
            Some(i) => is_earliest_after(series@, day, i as int),
            None => forall|i: int| 0 <= i < series.len() ==> series[i].date.ordinal() <= day.ordinal(),
        },
{
    let mut i: usize = 0;
    while i < series.len()
        invariant
            i <= series.len(),
            forall|j: int| 0 <= j < i ==> series[j].date.ordinal() <= day.ordinal(),
        decreases series.len() - i,
    {
        if day.is_before(&series[i].date) {
            return Some(i);
        }
        i += 1;
    }
    None
}

/// The bracketing range of `from` to `to` in `series`.
pub fn bracket(series: &Vec<PopulationSample>, from: Date, to: Date) -> (out: Vec<PopulationSample>)
    ensures
        out@ == bracketing_range(series@, from, to),
{
    let before = last_before(series, from);
    let after = first_after(series, to);
    let mut out: Vec<PopulationSample> = Vec::new();
    let mut i: usize = 0;
    while i < series.len()
        invariant
            i <= series.len(),
            out@ == bracketing_prefix(series@, from, to, i as nat),
            match before {
                Some(b) => is_latest_before(series@, from, b as int),
                None => forall|j: int|
                    0 <= j < series.len() ==> series[j].date.ordinal() >= from.ordinal(),
            },
            match after {
                Some(a) => is_earliest_after(series@, to, a as int),
                None => forall|j: int|
                    0 <= j < series.len() ==> series[j].date.ordinal() <= to.ordinal(),
            },
        decreases series.len() - i,
    {
        let day = series[i].date;
        let inside = from.is_at_most(&day) && day.is_at_most(&to);
        let leads = match before {
            Some(b) => b == i,
            None => false,
        };
        let trails = match after {
            Some(a) => a == i,
            None => false,
        };
        proof {
            assert(leads == is_latest_before(series@, from, i as int));
            assert(trails == is_earliest_after(series@, to, i as int));
        }
        if inside || leads || trails {
            out.push(series[i].clone());
        }
        i += 1;
    }
    out
}

/// The bracketing range of `from` to `to` for `region`: its samples dated
/// within the interval, its latest sample before the interval and its earliest
/// sample after it, by date. Empty where the region has no sample.
pub fn resolve_range(samples: &Vec<PopulationSample>, region: &Id, from: Date, to: Date) -> (out:
    Vec<PopulationSample>)
    ensures
        out@ == bracketing_range(series(samples@, region@), from, to),
        is_chronological(out@),
        out.len() <= series(samples@, region@).filter(within(from, to)).len() + 2,
{
    let own = series_of(samples, region.as_string());
    proof {
        lemma_chronological_order(samples@.filter(sampled_in(region@)));
        lemma_bracketing_range_chronological(own@, from, to);
        lemma_bracketing_range_bound(own@, from, to);
    }
    bracket(&own, from, to)
}

/// The population that holds on `day` in `series`.
pub fn estimate_on(series: &Vec<PopulationSample>, day: Date) -> (population: Option<i64>)
    ensures
        population == population_on(series@, day),
{
    let mut i: usize = series.len();
    proof {
        assert(series@.take(i as int) =~= series@);
    }
    while i > 0
        invariant
            i <= series.len(),
            latest_upto(series@, day) == latest_upto(series@.take(i as int), day),
        decreases i,
    {
        proof {
            assert(series@.take(i as int).drop_last() =~= series@.take(i - 1));
        }
        if series[i - 1].date.is_at_most(&day) {
            return series[i - 1].population;
        }
        i -= 1;
    }
    if series.len() > 0 {
        series[0].population
    } else {
        None
    }
}

/// The latest population that `series` reports.
pub fn latest_estimate(series: &Vec<PopulationSample>) -> (population: Option<i64>)
    ensures
        population == latest_known(series@),
{
    let mut i: usize = series.len();
    proof {
        assert(series@.take(i as int) =~= series@);
    }
    while i > 0
        invariant
            i <= series.len(),
            latest_known(series@) == latest_known(series@.take(i as int)),
        decreases i,
    {
        proof {
            assert(series@.take(i as int).drop_last() =~= series@.take(i - 1));
        }
        if series[i - 1].population.is_some() {
            return series[i - 1].population;
        }
        i -= 1;
    }
    None
}

/// The population of `region`. With a date: the population of the sample
/// that holds on it, which is the last one taken on or before that date or,
/// before the first sample, the first one. Without a date: the population of
/// the latest sample that reports one. `None` where no such sample exists or
/// the sample reports no population.
pub fn resolve(samples: &Vec<PopulationSample>, region: &Id, date: Option<Date>) -> (population:
    Option<i64>)
    ensures
        population == resolved(series(samples@, region@), date),
{
    let own = series_of(samples, region.as_string());
    match date {
        Some(day) => estimate_on(&own, day),
        None => latest_estimate(&own),
    }
}

} // verus!
