use regional_stats::date::Date;
use regional_stats::id::Id;
use regional_stats::timeline::arrange;
use regional_stats::population::{
    bracket, estimate_on, latest_estimate, resolve, resolve_range, series_of, PopulationSample,
};

fn sample(region: &str, date: (i32, u8, u8), population: Option<i64>) -> PopulationSample {
    PopulationSample {
        region: region.to_string(),
        date: Date::new(date.0, date.1, date.2),
        population,
    }
}

fn dates(samples: &[PopulationSample]) -> Vec<(i32, u8, u8)> {
    samples.iter().map(|s| (s.date.year, s.date.month, s.date.day)).collect()
}

fn storage() -> Vec<PopulationSample> {
    vec![
        sample("AU", (2020, 6, 1), Some(25_200_000)),
        sample("US", (2020, 2, 1), Some(331_000_000)),
        sample("AU", (2019, 1, 1), Some(24_800_000)),
        sample("AU", (2020, 1, 1), Some(25_000_000)),
        sample("AU", (2021, 1, 1), None),
        sample("AU", (2020, 3, 10), Some(25_100_000)),
        sample("AU", (2022, 1, 1), Some(25_700_000)),
    ]
}

#[test]
fn dates_compare_by_year_month_day() {
    let a = Date::new(2020, 3, 1);
    let b = Date::new(2020, 3, 15);
    let c = Date::new(2019, 12, 31);
    assert!(a.is_before(&b));
    assert!(!b.is_before(&a));
    assert!(!a.is_before(&a));
    assert!(a.is_at_most(&a));
    assert!(c.is_before(&a));
    assert!(c.is_at_most(&b));
    assert!(!b.is_at_most(&c));
    assert!(Date::new(-1, 12, 31).is_before(&Date::new(0, 1, 1)));
}

#[test]
fn series_is_one_region_by_date() {
    let au = series_of(&storage(), &"AU".to_string());
    assert_eq!(
        dates(&au),
        vec![(2019, 1, 1), (2020, 1, 1), (2020, 3, 10), (2020, 6, 1), (2021, 1, 1), (2022, 1, 1)]
    );
    assert!(au.iter().all(|s| s.region == "AU"));
    assert!(series_of(&storage(), &"NZ".to_string()).is_empty());
}

#[test]
fn series_keeps_order_of_equal_dates() {
    let samples = vec![
        sample("AU", (2020, 1, 1), Some(2)),
        sample("AU", (2019, 1, 1), Some(1)),
        sample("AU", (2020, 1, 1), Some(3)),
        sample("AU", (2020, 1, 1), None),
    ];
    let au = series_of(&samples, &"AU".to_string());
    let populations: Vec<Option<i64>> = au.iter().map(|s| s.population).collect();
    assert_eq!(populations, vec![Some(1), Some(2), Some(3), None]);
}

#[test]
fn range_brackets_window_without_inner_samples() {
    let samples = vec![
        sample("AU", (2020, 1, 1), Some(25_000_000)),
        sample("AU", (2020, 6, 1), Some(25_200_000)),
    ];
    let au = Id::normalize("AU");
    let range = resolve_range(&samples, &au, Date::new(2020, 3, 1), Date::new(2020, 3, 15));
    assert_eq!(dates(&range), vec![(2020, 1, 1), (2020, 6, 1)]);
    assert_eq!(range[0].population, Some(25_000_000));
    assert_eq!(range[1].population, Some(25_200_000));
}

#[test]
fn range_is_inner_samples_and_nearest_neighbours() {
    let au = Id::normalize("au");
    let range = resolve_range(&storage(), &au, Date::new(2020, 2, 1), Date::new(2020, 12, 31));
    assert_eq!(dates(&range), vec![(2020, 1, 1), (2020, 3, 10), (2020, 6, 1), (2021, 1, 1)]);
    assert_eq!(range[3].population, None);
}

#[test]
fn range_bounds_are_inclusive() {
    let au = Id::normalize("AU");
    let range = resolve_range(&storage(), &au, Date::new(2020, 1, 1), Date::new(2020, 6, 1));
    assert_eq!(
        dates(&range),
        vec![(2019, 1, 1), (2020, 1, 1), (2020, 3, 10), (2020, 6, 1), (2021, 1, 1)]
    );
}

#[test]
fn range_of_single_date_has_its_neighbours() {
    let au = Id::normalize("AU");
    let day = Date::new(2020, 3, 10);
    let range = resolve_range(&storage(), &au, day, day);
    assert_eq!(dates(&range), vec![(2020, 1, 1), (2020, 3, 10), (2020, 6, 1)]);
    let other = Date::new(2020, 3, 11);
    let range = resolve_range(&storage(), &au, other, other);
    assert_eq!(dates(&range), vec![(2020, 3, 10), (2020, 6, 1)]);
}

#[test]
fn range_at_the_ends_has_one_neighbour() {
    let au = Id::normalize("AU");
    let range = resolve_range(&storage(), &au, Date::new(2000, 1, 1), Date::new(2019, 6, 1));
    assert_eq!(dates(&range), vec![(2019, 1, 1), (2020, 1, 1)]);
    let range = resolve_range(&storage(), &au, Date::new(2021, 6, 1), Date::new(2030, 1, 1));
    assert_eq!(dates(&range), vec![(2021, 1, 1), (2022, 1, 1)]);
    let range = resolve_range(&storage(), &au, Date::new(2000, 1, 1), Date::new(2000, 1, 2));
    assert_eq!(dates(&range), vec![(2019, 1, 1)]);
}

#[test]
fn range_takes_one_of_equal_dated_neighbours() {
    let samples = vec![
        sample("AU", (2020, 1, 1), Some(1)),
        sample("AU", (2020, 1, 1), Some(2)),
        sample("AU", (2020, 6, 1), Some(3)),
        sample("AU", (2020, 6, 1), Some(4)),
    ];
    let au = Id::normalize("AU");
    let range = resolve_range(&samples, &au, Date::new(2020, 3, 1), Date::new(2020, 3, 15));
    let populations: Vec<Option<i64>> = range.iter().map(|s| s.population).collect();
    assert_eq!(populations, vec![Some(2), Some(3)]);
}

#[test]
fn range_of_inverted_interval_is_its_two_neighbours() {
    let au = Id::normalize("AU");
    let range = resolve_range(&storage(), &au, Date::new(2021, 6, 1), Date::new(2019, 6, 1));
    assert_eq!(dates(&range), vec![(2020, 1, 1), (2021, 1, 1)]);
    let one = vec![sample("AU", (2020, 1, 1), Some(1))];
    let range = resolve_range(&one, &au, Date::new(2021, 1, 1), Date::new(2019, 1, 1));
    assert_eq!(dates(&range), vec![(2020, 1, 1)]);
}

#[test]
fn range_is_the_same_when_asked_again() {
    let au = Id::normalize("AU");
    let from = Date::new(2020, 2, 1);
    let to = Date::new(2020, 12, 31);
    let first = resolve_range(&storage(), &au, from, to);
    let second = resolve_range(&storage(), &au, from, to);
    assert_eq!(dates(&first), dates(&second));
    let inside = storage()
        .iter()
        .filter(|s| s.region == "AU" && !s.date.is_before(&from) && s.date.is_at_most(&to))
        .count();
    assert_eq!(inside, 2);
    assert!(first.len() <= inside + 2);
    let again = bracket(&first, from, to);
    assert_eq!(dates(&again), dates(&first));
}

#[test]
fn region_without_samples_resolves_to_nothing() {
    let nz = Id::normalize("NZ");
    assert!(resolve_range(&storage(), &nz, Date::new(2020, 1, 1), Date::new(2020, 12, 31)).is_empty());
    assert_eq!(resolve(&storage(), &nz, None), None);
    assert_eq!(resolve(&storage(), &nz, Some(Date::new(2020, 1, 1))), None);
    assert!(resolve_range(&Vec::new(), &nz, Date::new(2020, 1, 1), Date::new(2020, 1, 1)).is_empty());
    assert_eq!(resolve(&Vec::new(), &nz, None), None);
}

#[test]
fn resolve_without_date_is_latest_known() {
    let au = Id::normalize("AU");
    assert_eq!(resolve(&storage(), &au, None), Some(25_700_000));
    let trailing_null = vec![
        sample("AU", (2020, 1, 1), Some(25_000_000)),
        sample("AU", (2021, 1, 1), None),
        sample("AU", (2019, 1, 1), Some(24_800_000)),
    ];
    assert_eq!(resolve(&trailing_null, &au, None), Some(25_000_000));
    let only_null = vec![sample("AU", (2020, 1, 1), None)];
    assert_eq!(resolve(&only_null, &au, None), None);
    assert_eq!(latest_estimate(&only_null), None);
}

#[test]
fn resolve_with_date_is_sample_in_force() {
    let au = Id::normalize("AU");
    let on = |y, m, d| resolve(&storage(), &au, Some(Date::new(y, m, d)));
    assert_eq!(on(2020, 3, 10), Some(25_100_000));
    assert_eq!(on(2020, 3, 1), Some(25_000_000));
    assert_eq!(on(2020, 5, 31), Some(25_100_000));
    assert_eq!(on(2018, 1, 1), Some(24_800_000));
    assert_eq!(on(2021, 6, 1), None);
    assert_eq!(on(2030, 1, 1), Some(25_700_000));
}

#[test]
fn estimate_reads_a_series() {
    let series = vec![
        sample("AU", (2020, 1, 1), Some(1)),
        sample("AU", (2020, 6, 1), Some(2)),
    ];
    assert_eq!(estimate_on(&series, Date::new(2019, 1, 1)), Some(1));
    assert_eq!(estimate_on(&series, Date::new(2020, 1, 1)), Some(1));
    assert_eq!(estimate_on(&series, Date::new(2020, 5, 1)), Some(1));
    assert_eq!(estimate_on(&series, Date::new(2020, 6, 1)), Some(2));
    assert_eq!(estimate_on(&series, Date::new(2021, 1, 1)), Some(2));
    assert_eq!(estimate_on(&Vec::new(), Date::new(2021, 1, 1)), None);
}

#[test]
fn arrange_orders_by_date_and_is_stable() {
    let rows = vec![
        sample("b", (2020, 2, 1), Some(1)),
        sample("a", (2020, 1, 1), Some(2)),
        sample("c", (2020, 2, 1), Some(3)),
        sample("d", (2019, 12, 31), Some(4)),
        sample("e", (2020, 1, 1), Some(5)),
    ];
    let regions: Vec<String> = arrange(rows).into_iter().map(|s| s.region).collect();
    assert_eq!(regions, vec!["d", "a", "e", "b", "c"]);
    assert!(arrange(Vec::<PopulationSample>::new()).is_empty());
    let ordered = vec![sample("a", (2020, 1, 1), None), sample("b", (2020, 1, 2), None)];
    let regions: Vec<String> = arrange(ordered).into_iter().map(|s| s.region).collect();
    assert_eq!(regions, vec!["a", "b"]);
}
