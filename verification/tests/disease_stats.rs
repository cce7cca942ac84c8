use regional_stats::date::Date;
use regional_stats::disease::{
    get_disease_by_id, get_disease_by_id_in_region, history_of, larger, links_for, reporting,
    summarize, Link, Observation,
};
use regional_stats::error::Failure;
use regional_stats::id::Id;
use regional_stats::population::PopulationSample;

fn seen(region: &str, date: (i32, u8, u8), cases: Option<i64>) -> Observation {
    Observation {
        region: region.to_string(),
        date: Date::new(date.0, date.1, date.2),
        cases,
        deaths: None,
        recoveries: None,
    }
}

fn counted(
    region: &str,
    date: (i32, u8, u8),
    cases: Option<i64>,
    deaths: Option<i64>,
    recoveries: Option<i64>,
) -> Observation {
    Observation {
        region: region.to_string(),
        date: Date::new(date.0, date.1, date.2),
        cases,
        deaths,
        recoveries,
    }
}

fn sample(region: &str, date: (i32, u8, u8), population: Option<i64>) -> PopulationSample {
    PopulationSample {
        region: region.to_string(),
        date: Date::new(date.0, date.1, date.2),
        population,
    }
}

fn link(region: Option<&str>, uri: &str) -> Link {
    Link { region: region.map(str::to_string), uri: uri.to_string(), description: String::new() }
}

#[test]
fn summary_takes_maximum_not_latest() {
    let observations = vec![
        seen("AU", (2020, 3, 1), Some(5)),
        seen("AU", (2020, 3, 2), Some(3)),
        seen("AU", (2020, 3, 3), Some(9)),
    ];
    let out = summarize(&observations, &Vec::new());
    assert_eq!(out.len(), 1);
    assert_eq!(out[0].region, "AU");
    assert_eq!(out[0].cases, Some(9));
    let observations = vec![
        seen("AU", (2020, 3, 1), Some(5)),
        seen("AU", (2020, 3, 2), Some(9)),
        seen("AU", (2020, 3, 3), Some(3)),
    ];
    assert_eq!(summarize(&observations, &Vec::new())[0].cases, Some(9));
}

#[test]
fn summary_has_one_entry_per_reporting_region() {
    let observations = vec![
        counted("US", (2020, 3, 1), Some(10), None, Some(1)),
        counted("AU", (2020, 3, 1), Some(5), Some(1), None),
        counted("US", (2020, 3, 2), None, Some(2), Some(4)),
        counted("AU", (2020, 3, 2), Some(7), None, None),
        counted("NZ", (2020, 3, 2), None, None, None),
    ];
    let populations = vec![
        sample("AU", (2020, 1, 1), Some(25_000_000)),
        sample("AU", (2021, 1, 1), None),
        sample("US", (2019, 1, 1), Some(328_000_000)),
        sample("US", (2020, 1, 1), Some(331_000_000)),
    ];
    let out = summarize(&observations, &populations);
    let regions: Vec<&str> = out.iter().map(|s| s.region.as_str()).collect();
    assert_eq!(regions, vec!["US", "AU", "NZ"]);
    assert_eq!((out[0].cases, out[0].deaths, out[0].recoveries), (Some(10), Some(2), Some(4)));
    assert_eq!((out[1].cases, out[1].deaths, out[1].recoveries), (Some(7), Some(1), None));
    assert_eq!((out[2].cases, out[2].deaths, out[2].recoveries), (None, None, None));
    assert_eq!(out[0].population, Some(331_000_000));
    assert_eq!(out[1].population, Some(25_000_000));
    assert_eq!(out[2].population, None);
    assert!(summarize(&Vec::new(), &populations).is_empty());
}

#[test]
fn larger_ignores_absent_counts() {
    assert_eq!(larger(None, None), None);
    assert_eq!(larger(Some(3), None), Some(3));
    assert_eq!(larger(None, Some(-4)), Some(-4));
    assert_eq!(larger(Some(3), Some(9)), Some(9));
    assert_eq!(larger(Some(9), Some(3)), Some(9));
    assert_eq!(larger(Some(i64::MIN), Some(i64::MAX)), Some(i64::MAX));
}

#[test]
fn reporting_lists_regions_once_in_order() {
    let observations = vec![
        seen("US", (2020, 3, 1), None),
        seen("AU", (2020, 3, 1), None),
        seen("US", (2020, 3, 2), None),
        seen("us", (2020, 3, 2), None),
    ];
    assert_eq!(reporting(&observations), vec!["US", "AU", "us"]);
}

#[test]
fn profile_needs_a_disease_record() {
    let observations = vec![seen("AU", (2020, 3, 1), Some(5))];
    let found = get_disease_by_id(Some("COVID-19"), &observations, &Vec::new()).unwrap();
    assert_eq!(found.disease, "COVID-19");
    assert_eq!(found.stats.len(), 1);
    assert_eq!(found.stats[0].cases, Some(5));
    let missing = get_disease_by_id(None::<&str>, &observations, &Vec::new());
    assert_eq!(missing.unwrap_err(), Failure::NotFound);
}

#[test]
fn course_brackets_observations_with_population() {
    let populations = vec![
        sample("AU", (2020, 1, 1), Some(25_000_000)),
        sample("AU", (2020, 6, 1), Some(25_200_000)),
        sample("US", (2020, 3, 5), Some(331_000_000)),
    ];
    let observations = vec![
        counted("AU", (2020, 3, 15), Some(300), Some(5), None),
        counted("US", (2020, 3, 10), Some(1000), None, None),
        counted("AU", (2020, 3, 1), Some(25), None, Some(1)),
    ];
    let au = Id::normalize("AU");
    let course = get_disease_by_id_in_region(&Vec::new(), &observations, &populations, &au);
    let sampled: Vec<(u8, Option<i64>)> =
        course.population.iter().map(|s| (s.date.month, s.population)).collect();
    assert_eq!(sampled, vec![(1, Some(25_000_000)), (6, Some(25_200_000))]);
    assert_eq!(course.stats.len(), 2);
    assert_eq!(course.stats[0].date, Date::new(2020, 3, 1));
    assert_eq!(course.stats[1].date, Date::new(2020, 3, 15));
    assert_eq!(course.stats[0].region, "AU");
    assert_eq!(course.stats[0].cases, Some(25));
    assert_eq!(course.stats[0].deaths, None);
    assert_eq!(course.stats[0].recoveries, Some(1));
    assert_eq!(course.stats[1].cases, Some(300));
    assert_eq!(course.stats[1].deaths, Some(5));
    assert_eq!(course.stats[1].recoveries, None);
    assert_eq!(course.stats[0].population, Some(25_000_000));
    assert_eq!(course.stats[1].population, Some(25_000_000));
}

#[test]
fn course_population_follows_samples_inside_window() {
    let populations = vec![
        sample("AU", (2020, 4, 1), Some(3)),
        sample("AU", (2019, 1, 1), Some(1)),
        sample("AU", (2020, 2, 1), Some(2)),
        sample("AU", (2020, 8, 1), Some(4)),
        sample("AU", (2021, 1, 1), Some(5)),
    ];
    let observations = vec![
        seen("AU", (2020, 5, 1), Some(3)),
        seen("AU", (2020, 1, 1), Some(1)),
        seen("AU", (2020, 3, 1), Some(2)),
    ];
    let au = Id::normalize("AU");
    let course = get_disease_by_id_in_region(&Vec::new(), &observations, &populations, &au);
    let sampled: Vec<Option<i64>> = course.population.iter().map(|s| s.population).collect();
    assert_eq!(sampled, vec![Some(1), Some(2), Some(3), Some(4)]);
    let resolved: Vec<(Option<i64>, Option<i64>)> =
        course.stats.iter().map(|s| (s.cases, s.population)).collect();
    assert_eq!(resolved, vec![(Some(1), Some(1)), (Some(2), Some(2)), (Some(3), Some(3))]);
}

#[test]
fn course_of_region_without_observations_is_empty() {
    let populations = vec![sample("AU", (2020, 1, 1), Some(25_000_000))];
    let observations = vec![seen("US", (2020, 3, 1), Some(1))];
    let au = Id::normalize("AU");
    let course = get_disease_by_id_in_region(&Vec::new(), &observations, &populations, &au);
    assert!(course.stats.is_empty());
    assert!(course.population.is_empty());
    assert!(course.links.is_empty());
}

#[test]
fn course_without_population_has_null_population() {
    let observations = vec![seen("AU", (2020, 3, 1), Some(1))];
    let au = Id::normalize("AU");
    let course = get_disease_by_id_in_region(&Vec::new(), &observations, &Vec::new(), &au);
    assert_eq!(course.stats.len(), 1);
    assert_eq!(course.stats[0].population, None);
    assert!(course.population.is_empty());
}

#[test]
fn course_does_not_expand_hierarchy() {
    let observations = vec![
        seen("US", (2020, 3, 1), Some(1)),
        seen("US-CA", (2020, 3, 1), Some(2)),
    ];
    let us = Id::normalize("US");
    let own = history_of(&observations, &us);
    assert_eq!(own.len(), 1);
    assert_eq!(own[0].cases, Some(1));
}

#[test]
fn history_is_by_date_and_stable() {
    let observations = vec![
        seen("AU", (2020, 3, 2), Some(1)),
        seen("AU", (2020, 3, 1), Some(2)),
        seen("AU", (2020, 3, 2), Some(3)),
        seen("AU", (2020, 3, 1), Some(4)),
    ];
    let own = history_of(&observations, &Id::normalize("AU"));
    let cases: Vec<Option<i64>> = own.iter().map(|o| o.cases).collect();
    assert_eq!(cases, vec![Some(2), Some(4), Some(1), Some(3)]);
}

#[test]
fn link_applies_to_region_and_below() {
    let links = vec![
        link(None, "everywhere"),
        link(Some("US"), "us"),
        link(Some("US-CA"), "us-ca"),
        link(Some("CA"), "ca"),
    ];
    let uris = |region: &str| -> Vec<String> {
        links_for(&links, &Id::normalize(region)).into_iter().map(|l| l.uri).collect()
    };
    assert_eq!(uris("US"), vec!["everywhere", "us"]);
    assert_eq!(uris("US-CA"), vec!["everywhere", "us", "us-ca"]);
    assert_eq!(uris("CA"), vec!["everywhere", "ca"]);
    assert_eq!(uris("AU"), vec!["everywhere"]);
}
