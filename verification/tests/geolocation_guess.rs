use regional_stats::geolocation::{compose, get_current_region, guess_from, region_or, Guess, Located};

fn guess(country: &str, subdivision: Option<&str>) -> Guess {
    Guess { country: country.to_string(), subdivision: subdivision.map(str::to_string) }
}

#[test]
fn guess_composes_country_and_subdivision() {
    assert_eq!(get_current_region(Some(guess("US", Some("CA")))), "US-CA");
    assert_eq!(compose(guess("US", Some("CA"))), "US-CA");
}

#[test]
fn guess_without_subdivision_is_country() {
    assert_eq!(get_current_region(Some(guess("NZ", None))), "NZ");
    assert_eq!(compose(guess("NZ", None)), "NZ");
}

#[test]
fn no_guess_falls_back_to_default() {
    assert_eq!(get_current_region(None), "AU");
    assert_eq!(region_or(None, "NZ"), "NZ");
    assert_eq!(region_or(Some(guess("US", None)), "NZ"), "US");
}

#[test]
fn record_gives_country_and_first_subdivision() {
    let record = Located {
        country: Some("GB".to_string()),
        subdivisions: vec![Some("ENG".to_string()), Some("OXF".to_string())],
    };
    let found = guess_from(Some(record)).unwrap();
    assert_eq!(found.country, "GB");
    assert_eq!(found.subdivision.as_deref(), Some("ENG"));
    assert_eq!(compose(found), "GB-ENG");
}

#[test]
fn record_without_subdivision_code_gives_country() {
    let record = Located { country: Some("GB".to_string()), subdivisions: vec![None, Some("OXF".to_string())] };
    let found = guess_from(Some(record)).unwrap();
    assert_eq!(found.subdivision, None);
    let record = Located { country: Some("GB".to_string()), subdivisions: Vec::new() };
    assert_eq!(guess_from(Some(record)).unwrap().subdivision, None);
}

#[test]
fn record_without_country_gives_no_guess() {
    let record = Located { country: None, subdivisions: vec![Some("CA".to_string())] };
    assert!(guess_from(Some(record)).is_none());
    assert!(guess_from(None).is_none());
}
