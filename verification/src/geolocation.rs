//! From what a geolocation record says of an address to a region identifier.

use vstd::prelude::*;
use crate::region::{descends, SEPARATOR};

verus! {

/// Where an address is guessed to be.
#[derive(Debug, PartialEq, Eq)]
pub struct Guess {
    /// An ISO 3166-1 alpha-2 code.
    pub country: String,
    /// The region portion of an ISO 3166-2 code.
    pub subdivision: Option<String>,
}

/// What a geolocation record holds of an address: the ISO code of its
/// country and those of its subdivisions, the largest first, each as far as
/// the record has one.
#[derive(Debug, PartialEq, Eq)]
pub struct Located {
    pub country: Option<String>,
    pub subdivisions: Vec<Option<String>>,
}

/// The guess that a record allows: its country and the code of its first
/// subdivision. A record without a country code allows none.
pub open spec fn guessed(record: Located) -> Option<Guess> {
    match record.country {
        Some(country) => Some(
            Guess {
                country,
                subdivision: if record.subdivisions.len() > 0 {
                    record.subdivisions[0]
                } else {
                    None
                },
            },
        ),
        None => None,
    }
}

/// The identifier that a guess spells: the country's code, followed by a
/// separator and the subdivision's code where the subdivision is known.
pub open spec fn composed(guess: Guess) -> Seq<char> {
    match guess.subdivision {
        Some(subdivision) => guess.country@.push(SEPARATOR) + subdivision@,
        None => guess.country@,
    }
}

/// The region of a caller: what the guess spells, or `fallback` where there
/// is no guess.
pub open spec fn located_in(guess: Option<Guess>, fallback: Seq<char>) -> Seq<char> {
    match guess {
        Some(guess) => composed(guess),
        None => fallback,
    }
}

/// The region that callers are taken to be in when nothing is known of them.
pub open spec fn default_region() -> Seq<char> {
    seq!['A', 'U']
}

/// What a guess spells lies in the guessed country.
pub proof fn lemma_composed_descends(guess: Guess)
    ensures
        descends(composed(guess), guess.country@),
{
    if let Some(subdivision) = guess.subdivision {
        let head = guess.country@.push(SEPARATOR);
        assert(head =~= (head + subdivision@).subrange(0, head.len() as int));
    }
}

/// The guess that a lookup allows. There is none where the lookup found no
/// record, or a record without a country code.
pub fn guess_from(record: Option<Located>) -> (guess: Option<Guess>)
    ensures
        guess == match record {
            Some(record) => guessed(record),
            None => None,
        },
{
    match record {
        Some(Located { country: Some(country), subdivisions }) => {
            let mut subdivisions = subdivisions;
            let subdivision = if subdivisions.len() > 0 {
                subdivisions.swap_remove(0)
            } else {
                None
            };
            Some(Guess { country, subdivision })
        },
        _ => None,
    }
}

/// The identifier that `guess` spells.
pub fn compose(guess: Guess) -> (id: String)
    ensures
        id@ == composed(guess),
{
    let Guess { country, subdivision } = guess;
    match subdivision {
        Some(subdivision) => {
            let mut id = country;
            proof {
                reveal_strlit("-");
            }
            id.append("-");
            assert("-"@ =~= seq![SEPARATOR]);
            id.append(subdivision.as_str());
            assert(id@ =~= country@.push(SEPARATOR) + subdivision@);
            id
        },
        None => country,
    }
}

/// The region of a caller: what `guess` spells, or `fallback` where there is
/// no guess.
pub fn region_or(guess: Option<Guess>, fallback: &str) -> (id: String)
    ensures
        id@ == located_in(guess, fallback@),
{
    match guess {
        Some(guess) => compose(guess),
        None => fallback.to_owned(),
    }
}

/// The region of a caller, with `AU` for a caller of whom nothing is known.
pub fn get_current_region(guess: Option<Guess>) -> (id: String)
    ensures
        id@ == located_in(guess, default_region()),
{
    proof {
        reveal_strlit("AU");
    }
    assert("AU"@ =~= default_region());
    region_or(guess, "AU")
}

} // verus!
