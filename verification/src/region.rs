//! Region identifiers and the hierarchy they spell out.
//!
//! A country is identified by a code without a separator, a subdivision by
//! its country's code, a separator and the subdivision's own code.

use vstd::prelude::*;
use crate::error::Failure;
use crate::id::Id;
use crate::text::{begins_with_marked, chars_of, first_index_of, same_chars};

verus! {

/// Stands between a country's code and a subdivision's.
pub const SEPARATOR: char = '-';

/// Whether the identifier is free of separators, as a country's is.
pub open spec fn is_top_level(id: Seq<char>) -> bool {
    !id.contains(SEPARATOR)
}

/// What stands before the first separator of `id`, if it has one.
pub open spec fn parent(id: Seq<char>) -> Option<Seq<char>> {
    match id.index_of_first(SEPARATOR) {
        Some(i) => Some(id.take(i)),
        None => None,
    }
}

/// Whether `id` begins with `country` and a separator.
pub open spec fn is_subdivision_of(id: Seq<char>, country: Seq<char>) -> bool {
    country.push(SEPARATOR).is_prefix_of(id)
}

/// Whether `id` is `ancestor` or names a region below it.
pub open spec fn descends(id: Seq<char>, ancestor: Seq<char>) -> bool {
    id == ancestor || is_subdivision_of(id, ancestor)
}

/// An identifier has a parent exactly if it holds a separator, and it
/// descends from the parent it has.
pub proof fn lemma_parent(id: Seq<char>)
    ensures
        parent(id) is None <==> is_top_level(id),
        parent(id) matches Some(above) ==> descends(id, above),
{
    id.index_of_first_ensures(SEPARATOR);
    if let Some(i) = id.index_of_first(SEPARATOR) {
        assert(id.take(i).push(SEPARATOR) =~= id.subrange(0, i + 1));
    }
}

/// The parent of `id`: what stands before its first separator. A country has
/// none.
pub fn parent_of(id: &Id) -> (above: Option<Id>)
    ensures
        match above {
            Some(p) => parent(id@) == Some(p@),
            None => parent(id@) is None,
        },
        above is None <==> is_top_level(id@),
        above matches Some(p) ==> descends(id@, p@),
{
    proof {
        lemma_parent(id@);
    }
    let chars = chars_of(id.as_str());
    match first_index_of(&chars, SEPARATOR) {
        Some(i) => {
            proof {
                id@.index_of_first_ensures(SEPARATOR);
            }
            let head = id.as_str().substring_char(0, i);
            Some(Id::from_text(head.to_owned()))
        },
        None => None,
    }
}

/// Whether `id` is `ancestor` or begins with `ancestor` and a separator.
pub fn is_descendant_of(id: &Id, ancestor: &Id) -> (below: bool)
    ensures
        below == descends(id@, ancestor@),
{
    reads_below(id.as_str(), ancestor.as_str())
}

/// Whether the text `id` is the text `ancestor` or begins with it and a
/// separator.
pub fn reads_below(id: &str, ancestor: &str) -> (below: bool)
    ensures
        below == descends(id@, ancestor@),
{
    let chars = chars_of(id);
    let above = chars_of(ancestor);
    same_chars(&chars, &above) || begins_with_marked(&chars, &above, SEPARATOR)
}

/// A region as it is listed: its identifier, its name and, where it is known,
/// its outline.
#[derive(Debug, PartialEq, Eq)]
pub struct Region {
    pub id: String,
    pub name: String,
    pub geometry: Option<String>,
}

impl Clone for Region {
    fn clone(&self) -> (copy: Self)
        ensures
            copy == *self,
    {
        let geometry = match &self.geometry {
            Some(outline) => Some(outline.clone()),
            None => None,
        };
        Region { id: self.id.clone(), name: self.name.clone(), geometry }
    }
}

/// The identifier's characters, where there is an identifier.
pub open spec fn code_of(id: Option<&Id>) -> Option<Seq<char>> {
    match id {
        Some(id) => Some(id@),
        None => None,
    }
}

/// Holds of the regions that a listing for `country` shows: its subdivisions,
/// or the top-level regions where no country is given.
pub open spec fn listed_under(country: Option<Seq<char>>) -> spec_fn(Region) -> bool {
    |region: Region|
        match country {
            Some(code) => is_subdivision_of(region.id@, code),
            None => is_top_level(region.id@),
        }
}

/// Holds of the region identified by `id`.
pub open spec fn identified_by(id: Seq<char>) -> spec_fn(Region) -> bool {
    |region: Region| region.id@ == id
}

/// The subdivisions of `country` among `regions`; without a country, the
/// regions whose identifier has no separator. The order of `regions` is kept.
pub fn get_subregions(regions: &Vec<Region>, country: Option<&Id>) -> (out: Vec<Region>)
    ensures
        out@ == regions@.filter(listed_under(code_of(country))),
        forall|k: int| 0 <= k < out.len() ==> listed_under(code_of(country))(#[trigger] out[k]),
{
    let prefix = match country {
        Some(id) => Some(chars_of(id.as_str())),
        None => None,
    };
    let mut out: Vec<Region> = Vec::new();
    let mut i: usize = 0;
    while i < regions.len()
        invariant
            i <= regions.len(),
            match prefix {
                Some(chars) => country is Some && chars@ == country.unwrap()@,
                None => country is None,
            },
            out@ == regions@.take(i as int).filter(listed_under(code_of(country))),
        decreases regions.len() - i,
    {
        proof {
            broadcast use Seq::lemma_filter_push;

            assert(regions@.take(i + 1) =~= regions@.take(i as int).push(regions[i as int]));
        }
        let chars = chars_of(regions[i].id.as_str());
        let shown = match &prefix {
            Some(code) => begins_with_marked(&chars, code, SEPARATOR),
            None => first_index_of(&chars, SEPARATOR).is_none(),
        };
        proof {
            chars@.index_of_first_ensures(SEPARATOR);
        }
        if shown {
            out.push(regions[i].clone());
        }
        i += 1;
    }
    proof {
        broadcast use vstd::seq_lib::group_filter_ensures;

        assert(regions@.take(i as int) =~= regions@);
    }
    out
}

/// The region that `id` identifies: the first of `regions` that bears it.
/// Fails with `NotFound` exactly if none does.
pub fn region_by_id(regions: &Vec<Region>, id: &Id) -> (found: Result<Region, Failure>)
    ensures
        match found {
            Ok(region) => {
                &&& regions@.filter(identified_by(id@)).len() > 0
                &&& region == regions@.filter(identified_by(id@))[0]
            },
            Err(failure) => {
                &&& failure == Failure::NotFound
                &&& regions@.filter(identified_by(id@)).len() == 0
            },
        },
{
    let mut i: usize = 0;
    while i < regions.len()
        invariant
            i <= regions.len(),
            regions@.take(i as int).filter(identified_by(id@)).len() == 0,
        decreases regions.len() - i,
    {
        proof {
            broadcast use Seq::lemma_filter_push;

            assert(regions@.take(i + 1) =~= regions@.take(i as int).push(regions[i as int]));
        }
        if id.names(&regions[i].id) {
            proof {
                broadcast use Seq::filter_distributes_over_add;

                let head = regions@.take(i + 1);
                let tail = regions@.skip(i + 1);
                assert(head + tail =~= regions@);
                assert(head.filter(identified_by(id@)) =~= seq![regions[i as int]]);
            }
            return Ok(regions[i].clone());
        }
        i += 1;
    }
    proof {
        assert(regions@.take(i as int) =~= regions@);
    }
    Err(Failure::NotFound)
}

} // verus!
