//! Catalog events and the query that fetches them. Only the fields the
//! pipeline reads are modeled here; the remaining catalog fields stay with
//! the inbound representation at the network edge.

use crate::digits::dec_rep;
use crate::digits::u64_to_string;
use vstd::prelude::*;
use vstd::string::*;

verus! {

/// An organizer of an event; the first organizer becomes the author of the
/// outbound embed, with its icon replaced by the resolved one.
pub struct Organizer {
    pub name: String,
    pub icon_url: Option<String>,
}

/// A catalog event: title, event page, description, and the catalog's own
/// profile page for the event, which is scraped for the organizer icon.
pub struct Event {
    pub organizers: Vec<Organizer>,
    pub title: String,
    pub url: String,
    pub description: String,
    pub ctftime_url: String,
}

/// The catalog listing query for events overlapping `[start, finish)` in
/// UTC epoch seconds, with the fixed page size of 100.
pub fn events_query_url(start: u64, finish: u64) -> (r: String)
    ensures
        r@ == "https://ctftime.org/api/v1/events/?limit=100&start="@ + dec_rep(start as nat)
            + "&finish="@ + dec_rep(finish as nat),
{
    let s = String::from_str("https://ctftime.org/api/v1/events/?limit=100&start=");
    let s = s.concat(u64_to_string(start).as_str());
    let s = s.concat("&finish=");
    let s = s.concat(u64_to_string(finish).as_str());
    proof {
        assert(s@ =~= "https://ctftime.org/api/v1/events/?limit=100&start="@ + dec_rep(
            start as nat,
        ) + "&finish="@ + dec_rep(finish as nat));
    }
    s
}

} // verus!
