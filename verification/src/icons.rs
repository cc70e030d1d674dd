//! Organizer icons, resolved by scraping an event's profile page: the
//! first element sitting under a marker-classed element supplies the image
//! source and dimensions. A page that lacks the marker yields no icon.

use crate::digits::spec_parse_i32;
use crate::digits::parse_i32;
use crate::events::Event;
use vstd::prelude::*;
use vstd::string::*;

verus! {

/// A resolved image reference: an absolute source URL and the pixel
/// dimensions, zero when unknown.
pub struct Icon {
    pub src: String,
    pub width: i32,
    pub height: i32,
}

/// The view of an optional owned string.
pub open spec fn opt_text(o: Option<String>) -> Option<Seq<char>> {
    match o {
        Some(s) => Some(s@),
        None => None,
    }
}

/// Whether the HTML document `html` holds an element below one carrying the
/// CSS class `class`; names the outcome of the select crate's
/// `Descendant(Class(class), Element)` query, which depends on the text
/// alone.
pub uninterp spec fn marker_found(html: Seq<char>, class: Seq<char>) -> bool;

/// The value of attribute `attr` on the first element of `html` below one
/// carrying the CSS class `class`; names what the select crate's
/// `Node::attr` reads off that node, which depends on the text alone.
pub uninterp spec fn marker_attr(html: Seq<char>, class: Seq<char>, attr: Seq<char>) -> Option<
    Seq<char>,
>;

/// Relies on the select crate: `Document::from` parses the HTML text,
/// `find(Descendant(Class(class), Element))` yields the elements below a
/// `class`-marked element in document order, and `Node::attr` reads an
/// attribute of the first of them. All of it is deterministic in the text,
/// so the outcome is `marker_found` and, per attribute, `marker_attr`.
#[verifier::external_body]
fn scrape_marked_element(html: &str, class: &str, a0: &str, a1: &str, a2: &str) -> (r: Option<
    (Option<String>, Option<String>, Option<String>),
>)
    ensures
        r is Some == marker_found(html@, class@),
        r matches Some(t) ==> opt_text(t.0) == marker_attr(html@, class@, a0@) && opt_text(t.1)
            == marker_attr(html@, class@, a1@) && opt_text(t.2) == marker_attr(
            html@,
            class@,
            a2@,
        ),
{
    let document = select::document::Document::from(html);
    let query = select::predicate::Descendant(
        select::predicate::Class(class),
        select::predicate::Element,
    );
    let node = document.find(query).next()?;
    Some(
        (
            node.attr(a0).map(|v| v.to_string()),
            node.attr(a1).map(|v| v.to_string()),
            node.attr(a2).map(|v| v.to_string()),
        ),
    )
}

/// The absolute icon source for a scraped `src` attribute: the catalog
/// origin prefixed to the attribute value, or to the placeholder path when
/// the attribute is absent.
pub open spec fn icon_src_text(src: Option<Seq<char>>) -> Seq<char> {
    "https://ctftime.org/"@ + match src {
        Some(s) => s,
        None => "static/images/nologo.png"@,
    }
}

/// The pixel dimension for a scraped attribute value: its numeric value,
/// or zero when the attribute is absent or not a number.
pub open spec fn dim_of(attr: Option<Seq<char>>) -> i32 {
    match attr {
        Some(t) => match spec_parse_i32(t) {
            Some(v) => v,
            None => 0,
        },
        None => 0,
    }
}

/// Builds the icon from the scraped attribute values: the source made
/// absolute against the catalog origin (a placeholder when absent), and
/// the dimensions, zero when absent or non-numeric.
pub fn icon_from_attrs(src: Option<String>, width: Option<String>, height: Option<String>) -> (r:
    Icon)
    ensures
        r.src@ == icon_src_text(opt_text(src)),
        r.width == dim_of(opt_text(width)),
        r.height == dim_of(opt_text(height)),
{
    let path: String = match src {
        Some(s) => s,
        None => String::from_str("static/images/nologo.png"),
    };
    let full = String::from_str("https://ctftime.org/").concat(path.as_str());
    let w: i32 = match &width {
        Some(t) => match parse_i32(t.as_str()) {
            Some(v) => v,
            None => 0,
        },
        None => 0,
    };
    let h: i32 = match &height {
        Some(t) => match parse_i32(t.as_str()) {
            Some(v) => v,
            None => 0,
        },
        None => 0,
    };
    Icon { src: full, width: w, height: h }
}

/// Resolves the organizer icon out of a profile page. The marker class is
/// `span2`; a page without a marked element yields no icon rather than a
/// failure.
pub fn resolve_icon(html: &str) -> (r: Option<Icon>)
    ensures
        r is Some == marker_found(html@, "span2"@),
        r matches Some(ic) ==> ic.src@ == icon_src_text(marker_attr(html@, "span2"@, "src"@))
            && ic.width == dim_of(marker_attr(html@, "span2"@, "width"@)) && ic.height == dim_of(
            marker_attr(html@, "span2"@, "height"@),
        ),
{
    match scrape_marked_element(html, "span2", "src", "width", "height") {
        Some((s, w, h)) => Some(icon_from_attrs(s, w, h)),
        None => None,
    }
}

/// Whether `u` is the profile URL of one of `events`.
pub open spec fn url_of_some_event(events: Seq<Event>, u: Seq<char>) -> bool {
    exists|i: int| 0 <= i < events.len() && events[i].ctftime_url@ == u
}

/// The distinct profile URLs of `events` and, for each event, the position
/// of its URL in that list. No URL appears twice, so one resolution per
/// listed URL serves every event sharing it.
pub fn distinct_profile_urls(events: &Vec<Event>) -> (r: (Vec<String>, Vec<usize>))
    ensures
        forall|a: int, b: int| 0 <= a < b < r.0@.len() ==> r.0@[a]@ != r.0@[b]@,
        r.1@.len() == events@.len(),
        forall|i: int|
            0 <= i < events@.len() ==> #[trigger] r.1@[i] < r.0@.len() && r.0@[r.1@[i] as int]@
                == events@[i].ctftime_url@,
        forall|k: int| 0 <= k < r.0@.len() ==> url_of_some_event(events@, #[trigger] r.0@[k]@),
{
    let mut urls: Vec<String> = Vec::new();
    let mut index_of: Vec<usize> = Vec::new();
    let ghost mut wit: Seq<int> = Seq::empty();
    let mut i: usize = 0;
    while i < events.len()
        invariant
            i <= events@.len(),
            index_of@.len() == i,
            wit.len() == urls@.len(),
            forall|a: int, b: int| 0 <= a < b < urls@.len() ==> urls@[a]@ != urls@[b]@,
            forall|k: int|
                0 <= k < i ==> #[trigger] index_of@[k] < urls@.len() && urls@[index_of@[k] as int]@
                    == events@[k].ctftime_url@,
            forall|k: int|
                0 <= k < urls@.len() ==> 0 <= #[trigger] wit[k] < i && events@[wit[k]].ctftime_url@
                    == urls@[k]@,
        decreases events@.len() - i,
    {
        let target = &events[i].ctftime_url;
        let mut j: usize = 0;
        let mut hit: Option<usize> = None;
        while j < urls.len()
            invariant
                j <= urls@.len(),
                hit matches Some(p) ==> p < urls@.len() && urls@[p as int]@ == target@,
                hit is None ==> forall|k: int| 0 <= k < j ==> urls@[k]@ != target@,
            decreases urls@.len() - j,
        {
            if hit.is_none() && urls[j] == *target {
                hit = Some(j);
            }
            j = j + 1;
        }
        match hit {
            Some(p) => {
                index_of.push(p);
            },
            None => {
                urls.push(target.clone());
                index_of.push(urls.len() - 1);
                proof {
                    wit = wit.push(i as int);
                }
            },
        }
        i = i + 1;
    }
    proof {
        assert forall|k: int| 0 <= k < urls@.len() implies url_of_some_event(
            events@,
            #[trigger] urls@[k]@,
        ) by {
            assert(0 <= wit[k] < events@.len() && events@[wit[k]].ctftime_url@ == urls@[k]@);
        }
    }
    (urls, index_of)
}

} // verus!
