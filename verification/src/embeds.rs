//! Outbound display units: one embed per fetched event, in fetch order,
//! and their partition into delivery batches of at most ten.

use crate::digits::dec_rep;
use crate::digits::u64_to_string;
use crate::events::Event;
use crate::events::Organizer;
use crate::icons::Icon;
use crate::icons::opt_text;
use vstd::prelude::*;
use vstd::string::*;

verus! {

/// The fixed accent color of every embed.
pub const EMBED_COLOR: u64 = 7506394;

/// An outbound message unit: title, truncated description, event URL, the
/// fixed color, and the first organizer as author, carrying the resolved
/// icon.
pub struct Embed {
    pub title: String,
    pub description: String,
    pub url: String,
    pub color: u64,
    pub author: Organizer,
}

/// A description cut for display: over 100 characters, the first 100
/// followed by an ellipsis marker; otherwise unchanged.
pub open spec fn truncated_text(s: Seq<char>) -> Seq<char> {
    if s.len() > 100 {
        s.take(100) + "..."@
    } else {
        s
    }
}

/// Truncates a description to at most 100 characters plus the ellipsis
/// marker.
pub fn truncate_description(s: &str) -> (r: String)
    ensures
        r@ == truncated_text(s@),
{
    let n = s.unicode_len();
    if n > 100 {
        let head = s.substring_char(0, 100);
        proof {
            assert(head@ =~= s@.take(100));
        }
        String::from_str(head).concat("...")
    } else {
        s.to_owned()
    }
}

/// The icon source of an optional resolved icon.
pub open spec fn icon_src_opt(ic: Option<Icon>) -> Option<Seq<char>> {
    match ic {
        Some(i) => Some(i.src@),
        None => None,
    }
}

/// How the embed for an event must look, given the resolved icon source of
/// its profile URL (or none): title and URL pass through, the description
/// is truncated, the color is fixed, and the author is the first organizer
/// with its icon replaced by the resolved one.
pub open spec fn embed_matches(e: Embed, ev: Event, icon_src: Option<Seq<char>>) -> bool {
    &&& e.title@ == ev.title@
    &&& e.description@ == truncated_text(ev.description@)
    &&& e.url@ == ev.url@
    &&& e.color == EMBED_COLOR
    &&& e.author.name@ == ev.organizers@[0].name@
    &&& opt_text(e.author.icon_url) == icon_src
}

/// Formats every event as one embed, in order. `icon_index[i]` is the
/// position of event `i`'s profile URL in the resolved icon list `icons`,
/// as `distinct_profile_urls` lays it out. Every event must bring at least
/// one organizer: an event without one is a catalog contract violation and
/// is deliberately rejected here rather than skipped.
pub fn format_embeds(events: &Vec<Event>, icon_index: &Vec<usize>, icons: &Vec<Option<Icon>>) -> (r:
    Vec<Embed>)
    requires
        icon_index@.len() == events@.len(),
        forall|i: int| 0 <= i < events@.len() ==> #[trigger] icon_index@[i] < icons@.len(),
        forall|i: int| 0 <= i < events@.len() ==> #[trigger] events@[i].organizers@.len() >= 1,
    ensures
        r@.len() == events@.len(),
        forall|i: int|
            0 <= i < events@.len() ==> embed_matches(
                #[trigger] r@[i],
                events@[i],
                icon_src_opt(icons@[icon_index@[i] as int]),
            ),
{
    let mut out: Vec<Embed> = Vec::new();
    let mut i: usize = 0;
    while i < events.len()
        invariant
            i <= events@.len(),
            out@.len() == i,
            icon_index@.len() == events@.len(),
            forall|k: int| 0 <= k < events@.len() ==> #[trigger] icon_index@[k] < icons@.len(),
            forall|k: int| 0 <= k < events@.len() ==> #[trigger] events@[k].organizers@.len() >= 1,
            forall|k: int|
                0 <= k < i ==> embed_matches(
                    #[trigger] out@[k],
                    events@[k],
                    icon_src_opt(icons@[icon_index@[k] as int]),
                ),
        decreases events@.len() - i,
    {
        let ev = &events[i];
        let idx = icon_index[i];
        let resolved: Option<String> = match &icons[idx] {
            Some(ic) => Some(ic.src.clone()),
            None => None,
        };
        let embed = Embed {
            title: ev.title.clone(),
            description: truncate_description(ev.description.as_str()),
            url: ev.url.clone(),
            color: EMBED_COLOR,
            author: Organizer { name: ev.organizers[0].name.clone(), icon_url: resolved },
        };
        out.push(embed);
        i = i + 1;
    }
    out
}

/// Cuts `embeds` into consecutive batches: every batch but the last holds
/// exactly ten embeds, the last holds the remainder, and the elements keep
/// their order. An empty input yields no batch at all.
pub fn batch_embeds(embeds: Vec<Embed>) -> (r: Vec<Vec<Embed>>)
    ensures
        embeds@.len() == 0 ==> r@.len() == 0,
        embeds@.len() > 0 ==> r@.len() == (embeds@.len() - 1) / 10 + 1,
        forall|i: int|
            0 <= i < r@.len() ==> #[trigger] r@[i]@.len() == (if i < r@.len() - 1 {
                10int
            } else {
                embeds@.len() - 10 * i
            }),
        forall|i: int, j: int|
            0 <= i < r@.len() && 0 <= j < r@[i]@.len() ==> r@[i]@[j] == embeds@[10 * i + j],
{
    let ghost orig = embeds@;
    let mut rest = embeds;
    let mut out: Vec<Vec<Embed>> = Vec::new();
    let mut cur: Vec<Embed> = Vec::new();
    while rest.len() > 0
        invariant
            cur@.len() < 10,
            out@.len() * 10 + cur@.len() + rest@.len() == orig.len(),
            forall|i: int| 0 <= i < out@.len() ==> #[trigger] out@[i]@.len() == 10,
            forall|i: int, j: int|
                0 <= i < out@.len() && 0 <= j < out@[i]@.len() ==> out@[i]@[j] == orig[10 * i + j],
            forall|j: int| 0 <= j < cur@.len() ==> #[trigger] cur@[j] == orig[out@.len() * 10 + j],
            forall|k: int|
                0 <= k < rest@.len() ==> #[trigger] rest@[k] == orig[out@.len() * 10 + cur@.len()
                    + k],
        decreases rest@.len(),
    {
        let e = rest.remove(0);
        cur.push(e);
        if cur.len() == 10 {
            out.push(cur);
            cur = Vec::new();
        }
    }
    let ghost q = out@.len() as int;
    let ghost c = cur@.len() as int;
    if cur.len() > 0 {
        out.push(cur);
        proof {
            vstd::arithmetic::div_mod::lemma_fundamental_div_mod_converse(
                orig.len() - 1,
                10,
                q,
                c - 1,
            );
        }
    } else {
        proof {
            if orig.len() > 0 {
                vstd::arithmetic::div_mod::lemma_fundamental_div_mod_converse(
                    orig.len() - 1,
                    10,
                    q - 1,
                    9,
                );
            }
        }
    }
    out
}

/// The delivery endpoint of the destination identified by `id` and
/// `token`.
pub fn webhook_url(id: u64, token: &str) -> (r: String)
    ensures
        r@ == "https://discord.com/api/webhooks/"@ + dec_rep(id as nat) + "/"@ + token@,
{
    let s = String::from_str("https://discord.com/api/webhooks/");
    let s = s.concat(u64_to_string(id).as_str());
    let s = s.concat("/");
    let s = s.concat(token);
    proof {
        assert(s@ =~= "https://discord.com/api/webhooks/"@ + dec_rep(id as nat) + "/"@ + token@);
    }
    s
}

} // verus!
