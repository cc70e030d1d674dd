use ctf_announce::embeds::batch_embeds;
use ctf_announce::embeds::format_embeds;
use ctf_announce::embeds::truncate_description;
use ctf_announce::embeds::webhook_url;
use ctf_announce::embeds::Embed;
use ctf_announce::embeds::EMBED_COLOR;
use ctf_announce::events::events_query_url;
use ctf_announce::events::Event;
use ctf_announce::events::Organizer;
use ctf_announce::icons::distinct_profile_urls;
use ctf_announce::icons::icon_from_attrs;
use ctf_announce::icons::resolve_icon;
use ctf_announce::icons::Icon;

fn event(title: &str, description: &str, profile: &str) -> Event {
    Event {
        organizers: vec![Organizer {
            name: format!("{} team", title),
            icon_url: Some(String::from("stale")),
        }],
        title: String::from(title),
        url: format!("https://example.org/{}", title),
        description: String::from(description),
        ctftime_url: String::from(profile),
    }
}

fn sample_embed(n: u64) -> Embed {
    Embed {
        title: u64_text(n),
        description: String::new(),
        url: String::new(),
        color: EMBED_COLOR,
        author: Organizer { name: String::new(), icon_url: None },
    }
}

fn u64_text(n: u64) -> String {
    format!("{}", n)
}

#[test]
fn query_url_is_exact() {
    assert_eq!(
        events_query_url(0, 345600),
        "https://ctftime.org/api/v1/events/?limit=100&start=0&finish=345600"
    );
    assert_eq!(
        events_query_url(1610064000, 1610323200),
        "https://ctftime.org/api/v1/events/?limit=100&start=1610064000&finish=1610323200"
    );
}

#[test]
fn webhook_url_is_exact() {
    assert_eq!(webhook_url(123, "tok"), "https://discord.com/api/webhooks/123/tok");
}

#[test]
fn short_descriptions_pass_through() {
    let s = "a".repeat(100);
    assert_eq!(truncate_description(&s), s);
    assert_eq!(truncate_description(""), "");
    assert_eq!(truncate_description("short"), "short");
}

#[test]
fn long_descriptions_are_cut_at_100_characters() {
    let s = "a".repeat(101);
    let cut = truncate_description(&s);
    assert_eq!(cut, format!("{}...", "a".repeat(100)));
    // The cut counts characters, not bytes.
    let accents = "\u{e9}".repeat(150);
    let cut = truncate_description(&accents);
    assert_eq!(cut.chars().count(), 103);
    assert_eq!(cut, format!("{}...", "\u{e9}".repeat(100)));
}

#[test]
fn one_embed_per_event_in_order() {
    let events = vec![
        event("alpha", "first", "https://ctftime.org/event/1"),
        event("beta", &"b".repeat(120), "https://ctftime.org/event/2"),
        event("gamma", "third", "https://ctftime.org/event/1"),
    ];
    let (urls, index) = distinct_profile_urls(&events);
    assert_eq!(urls, vec![
        String::from("https://ctftime.org/event/1"),
        String::from("https://ctftime.org/event/2"),
    ]);
    assert_eq!(index, vec![0, 1, 0]);

    let icons = vec![
        Some(Icon { src: String::from("https://ctftime.org/media/one.png"), width: 64, height: 64 }),
        None,
    ];
    let embeds = format_embeds(&events, &index, &icons);
    assert_eq!(embeds.len(), events.len());
    assert_eq!(embeds[0].title, "alpha");
    assert_eq!(embeds[1].title, "beta");
    assert_eq!(embeds[2].title, "gamma");
    assert_eq!(embeds[0].url, "https://example.org/alpha");
    assert_eq!(embeds[0].color, EMBED_COLOR);
    assert_eq!(embeds[0].description, "first");
    assert_eq!(embeds[1].description, format!("{}...", "b".repeat(100)));
    assert_eq!(embeds[0].author.name, "alpha team");
    // The resolved icon replaces whatever the organizer carried.
    assert_eq!(
        embeds[0].author.icon_url,
        Some(String::from("https://ctftime.org/media/one.png"))
    );
    // An unresolved profile leaves the author without an icon.
    assert_eq!(embeds[1].author.icon_url, None);
    assert_eq!(
        embeds[2].author.icon_url,
        Some(String::from("https://ctftime.org/media/one.png"))
    );
}

#[test]
fn batches_of_23_are_10_10_3() {
    let embeds: Vec<Embed> = (0..23).map(sample_embed).collect();
    let batches = batch_embeds(embeds);
    assert_eq!(batches.len(), 3);
    assert_eq!(batches[0].len(), 10);
    assert_eq!(batches[1].len(), 10);
    assert_eq!(batches[2].len(), 3);
    let mut n: u64 = 0;
    for batch in &batches {
        for e in batch {
            assert_eq!(e.title, u64_text(n));
            n += 1;
        }
    }
}

#[test]
fn batch_corner_cases() {
    assert_eq!(batch_embeds(Vec::new()).len(), 0);
    let one = batch_embeds((0..10).map(sample_embed).collect());
    assert_eq!(one.len(), 1);
    assert_eq!(one[0].len(), 10);
    let eleven = batch_embeds((0..11).map(sample_embed).collect());
    assert_eq!(eleven.len(), 2);
    assert_eq!(eleven[1].len(), 1);
}

#[test]
fn icon_defaults_apply() {
    let icon = icon_from_attrs(None, None, None);
    assert_eq!(icon.src, "https://ctftime.org/static/images/nologo.png");
    assert_eq!(icon.width, 0);
    assert_eq!(icon.height, 0);

    let icon = icon_from_attrs(
        Some(String::from("media/team/1.png")),
        Some(String::from("64")),
        Some(String::from("32x")),
    );
    assert_eq!(icon.src, "https://ctftime.org/media/team/1.png");
    assert_eq!(icon.width, 64);
    assert_eq!(icon.height, 0);
}

#[test]
fn resolves_icon_from_a_profile_page() {
    let html = "<html><body>\
        <div class=\"span2\"><img src=\"media/team/7.png\" width=\"64\" height=\"48\"></div>\
        <div class=\"span2\"><img src=\"media/team/8.png\"></div>\
        </body></html>";
    let icon = resolve_icon(html).unwrap();
    assert_eq!(icon.src, "https://ctftime.org/media/team/7.png");
    assert_eq!(icon.width, 64);
    assert_eq!(icon.height, 48);
}

#[test]
fn missing_marker_yields_no_icon() {
    let html = "<html><body><div class=\"other\"><img src=\"x.png\"></div></body></html>";
    assert!(resolve_icon(html).is_none());
}

#[test]
fn marker_without_attributes_yields_placeholder() {
    let html = "<div class=\"span2\"><p>no image</p></div>";
    let icon = resolve_icon(html).unwrap();
    assert_eq!(icon.src, "https://ctftime.org/static/images/nologo.png");
    assert_eq!(icon.width, 0);
    assert_eq!(icon.height, 0);
}
