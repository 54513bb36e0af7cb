use term_chat::ascii::fit_dimensions;
use term_chat::cache::{cache_key, ImageCache};
use term_chat::embed::{
    embed_plan, rank_allows, rank_tier, show_art, show_reason, EmbedJob, EmbedPlan, RANK_TOO_LOW,
};
use term_chat::emoji;
use term_chat::images::{
    collect_image_urls, convert_external, extract_image_urls, load_map, merge_urls, render_body,
    response_refused, BodyStep, ImageRenderer, RenderResult, RenderStep,
};
use term_chat::time::Instant;
use term_chat::tokens::TokenMap;
use term_chat::types::ChatMessageItem;

#[test]
fn fit_dimensions_tracks_terminal_resize() {
    // 400x400 square: cell = 400 wide x 200 tall.
    // 120x30 terminal -> 0.8 => max 96x24 => scale = min(96/400, 24/200) = 0.12 -> 48x24
    let (w1, h1) = fit_dimensions(120, 30, 400, 400);
    assert_eq!((w1, h1), (48, 24));
    // Resized to 60x20 -> 0.8 => max 48x16 => scale = min(48/400, 16/200) = 0.08 -> 32x16
    let (w2, h2) = fit_dimensions(60, 20, 400, 400);
    assert_eq!((w2, h2), (32, 16));
    // A resize must produce a different size (so the cache re-renders).
    assert_ne!((w1, h1), (w2, h2));

    // Wide image: width-constrained.
    // 800x200: cell = 800 x 100; at 120x30 -> max 96x24 -> scale = min(96/800, 24/100) = 0.12 -> 96x12
    assert_eq!(fit_dimensions(120, 30, 800, 200), (96, 12));
    // Never upscale a tiny image.
    // 40x40: cell = 40 x 20; at 120x30 -> scale would be >1, capped at 1 -> 40x20
    assert_eq!(fit_dimensions(120, 30, 40, 40), (40, 20));
}

#[test]
fn render_cache_is_keyed_by_terminal_size() {
    // The cache key must include cols x rows so a resize re-renders.
    let renderer = ImageRenderer::new(String::new(), 60, String::new());
    let k1 = format!("{}|{}x{}", "http://x/i.png", 120u16, 30u16);
    let k2 = format!("{}|{}x{}", "http://x/i.png", 60u16, 20u16);
    assert_ne!(k1, k2);
    assert_eq!(cache_key("http://x/i.png", 120, 30), k1);
    assert_eq!(cache_key("http://x/i.png", 60, 20), k2);
    let _ = renderer; // field presence sanity
}

fn art(s: &str) -> RenderResult {
    RenderResult::Art(s.to_string())
}

fn reason_of(r: &RenderResult) -> Option<&str> {
    match r {
        RenderResult::Reason(s) => Some(s.as_str()),
        RenderResult::Art(_) => None,
    }
}

fn art_of(r: &RenderResult) -> Option<&str> {
    match r {
        RenderResult::Art(s) => Some(s.as_str()),
        RenderResult::Reason(_) => None,
    }
}

#[test]
fn resized_terminal_downloads_anew() {
    let mut renderer = ImageRenderer::new("conv".to_string(), 60, "https://r/".to_string());
    match renderer.render("http://x/i.png", 120, 30) {
        RenderStep::Download(referer) => assert_eq!(referer.as_deref(), Some("https://r/")),
        RenderStep::Cached(_) => panic!("cached"),
    }
    renderer.remember("http://x/i.png", 120, 30, art("@"));
    match renderer.render("http://x/i.png", 120, 30) {
        RenderStep::Cached(hit) => assert_eq!(art_of(&hit), Some("@")),
        RenderStep::Download(_) => panic!("not cached"),
    }
    assert!(matches!(renderer.render("http://x/i.png", 60, 20), RenderStep::Download(_)));
    let plain = ImageRenderer::new(String::new(), 60, String::new());
    assert!(matches!(plain.render("http://x/i.png", 60, 20), RenderStep::Download(None)));
    assert_eq!(plain.terminal_size(None), (60, 24));
    assert_eq!(plain.terminal_size(Some((7, 8))), (7, 8));
}

#[test]
fn cache_forgets_the_oldest_first() {
    let mut cache = ImageCache::new();
    for i in 0..9 {
        cache.insert(format!("k{}", i), art(&format!("{}", i)), 1);
    }
    assert!(cache.get("k0").is_none());
    for i in 1..9 {
        assert_eq!(art_of(&cache.get(&format!("k{}", i)).unwrap()), Some(format!("{}", i).as_str()));
    }
    for i in 0..50 {
        cache.insert(format!("n{}", i), art(&format!("{}", i)), 10);
    }
    assert!(cache.get("n9").is_none());
    assert!(cache.get("n10").is_some());
    assert!(cache.get("n49").is_some());
}

#[test]
fn links_are_found_in_messages() {
    let urls = extract_image_urls("see https://a.b/c.PNG https://a.b/c.png?x=1 <http://d/e.jpeg> http://f/g.webp.");
    assert_eq!(urls, vec!["https://a.b/c.png?x=1", "http://d/e.jpeg", "http://f/g.webp"]);
    assert!(extract_image_urls("no links").is_empty());
}

fn map_of(pairs: &[(&str, &str)]) -> TokenMap {
    let mut m = TokenMap::new();
    for (k, v) in pairs {
        m.insert(k.to_string(), v.to_string());
    }
    m
}

#[test]
fn tokens_add_their_links_once() {
    let m = map_of(&[("cat", "http://c/cat.gif"), ("dog", ""), ("a.b", "http://p/p.png")]);
    assert_eq!(
        collect_image_urls("cat :cat: http://c/cat.gif http://z/z.png", &m),
        vec!["http://c/cat.gif", "http://z/z.png"]
    );
    assert_eq!(collect_image_urls("my cat!", &m), vec!["http://c/cat.gif"]);
    assert!(collect_image_urls("concatenate dog :dog:", &m).is_empty());
    // A token is taken literally, not as a pattern.
    assert!(collect_image_urls("axb", &m).is_empty());
    assert_eq!(collect_image_urls("a.b", &m), vec!["http://p/p.png"]);
    assert_eq!(load_map(Some(r#"{"x":"u"}"#)).get("x").as_deref(), Some("u"));
}

fn texts(list: &[&str]) -> Vec<String> {
    list.iter().map(|s| s.to_string()).collect()
}

#[test]
fn links_come_first_and_keep_their_order() {
    assert_eq!(merge_urls(&texts(&["b", "a", "b"]), &texts(&["c", "a", "d", "c"])), vec!["b", "a", "c", "d"]);
    assert_eq!(merge_urls(&texts(&[]), &texts(&["c", "c"])), vec!["c"]);
    assert_eq!(merge_urls(&texts(&["a", "a"]), &texts(&[])), vec!["a"]);
    assert!(merge_urls(&texts(&[]), &texts(&[])).is_empty());
    let m = map_of(&[("cat", "http://c/cat.gif")]);
    assert_eq!(
        collect_image_urls(":cat: http://z/z.png http://a/a.png http://z/z.png", &m),
        vec!["http://z/z.png", "http://a/a.png", "http://c/cat.gif"]
    );
}

#[test]
fn what_fits_is_shown_at_its_own_size() {
    // A terminal of 120x30 has room for 96x24 cells.
    assert_eq!(fit_dimensions(120, 30, 96, 48), (96, 24));
    assert_eq!(fit_dimensions(120, 30, 96, 47), (96, 24));
    assert_eq!(fit_dimensions(120, 30, 1, 48), (1, 24));
    assert_eq!(fit_dimensions(120, 30, 192, 48), (96, 12));
    assert_eq!(fit_dimensions(120, 30, 96, 96), (48, 24));
}

#[test]
fn emoji_replace_tokens_and_words() {
    let m = map_of(&[("smile", "😄"), ("c++", "C")]);
    assert_eq!(emoji::apply(&m, "a :smile: b smile smiley"), "a 😄 b 😄 smiley");
    assert_eq!(emoji::apply(&m, ":c++: c++"), "C c++");
    let dollars = map_of(&[("fee", "$5"), ("tip", "${x} $$")]);
    assert_eq!(emoji::apply(&dollars, "fee"), "$5");
    assert_eq!(emoji::apply(&dollars, ":fee: a tip, a fee"), "$5 a ${x} $$, a $5");
    assert_eq!(emoji::apply_colons(&m, "a :smile: b smile"), "a 😄 b smile");
    assert_eq!(emoji::apply(&m, "nothing here"), "nothing here");
    assert_eq!(emoji::apply(&TokenMap::new(), ":smile:"), ":smile:");
    assert_eq!(emoji::load_map(Some(r#"{"smile":"😄"}"#)).get("smile").as_deref(), Some("😄"));
    assert!(emoji::is_called("smile", "a smile."));
    assert!(!emoji::is_called("smile", "smiles"));
}

#[test]
fn responses_are_refused_with_a_reason() {
    let why = |status: u16, kind: Option<&str>| {
        response_refused(status, kind).map(|r| reason_of(&r).unwrap().to_string())
    };
    assert_eq!(why(401, None).as_deref(), Some("embedding not allowed"));
    assert_eq!(why(403, Some("image/png")).as_deref(), Some("embedding not allowed"));
    assert_eq!(why(404, None).as_deref(), Some("download failed (HTTP 404)"));
    assert_eq!(why(302, None).as_deref(), Some("download failed (HTTP 302)"));
    assert_eq!(why(200, Some("text/html")).as_deref(), Some("not an image"));
    assert_eq!(why(200, Some("IMAGE/PNG")), None);
    assert_eq!(why(204, Some("")), None);
    assert_eq!(why(299, None), None);
}

fn png(width: u32, height: u32, pixel: [u8; 4]) -> Vec<u8> {
    let img = image::RgbaImage::from_pixel(width, height, image::Rgba(pixel));
    let mut out = std::io::Cursor::new(Vec::new());
    image::DynamicImage::ImageRgba8(img).write_to(&mut out, image::ImageFormat::Png).unwrap();
    out.into_inner()
}

fn done(step: BodyStep) -> RenderResult {
    match step {
        BodyStep::Done(r) => r,
        BodyStep::Convert(_) => panic!("to be converted"),
    }
}

#[test]
fn bodies_become_art_or_a_reason() {
    let white = png(4, 4, [255, 255, 255, 255]);
    assert_eq!(art_of(&done(render_body(Some(&white), 80, 24, false))), Some("@@@@\n@@@@\n"));
    match render_body(Some(&white), 80, 24, true) {
        BodyStep::Convert(width) => assert_eq!(width, 4),
        BodyStep::Done(_) => panic!("done"),
    }
    let glass = png(4, 4, [255, 255, 255, 0]);
    assert_eq!(reason_of(&done(render_body(Some(&glass), 80, 24, false))), Some("conversion failed"));
    assert_eq!(reason_of(&done(render_body(Some(b"nonsense"), 80, 24, false))), Some("could not be decoded"));
    assert_eq!(reason_of(&done(render_body(Some(b""), 80, 24, false))), Some("download failed"));
    assert_eq!(reason_of(&done(render_body(None, 80, 24, false))), Some("download failed"));
}

#[test]
fn converter_output_counts_unless_blank() {
    assert_eq!(art_of(&convert_external(Some(" x\n".to_string()))), Some(" x\n"));
    assert_eq!(reason_of(&convert_external(Some(" \n\t".to_string()))), Some("conversion failed"));
    assert_eq!(reason_of(&convert_external(None)), Some("conversion failed"));
}

#[test]
fn ranks_have_tiers() {
    let tiers = [
        ("owner", 9), ("ADMIN", 8), ("mod", 7), ("Moderator", 7), ("sponsor", 6), ("sub", 6),
        ("opal", 5), ("gold", 4), ("silver", 3), ("regular", 2), ("", 2), ("whatever", 2),
        ("coal", 1), ("trash", 0),
    ];
    for (rank, tier) in tiers {
        assert_eq!(rank_tier(rank), tier, "{}", rank);
    }
}

#[test]
fn thresholds_are_scores_or_ranks() {
    assert!(rank_allows(20, "trash", " 20 "));
    assert!(!rank_allows(19, "owner", "20"));
    assert!(rank_allows(-3, "", "-3"));
    assert!(rank_allows(0, "gold", "silver"));
    // The default threshold admits everyone.
    for rank in ["coal", "trash", "", "owner", "whatever"] {
        assert!(rank_allows(0, rank, "regular"));
        assert!(rank_allows(-100, rank, "Regular"));
    }
    assert!(!rank_allows(100, "trash", "coal"));
    assert!(!rank_allows(100, "coal", "silver"));
}

fn message(id: &str, content: &str) -> ChatMessageItem {
    ChatMessageItem {
        id: id.to_string(),
        username: "u".to_string(),
        name_color: String::new(),
        rank: String::new(),
        score: 0,
        role_badges: String::new(),
        reprimanded: false,
        platform: "twitch".to_string(),
        user_handle: "u".to_string(),
        user_uuid7: "u".to_string(),
        content: content.to_string(),
        image_art: None,
        image_status: None,
        added_at: Instant { nanos: 0 },
    }
}

#[test]
fn plans_follow_mode_links_and_rank() {
    let m = TokenMap::new();
    let item = message("1", "http://a/a.png http://b/b.png");
    assert!(matches!(embed_plan("none", "regular", &item, &m), EmbedPlan::Nothing));
    assert!(matches!(embed_plan("all", "regular", &message("1", "hi"), &m), EmbedPlan::Nothing));
    assert!(matches!(embed_plan("all", "gold", &item, &m), EmbedPlan::Refused));
    match embed_plan("all", "0", &item, &m) {
        EmbedPlan::Try(urls) => assert_eq!(urls, vec!["http://a/a.png", "http://b/b.png"]),
        _ => panic!("no plan"),
    }
    assert_eq!(RANK_TOO_LOW, "rank too low");
}

#[test]
fn attempts_end_with_the_first_art() {
    let mut job = EmbedJob::new(vec!["a".to_string(), "b".to_string(), "c".to_string()]);
    assert_eq!(job.upcoming().as_deref(), Some("a"));
    assert_eq!(job.failure(), "could not be converted");
    assert_eq!(job.record(RenderResult::Reason("not an image".to_string())), None);
    assert_eq!(job.failure(), "not an image");
    assert_eq!(job.upcoming().as_deref(), Some("b"));
    assert_eq!(job.record(art("@@")), Some("@@".to_string()));
    let mut job = EmbedJob::new(vec!["a".to_string()]);
    assert_eq!(job.record(RenderResult::Reason(String::new())), None);
    assert_eq!(job.upcoming(), None);
    assert_eq!(job.failure(), "could not be converted");
}

#[test]
fn outcomes_reach_their_message() {
    let mut buffer = vec![message("1", "a"), message("2", "b")];
    show_art(&mut buffer, "2", "@".to_string());
    show_reason(&mut buffer, "1", RANK_TOO_LOW.to_string());
    show_art(&mut buffer, "gone", "#".to_string());
    assert_eq!(buffer[1].image_art.as_deref(), Some("@"));
    assert_eq!(buffer[0].image_art, None);
    assert_eq!(buffer[0].image_status.as_deref(), Some("rank too low"));
    assert_eq!(buffer[1].image_status, None);
}

#[test]
fn cache_answers_exactly_its_newest_keys() {
    let mut cache = ImageCache::new();
    for i in 0..30 {
        cache.insert(format!("k{}", i), art(&format!("{}", i)), 3);
        for j in 0..30 {
            let hit = cache.get(&format!("k{}", j));
            assert_eq!(hit.is_some(), j <= i && i - j < 12);
            if let Some(found) = hit {
                assert_eq!(art_of(&found), Some(format!("{}", j).as_str()));
            }
        }
    }
}
