//! Which images a message shows, and how one becomes text.
use crate::ascii;
use crate::ascii::Image;
use crate::cache;
use crate::cache::ImageCache;
use crate::emoji;
use crate::numbers;
use crate::pattern;
use crate::text;
use crate::tokens;
use crate::tokens::TokenMap;
use vstd::prelude::*;

verus! {

// ── Which images ──────────────────────────────────────────────────────

/// The image links that stand in a text.
pub open spec fn raw_urls(s: Seq<char>) -> Seq<Seq<char>> {
    match pattern::all_matches(pattern::IMAGE_URL_PATTERN@, s) {
        Some(urls) => urls,
        None => Seq::empty(),
    }
}

/// Extract candidate image/gif URLs from a chat message's text; each is a stretch of it.
pub fn extract_image_urls(s: &str) -> (urls: Vec<String>)
    ensures
        text::views(urls@) == raw_urls(s@),
        pattern::all_within(text::views(urls@), s@),
{
    match pattern::find_all(pattern::IMAGE_URL_PATTERN, s) {
        Some(urls) => urls,
        None => {
            let urls: Vec<String> = Vec::new();
            assert(text::views(urls@) =~= Seq::empty());
            urls
        },
    }
}

/// Load a token to URL map from the text of its file: `{ "token": "url", ... }`. Without a file,
/// or where it says something else, the map is empty.
pub fn load_map(data: Option<&str>) -> (m: TokenMap)
    ensures
        m@ == tokens::loaded(match data {
            Some(s) => Some(s@),
            None => None,
        }),
{
    tokens::load(data)
}

/// What the tokens that a text calls stand for, where that is not empty, in the order of the map.
pub open spec fn token_urls(m: tokens::Entries, s: Seq<char>) -> Seq<Seq<char>>
    decreases m.len(),
{
    if m.len() == 0 {
        Seq::empty()
    } else {
        let rest = token_urls(m.drop_last(), s);
        if m.last().1.len() > 0 && emoji::called(m.last().0, s) {
            rest.push(m.last().1)
        } else {
            rest
        }
    }
}

/// Resolve `:token:` / standalone `token` occurrences to their mapped URLs.
pub fn mapped_urls(s: &str, map: &TokenMap) -> (urls: Vec<String>)
    ensures
        text::views(urls@) == token_urls(map@, s@),
{
    let mut out: Vec<String> = Vec::new();
    let mut i: usize = 0;
    while i < map.entries.len()
        invariant
            i <= map.entries@.len(),
            text::views(out@) == token_urls(map@.take(i as int), s@),
        decreases map.entries@.len() - i,
    {
        let ghost before = text::views(out@);
        assert(map@.take(i + 1).drop_last() == map@.take(i as int));
        let value = &map.entries[i].1;
        if !value.as_str().is_empty() && emoji::is_called(map.entries[i].0.as_str(), s) {
            out.push(value.clone());
            assert(text::views(out@) == before.push(value@));
        }
        i += 1;
    }
    assert(map@.take(map@.len() as int) == map@);
    out
}

/// `list` followed by those of `more` that it does not have yet, each once.
pub open spec fn extended(list: Seq<Seq<char>>, more: Seq<Seq<char>>) -> Seq<Seq<char>>
    decreases more.len(),
{
    if more.len() == 0 {
        list
    } else {
        let so_far = extended(list, more.drop_last());
        if so_far.contains(more.last()) {
            so_far
        } else {
            so_far.push(more.last())
        }
    }
}

/// The images of a message: the links in its text, then what its tokens stand for, each once.
pub open spec fn image_urls(s: Seq<char>, m: tokens::Entries) -> Seq<Seq<char>> {
    extended(extended(Seq::empty(), raw_urls(s)), token_urls(m, s))
}

fn extend(list: &mut Vec<String>, more: &Vec<String>)
    ensures
        text::views(final(list)@) == extended(text::views(old(list)@), text::views(more@)),
{
    let ghost start = text::views(list@);
    let ghost all = text::views(more@);
    let mut i: usize = 0;
    assert(all.take(0).len() == 0);
    while i < more.len()
        invariant
            i <= more@.len(),
            all == text::views(more@),
            text::views(list@) == extended(start, all.take(i as int)),
        decreases more@.len() - i,
    {
        let ghost before = text::views(list@);
        assert(all.take(i + 1).drop_last() == all.take(i as int));
        assert(all.take(i + 1).last() == more@[i as int]@);
        if !text::list_contains(list, more[i].as_str()) {
            list.push(more[i].clone());
            assert(text::views(list@) == before.push(more@[i as int]@));
        }
        i += 1;
    }
    assert(all.take(all.len() as int) == all);
}

/// The links of a text followed by what its tokens stand for, each once.
pub fn merge_urls(raw: &Vec<String>, mapped: &Vec<String>) -> (urls: Vec<String>)
    ensures
        text::views(urls@) == extended(
            extended(Seq::empty(), text::views(raw@)),
            text::views(mapped@),
        ),
{
    let mut urls: Vec<String> = Vec::new();
    assert(text::views(urls@) == Seq::<Seq<char>>::empty());
    extend(&mut urls, raw);
    extend(&mut urls, mapped);
    urls
}

/// Collect every image URL to embed: raw image/gif URLs in the text PLUS any URLs a mapped token
/// resolves to.
pub fn collect_image_urls(s: &str, map: &TokenMap) -> (urls: Vec<String>)
    ensures
        text::views(urls@) == image_urls(s@, map@),
{
    let raw = extract_image_urls(s);
    let mapped = mapped_urls(s, map);
    merge_urls(&raw, &mapped)
}

proof fn lemma_extended(list: Seq<Seq<char>>, more: Seq<Seq<char>>, u: Seq<char>)
    ensures
        list.no_duplicates() ==> extended(list, more).no_duplicates(),
        extended(list, more).contains(u) <==> list.contains(u) || more.contains(u),
    decreases more.len(),
{
    if more.len() > 0 {
        let so_far = extended(list, more.drop_last());
        lemma_extended(list, more.drop_last(), u);
        let r = extended(list, more);
        if more.contains(u) {
            let i = choose|i: int| 0 <= i < more.len() && more[i] == u;
            if i < more.len() - 1 {
                assert(more.drop_last()[i] == u);
            }
        }
        if more.drop_last().contains(u) {
            let i = choose|i: int| 0 <= i < more.drop_last().len() && more.drop_last()[i] == u;
            assert(more[i] == u);
        }
        assert(more.contains(more.last())) by {
            assert(more[more.len() - 1] == more.last());
        }
        if !so_far.contains(more.last()) {
            assert(r == so_far.push(more.last()));
            if so_far.contains(u) {
                let i = choose|i: int| 0 <= i < so_far.len() && so_far[i] == u;
                assert(r[i] == u);
            }
            if more.last() == u {
                assert(r[r.len() - 1] == u);
            }
            if r.contains(u) {
                let i = choose|i: int| 0 <= i < r.len() && r[i] == u;
                if i < so_far.len() {
                    assert(so_far[i] == u);
                }
            }
        }
    }
}

proof fn lemma_extended_twice(list: Seq<Seq<char>>, a: Seq<Seq<char>>, b: Seq<Seq<char>>)
    ensures
        extended(extended(list, a), b) == extended(list, a + b),
    decreases b.len(),
{
    if b.len() > 0 {
        lemma_extended_twice(list, a, b.drop_last());
        assert((a + b).drop_last() =~= a + b.drop_last());
    } else {
        assert(a + b =~= a);
    }
}

/// Whether `r` lists texts in the order in which they first stand in `all`: wherever one stands, all
/// that come before it in `r` have stood before.
pub open spec fn by_first_occurrence(r: Seq<Seq<char>>, all: Seq<Seq<char>>) -> bool {
    forall|i: int, j: int, k: int|
        #![trigger r[i], r[j], all[k]]
        0 <= i < j < r.len() && 0 <= k < all.len() && all[k] == r[j] ==> all.take(k).contains(r[i])
}

proof fn lemma_extended_order(all: Seq<Seq<char>>)
    ensures
        by_first_occurrence(extended(Seq::empty(), all), all),
    decreases all.len(),
{
    let r = extended(Seq::empty(), all);
    if all.len() > 0 {
        let front = all.drop_last();
        let so_far = extended(Seq::empty(), front);
        lemma_extended_order(front);
        assert forall|i: int, j: int, k: int|
            #![trigger r[i], r[j], all[k]]
            0 <= i < j < r.len() && 0 <= k < all.len() && all[k] == r[j] implies all.take(
            k,
        ).contains(r[i]) by {
            assert(r[i] == so_far[i]);
            lemma_extended(Seq::empty(), front, r[i]);
            assert(so_far.contains(r[i]));
            if k < front.len() {
                assert(front[k] == all[k]);
                assert(front.contains(r[j]));
                lemma_extended(Seq::empty(), front, r[j]);
                if j >= so_far.len() {
                    assert(so_far.contains(all.last()));
                }
                assert(so_far[j] == r[j]);
                assert(front.take(k) =~= all.take(k));
            } else {
                assert(all.take(k) =~= front);
            }
        }
    }
}

/// No image is collected twice, exactly the links of the text and the meanings of its tokens are,
/// and they keep the order in which they first come up: the links first, then the meanings.
pub proof fn collected_urls_are_complete(s: Seq<char>, m: tokens::Entries, u: Seq<char>)
    ensures
        image_urls(s, m).no_duplicates(),
        image_urls(s, m).contains(u) <==> raw_urls(s).contains(u) || token_urls(m, s).contains(u),
        by_first_occurrence(image_urls(s, m), raw_urls(s) + token_urls(m, s)),
{
    let none = Seq::<Seq<char>>::empty();
    lemma_extended(none, raw_urls(s), u);
    lemma_extended(extended(none, raw_urls(s)), token_urls(m, s), u);
    lemma_extended_twice(none, raw_urls(s), token_urls(m, s));
    lemma_extended_order(raw_urls(s) + token_urls(m, s));
}

// ── Rendering one ─────────────────────────────────────────────────────

/// Outcome of trying to embed a URL as ascii art.
#[derive(Debug)]
pub enum RenderResult {
    /// Successfully converted.
    Art(String),
    /// Could not be shown; the string is a human-readable reason.
    Reason(String),
}

/// What an outcome says.
pub enum Rendered {
    Art(Seq<char>),
    Reason(Seq<char>),
}

impl View for RenderResult {
    type V = Rendered;

    open spec fn view(&self) -> Rendered {
        match self {
            RenderResult::Art(s) => Rendered::Art(s@),
            RenderResult::Reason(s) => Rendered::Reason(s@),
        }
    }
}

impl Clone for RenderResult {
    fn clone(&self) -> (r: RenderResult)
        ensures
            r == *self,
    {
        match self {
            RenderResult::Art(s) => RenderResult::Art(s.clone()),
            RenderResult::Reason(s) => RenderResult::Reason(s.clone()),
        }
    }
}

impl RenderResult {
    pub fn reason(s: &str) -> (r: RenderResult)
        ensures
            r@ == Rendered::Reason(s@),
    {
        RenderResult::Reason(s.to_owned())
    }
}

/// What `image::ImageReader::decode` makes of bytes, as eight-bit red, green, blue and alpha;
/// nothing where it fails.
pub uninterp spec fn decoded(bytes: Seq<u8>) -> Option<ascii::Picture>;

pub open spec fn picture_of(img: Option<Image>) -> Option<ascii::Picture> {
    match img {
        Some(i) => Some(i@),
        None => None,
    }
}

/// `image::ImageReader` with a guessed format, `decode` and `to_rgba8`: a function of the bytes,
/// named `decoded`. A decoded image has bytes for every pixel; which formats there are and what
/// they say is left to the name.
#[verifier::external_body]
fn decode(bytes: &[u8]) -> (r: Option<Image>)
    ensures
        picture_of(r) == decoded(bytes@),
        r matches Some(img) ==> img.wf(),
{
    let reader = image::ImageReader::new(std::io::Cursor::new(bytes)).with_guessed_format().ok()?;
    let img = reader.decode().ok()?;
    let (width, height) = (img.width(), img.height());
    Some(Image { width, height, pixels: img.to_rgba8().into_raw() })
}

/// Why a response is not worth reading, if so: the server refuses to have its image embedded, it
/// answers with an error, or what it sends is no image.
pub open spec fn refusal(status: u16, content_type: Option<Seq<char>>) -> Option<Seq<char>> {
    let kind = text::lowered(match content_type {
        Some(s) => s,
        None => Seq::empty(),
    });
    if status == 401 || status == 403 {
        Some("embedding not allowed"@)
    } else if !(200 <= status < 300) {
        Some("download failed (HTTP "@ + numbers::digits(status as nat) + ")"@)
    } else if kind.len() > 0 && !text::has_prefix(kind, "image/"@) {
        Some("not an image"@)
    } else {
        None
    }
}

/// Decide from the head of a response whether its body is worth reading; if not, the outcome.
pub fn response_refused(status: u16, content_type: Option<&str>) -> (r: Option<RenderResult>)
    ensures
        match r {
            Some(RenderResult::Reason(why)) => refusal(
                status,
                match content_type {
                    Some(s) => Some(s@),
                    None => None,
                },
            ) == Some(why@),
            Some(RenderResult::Art(_)) => false,
            None => refusal(
                status,
                match content_type {
                    Some(s) => Some(s@),
                    None => None,
                },
            ) is None,
        },
{
    // Hotlink protection / auth walls refuse with 401/403.
    if status == 401 || status == 403 {
        return Some(RenderResult::reason("embedding not allowed"));
    }
    if !(200 <= status && status < 300) {
        let mut why = "download failed (HTTP ".to_owned();
        why.append(numbers::decimal(status as u64).as_str());
        why.append(")");
        return Some(RenderResult::Reason(why));
    }
    // Not an image: nothing to embed.
    let kind = match content_type {
        Some(s) => text::lower_ascii(s),
        None => String::new(),
    };
    proof {
        if content_type is None {
            assert(text::lowered(Seq::<char>::empty()) == Seq::<char>::empty());
        }
    }
    if !kind.as_str().is_empty() && !text::starts_with(kind.as_str(), "image/") {
        return Some(RenderResult::reason("not an image"));
    }
    None
}

/// What a piece of art comes to: blank art is a failure.
pub open spec fn art_outcome(art: Seq<char>) -> Rendered {
    if text::trimmed(art).len() == 0 {
        Rendered::Reason("conversion failed"@)
    } else {
        Rendered::Art(art)
    }
}

fn art_result(art: String) -> (r: RenderResult)
    ensures
        r@ == art_outcome(art@),
{
    if text::trim(art.as_str()).as_str().is_empty() {
        RenderResult::reason("conversion failed")
    } else {
        RenderResult::Art(art)
    }
}

/// What is next for a downloaded body.
pub enum BodyStep {
    /// Nothing: this is the outcome.
    Done(RenderResult),
    /// Hand the bytes to the external converter, asking for this width.
    Convert(u32),
}

/// What a step says.
pub enum BodyPlan {
    Done(Rendered),
    Convert(int),
}

impl View for BodyStep {
    type V = BodyPlan;

    open spec fn view(&self) -> BodyPlan {
        match self {
            BodyStep::Done(r) => BodyPlan::Done(r@),
            BodyStep::Convert(w) => BodyPlan::Convert(*w as int),
        }
    }
}

/// What becomes of a decoded image: the external converter has it where it is installed, the
/// built-in one draws it otherwise.
pub open spec fn image_plan(
    img: Option<ascii::Picture>,
    cols: u16,
    rows: u16,
    installed: bool,
) -> BodyPlan {
    match img {
        None => BodyPlan::Done(Rendered::Reason("could not be decoded"@)),
        Some(p) => {
            let by = ascii::scale(cols, rows, p.width as u32, p.height as u32);
            let out_w = ascii::scaled(ascii::cells_wide(p.width as u32), by);
            let out_h = ascii::scaled(ascii::cells_high(p.height as u32), by);
            if p.width == 0 || p.height == 0 {
                BodyPlan::Done(Rendered::Reason("conversion failed"@))
            } else if installed {
                BodyPlan::Convert(out_w)
            } else {
                BodyPlan::Done(art_outcome(ascii::ascii(p, out_w as nat, out_h as nat)))
            }
        },
    }
}

/// What becomes of a downloaded body, `None` where the download broke off.
pub open spec fn body_plan(
    bytes: Option<Seq<u8>>,
    cols: u16,
    rows: u16,
    installed: bool,
) -> BodyPlan {
    match bytes {
        None => BodyPlan::Done(Rendered::Reason("download failed"@)),
        Some(b) => if b.len() == 0 {
            BodyPlan::Done(Rendered::Reason("download failed"@))
        } else {
            image_plan(decoded(b), cols, rows, installed)
        },
    }
}

/// Built-in luminance ramp ascii art (no external tools).
pub fn convert_builtin(img: &Image, out_w: u32, out_h: u32) -> (r: RenderResult)
    requires
        img.wf(),
    ensures
        r@ == art_outcome(ascii::ascii(img@, out_w as nat, out_h as nat)),
{
    art_result(ascii::image_to_ascii(img, out_w, out_h))
}

/// Decide what becomes of a decoded image.
pub fn render_decoded(img: Option<Image>, cols: u16, rows: u16, installed: bool) -> (r: BodyStep)
    requires
        img matches Some(i) ==> i.wf(),
    ensures
        r@ == image_plan(picture_of(img), cols, rows, installed),
{
    match img {
        None => BodyStep::Done(RenderResult::reason("could not be decoded")),
        Some(i) => {
            if i.width == 0 || i.height == 0 {
                return BodyStep::Done(RenderResult::reason("conversion failed"));
            }
            let (out_w, out_h) = ascii::fit_dimensions(cols, rows, i.width, i.height);
            // Prefer the external converter when it is actually installed (nicer output and
            // animated gifs); otherwise the built-in one needs nothing else.
            if installed {
                BodyStep::Convert(out_w)
            } else {
                BodyStep::Done(convert_builtin(&i, out_w, out_h))
            }
        },
    }
}

/// Decide what becomes of a downloaded body, `None` where the download broke off. `installed`
/// says whether the external converter is there.
pub fn render_body(bytes: Option<&[u8]>, cols: u16, rows: u16, installed: bool) -> (r: BodyStep)
    ensures
        r@ == body_plan(
            match bytes {
                Some(b) => Some(b@),
                None => None,
            },
            cols,
            rows,
            installed,
        ),
{
    match bytes {
        None => BodyStep::Done(RenderResult::reason("download failed")),
        Some(b) => {
            if b.len() == 0 {
                BodyStep::Done(RenderResult::reason("download failed"))
            } else {
                render_decoded(decode(b), cols, rows, installed)
            }
        },
    }
}

/// What the external converter came to: its output, `None` where it did not run or did not end
/// well.
pub fn convert_external(output: Option<String>) -> (r: RenderResult)
    ensures
        r@ == (match output {
            Some(s) => art_outcome(s@),
            None => Rendered::Reason("conversion failed"@),
        }),
{
    match output {
        Some(s) => art_result(s),
        None => RenderResult::reason("conversion failed"),
    }
}

/// Art with something to see in it is shown; art without is reported as a failure.
pub proof fn blank_art_is_never_shown(art: Seq<char>)
    ensures
        art_outcome(art) is Art <==> exists|i: int|
            0 <= i < art.len() && !text::is_white(#[trigger] art[i]),
        art_outcome(art) is Art ==> art_outcome(art) == Rendered::Art(art),
{
    text::lemma_trimmed_empty(art);
}

// ── The renderer ──────────────────────────────────────────────────────

/// Who the download claims to be.
pub const USER_AGENT: &'static str =
    "Mozilla/5.0 (Windows NT 10.0; Win64; x64) AppleWebKit/537.36 (KHTML, like Gecko) Chrome/120 Safari/537.36";

pub struct ImageRenderer {
    /// External `ascii-image-converter` binary path (used when it exists on disk; better quality
    /// and animated gifs). Empty or absent: the built-in one.
    pub converter_path: String,
    pub width: usize,
    pub referer: String,
    pub cache: ImageCache,
}

/// What is next for an image.
pub enum RenderStep {
    /// Nothing: it was rendered before.
    Cached(RenderResult),
    /// Download it, with this `Referer` if there is one.
    Download(Option<String>),
}

impl ImageRenderer {
    pub fn new(converter_path: String, width: usize, referer: String) -> (r: ImageRenderer)
        ensures
            r.converter_path == converter_path,
            r.width == width,
            r.referer == referer,
            r.cache@ == cache::empty(),
    {
        ImageRenderer { converter_path, width, referer, cache: ImageCache::new() }
    }

    /// The terminal's size; where it cannot be told, the configured width and 24 rows.
    pub fn terminal_size(&self, reported: Option<(u16, u16)>) -> (r: (u16, u16))
        ensures
            r == (match reported {
                Some(size) => size,
                None => ((self.width % 0x1_0000) as u16, 24u16),
            }),
    {
        match reported {
            Some(size) => size,
            None => ((self.width % 0x1_0000) as u16, 24),
        }
    }

    /// Start to render an image for a terminal of `cols` x `rows` cells. What was rendered before
    /// is kept per URL *and* terminal size: a resize renders anew at the new size instead of
    /// returning the old art.
    pub fn render(&self, url: &str, cols: u16, rows: u16) -> (r: RenderStep)
        ensures
            match r {
                RenderStep::Cached(hit) => cache::find(
                    self.cache@,
                    cache::key_of(url@, cols, rows),
                ) == Some(hit),
                RenderStep::Download(referer) => {
                    &&& cache::find(self.cache@, cache::key_of(url@, cols, rows)) is None
                    &&& referer is Some <==> self.referer@.len() > 0
                    &&& referer matches Some(s) ==> s@ == self.referer@
                },
            },
    {
        match self.cache.get(cache::cache_key(url, cols, rows).as_str()) {
            Some(hit) => RenderStep::Cached(hit),
            None => {
                if self.referer.as_str().is_empty() {
                    RenderStep::Download(None)
                } else {
                    RenderStep::Download(Some(self.referer.clone()))
                }
            },
        }
    }

    /// Keep an outcome, and forget the oldest ones past about four times the visible chat height.
    pub fn remember(&mut self, url: &str, cols: u16, rows: u16, result: RenderResult)
        ensures
            final(self).cache@ == cache::kept(
                old(self).cache@,
                cache::key_of(url@, cols, rows),
                result,
                cache::capacity(rows),
            ),
            final(self).converter_path == old(self).converter_path,
            final(self).width == old(self).width,
            final(self).referer == old(self).referer,
    {
        let key = cache::cache_key(url, cols, rows);
        self.cache.insert(key, result, rows);
    }
}

// ── Laws of what is shown ─────────────────────────────────────────────

/// The tokens of a map add exactly the meanings, where these are not empty, of those that the text
/// calls.
pub proof fn called_tokens_add_their_meaning(m: tokens::Entries, s: Seq<char>, u: Seq<char>)
    ensures
        token_urls(m, s).contains(u) <==> exists|i: int|
            0 <= i < m.len() && (#[trigger] m[i]).1 == u && u.len() > 0 && emoji::called(m[i].0, s),
    decreases m.len(),
{
    if m.len() > 0 {
        let front = m.drop_last();
        let last = m.last();
        called_tokens_add_their_meaning(front, s, u);
        let r = token_urls(m, s);
        let before = token_urls(front, s);
        assert(m[m.len() - 1] == last);
        if before.contains(u) {
            let i = choose|i: int|
                0 <= i < front.len() && (#[trigger] front[i]).1 == u && u.len() > 0 && emoji::called(
                    front[i].0,
                    s,
                );
            assert(m[i] == front[i]);
            let k = choose|k: int| 0 <= k < before.len() && before[k] == u;
            assert(r[k] == u);
        }
        if exists|i: int|
            0 <= i < m.len() && (#[trigger] m[i]).1 == u && u.len() > 0 && emoji::called(m[i].0, s) {
            let i = choose|i: int|
                0 <= i < m.len() && (#[trigger] m[i]).1 == u && u.len() > 0 && emoji::called(
                    m[i].0,
                    s,
                );
            if i < front.len() {
                assert(front[i] == m[i]);
                assert(before.contains(u));
            } else {
                assert(r == before.push(last.1));
                assert(r[before.len() as int] == u);
            }
        }
        if r.contains(u) {
            let k = choose|k: int| 0 <= k < r.len() && r[k] == u;
            if k < before.len() {
                assert(before[k] == u);
            }
        }
    }
}

/// Only what a server hands out without an error and as an image, or without saying what it is, is
/// read; how it writes the kind does not matter. A server that forbids it is told from one that
/// fails, and a failure is reported with its number.
pub proof fn only_images_are_read(status: u16, kind: Seq<char>, rest: Seq<char>)
    ensures
        refusal(status, None) is None <==> 200 <= status <= 299,
        text::lowered(kind) == "image/"@ + rest ==> (refusal(status, Some(kind)) is None <==> 200
            <= status <= 299),
        kind.len() > 0 && text::lowered(kind).take(6) != "image/"@ ==> refusal(status, Some(kind))
            is Some,
        status == 401 || status == 403 ==> refusal(status, Some(kind)) == Some(
            "embedding not allowed"@,
        ),
        !(200 <= status <= 299) && status != 401 && status != 403 ==> (refusal(
            status,
            Some(kind),
        ) matches Some(why) && text::has_sub(why, numbers::digits(status as nat))),
        refusal(status, Some(text::lowered(kind))) == refusal(status, Some(kind)),
{
    reveal_strlit("image/");
    let low = text::lowered(kind);
    assert(text::lowered(Seq::<char>::empty()) =~= Seq::<char>::empty());
    assert(text::lowered(low) =~= low) by {
        assert forall|i: int| 0 <= i < low.len() implies text::ascii_lower(#[trigger] low[i])
            == low[i] by {
            text::capitals_become_small(kind[i], 0);
        }
    }
    if low == "image/"@ + rest {
        assert(low.subrange(0, 6) =~= "image/"@);
    }
    if text::has_prefix(low, "image/"@) {
        assert(low.take(6) =~= low.subrange(0, 6));
    }
    let n = numbers::digits(status as nat);
    text::middle_is_found("download failed (HTTP "@, n, ")"@);
}

/// A download that broke off and one that brought nothing come to the same; what cannot be decoded
/// or has no pixels is reported, and never drawn. An image goes to the converter where there is one,
/// at a width that fits the terminal.
pub proof fn broken_images_are_reported(cols: u16, rows: u16, installed: bool, p: ascii::Picture)
    requires
        p.width <= u32::MAX,
        p.height <= u32::MAX,
    ensures
        body_plan(None, cols, rows, installed) == body_plan(
            Some(Seq::empty()),
            cols,
            rows,
            installed,
        ),
        body_plan(None, cols, rows, installed) matches BodyPlan::Done(Rendered::Reason(_)),
        image_plan(None, cols, rows, installed) matches BodyPlan::Done(Rendered::Reason(_)),
        p.width == 0 || p.height == 0 ==> (image_plan(
            Some(p),
            cols,
            rows,
            installed,
        ) matches BodyPlan::Done(Rendered::Reason(_))),
        p.width > 0 && p.height > 0 ==> (installed <==> image_plan(
            Some(p),
            cols,
            rows,
            installed,
        ) is Convert),
        image_plan(Some(p), cols, rows, installed) matches BodyPlan::Convert(w) ==> 1 <= w
            <= ascii::room(cols, 10),
{
    if p.width > 0 && p.height > 0 {
        ascii::fit_stays_within_the_room(cols, rows, p.width as u32, p.height as u32);
    }
}

/// Where there is no converter, the built-in one draws the image, at the size that fits the
/// terminal and no other.
pub proof fn built_in_art_has_the_fitting_size(cols: u16, rows: u16, p: ascii::Picture)
    requires
        0 < p.width <= u32::MAX,
        0 < p.height <= u32::MAX,
    ensures
        image_plan(Some(p), cols, rows, false) matches BodyPlan::Done(Rendered::Art(art)) ==> {
            let by = ascii::scale(cols, rows, p.width as u32, p.height as u32);
            let w = ascii::scaled(ascii::cells_wide(p.width as u32), by);
            let h = ascii::scaled(ascii::cells_high(p.height as u32), by);
            1 <= w <= ascii::room(cols, 10) && 1 <= h <= ascii::room(rows, 3) && art.len() == h * (w
                + 1)
        },
{
    let by = ascii::scale(cols, rows, p.width as u32, p.height as u32);
    let w = ascii::scaled(ascii::cells_wide(p.width as u32), by);
    let h = ascii::scaled(ascii::cells_high(p.height as u32), by);
    ascii::fit_stays_within_the_room(cols, rows, p.width as u32, p.height as u32);
    ascii::art_has_the_asked_size(p, w as nat, h as nat);
}

/// The meanings of tokens come in the order of the map.
pub proof fn meanings_keep_the_order_of_the_map(a: tokens::Entries, b: tokens::Entries, s: Seq<char>)
    ensures
        token_urls(a + b, s) == token_urls(a, s) + token_urls(b, s),
    decreases b.len(),
{
    if b.len() > 0 {
        assert((a + b).drop_last() =~= a + b.drop_last());
        meanings_keep_the_order_of_the_map(a, b.drop_last(), s);
        assert(token_urls(a + b, s) =~= token_urls(a, s) + token_urls(b, s));
    } else {
        assert(a + b =~= a);
        assert(token_urls(a, s) + token_urls(b, s) =~= token_urls(a, s));
    }
}

/// A server that names no kind is taken like one that says nothing of it.
pub proof fn empty_kind_is_no_kind(status: u16)
    ensures
        refusal(status, Some(Seq::empty())) == refusal(status, None),
{
}

/// Links are looked for with and without encryption, and to the usual kinds of images.
pub proof fn links_to_images_are_looked_for()
    ensures
        text::has_prefix(pattern::IMAGE_URL_PATTERN@, "https?://"@),
        text::has_sub(pattern::IMAGE_URL_PATTERN@, "\\.(?:png|jpe?g|gif|webp)"@),
{
    let p = "https?://[^\\s<>]+?\\.(?:png|jpe?g|gif|webp)(?:\\?[^\\s<>]*)?"@;
    reveal_strlit("https?://[^\\s<>]+?\\.(?:png|jpe?g|gif|webp)(?:\\?[^\\s<>]*)?");
    reveal_strlit("https?://");
    reveal_strlit("\\.(?:png|jpe?g|gif|webp)");
    assert(p.subrange(0, 9) =~= "https?://"@);
    assert(p.subrange(18, 42) =~= "\\.(?:png|jpe?g|gif|webp)"@);
    assert(text::matches_at(p, "\\.(?:png|jpe?g|gif|webp)"@, 18));
}

} // verus!
