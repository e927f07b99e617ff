//! MyInstants soundboard: parsing of the search page, pagination of the
//! results, the bounded store of open sessions and the playback choices.
use vstd::prelude::*;
use crate::text::{
    chars_of, eq_str, starts_with, starts_with_str, trim, trim_ws, replace_all, replace_str,
    string_from_chars, append, append_str, decimal, decimal_chars, slice, slice_all, split_char, split_on,
    usize_value, parse_usize, opt_views, is_digit,
};
use crate::deps::{regex_captures, regex_captures_of, opt_string_view, url_encode, percent_encode, md5_hex, md5_hex_of};
use vstd::string::StringSliceAdditionalSpecFns;

verus! {

/// A single sound result from MyInstants.
pub struct SoundItem {
    pub title: String,
    pub url: String,
}

/// A soundboard session: the search results plus pagination/effect state.
/// `created_at_ms` is the creation time on the caller's monotonic clock.
pub struct SoundboardSession {
    pub query: String,
    pub items: Vec<SoundItem>,
    pub page: usize,
    pub effect: String,
    pub guild_id: u64,
    pub created_at_ms: u64,
}

/// How long a session may live before it is evicted, in milliseconds.
pub const SESSION_TTL_MS: u64 = 900_000;

/// Maximum number of sessions kept at once.
pub const MAX_SESSIONS: usize = 25;

/// Results shown per page.
pub const PAGE_SIZE: usize = 5;

pub const BASE_URL: &'static str = "https://www.myinstants.com";

/// The search page URL for a query.
pub fn search_url(query: &str) -> (r: String)
    ensures
        r@ == BASE_URL@ + "/en/search/?name="@ + percent_encode(query.spec_bytes()),
{
    let mut v = chars_of(BASE_URL);
    append_str(&mut v, "/en/search/?name=");
    let e = url_encode(query);
    append_str(&mut v, e.as_str());
    string_from_chars(v)
}

/// The HTML entities replaced in titles, in the order they are replaced.
pub const ENTITIES: [(&'static str, &'static str); 8] = [
    ("&#x27;", "'"),
    ("&#39;", "'"),
    ("&apos;", "'"),
    ("&amp;", "&"),
    ("&quot;", "\""),
    ("&lt;", "<"),
    ("&gt;", ">"),
    ("&nbsp;", " "),
];

/// The text after replacing the first `k` entities of [`ENTITIES`], in order.
pub open spec fn decode_first_entities(s: Seq<char>, k: int) -> Seq<char>
    decreases k,
{
    if k <= 0 {
        s
    } else {
        replace_all(decode_first_entities(s, k - 1), ENTITIES[k - 1].0@, ENTITIES[k - 1].1@)
    }
}

/// Decode the most common HTML entities found in MyInstants titles.
pub fn decode_entities(input: &str) -> (r: String)
    ensures
        r@ == decode_first_entities(input@, 8),
{
    let mut cur = chars_of(input);
    let mut k: usize = 0;
    while k < 8
        invariant
            k <= 8,
            cur@ == decode_first_entities(input@, k as int),
        decreases 8 - k,
    {
        let (from, to) = ENTITIES[k];
        proof {
            assert(ENTITIES[k as int].0@.len() > 0) by {
                reveal_strlit("&#x27;");
                reveal_strlit("&#39;");
                reveal_strlit("&apos;");
                reveal_strlit("&amp;");
                reveal_strlit("&quot;");
                reveal_strlit("&lt;");
                reveal_strlit("&gt;");
                reveal_strlit("&nbsp;");
            }
        }
        cur = replace_str(&cur, from, to);
        k += 1;
    }
    string_from_chars(cur)
}

/// Pattern of a sound's mp3 link in the search page.
pub const MP3_PATTERN: &'static str = "onclick=\"play\\('([^']+)'";

/// Pattern of a sound's title in the search page.
pub const TITLE_PATTERN: &'static str = "class=\"instant-link[^\"]*\">([^<]+)</a>";

/// A sound link made absolute.
pub open spec fn absolute_url(url: Seq<char>) -> Seq<char> {
    if starts_with(url, "http"@) { url } else { BASE_URL@ + url }
}

/// Pair links and titles (up to the shorter list), dropping untitled ones.
pub open spec fn paired_items(urls: Seq<Seq<char>>, titles: Seq<Seq<char>>) -> Seq<(Seq<char>, Seq<char>)>
    decreases urls.len(),
{
    if urls.len() == 0 || titles.len() == 0 {
        Seq::empty()
    } else {
        let n = if urls.len() < titles.len() { urls.len() } else { titles.len() };
        let rest = paired_items(urls.take(n - 1), titles.take(n - 1));
        let t = titles[n - 1];
        if t.len() == 0 {
            rest
        } else {
            rest.push((t, absolute_url(urls[n - 1])))
        }
    }
}

/// The cleaned titles of the page: entities decoded, then trimmed.
pub open spec fn cleaned_titles(raw: Seq<Seq<char>>) -> Seq<Seq<char>> {
    raw.map_values(|t: Seq<char>| trim(decode_first_entities(t, 8)))
}

/// The captured texts of the matches where the group took part, in order.
pub open spec fn present_groups(caps: Seq<Option<Seq<char>>>) -> Seq<Seq<char>>
    decreases caps.len(),
{
    if caps.len() == 0 {
        Seq::empty()
    } else {
        let rest = present_groups(caps.drop_last());
        match caps.last() {
            Some(t) => rest.push(t),
            None => rest,
        }
    }
}

/// The sounds given the captures of [`MP3_PATTERN`] and of
/// [`TITLE_PATTERN`] in a page, as `(title, url)`.
pub open spec fn sounds_from(links: Seq<Option<Seq<char>>>, titles: Seq<Option<Seq<char>>>) -> Seq<(Seq<char>, Seq<char>)> {
    paired_items(present_groups(links), cleaned_titles(present_groups(titles)))
}

/// The sounds listed in a search page, as `(title, url)`.
pub open spec fn page_sounds(html: Seq<char>) -> Seq<(Seq<char>, Seq<char>)> {
    sounds_from(regex_captures_of(MP3_PATTERN@, html), regex_captures_of(TITLE_PATTERN@, html))
}

/// Keep the captured texts of the matches where the group took part.
fn present_strings(caps: Vec<Option<String>>) -> (r: Vec<String>)
    ensures
        r@.len() == present_groups(opt_views(caps@)).len(),
        forall|i: int| 0 <= i < r@.len() ==> (#[trigger] r@[i])@ == present_groups(opt_views(caps@))[i],
{
    let ghost spec = opt_views(caps@);
    let mut r: Vec<String> = Vec::new();
    let mut i: usize = 0;
    while i < caps.len()
        invariant
            i <= caps@.len(),
            spec == opt_views(caps@),
            r@.len() == present_groups(spec.take(i as int)).len(),
            forall|k: int| 0 <= k < r@.len() ==> (#[trigger] r@[k])@ == present_groups(spec.take(i as int))[k],
        decreases caps@.len() - i,
    {
        proof {
            assert(spec.take(i + 1).drop_last() =~= spec.take(i as int));
            assert(spec.take(i + 1).last() == spec[i as int]);
            assert(opt_string_view(caps@[i as int]) == spec[i as int]);
        }
        match &caps[i] {
            Some(t) => r.push(t.clone()),
            None => {},
        }
        i += 1;
    }
    assert(spec.take(caps@.len() as int) =~= spec);
    r
}

/// Parse the sounds of a search page; an error message when there is none.
pub fn parse_search_page(html: &str) -> (r: Result<Vec<SoundItem>, String>)
    ensures
        match r {
            Ok(items) => items@.len() > 0 && items@.len() == page_sounds(html@).len() && forall|i: int|
                0 <= i < items@.len() ==> ((#[trigger] items@[i]).title@, items@[i].url@) == page_sounds(html@)[i],
            Err(e) => page_sounds(html@).len() == 0 && e@ == "No sounds found for that search on MyInstants."@,
        },
{
    let links = regex_captures(MP3_PATTERN, html);
    let titles = regex_captures(TITLE_PATTERN, html);
    assert(opt_views(links@) =~= regex_captures_of(MP3_PATTERN@, html@));
    assert(opt_views(titles@) =~= regex_captures_of(TITLE_PATTERN@, html@));
    sounds_from_captures(links, titles)
}

/// The sounds of a page given the captures of [`MP3_PATTERN`] and of
/// [`TITLE_PATTERN`] in it (see [`sounds_from`]); an error message when
/// there is none.
pub fn sounds_from_captures(links: Vec<Option<String>>, titles: Vec<Option<String>>) -> (r: Result<Vec<SoundItem>, String>)
    ensures
        match r {
            Ok(items) => items@.len() > 0 && items@.len() == sounds_from(opt_views(links@), opt_views(titles@)).len()
                && forall|i: int| 0 <= i < items@.len() ==> ((#[trigger] items@[i]).title@, items@[i].url@)
                    == sounds_from(opt_views(links@), opt_views(titles@))[i],
            Err(e) => sounds_from(opt_views(links@), opt_views(titles@)).len() == 0
                && e@ == "No sounds found for that search on MyInstants."@,
        },
{
    let ghost raw = present_groups(opt_views(titles@));
    let ghost gu = present_groups(opt_views(links@));
    let ghost gt = cleaned_titles(raw);
    let urls = present_strings(links);
    let raw_titles = present_strings(titles);
    let n: usize = if urls.len() < raw_titles.len() { urls.len() } else { raw_titles.len() };
    let mut items: Vec<SoundItem> = Vec::new();
    let mut i: usize = 0;
    while i < n
        invariant
            n <= urls@.len(),
            n <= raw_titles@.len(),
            n == if gu.len() < gt.len() { gu.len() } else { gt.len() },
            urls@.len() == gu.len(),
            raw_titles@.len() == gt.len(),
            forall|k: int| 0 <= k < urls@.len() ==> (#[trigger] urls@[k])@ == gu[k],
            gt == cleaned_titles(raw),
            forall|k: int| 0 <= k < raw_titles@.len() ==> (#[trigger] raw_titles@[k])@ == raw[k],
            i <= n,
            items@.len() == paired_items(gu.take(i as int), gt.take(i as int)).len(),
            forall|k: int| 0 <= k < items@.len() ==> ((#[trigger] items@[k]).title@, items@[k].url@) == paired_items(gu.take(i as int), gt.take(i as int))[k],
        decreases n - i,
    {
        proof {
            assert(gu.take(i + 1).take(i as int) =~= gu.take(i as int));
            assert(gt.take(i + 1).take(i as int) =~= gt.take(i as int));
        }
        let decoded = decode_entities(raw_titles[i].as_str());
        let dv = chars_of(decoded.as_str());
        let title = trim_ws(&dv);
        assert(title@ == gt[i as int]);
        if title.len() > 0 {
            let uv = chars_of(urls[i].as_str());
            let full = if starts_with_str(&uv, "http") {
                slice_all(&uv)
            } else {
                let mut b = chars_of(BASE_URL);
                append(&mut b, &uv);
                b
            };
            items.push(SoundItem { title: string_from_chars(title), url: string_from_chars(full) });
        }
        i += 1;
    }
    proof {
        lemma_paired_prefix(gu, gt, n as int);
    }
    if items.len() == 0 {
        return Err("No sounds found for that search on MyInstants.".to_string());
    }
    Ok(items)
}

proof fn lemma_paired_prefix(u: Seq<Seq<char>>, t: Seq<Seq<char>>, n: int)
    requires
        n == if u.len() < t.len() { u.len() } else { t.len() },
    ensures
        paired_items(u.take(n), t.take(n)) == paired_items(u, t),
{
    if n > 0 {
        assert(u.take(n).take(n - 1) =~= u.take(n - 1));
        assert(t.take(n).take(n - 1) =~= t.take(n - 1));
    } else {
        assert(u.len() == 0 || t.len() == 0);
    }
}

// ───────────────────────── pagination ─────────────────────────

/// Number of pages for `total` results (at least one).
pub open spec fn page_count(total: nat) -> nat {
    if total == 0 { 1 } else { ((total - 1) / 5 + 1) as nat }
}

/// The page actually shown, start and end (exclusive) of its results, and
/// the number of pages.
pub struct PageWindow {
    pub page: usize,
    pub start: usize,
    pub end: usize,
    pub total_pages: usize,
}

/// Clamp the requested page and compute the slice of results it shows.
pub fn page_window(total: usize, page: usize) -> (w: PageWindow)
    ensures
        w.total_pages == page_count(total as nat),
        w.page == if page < w.total_pages { page } else { (w.total_pages - 1) as usize },
        w.start == w.page * PAGE_SIZE,
        w.end == if w.start + PAGE_SIZE < total { w.start + PAGE_SIZE } else { total as int },
        w.page < w.total_pages,
        w.start <= w.end <= total,
        w.end - w.start <= PAGE_SIZE,
        total > 0 ==> w.start < w.end,
{
    let total_pages: usize = if total == 0 { 1 } else { (total - 1) / PAGE_SIZE + 1 };
    let p = if page < total_pages { page } else { total_pages - 1 };
    proof {
        if total > 0 {
            assert(p * 5 <= total - 1) by (nonlinear_arith)
                requires p < total_pages, total_pages == (total - 1) / 5 + 1, total > 0;
        } else {
            assert(p == 0);
        }
    }
    let start = p * PAGE_SIZE;
    let end = if total - start > PAGE_SIZE { start + PAGE_SIZE } else { total };
    PageWindow { page: p, start, end, total_pages }
}


/// One result line of a page: `**<n>.** <title>`.
pub open spec fn result_lines(items: Seq<SoundItem>, start: int, end: int) -> Seq<char>
    decreases end - start,
{
    if end <= start {
        Seq::empty()
    } else {
        result_lines(items, start, end - 1) + "**"@ + decimal((end - start) as nat) + ".** "@ + items[end - 1].title@
            + "\n"@
    }
}

/// The effect shown on a page (`nessuno` for none).
pub open spec fn effect_label(effect: Seq<char>) -> Seq<char> {
    if effect == "none"@ { "nessuno"@ } else { effect }
}

/// The description of a session page: its results, the range and page
/// indicator, and the effect.
pub open spec fn page_description(s: SoundboardSession, w: PageWindow) -> Seq<char> {
    result_lines(s.items@, w.start as int, w.end as int) + "\n*Risultati "@ + decimal((w.start + 1) as nat) + "–"@
        + decimal(w.end as nat) + " di "@ + decimal(s.items@.len()) + " — pagina "@ + decimal((w.page + 1) as nat) + "/"@
        + decimal(w.total_pages as nat) + "*"@ + "\n🎛️ Effetto: **"@ + effect_label(s.effect@) + "**"@
}

/// A button label: the title, cut to 80 characters with `…`.
pub open spec fn button_label(title: Seq<char>) -> Seq<char> {
    if title.len() > 80 { title.take(80) + "…"@ } else { title }
}

/// A rendered page of a session.
pub struct SoundboardPage {
    pub title: String,
    pub description: String,
    /// `(custom id, label)` of the sound buttons, in order.
    pub sound_buttons: Vec<(String, String)>,
    pub prev_id: String,
    pub next_id: String,
    pub close_id: String,
    pub prev_disabled: bool,
    pub next_disabled: bool,
}

/// Build the page of a session: the embed title and description, one
/// button per result (`sb:play:<session>:<index>`), and the navigation.
pub fn soundboard_view(session: &SoundboardSession, session_id: &str) -> (r: SoundboardPage)
    ensures
        ({
            let w = PageWindow {
                page: if session.page < page_count(session.items@.len()) { session.page } else { (page_count(session.items@.len()) - 1) as usize },
                start: 0, end: 0, total_pages: page_count(session.items@.len()) as usize,
            };
            let page = w.page;
            let start = page * PAGE_SIZE;
            let end = if start + PAGE_SIZE < session.items@.len() { start + PAGE_SIZE } else { session.items@.len() as int };
            &&& r.title@ == "🔊 Soundboard: "@ + session.query@
            &&& r.description@ == page_description(*session, PageWindow { page, start: start as usize, end: end as usize, total_pages: w.total_pages })
            &&& r.sound_buttons@.len() == end - start
            &&& forall|k: int| 0 <= k < r.sound_buttons@.len() ==> {
                &&& (#[trigger] r.sound_buttons@[k]).0@ == "sb:play:"@ + session_id@ + ":"@ + decimal((start + k) as nat)
                &&& r.sound_buttons@[k].1@ == button_label(session.items@[start + k].title@)
            }
            &&& r.prev_id@ == "sb:prev:"@ + session_id@
            &&& r.next_id@ == "sb:next:"@ + session_id@
            &&& r.close_id@ == "sb:close:"@ + session_id@
            &&& r.prev_disabled == (page == 0)
            &&& r.next_disabled == (page + 1 >= w.total_pages)
        }),
{
    let w = page_window(session.items.len(), session.page);
    let mut desc: Vec<char> = Vec::new();
    let mut i: usize = w.start;
    assert(desc@ =~= result_lines(session.items@, w.start as int, w.start as int));
    while i < w.end
        invariant
            w.start <= i <= w.end <= session.items@.len(),
            desc@ == result_lines(session.items@, w.start as int, i as int),
        decreases w.end - i,
    {
        append_str(&mut desc, "**");
        let n = decimal_chars((i - w.start + 1) as u64);
        append(&mut desc, &n);
        append_str(&mut desc, ".** ");
        append_str(&mut desc, session.items[i].title.as_str());
        append_str(&mut desc, "\n");
        i += 1;
    }
    append_str(&mut desc, "\n*Risultati ");
    let a = decimal_chars((w.start + 1) as u64);
    append(&mut desc, &a);
    append_str(&mut desc, "–");
    let b = decimal_chars(w.end as u64);
    append(&mut desc, &b);
    append_str(&mut desc, " di ");
    let c = decimal_chars(session.items.len() as u64);
    append(&mut desc, &c);
    append_str(&mut desc, " — pagina ");
    let d = decimal_chars((w.page + 1) as u64);
    append(&mut desc, &d);
    append_str(&mut desc, "/");
    let e = decimal_chars(w.total_pages as u64);
    append(&mut desc, &e);
    append_str(&mut desc, "*");
    append_str(&mut desc, "\n🎛️ Effetto: **");
    let ev = chars_of(session.effect.as_str());
    if eq_str(&ev, "none") {
        append_str(&mut desc, "nessuno");
    } else {
        append(&mut desc, &ev);
    }
    append_str(&mut desc, "**");
    let mut buttons: Vec<(String, String)> = Vec::new();
    let mut j: usize = w.start;
    while j < w.end
        invariant
            w.start <= j <= w.end <= session.items@.len(),
            buttons@.len() == j - w.start,
            forall|k: int| 0 <= k < buttons@.len() ==> {
                &&& (#[trigger] buttons@[k]).0@ == "sb:play:"@ + session_id@ + ":"@ + decimal((w.start + k) as nat)
                &&& buttons@[k].1@ == button_label(session.items@[w.start + k].title@)
            },
        decreases w.end - j,
    {
        let mut id = chars_of("sb:play:");
        append_str(&mut id, session_id);
        append_str(&mut id, ":");
        let jn = decimal_chars(j as u64);
        append(&mut id, &jn);
        let t = chars_of(session.items[j].title.as_str());
        let label = if t.len() > 80 {
            let mut l = slice(&t, 0, 80);
            append_str(&mut l, "…");
            assert(t@.subrange(0, 80) =~= t@.take(80));
            l
        } else {
            t
        };
        buttons.push((string_from_chars(id), string_from_chars(label)));
        j += 1;
    }
    let mut title = chars_of("🔊 Soundboard: ");
    append_str(&mut title, session.query.as_str());
    let mut prev = chars_of("sb:prev:");
    append_str(&mut prev, session_id);
    let mut next = chars_of("sb:next:");
    append_str(&mut next, session_id);
    let mut close = chars_of("sb:close:");
    append_str(&mut close, session_id);
    SoundboardPage {
        title: string_from_chars(title),
        description: string_from_chars(desc),
        sound_buttons: buttons,
        prev_id: string_from_chars(prev),
        next_id: string_from_chars(next),
        close_id: string_from_chars(close),
        prev_disabled: w.page == 0,
        next_disabled: w.page + 1 >= w.total_pages,
    }
}

// ───────────────────────── session store ─────────────────────────

/// Milliseconds since a session was created (zero if the clock is behind).
pub open spec fn session_age(s: SoundboardSession, now_ms: u64) -> int {
    if now_ms >= s.created_at_ms { now_ms - s.created_at_ms } else { 0 }
}

/// A session still within its time to live.
pub open spec fn is_live(s: SoundboardSession, now_ms: u64) -> bool {
    session_age(s, now_ms) < SESSION_TTL_MS
}

/// Number of live sessions in a store.
pub open spec fn live_count(s: Seq<(String, SoundboardSession)>, now_ms: u64) -> nat
    decreases s.len(),
{
    if s.len() == 0 {
        0
    } else {
        (if is_live(s[0].1, now_ms) { 1nat } else { 0nat }) + live_count(s.drop_first(), now_ms)
    }
}

/// No id is stored twice.
pub open spec fn ids_distinct(s: Seq<(String, SoundboardSession)>) -> bool {
    forall|i: int, j: int| 0 <= i < j < s.len() ==> (#[trigger] s[i]).0@ != (#[trigger] s[j]).0@
}

/// Store a new session: drop expired sessions, then the oldest one if the
/// store is still full, then add the session under its id (replacing one
/// stored under the same id).
pub fn store_session(store: &mut Vec<(String, SoundboardSession)>, id: String, session: SoundboardSession, now_ms: u64)
    ensures
        final(store)@.len() > 0,
        final(store)@.last().0@ == id@,
        final(store)@.last().1 == session,
        ids_distinct(old(store)@) ==> ids_distinct(final(store)@),
        final(store)@.len() <= if live_count(old(store)@, now_ms) > MAX_SESSIONS {
            live_count(old(store)@, now_ms)
        } else {
            MAX_SESSIONS as nat
        },
        forall|k: int| 0 <= k < final(store)@.len() - 1 ==> {
            &&& is_live((#[trigger] final(store)@[k]).1, now_ms)
            &&& final(store)@[k].0@ != id@
            &&& old(store)@.contains(final(store)@[k])
        },
        live_count(old(store)@, now_ms) < MAX_SESSIONS ==> forall|k: int|
            0 <= k < old(store)@.len() && is_live((#[trigger] old(store)@[k]).1, now_ms) && old(store)@[k].0@ != id@
                ==> final(store)@.contains(old(store)@[k]),
        live_count(old(store)@, now_ms) >= MAX_SESSIONS ==> exists|e: (String, SoundboardSession)| {
            &&& old(store)@.contains(e)
            &&& is_live(e.1, now_ms)
            &&& forall|k: int| 0 <= k < old(store)@.len() && is_live((#[trigger] old(store)@[k]).1, now_ms)
                ==> e.1.created_at_ms <= old(store)@[k].1.created_at_ms
            &&& forall|k: int| 0 <= k < old(store)@.len() && is_live((#[trigger] old(store)@[k]).1, now_ms)
                && old(store)@[k].0@ != id@ && old(store)@[k] != e ==> final(store)@.contains(old(store)@[k])
        },
{
    let idv = chars_of(id.as_str());
    let ghost orig = store@;
    let ghost n = orig.len();
    // Keep the live sessions.
    let mut kept: Vec<(String, SoundboardSession)> = Vec::new();
    assert(orig.subrange(n as int, n as int) =~= Seq::<(String, SoundboardSession)>::empty());
    while store.len() > 0
        invariant
            n == orig.len(),
            store@ == orig.take(store@.len() as int),
            store@.len() <= n,
            kept@.len() == live_count(orig.subrange(store@.len() as int, n as int), now_ms),
            forall|k: int| 0 <= k < kept@.len() ==> is_live((#[trigger] kept@[k]).1, now_ms) && orig.contains(kept@[k]),
            forall|k: int| store@.len() <= k < n && is_live((#[trigger] orig[k]).1, now_ms) ==> kept@.contains(orig[k]),
            ids_distinct(orig) ==> ids_distinct(kept@),
            ids_distinct(orig) ==> forall|k: int, m: int| 0 <= k < kept@.len() && 0 <= m < store@.len()
                ==> (#[trigger] kept@[k]).0@ != (#[trigger] orig[m]).0@,
        decreases store@.len(),
    {
        let ghost kept_before = kept@;
        let ghost i = (store@.len() - 1) as int;
        proof {
            assert(orig.subrange(i, n as int).drop_first() =~= orig.subrange(i + 1, n as int));
            assert(orig.subrange(i, n as int)[0] == orig[i]);
        }
        let entry = store.pop().unwrap();
        proof {
            assert(store@ =~= orig.take(i));
            assert(entry == orig[i]);
        }
        let age: u64 = if now_ms >= entry.1.created_at_ms { now_ms - entry.1.created_at_ms } else { 0 };
        if age < SESSION_TTL_MS {
            kept.push(entry);
            proof {
                if ids_distinct(orig) {
                    assert forall|a: int, b: int| 0 <= a < b < kept@.len() implies (#[trigger] kept@[a]).0@ != (#[trigger] kept@[b]).0@ by {
                        if b == kept@.len() - 1 {
                            assert(kept@[a] == kept_before[a]);
                            assert(kept_before[a].0@ != orig[i].0@);
                        } else {
                            assert(kept@[a] == kept_before[a]);
                            assert(kept@[b] == kept_before[b]);
                        }
                    }
                    assert forall|k: int, m: int| 0 <= k < kept@.len() && 0 <= m < store@.len()
                        implies (#[trigger] kept@[k]).0@ != (#[trigger] orig[m]).0@ by {
                        if k < kept_before.len() {
                            assert(kept@[k] == kept_before[k]);
                        }
                    }
                }
                assert forall|k: int| i <= k < n && is_live((#[trigger] orig[k]).1, now_ms) implies kept@.contains(orig[k]) by {
                    if k == i {
                        assert(kept@[kept@.len() - 1] == orig[k]);
                    } else {
                        let w = choose|j: int| 0 <= j < kept_before.len() && kept_before[j] == orig[k];
                        assert(kept@[w] == orig[k]);
                    }
                }
            }
        }
    }
    assert(orig.subrange(0, n as int) =~= orig);
    // When still full, drop the oldest live session.
    let ghost live = kept@;
    let ghost mut evicted: Option<(String, SoundboardSession)> = None;
    if kept.len() >= MAX_SESSIONS {
        let mut oldest: usize = 0;
        let mut j: usize = 1;
        while j < kept.len()
            invariant
                1 <= j <= kept@.len(),
                oldest < kept@.len(),
                forall|m: int| 0 <= m < j ==> kept@[oldest as int].1.created_at_ms <= (#[trigger] kept@[m]).1.created_at_ms,
            decreases kept@.len() - j,
        {
            if kept[j].1.created_at_ms < kept[oldest].1.created_at_ms {
                oldest = j;
            }
            j += 1;
        }
        proof {
            evicted = Some(kept@[oldest as int]);
        }
        let _gone = kept.remove(oldest);
        proof {
            if ids_distinct(orig) {
                assert forall|a: int, b: int| 0 <= a < b < kept@.len() implies (#[trigger] kept@[a]).0@ != (#[trigger] kept@[b]).0@ by {
                    let a2 = if a < oldest { a } else { a + 1 };
                    let b2 = if b < oldest { b } else { b + 1 };
                    assert(kept@[a] == live[a2]);
                    assert(kept@[b] == live[b2]);
                }
            }
            assert forall|m: int| 0 <= m < live.len() && live[m] != evicted->0 implies kept@.contains(live[m]) by {
                if m < oldest {
                    assert(kept@[m] == live[m]);
                } else {
                    assert(m != oldest);
                    assert(kept@[m - 1] == live[m]);
                }
            }
        }
    }
    let ghost after = kept@;
    // Drop a session stored under the same id, then add the new one.
    let mut rest: Vec<(String, SoundboardSession)> = Vec::new();
    while kept.len() > 0
        invariant
            kept@ == after.take(kept@.len() as int),
            kept@.len() <= after.len(),
            idv@ == id@,
            rest@.len() + kept@.len() <= after.len(),
            forall|k: int| 0 <= k < rest@.len() ==> after.contains(#[trigger] rest@[k]) && rest@[k].0@ != id@,
            forall|m: int| kept@.len() <= m < after.len() && (#[trigger] after[m]).0@ != id@ ==> rest@.contains(after[m]),
            ids_distinct(after) ==> ids_distinct(rest@),
            ids_distinct(after) ==> forall|k: int, m: int| 0 <= k < rest@.len() && 0 <= m < kept@.len()
                ==> (#[trigger] rest@[k]).0@ != (#[trigger] after[m]).0@,
        decreases kept@.len(),
    {
        let ghost i = (kept@.len() - 1) as int;
        let ghost rest_before = rest@;
        let entry = kept.pop().unwrap();
        proof {
            assert(kept@ =~= after.take(i));
            assert(entry == after[i]);
        }
        let ev = chars_of(entry.0.as_str());
        if !crate::text::seq_eq(&ev, &idv) {
            rest.push(entry);
            proof {
                if ids_distinct(after) {
                    assert forall|a: int, b: int| 0 <= a < b < rest@.len() implies (#[trigger] rest@[a]).0@ != (#[trigger] rest@[b]).0@ by {
                        if b == rest@.len() - 1 {
                            assert(rest@[a] == rest_before[a]);
                            assert(rest_before[a].0@ != after[i].0@);
                        } else {
                            assert(rest@[a] == rest_before[a]);
                            assert(rest@[b] == rest_before[b]);
                        }
                    }
                    assert forall|k: int, m: int| 0 <= k < rest@.len() && 0 <= m < kept@.len()
                        implies (#[trigger] rest@[k]).0@ != (#[trigger] after[m]).0@ by {
                        if k < rest_before.len() {
                            assert(rest@[k] == rest_before[k]);
                        }
                    }
                }
                assert forall|m: int| i <= m < after.len() && (#[trigger] after[m]).0@ != id@ implies rest@.contains(after[m]) by {
                    if m == i {
                        assert(rest@[rest@.len() - 1] == after[m]);
                    } else {
                        let w = choose|q: int| 0 <= q < rest_before.len() && rest_before[q] == after[m];
                        assert(rest@[w] == after[m]);
                    }
                }
            }
        }
    }
    let ghost final_rest = rest@;
    rest.push((id, session));
    proof {
        if ids_distinct(orig) {
            assert(ids_distinct(after));
            assert(ids_distinct(final_rest));
            assert forall|a: int, b: int| 0 <= a < b < rest@.len() implies (#[trigger] rest@[a]).0@ != (#[trigger] rest@[b]).0@ by {
                assert(rest@[a] == final_rest[a]);
                if b < final_rest.len() {
                    assert(rest@[b] == final_rest[b]);
                } else {
                    assert(final_rest[a].0@ != id@);
                }
            }
        }
        assert forall|k: int| 0 <= k < rest@.len() - 1 implies {
            &&& is_live((#[trigger] rest@[k]).1, now_ms)
            &&& rest@[k].0@ != id@
            &&& orig.contains(rest@[k])
        } by {
            assert(rest@[k] == final_rest[k]);
            let w = choose|q: int| 0 <= q < after.len() && after[q] == final_rest[k];
            if evicted is Some {
                let w2 = choose|q: int| 0 <= q < live.len() && live[q] == after[w];
            }
        }
        assert forall|e: (String, SoundboardSession)| final_rest.contains(e) implies rest@.contains(e) by {
            let w = choose|q: int| 0 <= q < final_rest.len() && final_rest[q] == e;
            assert(rest@[w] == e);
        }
        if evicted is Some {
            let e = evicted->0;
            assert(live.contains(e));
            assert forall|k: int| 0 <= k < n && is_live((#[trigger] orig[k]).1, now_ms)
                implies e.1.created_at_ms <= orig[k].1.created_at_ms by {
                let w = choose|q: int| 0 <= q < live.len() && live[q] == orig[k];
            }
            assert forall|k: int| 0 <= k < n && is_live((#[trigger] orig[k]).1, now_ms) && orig[k].0@ != id@ && orig[k] != e
                implies rest@.contains(orig[k]) by {
                let w = choose|q: int| 0 <= q < live.len() && live[q] == orig[k];
                assert(after.contains(live[w]));
                let w2 = choose|q: int| 0 <= q < after.len() && after[q] == orig[k];
                assert(final_rest.contains(after[w2]));
            }
        } else {
            assert forall|k: int| 0 <= k < n && is_live((#[trigger] orig[k]).1, now_ms) && orig[k].0@ != id@
                implies rest@.contains(orig[k]) by {
                let w2 = choose|q: int| 0 <= q < after.len() && after[q] == orig[k];
                assert(final_rest.contains(after[w2]));
            }
        }
    }
    *store = rest;
}

// ───────────────────────── playback ─────────────────────────

/// How the bot reaches the user's voice channel.
pub enum ConnectAction {
    /// Already there.
    Stay,
    /// Leave its current (otherwise empty) channel and join the user's.
    Switch,
    /// Not connected: join the user's channel.
    Join,
}

/// Reaching the user's channel: stay when already there, never abandon
/// other people, switch when alone, join when disconnected.
pub fn soundboard_connect(bot_channel: Option<u64>, user_channel: u64, others_in_bot_channel: usize) -> (r: Result<ConnectAction, String>)
    ensures
        match bot_channel {
            Some(c) => if c == user_channel {
                r matches Ok(ConnectAction::Stay)
            } else if others_in_bot_channel > 0 {
                r matches Err(e) && e@ == "The bot is busy with other people in a voice channel. Use /join or wait."@
            } else {
                r matches Ok(ConnectAction::Switch)
            },
            None => r matches Ok(ConnectAction::Join),
        },
{
    match bot_channel {
        Some(c) => if c == user_channel {
            Ok(ConnectAction::Stay)
        } else if others_in_bot_channel > 0 {
            Err("The bot is busy with other people in a voice channel. Use /join or wait.".to_string())
        } else {
            Ok(ConnectAction::Switch)
        },
        None => Ok(ConnectAction::Join),
    }
}

/// `<temp_dir>/soundboard/<md5(url)>.mp3`: where a sound's plain audio is cached.
pub fn soundboard_cache_path(temp_dir: &str, url: &str) -> (r: String)
    ensures
        r@ == temp_dir@ + "/soundboard/"@ + md5_hex_of(url.spec_bytes()) + ".mp3"@,
{
    let h = md5_hex(url);
    soundboard_cache_path_for_hash(temp_dir, h.as_str())
}

/// `<temp_dir>/soundboard/<hash>.mp3` for an already computed hash of the url.
pub fn soundboard_cache_path_for_hash(temp_dir: &str, hash: &str) -> (r: String)
    ensures
        r@ == temp_dir@ + "/soundboard/"@ + hash@ + ".mp3"@,
{
    let mut v = chars_of(temp_dir);
    append_str(&mut v, "/soundboard/");
    append_str(&mut v, hash);
    append_str(&mut v, ".mp3");
    string_from_chars(v)
}

/// The file a sound is played from: its cached plain audio without an
/// effect, else `<temp_dir>/sb_eff_<unique>_<md5(url)>.mp3` (a temporary
/// file, removed after playback).
pub fn soundboard_play_path(temp_dir: &str, url: &str, effect: &str, unique: &str) -> (r: (String, bool))
    ensures
        effect@ == "none"@ ==> r.0@ == temp_dir@ + "/soundboard/"@ + md5_hex_of(url.spec_bytes()) + ".mp3"@ && !r.1,
        effect@ != "none"@ ==> r.0@ == temp_dir@ + "/sb_eff_"@ + unique@ + "_"@ + md5_hex_of(url.spec_bytes()) + ".mp3"@ && r.1,
{
    let h = md5_hex(url);
    soundboard_play_path_for_hash(temp_dir, h.as_str(), effect, unique)
}

/// [`soundboard_play_path`] for an already computed hash of the url.
pub fn soundboard_play_path_for_hash(temp_dir: &str, hash: &str, effect: &str, unique: &str) -> (r: (String, bool))
    ensures
        effect@ == "none"@ ==> r.0@ == temp_dir@ + "/soundboard/"@ + hash@ + ".mp3"@ && !r.1,
        effect@ != "none"@ ==> r.0@ == temp_dir@ + "/sb_eff_"@ + unique@ + "_"@ + hash@ + ".mp3"@ && r.1,
{
    let e = chars_of(effect);
    if eq_str(&e, "none") {
        (soundboard_cache_path_for_hash(temp_dir, hash), false)
    } else {
        let mut v = chars_of(temp_dir);
        append_str(&mut v, "/sb_eff_");
        append_str(&mut v, unique);
        append_str(&mut v, "_");
        append_str(&mut v, hash);
        append_str(&mut v, ".mp3");
        (string_from_chars(v), true)
    }
}

/// Files cached for the soundboard at most.
pub const SOUNDBOARD_CACHE_FILES: usize = 150;

/// File `j` is older than file `i`: earlier modification time, or the same
/// time and listed first.
pub open spec fn older(m: Seq<u64>, j: int, i: int) -> bool {
    m[j] < m[i] || (m[j] == m[i] && j < i)
}

/// How many of the first `n` files are older than file `i`.
pub open spec fn older_count(m: Seq<u64>, i: int, n: int) -> nat
    decreases n,
{
    if n <= 0 {
        0
    } else {
        older_count(m, i, n - 1) + if older(m, n - 1, i) { 1nat } else { 0nat }
    }
}

/// Whether file `i` goes when the cache is capped to `max` files: it is
/// among the `len - max` oldest.
pub open spec fn evicted(m: Seq<u64>, i: int, max: nat) -> bool {
    m.len() > max && older_count(m, i, m.len() as int) < m.len() - max
}

/// Which cached files (given by modification time) to remove so that at
/// most `max` remain: the oldest ones, earlier-listed first on equal times.
pub fn files_to_evict(mtimes: &Vec<u64>, max: usize) -> (r: Vec<bool>)
    ensures
        r@.len() == mtimes@.len(),
        forall|i: int| 0 <= i < r@.len() ==> r@[i] == evicted(mtimes@, i, max as nat),
{
    let n = mtimes.len();
    let mut r: Vec<bool> = Vec::new();
    let mut i: usize = 0;
    while i < n
        invariant
            n == mtimes@.len(),
            i <= n,
            r@.len() == i,
            forall|k: int| 0 <= k < i ==> r@[k] == evicted(mtimes@, k, max as nat),
        decreases n - i,
    {
        let mut count: usize = 0;
        let mut j: usize = 0;
        while j < n
            invariant
                n == mtimes@.len(),
                i < n,
                j <= n,
                count <= j,
                count == older_count(mtimes@, i as int, j as int),
            decreases n - j,
        {
            if mtimes[j] < mtimes[i] || (mtimes[j] == mtimes[i] && j < i) {
                count += 1;
            }
            j += 1;
        }
        let gone = n > max && count < n - max;
        r.push(gone);
        i += 1;
    }
    r
}

/// Every result is shown on exactly one page: result `i` is on page `i / 5`,
/// which exists, and only there.
pub proof fn lemma_every_result_on_one_page(total: nat, i: nat, page: nat)
    requires
        i < total,
    ensures
        i / 5 < page_count(total),
        (i / 5) * 5 <= i < (i / 5) * 5 + 5,
        page * 5 <= i < page * 5 + 5 ==> page == i / 5,
        PAGE_SIZE == 5,
{
    assert(i / 5 < page_count(total)) by (nonlinear_arith)
        requires i < total, page_count(total) == (total - 1) / 5 + 1, total > 0;
    assert((i / 5) * 5 <= i < (i / 5) * 5 + 5) by (nonlinear_arith);
    assert(page * 5 <= i < page * 5 + 5 ==> page == i / 5) by (nonlinear_arith);
}

/// Counting up to `n`: when file `k` is older than file `i`, every file
/// older than `k` is older than `i` too, and `k` itself is.
proof fn lemma_older_count_grows(m: Seq<u64>, k: int, i: int, n: int)
    requires
        0 <= k < m.len(),
        0 <= i < m.len(),
        older(m, k, i),
        n <= m.len(),
    ensures
        older_count(m, i, n) >= older_count(m, k, n) + (if 0 <= k < n { 1int } else { 0int }),
    decreases n,
{
    if n > 0 {
        lemma_older_count_grows(m, k, i, n - 1);
    }
}

/// The cache keeps its newest files: every evicted file is older than every
/// file that stays.
pub proof fn lemma_evicts_oldest_first(m: Seq<u64>, max: nat, i: int, k: int)
    requires
        0 <= i < m.len(),
        0 <= k < m.len(),
        evicted(m, i, max),
        !evicted(m, k, max),
    ensures
        older(m, i, k),
{
    if !older(m, i, k) {
        assert(older(m, k, i));
        lemma_older_count_grows(m, k, i, m.len() as int);
    }
}

// ───────────────────────── buttons ─────────────────────────

/// What a soundboard button asks for.
pub enum SoundboardAction {
    Close,
    Prev,
    Next,
    /// Play the result with this index.
    Play(usize),
    Unknown,
}

/// A soundboard button press: the action and the session it belongs to.
pub struct SoundboardButton {
    pub action: SoundboardAction,
    pub session_id: String,
}

/// The meaning of a button id `sb:<action>:<session>[:<index>]` (fields
/// separated by `:`); a missing session is empty, a missing or unreadable
/// index is 0; `None` for ids of other components.
pub open spec fn soundboard_button(id: Seq<char>) -> Option<(SoundboardAction, Seq<char>)> {
    if !starts_with(id, "sb:"@) {
        None
    } else {
        let parts = split_char(id.skip(3), ':');
        let session = if parts.len() > 1 { parts[1] } else { Seq::empty() };
        let action = if parts[0] == "close"@ {
            SoundboardAction::Close
        } else if parts[0] == "prev"@ {
            SoundboardAction::Prev
        } else if parts[0] == "next"@ {
            SoundboardAction::Next
        } else if parts[0] == "play"@ {
            SoundboardAction::Play(
                if parts.len() > 2 && usize_value(parts[2]) is Some { usize_value(parts[2])->0 as usize } else { 0 },
            )
        } else {
            SoundboardAction::Unknown
        };
        Some((action, session))
    }
}

/// Read a component's custom id as a soundboard button.
pub fn parse_soundboard_button(custom_id: &str) -> (r: Option<SoundboardButton>)
    ensures
        match soundboard_button(custom_id@) {
            Some((a, s)) => r matches Some(b) && b.action == a && b.session_id@ == s,
            None => r is None,
        },
{
    let id = chars_of(custom_id);
    if !starts_with_str(&id, "sb:") {
        return None;
    }
    proof {
        reveal_strlit("sb:");
    }
    let rest = slice(&id, 3, id.len());
    assert(rest@ =~= custom_id@.skip(3));
    let parts = split_on(&rest, ':');
    proof {
        crate::text::lemma_split_nonempty(rest@, ':');
    }
    let session: Vec<char> = if parts.len() > 1 { slice_all(&parts[1]) } else { Vec::new() };
    let a = &parts[0];
    let action = if eq_str(a, "close") {
        SoundboardAction::Close
    } else if eq_str(a, "prev") {
        SoundboardAction::Prev
    } else if eq_str(a, "next") {
        SoundboardAction::Next
    } else if eq_str(a, "play") {
        let index: usize = if parts.len() > 2 {
            match parse_usize(&parts[2]) {
                Some(v) => v,
                None => 0,
            }
        } else {
            0
        };
        SoundboardAction::Play(index)
    } else {
        SoundboardAction::Unknown
    };
    Some(SoundboardButton { action, session_id: string_from_chars(session) })
}

/// The page after a `prev` (`forward == false`) or `next` button: one page
/// back or on, staying within the pages of `total` results.
pub open spec fn turned_page(page: nat, total: nat, forward: bool) -> nat {
    if !forward && page > 0 {
        (page - 1) as nat
    } else if forward && page + 1 < page_count(total) {
        page + 1
    } else {
        page
    }
}

/// Turn the page of a session with `total` results.
pub fn turn_page(page: usize, total: usize, forward: bool) -> (r: usize)
    ensures
        r == turned_page(page as nat, total as nat, forward),
{
    let total_pages: usize = if total == 0 { 1 } else { (total - 1) / PAGE_SIZE + 1 };
    if !forward && page > 0 {
        page - 1
    } else if forward && page < total_pages - 1 {
        page + 1
    } else {
        page
    }
}

/// Whether a play button still points at a result of its session.
pub fn play_index_valid(index: usize, total: usize) -> (b: bool)
    ensures
        b == (index < total),
{
    index < total
}

/// Paging stays within the results, and `prev` undoes `next`: from any page
/// but the last, turning forward then back returns to the same page.
pub proof fn lemma_paging_round_trip(page: nat, total: nat)
    requires
        page < page_count(total),
    ensures
        turned_page(page, total, true) < page_count(total),
        turned_page(page, total, false) < page_count(total),
        page + 1 < page_count(total) ==> turned_page(turned_page(page, total, true), total, false) == page,
        page > 0 ==> turned_page(turned_page(page, total, false), total, true) == page,
{
}

/// The button ids a page carries read back as what they stand for: for a
/// session id without `:`, `sb:prev:`, `sb:next:`, `sb:close:` and
/// `sb:play:<session>:<index>` (as [`soundboard_view`] writes them) are read
/// by [`parse_soundboard_button`] as that action on that session.
pub proof fn lemma_button_ids_round_trip(session_id: Seq<char>, index: nat)
    requires
        !session_id.contains(':'),
        index <= usize::MAX,
    ensures
        soundboard_button("sb:prev:"@ + session_id) == Some((SoundboardAction::Prev, session_id)),
        soundboard_button("sb:next:"@ + session_id) == Some((SoundboardAction::Next, session_id)),
        soundboard_button("sb:close:"@ + session_id) == Some((SoundboardAction::Close, session_id)),
        soundboard_button("sb:play:"@ + session_id + ":"@ + decimal(index))
            == Some((SoundboardAction::Play(index as usize), session_id)),
{
    reveal_strlit("sb:");
    reveal_strlit("sb:prev:");
    reveal_strlit("sb:next:");
    reveal_strlit("sb:close:");
    reveal_strlit("sb:play:");
    reveal_strlit(":");
    reveal_strlit("prev");
    reveal_strlit("next");
    reveal_strlit("close");
    reveal_strlit("play");
    crate::text::lemma_split_without_sep(session_id, ':');
    let words: Seq<Seq<char>> = seq!["prev"@, "next"@, "close"@];
    let ids: Seq<Seq<char>> = seq!["sb:prev:"@ + session_id, "sb:next:"@ + session_id, "sb:close:"@ + session_id];
    assert forall|k: int| 0 <= k < 3 implies {
        let id = #[trigger] ids[k];
        &&& starts_with(id, "sb:"@)
        &&& id.skip(3) == words[k] + seq![':'] + session_id
        &&& split_char(id.skip(3), ':') == seq![words[k], session_id]
    } by {
        let id = ids[k];
        assert(id.take(3) =~= "sb:"@);
        assert(id.skip(3) =~= words[k] + seq![':'] + session_id);
        assert(!words[k].contains(':')) by {
            if words[k].contains(':') {
                let j = choose|j: int| 0 <= j < words[k].len() && words[k][j] == ':';
            }
        }
        crate::text::lemma_split_without_sep(words[k], ':');
        crate::text::lemma_split_concat(words[k], session_id, ':');
        assert(split_char(id.skip(3), ':') =~= seq![words[k], session_id]);
    }
    assert(ids[0] == "sb:prev:"@ + session_id);
    assert(ids[1] == "sb:next:"@ + session_id);
    assert(ids[2] == "sb:close:"@ + session_id);
    assert("prev"@ != "close"@) by { assert("prev"@[0] != "close"@[0]); }
    assert("next"@ != "close"@) by { assert("next"@[0] != "close"@[0]); }
    assert("next"@ != "prev"@) by { assert("next"@[0] != "prev"@[0]); }
    let d = decimal(index);
    crate::text::lemma_decimal_reads_back(index);
    let play = "sb:play:"@ + session_id + ":"@ + d;
    assert(play.take(3) =~= "sb:"@);
    let rest = session_id + seq![':'] + d;
    assert(play.skip(3) =~= "play"@ + seq![':'] + rest);
    assert(!d.contains(':')) by {
        if d.contains(':') {
            let j = choose|j: int| 0 <= j < d.len() && d[j] == ':';
            assert(is_digit(d[j]));
        }
    }
    assert(!"play"@.contains(':')) by {
        if "play"@.contains(':') {
            let j = choose|j: int| 0 <= j < "play"@.len() && "play"@[j] == ':';
        }
    }
    crate::text::lemma_split_without_sep(d, ':');
    crate::text::lemma_split_without_sep("play"@, ':');
    crate::text::lemma_split_concat(session_id, d, ':');
    crate::text::lemma_split_concat("play"@, rest, ':');
    let parts = split_char(play.skip(3), ':');
    assert(parts =~= seq!["play"@, session_id, d]);
    assert("play"@ != "close"@) by { assert("play"@[0] != "close"@[0]); }
    assert("play"@ != "prev"@) by { assert("play"@[1] != "prev"@[1]); }
    assert("play"@ != "next"@) by { assert("play"@[0] != "next"@[0]); }
    assert(d[0] != '+') by { assert(is_digit(d[0])); }
    assert(usize_value(d) == Some(index));
}
} // verus!
