use discord_llm_bot::bot::soundboard::{
    decode_entities, files_to_evict, page_window, parse_search_page, search_url, soundboard_cache_path,
    soundboard_connect, soundboard_play_path, soundboard_view, store_session, ConnectAction, SoundItem,
    parse_soundboard_button, play_index_valid, turn_page, SoundboardAction,
    SoundboardSession, MAX_SESSIONS, SESSION_TTL_MS,
};

fn item(title: &str) -> SoundItem {
    SoundItem { title: title.to_string(), url: format!("https://x/{}.mp3", title) }
}

fn session(query: &str, n: usize, page: usize, effect: &str, created_at_ms: u64) -> SoundboardSession {
    SoundboardSession {
        query: query.to_string(),
        items: (0..n).map(|i| item(&format!("t{}", i))).collect(),
        page,
        effect: effect.to_string(),
        guild_id: 1,
        created_at_ms,
    }
}

#[test]
fn soundboard_search_url_is_percent_encoded() {
    assert_eq!(search_url("hello world"), "https://www.myinstants.com/en/search/?name=hello%20world");
    assert_eq!(
        search_url("hello world/ç&~-._"),
        "https://www.myinstants.com/en/search/?name=hello%20world%2F%C3%A7%26~-._"
    );
}

#[test]
fn soundboard_entities_decoded_in_order() {
    assert_eq!(decode_entities("Tom &amp; Jerry&#39;s"), "Tom & Jerry's");
    assert_eq!(decode_entities("&quot;hi&quot; &lt;b&gt;&nbsp;&#x27;&apos;"), "\"hi\" <b> ''");
    assert_eq!(decode_entities("&amp;lt;"), "<");
    assert_eq!(decode_entities("plain"), "plain");
}

#[test]
fn soundboard_parses_search_page() {
    let html = [
        "<div><button onclick=\"play('/media/sounds/a.mp3', 'x')\"></button>",
        "<a class=\"instant-link link-secondary\">Sound &amp; One</a></div>",
        "<div><button onclick=\"play('https://cdn.example/b.mp3')\"></button>",
        "<a class=\"instant-link\">  Two  </a></div>",
        "<div><button onclick=\"play('/c.mp3')\"></button><a class=\"instant-link\">&nbsp;</a></div>",
    ]
    .concat();
    let items = parse_search_page(&html).expect("sounds");
    assert_eq!(items.len(), 2);
    assert_eq!(items[0].title, "Sound & One");
    assert_eq!(items[0].url, "https://www.myinstants.com/media/sounds/a.mp3");
    assert_eq!(items[1].title, "Two");
    assert_eq!(items[1].url, "https://cdn.example/b.mp3");
}

#[test]
fn soundboard_empty_page_is_an_error() {
    assert_eq!(
        parse_search_page("<html>nothing here</html>").err(),
        Some("No sounds found for that search on MyInstants.".to_string())
    );
}

#[test]
fn soundboard_page_windows() {
    let w = page_window(12, 0);
    assert_eq!((w.page, w.start, w.end, w.total_pages), (0, 0, 5, 3));
    let w = page_window(12, 9);
    assert_eq!((w.page, w.start, w.end, w.total_pages), (2, 10, 12, 3));
    let w = page_window(0, 3);
    assert_eq!((w.page, w.start, w.end, w.total_pages), (0, 0, 0, 1));
    let w = page_window(5, 1);
    assert_eq!((w.page, w.start, w.end, w.total_pages), (0, 0, 5, 1));
}

#[test]
fn soundboard_renders_second_page() {
    let s = session("cat", 7, 1, "none", 0);
    let p = soundboard_view(&s, "s1");
    assert_eq!(p.title, "🔊 Soundboard: cat");
    assert_eq!(
        p.description,
        "**1.** t5\n**2.** t6\n\n*Risultati 6–7 di 7 — pagina 2/2*\n🎛️ Effetto: **nessuno**"
    );
    assert_eq!(p.sound_buttons, vec![
        ("sb:play:s1:5".to_string(), "t5".to_string()),
        ("sb:play:s1:6".to_string(), "t6".to_string()),
    ]);
    assert_eq!(p.prev_id, "sb:prev:s1");
    assert_eq!(p.next_id, "sb:next:s1");
    assert_eq!(p.close_id, "sb:close:s1");
    assert!(!p.prev_disabled);
    assert!(p.next_disabled);
}

#[test]
fn soundboard_first_page_with_effect_and_long_title() {
    let mut s = session("dog", 1, 0, "demon", 0);
    s.items[0].title = "x".repeat(90);
    let p = soundboard_view(&s, "id");
    assert!(p.description.ends_with("\n*Risultati 1–1 di 1 — pagina 1/1*\n🎛️ Effetto: **demon**"));
    assert_eq!(p.sound_buttons[0].1, format!("{}…", "x".repeat(80)));
    assert!(p.prev_disabled);
    assert!(p.next_disabled);
}

#[test]
fn soundboard_store_adds_session() {
    let mut store = Vec::new();
    store_session(&mut store, "a".to_string(), session("q", 1, 0, "none", 1000), 1000);
    assert_eq!(store.len(), 1);
    assert_eq!(store[0].0, "a");
}

#[test]
fn soundboard_store_drops_expired_and_replaced() {
    let mut store = vec![
        ("old".to_string(), session("q", 1, 0, "none", 0)),
        ("same".to_string(), session("q", 1, 0, "none", 500)),
        ("live".to_string(), session("q", 1, 0, "none", 100)),
    ];
    store_session(&mut store, "same".to_string(), session("new", 1, 0, "none", SESSION_TTL_MS), SESSION_TTL_MS);
    let ids: Vec<&str> = store.iter().map(|(k, _)| k.as_str()).collect();
    assert_eq!(ids, vec!["live", "same"]);
    assert_eq!(store[1].1.query, "new");
}

#[test]
fn soundboard_store_evicts_oldest_when_full() {
    let mut store: Vec<(String, SoundboardSession)> =
        (1..=25u64).map(|i| (format!("s{}", i), session("q", 1, 0, "none", i))).collect();
    store_session(&mut store, "fresh".to_string(), session("q", 1, 0, "none", 100), 100);
    assert_eq!(store.len(), MAX_SESSIONS);
    assert!(!store.iter().any(|(k, _)| k == "s1"));
    assert_eq!(store.last().unwrap().0, "fresh");
}

#[test]
fn soundboard_connect_choices() {
    assert!(matches!(soundboard_connect(None, 3, 0), Ok(ConnectAction::Join)));
    assert!(matches!(soundboard_connect(Some(3), 3, 4), Ok(ConnectAction::Stay)));
    assert!(matches!(soundboard_connect(Some(2), 3, 0), Ok(ConnectAction::Switch)));
    assert_eq!(
        soundboard_connect(Some(2), 3, 1).err(),
        Some("The bot is busy with other people in a voice channel. Use /join or wait.".to_string())
    );
}

#[test]
fn soundboard_cache_and_play_paths() {
    let h = "29f8f1fcfd92f7eba6eb49c51b73b9b6";
    assert_eq!(soundboard_cache_path("/tmp", "https://x/a.mp3"), format!("/tmp/soundboard/{}.mp3", h));
    assert_eq!(
        soundboard_play_path("/tmp", "https://x/a.mp3", "none", "u"),
        (format!("/tmp/soundboard/{}.mp3", h), false)
    );
    assert_eq!(
        soundboard_play_path("/tmp", "https://x/a.mp3", "demon", "u7"),
        (format!("/tmp/sb_eff_u7_{}.mp3", h), true)
    );
}

#[test]
fn soundboard_evicts_oldest_files() {
    assert_eq!(files_to_evict(&vec![5, 1, 3, 1], 2), vec![false, true, false, true]);
    assert_eq!(files_to_evict(&vec![1, 2], 5), vec![false, false]);
    assert_eq!(files_to_evict(&vec![7, 7, 7], 1), vec![true, true, false]);
    assert_eq!(files_to_evict(&Vec::new(), 0), Vec::<bool>::new());
}

#[test]
fn soundboard_button_ids() {
    use_button("sb:play:abc:7", "play", "abc", 7);
    use_button("sb:play:abc:x", "play", "abc", 0);
    use_button("sb:play:abc", "play", "abc", 0);
    use_button("sb:prev:abc", "prev", "abc", 0);
    use_button("sb:next:abc", "next", "abc", 0);
    use_button("sb:close", "close", "", 0);
    use_button("sb:what:s", "unknown", "s", 0);
    assert!(parse_soundboard_button("play:abc").is_none());
}

fn use_button(id: &str, action: &str, session: &str, index: usize) {
    let b = parse_soundboard_button(id).expect("a soundboard button");
    assert_eq!(b.session_id, session);
    let got = match b.action {
        SoundboardAction::Close => ("close", 0),
        SoundboardAction::Prev => ("prev", 0),
        SoundboardAction::Next => ("next", 0),
        SoundboardAction::Play(i) => ("play", i),
        SoundboardAction::Unknown => ("unknown", 0),
    };
    assert_eq!(got, (action, index));
}

#[test]
fn soundboard_paging() {
    assert_eq!(turn_page(0, 12, true), 1);
    assert_eq!(turn_page(2, 12, true), 2);
    assert_eq!(turn_page(0, 12, false), 0);
    assert_eq!(turn_page(2, 12, false), 1);
    assert_eq!(turn_page(turn_page(1, 12, true), 12, false), 1);
    assert_eq!(turn_page(0, 0, true), 0);
    assert!(play_index_valid(4, 5));
    assert!(!play_index_valid(5, 5));
}

#[test]
fn soundboard_store_evicts_the_oldest_wherever_it_is() {
    let mut store: Vec<(String, SoundboardSession)> =
        (1..=25u64).map(|i| (format!("s{}", i), session("q", 1, 0, "none", if i == 13 { 5 } else { 50 + i }))).collect();
    store_session(&mut store, "fresh".to_string(), session("q", 1, 0, "none", 200), 200);
    assert_eq!(store.len(), MAX_SESSIONS);
    assert!(!store.iter().any(|(k, _)| k == "s13"));
    assert!(store.iter().any(|(k, _)| k == "s1"));
    assert!(store.iter().any(|(k, _)| k == "s25"));
    assert_eq!(store.last().unwrap().0, "fresh");
}

#[test]
fn soundboard_button_ids_read_back() {
    let s = session("cats", 12, 1, "none", 0);
    let page = soundboard_view(&s, "0f3a9c");
    let prev = parse_soundboard_button(&page.prev_id).expect("prev");
    assert!(matches!(prev.action, SoundboardAction::Prev));
    assert_eq!(prev.session_id, "0f3a9c");
    let next = parse_soundboard_button(&page.next_id).expect("next");
    assert!(matches!(next.action, SoundboardAction::Next));
    let close = parse_soundboard_button(&page.close_id).expect("close");
    assert!(matches!(close.action, SoundboardAction::Close));
    assert_eq!(close.session_id, "0f3a9c");
    for (k, (id, _)) in page.sound_buttons.iter().enumerate() {
        let b = parse_soundboard_button(id).expect("play");
        assert!(matches!(b.action, SoundboardAction::Play(i) if i == 5 + k));
        assert_eq!(b.session_id, "0f3a9c");
    }
}
