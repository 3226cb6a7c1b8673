use jotoba_search::inflection::map_to_str;
use jotoba_search::language::Language;
use jotoba_search::query::{
    Form, KanjiReading, PosSimple, Query, QueryLang, SearchTypeTag, Tag, UserSettings,
};

fn base_query(text: &str) -> Query {
    Query {
        original_query: text.to_string(),
        query: text.to_string(),
        tags: Vec::new(),
        form: Form::default(),
        language: QueryLang::default(),
        settings: UserSettings::default(),
        page: 0,
        word_index: 0,
        parse_japanese: false,
    }
}

#[test]
fn validity_is_non_empty_text() {
    assert!(base_query("cat").is_valid());
    assert!(!base_query("").is_valid());
}

#[test]
fn search_type_tags_parse_case_insensitively() {
    let kanji = Tag::parse_search_type("#kanji");
    assert_eq!(kanji, Some(Tag::SearchType(SearchTypeTag::Kanji)));
    // Upper-case spellings are lowered before matching.
    assert_eq!(
        Tag::parse_search_type("#KANJI"),
        Some(Tag::SearchType(SearchTypeTag::Kanji))
    );
    assert_eq!(
        Tag::parse_search_type("#Sentences"),
        Some(Tag::SearchType(SearchTypeTag::Sentence))
    );
    assert_eq!(
        Tag::parse_search_type("#names"),
        Some(Tag::SearchType(SearchTypeTag::Name))
    );
    assert_eq!(
        Tag::parse_search_type("#word"),
        Some(Tag::SearchType(SearchTypeTag::Word))
    );
    // An unrecognized tag is no search type and stays plain text.
    assert_eq!(Tag::parse_search_type("#notakind"), None);
    assert_eq!(Tag::parse_search_type("#"), None);
}

#[test]
fn tag_accessors_follow_the_variant() {
    let st = Tag::SearchType(SearchTypeTag::Name);
    let pos = Tag::PartOfSpeech(PosSimple::Verb);
    assert!(st.is_search_type());
    assert!(!st.is_part_of_speech());
    assert!(pos.is_part_of_speech());
    assert!(!pos.is_search_type());
    assert_eq!(st.as_search_type(), Some(&SearchTypeTag::Name));
    assert_eq!(st.as_part_of_speech(), None);
    assert_eq!(pos.as_part_of_speech(), Some(&PosSimple::Verb));
    assert_eq!(pos.as_search_type(), None);
}

#[test]
fn tag_lists_split_by_kind() {
    let mut q = base_query("cat");
    q.tags = vec![
        Tag::SearchType(SearchTypeTag::Word),
        Tag::PartOfSpeech(PosSimple::Noun),
        Tag::SearchType(SearchTypeTag::Kanji),
        Tag::PartOfSpeech(PosSimple::Verb),
    ];
    assert_eq!(
        q.get_search_type_tags(),
        vec![SearchTypeTag::Word, SearchTypeTag::Kanji]
    );
    assert_eq!(
        q.get_part_of_speech_tags(),
        vec![PosSimple::Noun, PosSimple::Verb]
    );
    assert!(q.has_part_of_speech_tags());
    q.tags = vec![Tag::SearchType(SearchTypeTag::Word)];
    assert!(!q.has_part_of_speech_tags());
}

#[test]
fn search_type_hashtags_are_stripped_from_display_text() {
    let mut q = base_query("fox");
    q.original_query = "fox #kanji jumps".to_string();
    assert_eq!(q.without_search_type_tags(), "fox jumps");
    q.original_query = "#Kanji fox".to_string();
    assert_eq!(q.without_search_type_tags(), "fox");
    // A hashtag that parses as nothing recognized stays as plain text.
    q.original_query = "fox #notakind jumps".to_string();
    assert_eq!(q.without_search_type_tags(), "fox #notakind jumps");
    q.original_query = "plain words only".to_string();
    assert_eq!(q.without_search_type_tags(), "plain words only");
}

#[test]
fn hash_ignores_unrelated_preferences() {
    let mut a = base_query("cat");
    let mut b = base_query("cat");
    b.settings.english_on_top = true;
    b.settings.cookies_enabled = true;
    // Only the reduced key enters the hash: display ordering and cookie
    // consent change nothing.
    assert_eq!(a.get_hash(), b.get_hash());
    // The content language and the show-English flag do enter.
    let mut c = base_query("cat");
    c.settings.user_lang = Language::German;
    assert_ne!(a.get_hash(), c.get_hash());
    let mut d = base_query("cat");
    d.settings.show_english = false;
    assert_ne!(a.get_hash(), d.get_hash());
    // And so does the text.
    a.query = "dog".to_string();
    assert_ne!(a.get_hash(), b.get_hash());
}

#[test]
fn hash_is_deterministic() {
    let a = base_query("cat");
    let b = base_query("cat");
    assert_eq!(a.get_hash(), b.get_hash());
    assert_eq!(a.get_hash(), a.get_hash());
}

#[test]
fn query_equality_uses_the_reduced_key() {
    let a = base_query("cat");
    let mut b = base_query("cat");
    b.settings.english_on_top = true;
    b.settings.cookies_enabled = true;
    assert!(a == b);
    let mut c = base_query("cat");
    c.settings.show_english = false;
    assert!(a != c);
    let d = base_query("dog");
    assert!(a != d);
}

#[test]
fn settings_equality_uses_the_reduced_key() {
    let a = UserSettings::default();
    let mut b = UserSettings::default();
    b.english_on_top = true;
    b.cookies_enabled = true;
    assert!(a == b);
    let mut c = UserSettings::default();
    c.user_lang = Language::French;
    assert!(a != c);
}

#[test]
fn form_accessors_follow_the_variant() {
    let plain = Form::SingleWord;
    assert!(!plain.is_kanji_reading());
    assert!(plain.as_kanji_reading().is_none());
    let kr = Form::KanjiReading(KanjiReading { literal: '気', reading: "ケ".to_string() });
    assert!(kr.is_kanji_reading());
    let inner = kr.as_kanji_reading().unwrap();
    assert_eq!(inner.literal, '気');
    assert_eq!(inner.reading, "ケ");
    assert!(Form::default().as_kanji_reading().is_none());
    assert_eq!(QueryLang::default(), QueryLang::Undetected);
}

#[test]
fn inflection_tables_carry_their_readings() {
    let pair = |p: &str, n: &str| jotoba_search::inflection::InflectionPair {
        positive: p.to_string(),
        negative: n.to_string(),
    };
    let table = jotoba_search::inflection::Inflections {
        present: pair("たべる", "たべない"),
        present_polite: pair("たべます", "たべません"),
        past: pair("たべた", "たべなかった"),
        past_polite: pair("たべました", "たべませんでした"),
        te_form: pair("たべて", "たべなくて"),
        potential: pair("たべられる", "たべられない"),
        passive: pair("たべられる", "たべられない"),
        causative: pair("たべさせる", "たべさせない"),
    };
    assert_eq!(table.present.positive, "たべる");
    assert_eq!(table.past.negative, "たべなかった");
}

#[test]
fn map_to_str_converts_present_values() {
    let some: Option<&str> = Some("reading");
    let none: Option<&str> = None;
    assert_eq!(map_to_str(&some), Some("reading".to_string()));
    assert_eq!(map_to_str(&none), None);
}
