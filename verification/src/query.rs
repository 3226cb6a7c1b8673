//! The query model: a single user-provided query in parsed format — raw and
//! normalized text, detected form and language class, hashtag tags,
//! pagination and user settings — with its small derived accessors. Two
//! queries agree only by a reduced key: the text-derived fields plus the
//! user's content language and show-English flag; other settings never enter
//! equality or hashing, so unrelated preference changes cannot cause
//! spurious cache misses downstream.

use vstd::prelude::*;

use crate::language::{lang_rank, Language};
use crate::text::{char_at, chars_string, str_chars, to_lower};
use crate::text::lower_of;

verus! {

/// A simplified part-of-speech class, as carried by a part-of-speech tag.
#[derive(Clone, Copy, PartialEq, Eq, Structural, Debug, Hash)]
pub enum PosSimple {
    Noun,
    Verb,
    Adjective,
    Adverb,
    Particle,
    Pronoun,
    Conjunction,
    Interjection,
    Prefix,
    Suffix,
    Counter,
    Expression,
}

/// A fixed rank for each part-of-speech class, used by the query hash.
pub open spec fn pos_rank(p: PosSimple) -> int {
    match p {
        PosSimple::Noun => 0,
        PosSimple::Verb => 1,
        PosSimple::Adjective => 2,
        PosSimple::Adverb => 3,
        PosSimple::Particle => 4,
        PosSimple::Pronoun => 5,
        PosSimple::Conjunction => 6,
        PosSimple::Interjection => 7,
        PosSimple::Prefix => 8,
        PosSimple::Suffix => 9,
        PosSimple::Counter => 10,
        PosSimple::Expression => 11,
    }
}

/// Hashtag based search tags: a search-type tag or a part-of-speech tag.
#[derive(Clone, Copy, PartialEq, Eq, Structural, Debug, Hash)]
pub enum Tag {
    SearchType(SearchTypeTag),
    PartOfSpeech(PosSimple),
}

/// The search types a hashtag can select.
#[derive(Clone, Copy, PartialEq, Eq, Structural, Debug, Hash)]
pub enum SearchTypeTag {
    Kanji,
    Sentence,
    Name,
    Word,
}

/// The language class of the query text.
#[derive(Clone, Copy, PartialEq, Eq, Structural, Debug, Hash)]
pub enum QueryLang {
    Japanese,
    Foreign,
    Undetected,
}

/// A kanji literal together with the reading to search it by.
pub struct KanjiReading {
    /// The kanji literal.
    pub literal: char,
    /// The reading, e.g. a kana rendering.
    pub reading: String,
}

/// The form the query was provided in.
pub enum Form {
    /// A single word was provided.
    SingleWord,
    /// Multiple words were provided.
    MultiWords,
    /// Kanji reading based search, e.g. a literal beside its reading.
    KanjiReading(KanjiReading),
    /// Form was not recognized.
    Undetected,
}

impl Form {
    /// The kanji reading, when the form is a kanji-reading search.
    pub fn as_kanji_reading(&self) -> (r: Option<&KanjiReading>)
        ensures
            match r {
                Some(k) => self is KanjiReading && k == self->KanjiReading_0,
                None => !(self is KanjiReading),
            },
    {
        if let Form::KanjiReading(v) = self {
            Some(v)
        } else {
            None
        }
    }

    /// Returns true if the form is a kanji-reading search.
    pub fn is_kanji_reading(&self) -> (r: bool)
        ensures
            r == (self is KanjiReading),
    {
        matches!(self, Form::KanjiReading(..))
    }
}

impl Default for Form {
    /// An unrecognized form.
    fn default() -> (r: Form)
        ensures
            r is Undetected,
    {
        Form::Undetected
    }
}

impl Default for QueryLang {
    /// An undetected language class.
    fn default() -> (r: QueryLang)
        ensures
            r == QueryLang::Undetected,
    {
        QueryLang::Undetected
    }
}

/// What parsing a search-type hashtag yields: the token's body after the
/// leading mark, lower-cased, matched against the recognized names. Anything
/// else is no search-type tag and stays plain text.
pub open spec fn spec_parse_search_type(s: Seq<char>) -> Option<Tag> {
    let body = lower_of(s.drop_first());
    if body == "kanji"@ {
        Some(Tag::SearchType(SearchTypeTag::Kanji))
    } else if body == "sentence"@ || body == "sentences"@ {
        Some(Tag::SearchType(SearchTypeTag::Sentence))
    } else if body == "name"@ || body == "names"@ {
        Some(Tag::SearchType(SearchTypeTag::Name))
    } else if body == "word"@ || body == "words"@ {
        Some(Tag::SearchType(SearchTypeTag::Word))
    } else {
        None
    }
}

impl Tag {
    /// Parse only a search type from a hashtag token (its first character is
    /// the hashtag mark and is skipped).
    pub fn parse_search_type(s: &str) -> (r: Option<Tag>)
        requires
            s@.len() >= 1,
        ensures
            r == spec_parse_search_type(s@),
    {
        let chars = str_chars(s);
        let mut body: Vec<char> = Vec::new();
        let n = chars.len();
        let mut i: usize = 1;
        while i < n
            invariant
                1 <= i <= n,
                n == chars@.len(),
                n >= 1,
                body@ == chars@.subrange(1, i as int),
            decreases n - i,
        {
            let c = char_at(&chars, i);
            body.push(c);
            proof {
                assert(body@ =~= chars@.subrange(1, i + 1));
            }
            i = i + 1;
        }
        proof {
            assert(body@ =~= s@.drop_first());
        }
        let body_str = chars_string(&body);
        let low = to_lower(body_str.as_str());
        if string_eq_lit(&low, "kanji") {
            Some(Tag::SearchType(SearchTypeTag::Kanji))
        } else if string_eq_lit(&low, "sentence") || string_eq_lit(&low, "sentences") {
            Some(Tag::SearchType(SearchTypeTag::Sentence))
        } else if string_eq_lit(&low, "name") || string_eq_lit(&low, "names") {
            Some(Tag::SearchType(SearchTypeTag::Name))
        } else if string_eq_lit(&low, "word") || string_eq_lit(&low, "words") {
            Some(Tag::SearchType(SearchTypeTag::Word))
        } else {
            None
        }
    }

    /// Returns true if the tag selects a search type.
    pub fn is_search_type(&self) -> (r: bool)
        ensures
            r == (self is SearchType),
    {
        matches!(self, Tag::SearchType(..))
    }

    /// Returns true if the tag names a part of speech.
    pub fn is_part_of_speech(&self) -> (r: bool)
        ensures
            r == (self is PartOfSpeech),
    {
        matches!(self, Tag::PartOfSpeech(..))
    }

    /// The search type, when the tag selects one.
    pub fn as_search_type(&self) -> (r: Option<&SearchTypeTag>)
        ensures
            match r {
                Some(t) => self is SearchType && t == self->SearchType_0,
                None => !(self is SearchType),
            },
    {
        if let Tag::SearchType(v) = self {
            Some(v)
        } else {
            None
        }
    }

    /// The part of speech, when the tag names one.
    pub fn as_part_of_speech(&self) -> (r: Option<&PosSimple>)
        ensures
            match r {
                Some(t) => self is PartOfSpeech && t == self->PartOfSpeech_0,
                None => !(self is PartOfSpeech),
            },
    {
        if let Tag::PartOfSpeech(v) = self {
            Some(v)
        } else {
            None
        }
    }
}

/// Compares a string against a literal.
fn string_eq_lit(a: &String, b: &str) -> (r: bool)
    ensures
        r == (a@ == b@),
{
    let bs = b.to_owned();
    a.eq(&bs)
}

/// In-cookie saved personalized settings.
#[derive(Clone, Copy, Debug)]
pub struct UserSettings {
    /// The user's preferred content language.
    pub user_lang: Language,
    /// Whether English glosses are shown beside the preferred language.
    pub show_english: bool,
    /// Whether English glosses are ordered on top.
    pub english_on_top: bool,
    /// Whether the user consented to cookies.
    pub cookies_enabled: bool,
}

impl PartialEq for UserSettings {
    /// Equality by the reduced key: content language and show-English flag
    /// alone — display ordering and cookie consent never enter.
    fn eq(&self, other: &Self) -> (r: bool) {
        self.user_lang == other.user_lang && self.show_english == other.show_english
    }
}

impl vstd::std_specs::cmp::PartialEqSpecImpl for UserSettings {
    open spec fn obeys_eq_spec() -> bool {
        true
    }

    open spec fn eq_spec(&self, other: &UserSettings) -> bool {
        self.user_lang == other.user_lang && self.show_english == other.show_english
    }
}

impl Default for UserSettings {
    /// English content, English shown, nothing else switched on.
    fn default() -> (r: UserSettings)
        ensures
            r.user_lang == Language::English,
            r.show_english == true,
            r.english_on_top == false,
            r.cookies_enabled == false,
    {
        UserSettings {
            user_lang: Language::English,
            show_english: true,
            english_on_top: false,
            cookies_enabled: false,
        }
    }
}

/// A single user provided query in a parsed format.
pub struct Query {
    /// The raw text as the user typed it.
    pub original_query: String,
    /// The normalized query text.
    pub query: String,
    /// Hashtag tags parsed out of the text.
    pub tags: Vec<Tag>,
    /// The detected form of the query.
    pub form: Form,
    /// The detected language class of the query text.
    pub language: QueryLang,
    /// The user's settings.
    pub settings: UserSettings,
    /// Page number of the requested result window.
    pub page: usize,
    /// Word index within the page.
    pub word_index: usize,
    /// Whether Japanese parsing is attempted on the text.
    pub parse_japanese: bool,
}

/// Form equality: same variant, and for a kanji-reading search the same
/// literal and reading.
pub open spec fn form_eq(a: &Form, b: &Form) -> bool {
    match (a, b) {
        (Form::SingleWord, Form::SingleWord) => true,
        (Form::MultiWords, Form::MultiWords) => true,
        (Form::KanjiReading(x), Form::KanjiReading(y)) => x.literal == y.literal && x.reading@
            == y.reading@,
        (Form::Undetected, Form::Undetected) => true,
        _ => false,
    }
}

/// Query equality: the text-derived fields, tags, form, language class and
/// pagination — and of the settings only the reduced key.
pub open spec fn query_eq(a: &Query, b: &Query) -> bool {
    &&& a.original_query@ == b.original_query@
    &&& a.query@ == b.query@
    &&& a.tags@ == b.tags@
    &&& form_eq(&a.form, &b.form)
    &&& a.language == b.language
    &&& a.settings.user_lang == b.settings.user_lang
    &&& a.settings.show_english == b.settings.show_english
    &&& a.page == b.page
    &&& a.word_index == b.word_index
    &&& a.parse_japanese == b.parse_japanese
}

/// Compares two tag lists element by element.
fn tags_eq(a: &Vec<Tag>, b: &Vec<Tag>) -> (r: bool)
    ensures
        r == (a@ == b@),
{
    if a.len() != b.len() {
        proof {
            assert(a@ != b@);
        }
        return false;
    }
    let n = a.len();
    let mut i: usize = 0;
    while i < n
        invariant
            i <= n,
            n == a@.len(),
            n == b@.len(),
            forall|j: int| 0 <= j < i ==> a@[j] == b@[j],
        decreases n - i,
    {
        if a[i] != b[i] {
            return false;
        }
        i = i + 1;
    }
    proof {
        assert(a@ =~= b@);
    }
    true
}

impl PartialEq for Query {
    /// Equality by the reduced key: everything text-derived, plus the user's
    /// content language and show-English flag; other settings never enter.
    fn eq(&self, other: &Self) -> (r: bool) {
        let forms_match = match (&self.form, &other.form) {
            (Form::SingleWord, Form::SingleWord) => true,
            (Form::MultiWords, Form::MultiWords) => true,
            (Form::KanjiReading(x), Form::KanjiReading(y)) => x.literal == y.literal
                && x.reading.eq(&y.reading),
            (Form::Undetected, Form::Undetected) => true,
            _ => false,
        };
        forms_match && self.original_query.eq(&other.original_query) && self.query.eq(&other.query)
            && tags_eq(&self.tags, &other.tags) && self.language == other.language
            && self.settings.user_lang == other.settings.user_lang && self.settings.show_english
            == other.settings.show_english && self.page == other.page && self.word_index
            == other.word_index && self.parse_japanese == other.parse_japanese
    }
}

impl vstd::std_specs::cmp::PartialEqSpecImpl for Query {
    open spec fn obeys_eq_spec() -> bool {
        true
    }

    open spec fn eq_spec(&self, other: &Query) -> bool {
        query_eq(self, other)
    }
}

/// One mixing step of the query hash: fold a value in, then multiply by the
/// FNV prime, wrapping.
pub open spec fn mix(h: u64, x: u64) -> u64 {
    (h ^ x).wrapping_mul(0x100000001b3)
}

/// Folds a character sequence into the hash.
pub open spec fn mix_chars(h: u64, s: Seq<char>) -> u64
    decreases s.len(),
{
    if s.len() == 0 {
        h
    } else {
        mix(mix_chars(h, s.drop_last()), s.last() as u64)
    }
}

/// The hash contribution of one tag.
pub open spec fn tag_code(t: Tag) -> u64 {
    match t {
        Tag::SearchType(SearchTypeTag::Kanji) => 1,
        Tag::SearchType(SearchTypeTag::Sentence) => 2,
        Tag::SearchType(SearchTypeTag::Name) => 3,
        Tag::SearchType(SearchTypeTag::Word) => 4,
        Tag::PartOfSpeech(p) => (16 + pos_rank(p)) as u64,
    }
}

/// Folds the tag list into the hash.
pub open spec fn mix_tags(h: u64, ts: Seq<Tag>) -> u64
    decreases ts.len(),
{
    if ts.len() == 0 {
        h
    } else {
        mix(mix_tags(h, ts.drop_last()), tag_code(ts.last()))
    }
}

/// The hash contribution of the query form.
pub open spec fn mix_form(h: u64, f: &Form) -> u64 {
    match f {
        Form::SingleWord => mix(h, 1),
        Form::MultiWords => mix(h, 2),
        Form::KanjiReading(k) => mix_chars(mix(mix(h, 3), k.literal as u64), k.reading@),
        Form::Undetected => mix(h, 4),
    }
}

/// The hash contribution of the language class.
pub open spec fn query_lang_code(l: QueryLang) -> u64 {
    match l {
        QueryLang::Japanese => 1,
        QueryLang::Foreign => 2,
        QueryLang::Undetected => 3,
    }
}

/// The whole query hash: the text-derived fields, tags, form, language class
/// and pagination, and of the settings only the reduced key — the content
/// language and the show-English flag.
pub open spec fn spec_query_hash(q: &Query) -> u64 {
    let h = 0xcbf29ce484222325u64;
    let h = mix_chars(h, q.original_query@);
    let h = mix_chars(h, q.query@);
    let h = mix_tags(h, q.tags@);
    let h = mix_form(h, &q.form);
    let h = mix(h, query_lang_code(q.language));
    let h = mix(h, q.page as u64);
    let h = mix(h, q.word_index as u64);
    let h = mix(
        h,
        if q.parse_japanese {
            1
        } else {
            0
        },
    );
    let h = mix(h, lang_rank(q.settings.user_lang) as u64);
    mix(
        h,
        if q.settings.show_english {
            1
        } else {
            0
        },
    )
}

/// Folds a string's characters into a running hash.
fn mix_str(h: u64, s: &str) -> (r: u64)
    ensures
        r == mix_chars(h, s@),
{
    let chars = str_chars(s);
    let n = chars.len();
    let mut acc: u64 = h;
    let mut i: usize = 0;
    proof {
        assert(s@.subrange(0, 0) =~= Seq::<char>::empty());
    }
    while i < n
        invariant
            i <= n,
            n == chars@.len(),
            chars@ == s@,
            acc == mix_chars(h, s@.subrange(0, i as int)),
        decreases n - i,
    {
        let c = char_at(&chars, i);
        acc = (acc ^ (c as u64)).wrapping_mul(0x100000001b3);
        proof {
            assert(s@.subrange(0, i + 1).drop_last() =~= s@.subrange(0, i as int));
            assert(s@.subrange(0, i + 1).last() == s@[i as int]);
        }
        i = i + 1;
    }
    proof {
        assert(s@.subrange(0, n as int) =~= s@);
    }
    acc
}

impl Query {
    /// A query is valid when its normalized text is non-empty.
    pub fn is_valid(&self) -> (r: bool)
        ensures
            r == (self.query@.len() != 0),
    {
        !self.query.as_str().is_empty()
    }

    /// The deterministic hash of the query's reduced key.
    pub fn get_hash(&self) -> (r: u64)
        ensures
            r == spec_query_hash(self),
    {
        let mut h: u64 = 0xcbf29ce484222325;
        h = mix_str(h, self.original_query.as_str());
        h = mix_str(h, self.query.as_str());
        let n = self.tags.len();
        let ghost h0 = h;
        let mut i: usize = 0;
        proof {
            assert(self.tags@.subrange(0, 0) =~= Seq::<Tag>::empty());
        }
        while i < n
            invariant
                i <= n,
                n == self.tags@.len(),
                h == mix_tags(h0, self.tags@.subrange(0, i as int)),
            decreases n - i,
        {
            let code: u64 = match self.tags[i] {
                Tag::SearchType(SearchTypeTag::Kanji) => 1,
                Tag::SearchType(SearchTypeTag::Sentence) => 2,
                Tag::SearchType(SearchTypeTag::Name) => 3,
                Tag::SearchType(SearchTypeTag::Word) => 4,
                Tag::PartOfSpeech(PosSimple::Noun) => 16,
                Tag::PartOfSpeech(PosSimple::Verb) => 17,
                Tag::PartOfSpeech(PosSimple::Adjective) => 18,
                Tag::PartOfSpeech(PosSimple::Adverb) => 19,
                Tag::PartOfSpeech(PosSimple::Particle) => 20,
                Tag::PartOfSpeech(PosSimple::Pronoun) => 21,
                Tag::PartOfSpeech(PosSimple::Conjunction) => 22,
                Tag::PartOfSpeech(PosSimple::Interjection) => 23,
                Tag::PartOfSpeech(PosSimple::Prefix) => 24,
                Tag::PartOfSpeech(PosSimple::Suffix) => 25,
                Tag::PartOfSpeech(PosSimple::Counter) => 26,
                Tag::PartOfSpeech(PosSimple::Expression) => 27,
            };
            proof {
                assert(code == tag_code(self.tags@[i as int]));
            }
            h = (h ^ code).wrapping_mul(0x100000001b3);
            proof {
                assert(self.tags@.subrange(0, i + 1).drop_last() =~= self.tags@.subrange(
                    0,
                    i as int,
                ));
                assert(self.tags@.subrange(0, i + 1).last() == self.tags@[i as int]);
            }
            i = i + 1;
        }
        proof {
            assert(self.tags@.subrange(0, n as int) =~= self.tags@);
        }
        match &self.form {
            Form::SingleWord => {
                h = (h ^ 1).wrapping_mul(0x100000001b3);
            },
            Form::MultiWords => {
                h = (h ^ 2).wrapping_mul(0x100000001b3);
            },
            Form::KanjiReading(k) => {
                h = (h ^ 3).wrapping_mul(0x100000001b3);
                h = (h ^ (k.literal as u64)).wrapping_mul(0x100000001b3);
                h = mix_str(h, k.reading.as_str());
            },
            Form::Undetected => {
                h = (h ^ 4).wrapping_mul(0x100000001b3);
            },
        }
        let lang_code: u64 = match self.language {
            QueryLang::Japanese => 1,
            QueryLang::Foreign => 2,
            QueryLang::Undetected => 3,
        };
        h = (h ^ lang_code).wrapping_mul(0x100000001b3);
        h = (h ^ (self.page as u64)).wrapping_mul(0x100000001b3);
        h = (h ^ (self.word_index as u64)).wrapping_mul(0x100000001b3);
        let pj: u64 = if self.parse_japanese {
            1
        } else {
            0
        };
        h = (h ^ pj).wrapping_mul(0x100000001b3);
        let ur: u64 = crate::language::lang_rank_of(self.settings.user_lang) as u64;
        h = (h ^ ur).wrapping_mul(0x100000001b3);
        let se: u64 = if self.settings.show_english {
            1
        } else {
            0
        };
        h = (h ^ se).wrapping_mul(0x100000001b3);
        h
    }

    /// Returns true if the query has at least one part-of-speech tag.
    pub fn has_part_of_speech_tags(&self) -> (r: bool)
        ensures
            r == (exists|i: int| 0 <= i < self.tags@.len() && (#[trigger] self.tags@[i]) is PartOfSpeech),
    {
        let tags = self.get_part_of_speech_tags();
        if tags.len() > 0 {
            proof {
                lemma_pos_tags_nonempty(self.tags@);
            }
            true
        } else {
            proof {
                lemma_pos_tags_complete(self.tags@);
            }
            false
        }
    }

    /// Returns all search type tags, in tag order.
    pub fn get_search_type_tags(&self) -> (r: Vec<SearchTypeTag>)
        ensures
            r@ == search_type_tags(self.tags@),
    {
        let mut out: Vec<SearchTypeTag> = Vec::new();
        let n = self.tags.len();
        let mut i: usize = 0;
        proof {
            assert(self.tags@.subrange(0, 0) =~= Seq::<Tag>::empty());
            assert(out@ =~= search_type_tags(self.tags@.subrange(0, 0)));
        }
        while i < n
            invariant
                i <= n,
                n == self.tags@.len(),
                out@ == search_type_tags(self.tags@.subrange(0, i as int)),
            decreases n - i,
        {
            if let Tag::SearchType(t) = self.tags[i] {
                out.push(t);
            }
            proof {
                assert(self.tags@.subrange(0, i + 1).drop_last() =~= self.tags@.subrange(
                    0,
                    i as int,
                ));
                assert(self.tags@.subrange(0, i + 1).last() == self.tags@[i as int]);
            }
            i = i + 1;
        }
        proof {
            assert(self.tags@.subrange(0, n as int) =~= self.tags@);
        }
        out
    }

    /// Returns all part-of-speech tags, in tag order.
    pub fn get_part_of_speech_tags(&self) -> (r: Vec<PosSimple>)
        ensures
            r@ == pos_tags(self.tags@),
    {
        let mut out: Vec<PosSimple> = Vec::new();
        let n = self.tags.len();
        let mut i: usize = 0;
        proof {
            assert(self.tags@.subrange(0, 0) =~= Seq::<Tag>::empty());
            assert(out@ =~= pos_tags(self.tags@.subrange(0, 0)));
        }
        while i < n
            invariant
                i <= n,
                n == self.tags@.len(),
                out@ == pos_tags(self.tags@.subrange(0, i as int)),
            decreases n - i,
        {
            if let Tag::PartOfSpeech(t) = self.tags[i] {
                out.push(t);
            }
            proof {
                assert(self.tags@.subrange(0, i + 1).drop_last() =~= self.tags@.subrange(
                    0,
                    i as int,
                ));
                assert(self.tags@.subrange(0, i + 1).last() == self.tags@[i as int]);
            }
            i = i + 1;
        }
        proof {
            assert(self.tags@.subrange(0, n as int) =~= self.tags@);
        }
        out
    }
}

/// The query text split on single spaces; consecutive spaces yield empty
/// tokens, so rejoining restores the original spacing.
pub open spec fn split_spaces(s: Seq<char>) -> Seq<Seq<char>>
    decreases s.len(),
{
    if s.len() == 0 {
        seq![Seq::<char>::empty()]
    } else if s.last() == ' ' {
        split_spaces(s.drop_last()).push(Seq::empty())
    } else {
        let p = split_spaces(s.drop_last());
        p.update(p.len() - 1, p.last().push(s.last()))
    }
}

/// A token stays unless it is a hashtag that parses as a search-type tag.
pub open spec fn keep_token(t: Seq<char>) -> bool {
    !(t.len() > 0 && t[0] == '#' && spec_parse_search_type(t) is Some)
}

/// The tokens that stay in the display text.
pub open spec fn kept_tokens(ts: Seq<Seq<char>>) -> Seq<Seq<char>> {
    ts.filter(|t: Seq<char>| keep_token(t))
}

/// Tokens rejoined with single spaces.
pub open spec fn join_spaces(ts: Seq<Seq<char>>) -> Seq<char>
    decreases ts.len(),
{
    if ts.len() == 0 {
        Seq::empty()
    } else if ts.len() == 1 {
        ts[0]
    } else {
        join_spaces(ts.drop_last()) + seq![' '] + ts.last()
    }
}

/// The view of a token list.
pub open spec fn tokens_view(ts: Seq<Vec<char>>) -> Seq<Seq<char>> {
    ts.map_values(|t: Vec<char>| t@)
}

/// The split never yields an empty token list.
proof fn lemma_split_nonempty(s: Seq<char>)
    ensures
        split_spaces(s).len() >= 1,
    decreases s.len(),
{
    if s.len() > 0 {
        lemma_split_nonempty(s.drop_last());
    }
}

impl Query {
    /// Returns the original query with search-type hashtags omitted: the raw
    /// text is split on spaces, tokens that parse as a recognized search-type
    /// tag are dropped, and the rest is rejoined with single spaces. A
    /// hashtag that parses as nothing recognized stays as plain text.
    pub fn without_search_type_tags(&self) -> (r: String)
        ensures
            r@ == join_spaces(kept_tokens(split_spaces(self.original_query@))),
    {
        let chars = str_chars(self.original_query.as_str());
        let n = chars.len();
        let mut tokens: Vec<Vec<char>> = Vec::new();
        tokens.push(Vec::new());
        proof {
            assert(self.original_query@.subrange(0, 0) =~= Seq::<char>::empty());
            assert(tokens_view(tokens@) =~= split_spaces(self.original_query@.subrange(0, 0)));
        }
        let mut i: usize = 0;
        while i < n
            invariant
                i <= n,
                n == chars@.len(),
                chars@ == self.original_query@,
                tokens@.len() >= 1,
                tokens_view(tokens@) == split_spaces(self.original_query@.subrange(0, i as int)),
            decreases n - i,
        {
            let c = char_at(&chars, i);
            let ghost pre = tokens_view(tokens@);
            proof {
                assert(self.original_query@.subrange(0, i + 1).drop_last()
                    =~= self.original_query@.subrange(0, i as int));
                assert(self.original_query@.subrange(0, i + 1).last()
                    == self.original_query@[i as int]);
            }
            if c == ' ' {
                tokens.push(Vec::new());
                proof {
                    assert(tokens_view(tokens@) =~= pre.push(Seq::<char>::empty()));
                }
            } else {
                let mut last = match tokens.pop() {
                    Some(t) => t,
                    None => Vec::new(),
                };
                last.push(c);
                tokens.push(last);
                proof {
                    assert(tokens_view(tokens@) =~= pre.update(pre.len() - 1, pre.last().push(
                        self.original_query@[i as int],
                    )));
                }
            }
            i = i + 1;
        }
        proof {
            assert(self.original_query@.subrange(0, n as int) =~= self.original_query@);
        }
        let ghost all = tokens_view(tokens@);
        let m = tokens.len();
        let mut out: Vec<char> = Vec::new();
        let mut first = true;
        proof {
            reveal(Seq::filter);
            assert(all.subrange(0, 0) =~= Seq::<Seq<char>>::empty());
            assert(kept_tokens(all.subrange(0, 0)) =~= Seq::<Seq<char>>::empty());
            assert(out@ =~= join_spaces(kept_tokens(all.subrange(0, 0))));
        }
        let mut k: usize = 0;
        while k < m
            invariant
                k <= m,
                m == tokens@.len(),
                all == tokens_view(tokens@),
                out@ == join_spaces(kept_tokens(all.subrange(0, k as int))),
                first == (kept_tokens(all.subrange(0, k as int)).len() == 0),
            decreases m - k,
        {
            let t = &tokens[k];
            let mut keep = true;
            if t.len() > 0 {
                if char_at(t, 0) == '#' {
                    let ts = chars_string(t);
                    if Tag::parse_search_type(ts.as_str()).is_some() {
                        keep = false;
                    }
                }
            }
            proof {
                assert(all[k as int] == tokens@[k as int]@);
                assert(keep == keep_token(all[k as int]));
            }
            let ghost pre_kept = kept_tokens(all.subrange(0, k as int));
            if keep {
                if !first {
                    out.push(' ');
                }
                let tl = t.len();
                let ghost out0 = out@;
                let mut j: usize = 0;
                while j < tl
                    invariant
                        j <= tl,
                        k < tokens@.len(),
                        tl == tokens@[k as int]@.len(),
                        out@ == out0 + tokens@[k as int]@.subrange(0, j as int),
                    decreases tl - j,
                {
                    let c2 = char_at(&tokens[k], j);
                    out.push(c2);
                    proof {
                        assert(out@ =~= out0 + tokens@[k as int]@.subrange(0, j + 1));
                    }
                    j = j + 1;
                }
                proof {
                    assert(tokens@[k as int]@.subrange(0, tl as int) =~= tokens@[k as int]@);
                }
                first = false;
            }
            proof {
                reveal(Seq::filter);
                assert(all.subrange(0, k + 1).drop_last() =~= all.subrange(0, k as int));
                assert(all.subrange(0, k + 1).last() == all[k as int]);
                if keep {
                    assert(kept_tokens(all.subrange(0, k + 1)) == pre_kept.push(all[k as int]));
                    if pre_kept.len() == 0 {
                        assert(join_spaces(pre_kept.push(all[k as int])) == all[k as int]);
                        assert(out@ =~= join_spaces(kept_tokens(all.subrange(0, k + 1))));
                    } else {
                        assert(pre_kept.push(all[k as int]).drop_last() =~= pre_kept);
                        assert(join_spaces(pre_kept.push(all[k as int])) == join_spaces(pre_kept)
                            + seq![' '] + all[k as int]);
                        assert(out@ =~= join_spaces(kept_tokens(all.subrange(0, k + 1))));
                    }
                } else {
                    assert(kept_tokens(all.subrange(0, k + 1)) == pre_kept);
                }
            }
            k = k + 1;
        }
        proof {
            assert(all.subrange(0, m as int) =~= all);
        }
        chars_string(&out)
    }
}

/// The search-type tags of a tag list, in order.
pub open spec fn search_type_tags(ts: Seq<Tag>) -> Seq<SearchTypeTag>
    decreases ts.len(),
{
    if ts.len() == 0 {
        Seq::empty()
    } else {
        let p = search_type_tags(ts.drop_last());
        match ts.last() {
            Tag::SearchType(t) => p.push(t),
            _ => p,
        }
    }
}

/// The part-of-speech tags of a tag list, in order.
pub open spec fn pos_tags(ts: Seq<Tag>) -> Seq<PosSimple>
    decreases ts.len(),
{
    if ts.len() == 0 {
        Seq::empty()
    } else {
        let p = pos_tags(ts.drop_last());
        match ts.last() {
            Tag::PartOfSpeech(t) => p.push(t),
            _ => p,
        }
    }
}

/// A non-empty part-of-speech selection names a part-of-speech tag.
proof fn lemma_pos_tags_nonempty(ts: Seq<Tag>)
    requires
        pos_tags(ts).len() > 0,
    ensures
        exists|i: int| 0 <= i < ts.len() && (#[trigger] ts[i]) is PartOfSpeech,
    decreases ts.len(),
{
    if ts.len() > 0 {
        if ts.last() is PartOfSpeech {
            assert(ts[ts.len() - 1] is PartOfSpeech);
        } else {
            lemma_pos_tags_nonempty(ts.drop_last());
            let i = choose|i: int| 0 <= i < ts.drop_last().len() && (#[trigger] ts.drop_last()[i]) is PartOfSpeech;
            assert(ts[i] is PartOfSpeech);
        }
    }
}

/// Every part-of-speech tag enters the selection.
proof fn lemma_pos_tags_complete(ts: Seq<Tag>)
    requires
        pos_tags(ts).len() == 0,
    ensures
        forall|i: int| 0 <= i < ts.len() ==> !((#[trigger] ts[i]) is PartOfSpeech),
    decreases ts.len(),
{
    if ts.len() > 0 {
        lemma_pos_tags_complete(ts.drop_last());
        assert forall|i: int| 0 <= i < ts.len() implies !((#[trigger] ts[i]) is PartOfSpeech) by {
            if i < ts.len() - 1 {
                assert(ts.drop_last()[i] == ts[i]);
            }
        }
    }
}

} // verus!
