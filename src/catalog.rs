//! Builds the voice catalog from the engine's voice records.
use vstd::prelude::*;
use crate::text::{
    insert_sorted, lemma_sorted_arrangement_unique, strictly_sorted, texts,
};
use crate::translator::AUXILIARY_SAMPLE_RATE;

verus! {

/// Voice capability bits of the speech-provider protocol.
pub const FEATURE_EVENTS_WORD: u64 = 0x1;
pub const FEATURE_EVENTS_SENTENCE: u64 = 0x2;
pub const FEATURE_SSML_SAY_AS_TELEPHONE: u64 = 0x20;
pub const FEATURE_SSML_SAY_AS_CHARACTERS: u64 = 0x40;
pub const FEATURE_SSML_SAY_AS_CHARACTERS_GLYPHS: u64 = 0x80;
pub const FEATURE_SSML_BREAK: u64 = 0x800;
pub const FEATURE_SSML_SUB: u64 = 0x1000;
pub const FEATURE_SSML_EMPHASIS: u64 = 0x4000;
pub const FEATURE_SSML_PROSODY: u64 = 0x8000;
pub const FEATURE_SSML_SENTENCE_PARAGRAPH: u64 = 0x10000;

/// Capabilities of the fixed-rate voice family: SSML only, no boundary
/// events.
pub const REDUCED_FEATURES: u64 = FEATURE_SSML_SAY_AS_TELEPHONE | FEATURE_SSML_SAY_AS_CHARACTERS
    | FEATURE_SSML_SAY_AS_CHARACTERS_GLYPHS | FEATURE_SSML_BREAK | FEATURE_SSML_SUB
    | FEATURE_SSML_EMPHASIS | FEATURE_SSML_PROSODY | FEATURE_SSML_SENTENCE_PARAGRAPH;

/// Capabilities of the primary voice family: word and sentence events on top
/// of the SSML set.
pub const FULL_FEATURES: u64 = REDUCED_FEATURES | FEATURE_EVENTS_WORD | FEATURE_EVENTS_SENTENCE;

/// A voice record as the engine lists it: name and identifier may be
/// missing; `languages` holds the language tags as written in the record.
#[derive(Clone, Debug, PartialEq, Eq)]
pub struct RawVoice {
    pub name: Option<String>,
    pub identifier: Option<String>,
    pub languages: Vec<String>,
}

pub struct RawVoiceView {
    pub name: Option<Seq<char>>,
    pub identifier: Option<Seq<char>>,
    pub languages: Seq<Seq<char>>,
}

pub open spec fn opt_text(s: Option<String>) -> Option<Seq<char>> {
    match s {
        Some(t) => Some(t@),
        None => None,
    }
}

impl View for RawVoice {
    type V = RawVoiceView;

    open spec fn view(&self) -> RawVoiceView {
        RawVoiceView {
            name: opt_text(self.name),
            identifier: opt_text(self.identifier),
            languages: texts(self.languages@),
        }
    }
}

/// A catalog entry as callers see it.
#[derive(Clone, Debug, PartialEq, Eq)]
pub struct VoiceDescriptor {
    pub name: String,
    pub identifier: String,
    pub audio_format: String,
    pub features: u64,
    pub languages: Vec<String>,
}

pub struct VoiceDescriptorView {
    pub name: Seq<char>,
    pub identifier: Seq<char>,
    pub audio_format: Seq<char>,
    pub features: u64,
    pub languages: Seq<Seq<char>>,
}

impl View for VoiceDescriptor {
    type V = VoiceDescriptorView;

    open spec fn view(&self) -> VoiceDescriptorView {
        VoiceDescriptorView {
            name: self.name@,
            identifier: self.identifier@,
            audio_format: self.audio_format@,
            features: self.features,
            languages: texts(self.languages@),
        }
    }
}

pub open spec fn raw_views(v: Seq<RawVoice>) -> Seq<RawVoiceView> {
    v.map_values(|r: RawVoice| r@)
}

pub open spec fn descriptor_views(v: Seq<VoiceDescriptor>) -> Seq<VoiceDescriptorView> {
    v.map_values(|d: VoiceDescriptor| d@)
}

/// What the language-tag parser makes of a tag: its case-normalized text
/// when the tag is well formed, `None` when it is not.
pub uninterp spec fn normalized_tag(tag: Seq<char>) -> Option<Seq<char>>;

/// Relies on oxilangtag::LanguageTag::parse_and_normalize: it fails on a
/// tag that is not well formed, and otherwise gives its normalized text;
/// either way the outcome depends on the tag alone.
#[verifier::external_body]
fn parse_and_normalize_tag(tag: &str) -> (r: Option<String>)
    ensures
        opt_text(r) == normalized_tag(tag@),
{
    match oxilangtag::LanguageTag::parse_and_normalize(tag) {
        Ok(parsed) => Some(parsed.into_inner()),
        Err(_) => None,
    }
}

/// A tag as the catalog lists it: normalized where it parses, as written
/// where it does not.
pub open spec fn exposed_language(tag: Seq<char>) -> Seq<char> {
    match normalized_tag(tag) {
        Some(t) => t,
        None => tag,
    }
}

/// Normalizes one language tag, passing a malformed one through unchanged.
pub fn normalize_language(tag: &str) -> (r: String)
    ensures
        r@ == exposed_language(tag@),
{
    match parse_and_normalize_tag(tag) {
        Some(t) => t,
        None => String::from_str(tag),
    }
}

/// Every language tag of `voices`, as exposed, voice after voice.
pub open spec fn voice_languages(voices: Seq<RawVoiceView>) -> Seq<Seq<char>>
    decreases voices.len(),
{
    if voices.len() == 0 {
        Seq::empty()
    } else {
        voice_languages(voices.drop_last()) + voices.last().languages.map_values(
            |t: Seq<char>| exposed_language(t),
        )
    }
}

/// The catalog's language list: the exposed tags of all voices, sorted,
/// each once.
pub open spec fn catalog_languages(voices: Seq<RawVoiceView>) -> Seq<Seq<char>> {
    choose|l: Seq<Seq<char>>|
        strictly_sorted(l) && forall|t: Seq<char>| l.contains(t) <==> voice_languages(voices).contains(t)
}

/// Collects the language tags of all `voices`, normalized, sorted and
/// without duplicates.
pub fn language_list(voices: &Vec<RawVoice>) -> (r: Vec<String>)
    ensures
        texts(r@) == catalog_languages(raw_views(voices@)),
        strictly_sorted(texts(r@)),
        forall|t: Seq<char>|
            texts(r@).contains(t) <==> voice_languages(raw_views(voices@)).contains(t),
{
    let ghost views = raw_views(voices@);
    let mut list: Vec<String> = Vec::new();
    let mut i: usize = 0;
    assert(texts(list@) =~= Seq::<Seq<char>>::empty());
    assert(views.take(0) =~= Seq::<RawVoiceView>::empty());
    while i < voices.len()
        invariant
            views == raw_views(voices@),
            i <= voices.len(),
            strictly_sorted(texts(list@)),
            forall|t: Seq<char>|
                texts(list@).contains(t) <==> voice_languages(views.take(i as int)).contains(t),
        decreases voices.len() - i,
    {
        let langs = &voices[i].languages;
        let ghost done = voice_languages(views.take(i as int));
        let ghost mapped = views[i as int].languages.map_values(|t: Seq<char>| exposed_language(t));
        let mut j: usize = 0;
        while j < langs.len()
            invariant
                views == raw_views(voices@),
                i < voices.len(),
                langs == voices@[i as int].languages,
                mapped == views[i as int].languages.map_values(|t: Seq<char>| exposed_language(t)),
                j <= langs.len(),
                strictly_sorted(texts(list@)),
                forall|t: Seq<char>|
                    texts(list@).contains(t) <==> (done + mapped.take(j as int)).contains(t),
            decreases langs.len() - j,
        {
            let tag = normalize_language(langs[j].as_str());
            let ghost before = done + mapped.take(j as int);
            insert_sorted(&mut list, tag);
            proof {
                assert(mapped[j as int] == exposed_language(langs@[j as int]@));
                assert(done + mapped.take(j + 1) =~= before.push(mapped[j as int]));
                assert forall|t: Seq<char>| texts(list@).contains(t) <==> (done + mapped.take(j + 1)).contains(t) by {
                    if t == mapped[j as int] {
                        assert((done + mapped.take(j + 1))[before.len() as int] == t);
                    }
                    if before.contains(t) {
                        let k = choose|k: int| 0 <= k < before.len() && before[k] == t;
                        assert((done + mapped.take(j + 1))[k] == t);
                    }
                    let after = done + mapped.take(j + 1);
                    if after.contains(t) {
                        let k = choose|k: int| 0 <= k < after.len() && after[k] == t;
                        if k < before.len() {
                            assert(before[k] == t);
                        }
                    }
                }
            }
            j = j + 1;
        }
        proof {
            assert(views.take(i + 1).drop_last() =~= views.take(i as int));
            assert(mapped.take(j as int) =~= mapped);
        }
        i = i + 1;
    }
    proof {
        assert(views.take(i as int) =~= views);
        lemma_sorted_arrangement_unique(texts(list@), catalog_languages(views));
    }
    list
}

/// The catalog's language list does not hang on how it was built: any
/// sorted list that holds each language of the voices once is that list.
pub proof fn lemma_catalog_languages_canonical(voices: Seq<RawVoiceView>, l: Seq<Seq<char>>)
    requires
        strictly_sorted(l),
        forall|t: Seq<char>| l.contains(t) <==> voice_languages(voices).contains(t),
    ensures
        l == catalog_languages(voices),
        strictly_sorted(catalog_languages(voices)),
{
    lemma_sorted_arrangement_unique(l, catalog_languages(voices));
}

/// The identifier prefix the engine gives its ordinary voice variants.
pub open spec fn family_prefix() -> Seq<char> {
    seq!['!', 'v', '/']
}

/// The identifier as exposed: every leading copy of the family prefix
/// removed.
pub open spec fn exposed_identifier(id: Seq<char>) -> Seq<char>
    decreases id.len(),
{
    if id.len() >= 3 && id.take(3) == family_prefix() {
        exposed_identifier(id.skip(3))
    } else {
        id
    }
}

/// Strips the engine's family prefix from a voice identifier.
pub fn normalize_identifier(raw: &str) -> (r: String)
    ensures
        r@ == exposed_identifier(raw@),
{
    let len = raw.unicode_len();
    let mut k: usize = 0;
    assert(raw@.skip(0) =~= raw@);
    while len - k >= 3 && raw.get_char(k) == '!' && raw.get_char(k + 1) == 'v' && raw.get_char(k + 2)
        == '/'
        invariant
            len == raw@.len(),
            k <= len,
            exposed_identifier(raw@) == exposed_identifier(raw@.skip(k as int)),
        decreases len - k,
    {
        proof {
            let rest = raw@.skip(k as int);
            assert(rest.take(3) =~= family_prefix());
            assert(rest.skip(3) =~= raw@.skip(k + 3));
        }
        k = k + 3;
    }
    proof {
        let rest = raw@.skip(k as int);
        if rest.len() >= 3 && rest.take(3) == family_prefix() {
            assert(rest.take(3)[0] == raw@[k as int]);
            assert(rest.take(3)[1] == raw@[k + 1]);
            assert(rest.take(3)[2] == raw@[k + 2]);
        }
    }
    let tail = raw.substring_char(k, len);
    assert(tail@ =~= raw@.skip(k as int));
    String::from_str(tail)
}

pub open spec fn digit_char(d: int) -> char {
    seq!['0', '1', '2', '3', '4', '5', '6', '7', '8', '9'][d]
}

/// Decimal digits of `n`, without leading zeros.
pub open spec fn decimal(n: nat) -> Seq<char>
    decreases n,
{
    if n < 10 {
        seq![digit_char(n as int)]
    } else {
        decimal(n / 10).push(digit_char((n % 10) as int))
    }
}

fn append_decimal(s: &mut String, n: u32)
    ensures
        final(s)@ == old(s)@ + decimal(n as nat),
    decreases n,
{
    if n >= 10 {
        append_decimal(s, n / 10);
    }
    let d = (n % 10) as usize;
    let digits = "0123456789";
    proof {
        reveal_strlit("0123456789");
    }
    let one = digits.substring_char(d, d + 1);
    assert(one@ =~= seq![digit_char(d as int)]);
    s.append(one);
    proof {
        if n >= 10 {
            assert(old(s)@ + decimal(n as nat) =~= old(s)@ + decimal((n / 10) as nat) + one@);
        } else {
            assert(old(s)@ + decimal(n as nat) =~= old(s)@ + one@);
        }
    }
}

/// Audio format of a voice: raw 16-bit little-endian mono PCM at `rate`.
pub open spec fn audio_format_text(rate: u32) -> Seq<char> {
    "audio/x-raw,format=S16LE,channels=1,rate="@ + decimal(rate as nat)
}

/// The audio format string for voices sampled at `rate`.
pub fn audio_format(rate: u32) -> (r: String)
    ensures
        r@ == audio_format_text(rate),
{
    let mut s = String::from_str("audio/x-raw,format=S16LE,channels=1,rate=");
    append_decimal(&mut s, rate);
    s
}

/// The entry for one usable voice.
pub open spec fn describe(
    v: RawVoiceView,
    rate: u32,
    features: u64,
    languages: Seq<Seq<char>>,
) -> VoiceDescriptorView {
    VoiceDescriptorView {
        name: v.name->Some_0,
        identifier: exposed_identifier(v.identifier->Some_0),
        audio_format: audio_format_text(rate),
        features,
        languages,
    }
}

/// The entries of one voice family, in listing order, skipping voices that
/// lack a name or an identifier.
pub open spec fn describe_family(
    voices: Seq<RawVoiceView>,
    rate: u32,
    features: u64,
    languages: Seq<Seq<char>>,
) -> Seq<VoiceDescriptorView>
    decreases voices.len(),
{
    if voices.len() == 0 {
        Seq::empty()
    } else {
        let rest = describe_family(voices.drop_last(), rate, features, languages);
        let v = voices.last();
        if v.name is Some && v.identifier is Some {
            rest.push(describe(v, rate, features, languages))
        } else {
            rest
        }
    }
}

/// The whole catalog: the primary family at the engine's rate with the full
/// capabilities, then the fixed-rate family with the reduced ones; every
/// entry carries the language list of all voices.
pub open spec fn catalog(
    all: Seq<RawVoiceView>,
    primary: Seq<RawVoiceView>,
    auxiliary: Seq<RawVoiceView>,
    rate: u32,
) -> Seq<VoiceDescriptorView> {
    describe_family(primary, rate, FULL_FEATURES, catalog_languages(all)) + describe_family(
        auxiliary,
        AUXILIARY_SAMPLE_RATE,
        REDUCED_FEATURES,
        catalog_languages(all),
    )
}

fn clone_strings(v: &Vec<String>) -> (r: Vec<String>)
    ensures
        texts(r@) == texts(v@),
{
    let mut r: Vec<String> = Vec::new();
    let mut i: usize = 0;
    while i < v.len()
        invariant
            i <= v.len(),
            texts(r@) == texts(v@).take(i as int),
        decreases v.len() - i,
    {
        let c = v[i].clone();
        assert(c@ == texts(v@)[i as int]);
        let ghost prev = r@;
        r.push(c);
        assert(r@ == prev.push(c));
        assert(texts(r@) =~= texts(prev).push(c@));
        assert(texts(r@) =~= texts(v@).take(i + 1));
        i = i + 1;
    }
    assert(texts(v@).take(i as int) =~= texts(v@));
    r
}

fn push_family(
    out: &mut Vec<VoiceDescriptor>,
    voices: &Vec<RawVoice>,
    rate: u32,
    features: u64,
    languages: &Vec<String>,
)
    ensures
        descriptor_views(final(out)@) == descriptor_views(old(out)@) + describe_family(
            raw_views(voices@),
            rate,
            features,
            texts(languages@),
        ),
{
    let ghost views = raw_views(voices@);
    let ghost start = descriptor_views(out@);
    let format = audio_format(rate);
    let mut i: usize = 0;
    assert(views.take(0) =~= Seq::<RawVoiceView>::empty());
    assert(start + Seq::<VoiceDescriptorView>::empty() =~= start);
    while i < voices.len()
        invariant
            views == raw_views(voices@),
            format@ == audio_format_text(rate),
            i <= voices.len(),
            descriptor_views(out@) == start + describe_family(
                views.take(i as int),
                rate,
                features,
                texts(languages@),
            ),
        decreases voices.len() - i,
    {
        let v = &voices[i];
        proof {
            assert(views.take(i + 1).drop_last() =~= views.take(i as int));
            assert(views[i as int] == v@);
        }
        let ghost prev = descriptor_views(out@);
        match (&v.name, &v.identifier) {
            (Some(name), Some(id)) => {
                let d = VoiceDescriptor {
                    name: name.clone(),
                    identifier: normalize_identifier(id.as_str()),
                    audio_format: format.clone(),
                    features,
                    languages: clone_strings(languages),
                };
                out.push(d);
                assert(descriptor_views(out@) =~= prev.push(d@));
            },
            _ => {},
        }
        i = i + 1;
    }
    assert(views.take(i as int) =~= views);
}

/// Builds the catalog. `all` is the engine's full voice list, from which the
/// language list is drawn; `primary` and `auxiliary` are the voices of the
/// two families; `sample_rate` is the engine's configured rate.
pub fn build_catalog(
    all: &Vec<RawVoice>,
    primary: &Vec<RawVoice>,
    auxiliary: &Vec<RawVoice>,
    sample_rate: u32,
) -> (r: Vec<VoiceDescriptor>)
    ensures
        descriptor_views(r@) == catalog(
            raw_views(all@),
            raw_views(primary@),
            raw_views(auxiliary@),
            sample_rate,
        ),
        strictly_sorted(catalog_languages(raw_views(all@))),
{
    let languages = language_list(all);
    let mut out: Vec<VoiceDescriptor> = Vec::new();
    assert(descriptor_views(out@) =~= Seq::<VoiceDescriptorView>::empty());
    push_family(&mut out, primary, sample_rate, FULL_FEATURES, &languages);
    push_family(&mut out, auxiliary, AUXILIARY_SAMPLE_RATE, REDUCED_FEATURES, &languages);
    assert(descriptor_views(out@) =~= catalog(
        raw_views(all@),
        raw_views(primary@),
        raw_views(auxiliary@),
        sample_rate,
    ));
    out
}

} // verus!
