//! Scans container tags for leftover traces of a lossy encoder, such as a FLAC whose
//! `ENCODER` comment still names LAME. Only tags naming the encoding tool are read, and only
//! encoders that exclusively produce lossy output count.

use vstd::prelude::*;

use crate::text::{
    all_ascii, ascii_lowercase, ascii_uppercase, chars_of, contains_chars, contains_seq, join_seq,
    join_with_space, lemma_ascii_case_forms, lowercase, strings_view, to_lowercase,
};

verus! {

broadcast use vstd::string::group_string_axioms;

/// Substrings (case-insensitive) of encoders that only ever produce lossy output. `itunes`
/// is deliberately absent: it rips lossless ALAC as often as it encodes AAC.
pub open spec fn lossy_encoder_patterns() -> Seq<Seq<char>> {
    seq![
        "lame"@,
        "libmp3lame"@,
        "qaac"@,
        "nero aac"@,
        "faac"@,
        "fdk-aac"@,
        "fraunhofer"@,
        "gogo"@,
        "xing"@,
        "blade"@,
    ]
}

/// Substrings (case-insensitive) of tag keys that name the encoding tool: ENCODER,
/// ENCODED_BY, ENCODER_SETTINGS, MP4's `©too` and the like.
pub open spec fn encoder_tag_key_markers() -> Seq<Seq<char>> {
    seq!["encoder"@, "encoded"@, "encoding"@, "tool"@, "software"@, "too"@]
}

fn lossy_encoder_pattern_list() -> (v: Vec<&'static str>)
    ensures
        v@.len() == lossy_encoder_patterns().len(),
        forall|i: int| 0 <= i < v@.len() ==> (#[trigger] v@[i])@ == lossy_encoder_patterns()[i],
{
    vec![
        "lame",
        "libmp3lame",
        "qaac",
        "nero aac",
        "faac",
        "fdk-aac",
        "fraunhofer",
        "gogo",
        "xing",
        "blade",
    ]
}

fn encoder_tag_key_marker_list() -> (v: Vec<&'static str>)
    ensures
        v@.len() == encoder_tag_key_markers().len(),
        forall|i: int| 0 <= i < v@.len() ==> (#[trigger] v@[i])@ == encoder_tag_key_markers()[i],
{
    vec!["encoder", "encoded", "encoding", "tool", "software", "too"]
}

/// A lowercase key names the encoding tool when it contains one of the markers.
pub open spec fn names_encoding_tool(lower: Seq<char>) -> bool {
    exists|i: int|
        0 <= i < encoder_tag_key_markers().len() && contains_seq(
            lower,
            #[trigger] encoder_tag_key_markers()[i],
        )
}

/// A key names the encoding tool when its lowercase form contains one of the markers.
pub open spec fn is_encoder_key(key: Seq<char>) -> bool {
    names_encoding_tool(lowercase(key))
}

/// Whether a tag key names the encoding tool rather than free text. For an ASCII key this
/// is whether its ASCII lowercase form contains one of the markers.
pub fn is_encoder_tag_key(key: &str) -> (r: bool)
    ensures
        r == is_encoder_key(key@),
        all_ascii(key@) ==> r == names_encoding_tool(ascii_lowercase(key@)),
{
    let lower = to_lowercase(key);
    let lower_chars = chars_of(lower.as_str());
    let markers = encoder_tag_key_marker_list();
    let mut i: usize = 0;
    while i < markers.len()
        invariant
            lower_chars@ == lowercase(key@),
            all_ascii(key@) ==> lowercase(key@) == ascii_lowercase(key@),
            markers@.len() == encoder_tag_key_markers().len(),
            forall|j: int| 0 <= j < markers@.len() ==> (#[trigger] markers@[j])@ == encoder_tag_key_markers()[j],
            i <= markers@.len(),
            forall|j: int|
                0 <= j < i ==> !contains_seq(lowercase(key@), #[trigger] encoder_tag_key_markers()[j]),
        decreases markers.len() - i,
    {
        let marker = chars_of(markers[i]);
        if contains_chars(&lower_chars, &marker) {
            proof {
                assert(contains_seq(lowercase(key@), encoder_tag_key_markers()[i as int]));
            }
            return true;
        }
        i = i + 1;
    }
    false
}

/// Encoder keys are matched without regard to ASCII case: an ASCII key, its ASCII
/// uppercase form and its ASCII lowercase form are all ASCII, and they name the encoding
/// tool (by [`is_encoder_tag_key`]) alike, exactly when the ASCII lowercase key contains
/// one of the markers.
pub proof fn lemma_encoder_keys_ignore_ascii_case(key: Seq<char>)
    requires
        all_ascii(key),
    ensures
        all_ascii(ascii_uppercase(key)),
        all_ascii(ascii_lowercase(key)),
        names_encoding_tool(ascii_lowercase(ascii_uppercase(key))) == names_encoding_tool(
            ascii_lowercase(key),
        ),
        names_encoding_tool(ascii_lowercase(ascii_lowercase(key))) == names_encoding_tool(
            ascii_lowercase(key),
        ),
{
    lemma_ascii_case_forms(key);
}

/// One tag whose key names an encoder and whose value names a lossy-only encoder.
#[derive(Debug, Clone)]
pub struct EncoderTagMatch {
    pub tag_key: String,
    pub tag_value: String,
    pub matched_pattern: String,
}

/// An [`EncoderTagMatch`] taken by the characters of its three fields.
pub struct TagMatchView {
    pub key: Seq<char>,
    pub value: Seq<char>,
    pub pattern: Seq<char>,
}

impl View for EncoderTagMatch {
    type V = TagMatchView;

    open spec fn view(&self) -> TagMatchView {
        TagMatchView { key: self.tag_key@, value: self.tag_value@, pattern: self.matched_pattern@ }
    }
}

/// The value of a container tag, as far as the scan reads it.
pub enum TagValue {
    /// A single text value.
    Text(String),
    /// Several text values under one key.
    TextList(Vec<String>),
    /// Binary, numeric or other non-text content.
    Other,
}

/// One container tag: its raw key and its value.
pub struct RawTag {
    pub key: String,
    pub value: TagValue,
}

/// The text a tag value reads as: a single text as is, a list joined with single spaces,
/// and nothing for non-text values.
pub open spec fn tag_text(value: TagValue) -> Option<Seq<char>> {
    match value {
        TagValue::Text(s) => Some(s@),
        TagValue::TextList(list) => Some(join_seq(strings_view(list@), " "@)),
        TagValue::Other => None,
    }
}

/// The text of a tag value, if it has one.
pub fn tag_value_as_string(value: &TagValue) -> (r: Option<String>)
    ensures
        r is Some <==> tag_text(*value) is Some,
        r matches Some(s) ==> s@ == tag_text(*value)->0,
{
    match value {
        TagValue::Text(s) => Some(s.clone()),
        TagValue::TextList(list) => Some(join_with_space(list)),
        TagValue::Other => None,
    }
}

/// The matches one tag contributes, for the first `count` patterns: one per pattern, in
/// pattern order, that the lowercase value contains.
pub open spec fn pattern_matches(key: Seq<char>, text: Seq<char>, count: int) -> Seq<TagMatchView>
    decreases count,
{
    if count <= 0 {
        Seq::empty()
    } else {
        let pattern = lossy_encoder_patterns()[count - 1];
        let earlier = pattern_matches(key, text, count - 1);
        if contains_seq(lowercase(text), pattern) {
            earlier.push(TagMatchView { key, value: text, pattern })
        } else {
            earlier
        }
    }
}

/// The matches of a list of tags, in tag order: a tag counts when its key names the
/// encoding tool and its value has text.
pub open spec fn scan_matches(tags: Seq<RawTag>) -> Seq<TagMatchView>
    decreases tags.len(),
{
    if tags.len() == 0 {
        Seq::empty()
    } else {
        let tag = tags.last();
        let earlier = scan_matches(tags.drop_last());
        if is_encoder_key(tag.key@) && tag_text(tag.value) is Some {
            earlier + pattern_matches(tag.key@, tag_text(tag.value)->0, lossy_encoder_patterns().len() as int)
        } else {
            earlier
        }
    }
}

/// The lossy-only encoders looked for are exactly ten: LAME (`lame`, `libmp3lame`),
/// `qaac`, Nero AAC, FAAC, FDK AAC, Fraunhofer, GOGO, Xing and BladeEnc.
pub proof fn lemma_the_ten_lossy_only_encoders()
    ensures
        lossy_encoder_patterns() =~= seq![
            "lame"@,
            "libmp3lame"@,
            "qaac"@,
            "nero aac"@,
            "faac"@,
            "fdk-aac"@,
            "fraunhofer"@,
            "gogo"@,
            "xing"@,
            "blade"@,
        ],
{
}

proof fn lemma_pattern_matches_quote(key: Seq<char>, text: Seq<char>, count: int)
    requires
        0 <= count <= lossy_encoder_patterns().len(),
    ensures
        forall|i: int|
            0 <= i < pattern_matches(key, text, count).len() ==> {
                let m = #[trigger] pattern_matches(key, text, count)[i];
                &&& m.key == key
                &&& m.value == text
                &&& contains_seq(lowercase(text), m.pattern)
                &&& exists|j: int| 0 <= j < count && m.pattern == #[trigger] lossy_encoder_patterns()[j]
            },
    decreases count,
{
    if count > 0 {
        lemma_pattern_matches_quote(key, text, count - 1);
        let earlier = pattern_matches(key, text, count - 1);
        assert forall|i: int| 0 <= i < pattern_matches(key, text, count).len() implies {
            let m = #[trigger] pattern_matches(key, text, count)[i];
            &&& m.key == key
            &&& m.value == text
            &&& contains_seq(lowercase(text), m.pattern)
            &&& exists|j: int| 0 <= j < count && m.pattern == #[trigger] lossy_encoder_patterns()[j]
        } by {
            if i < earlier.len() {
                assert(pattern_matches(key, text, count)[i] == earlier[i]);
                let j = choose|j: int| 0 <= j < count - 1 && earlier[i].pattern == #[trigger] lossy_encoder_patterns()[j];
                assert(0 <= j < count);
            } else {
                assert(pattern_matches(key, text, count)[i].pattern == lossy_encoder_patterns()[count - 1]);
            }
        }
    }
}

/// Only lossy-only encoders are ever reported: every match the scan reports names one of
/// the ten encoder names literally, found in the lowercase value of a tag whose key names
/// the encoding tool. A tag whose value names none of the ten (`Lavf58.76.100`,
/// `iTunes 12.9`, `reference libFLAC`) contributes nothing.
pub proof fn lemma_only_lossy_only_encoders_are_reported(tags: Seq<RawTag>)
    ensures
        forall|i: int|
            0 <= i < scan_matches(tags).len() ==> {
                let m = #[trigger] scan_matches(tags)[i];
                &&& (m.pattern == "lame"@ || m.pattern == "libmp3lame"@ || m.pattern == "qaac"@
                    || m.pattern == "nero aac"@ || m.pattern == "faac"@ || m.pattern == "fdk-aac"@
                    || m.pattern == "fraunhofer"@ || m.pattern == "gogo"@ || m.pattern == "xing"@
                    || m.pattern == "blade"@)
                &&& contains_seq(lowercase(m.value), m.pattern)
                &&& is_encoder_key(m.key)
            },
    decreases tags.len(),
{
    if tags.len() > 0 {
        lemma_only_lossy_only_encoders_are_reported(tags.drop_last());
        let tag = tags.last();
        let earlier = scan_matches(tags.drop_last());
        if is_encoder_key(tag.key@) && tag_text(tag.value) is Some {
            let text = tag_text(tag.value)->0;
            let own = pattern_matches(tag.key@, text, lossy_encoder_patterns().len() as int);
            lemma_pattern_matches_quote(tag.key@, text, lossy_encoder_patterns().len() as int);
            assert forall|i: int| 0 <= i < scan_matches(tags).len() implies {
                let m = #[trigger] scan_matches(tags)[i];
                &&& (m.pattern == "lame"@ || m.pattern == "libmp3lame"@ || m.pattern == "qaac"@
                    || m.pattern == "nero aac"@ || m.pattern == "faac"@ || m.pattern == "fdk-aac"@
                    || m.pattern == "fraunhofer"@ || m.pattern == "gogo"@ || m.pattern == "xing"@
                    || m.pattern == "blade"@)
                &&& contains_seq(lowercase(m.value), m.pattern)
                &&& is_encoder_key(m.key)
            } by {
                if i < earlier.len() {
                    assert(scan_matches(tags)[i] == earlier[i]);
                } else {
                    let m = own[i - earlier.len()];
                    assert(scan_matches(tags)[i] == m);
                    let j = choose|j: int| 0 <= j < lossy_encoder_patterns().len() && m.pattern == #[trigger] lossy_encoder_patterns()[j];
                    let p = lossy_encoder_patterns();
                    assert(p[0] == "lame"@ && p[1] == "libmp3lame"@ && p[2] == "qaac"@ && p[3] == "nero aac"@
                        && p[4] == "faac"@ && p[5] == "fdk-aac"@ && p[6] == "fraunhofer"@ && p[7] == "gogo"@
                        && p[8] == "xing"@ && p[9] == "blade"@);
                }
            }
        } else {
            assert(scan_matches(tags) == earlier);
        }
    }
}

/// The views of a list of matches.
pub open spec fn matches_view(list: Seq<EncoderTagMatch>) -> Seq<TagMatchView> {
    list.map_values(|m: EncoderTagMatch| m@)
}

/// Every trace of a lossy-only encoder named in the encoder tags: one match per tag and
/// pattern found in it. No match is not evidence that no lossy encoder was involved.
pub fn scan_for_lossy_encoder_traces(tags: &Vec<RawTag>) -> (r: Vec<EncoderTagMatch>)
    ensures
        matches_view(r@) == scan_matches(tags@),
{
    let patterns = lossy_encoder_pattern_list();
    let mut matches: Vec<EncoderTagMatch> = Vec::new();
    let mut t: usize = 0;
    while t < tags.len()
        invariant
            t <= tags@.len(),
            patterns@.len() == lossy_encoder_patterns().len(),
            forall|j: int| 0 <= j < patterns@.len() ==> (#[trigger] patterns@[j])@ == lossy_encoder_patterns()[j],
            matches_view(matches@) == scan_matches(tags@.take(t as int)),
        decreases tags.len() - t,
    {
        proof {
            assert(tags@.take(t + 1).drop_last() =~= tags@.take(t as int));
            assert(tags@.take(t + 1).last() == tags@[t as int]);
        }
        let tag = &tags[t];
        if is_encoder_tag_key(tag.key.as_str()) {
            let value = tag_value_as_string(&tag.value);
            match value {
                Some(value_str) => {
                    let lower = to_lowercase(value_str.as_str());
                    let lower_chars = chars_of(lower.as_str());
                    let ghost before = matches_view(matches@);
                    let mut p: usize = 0;
                    while p < patterns.len()
                        invariant
                            p <= patterns@.len(),
                            patterns@.len() == lossy_encoder_patterns().len(),
                            forall|j: int|
                                0 <= j < patterns@.len() ==> (#[trigger] patterns@[j])@
                                    == lossy_encoder_patterns()[j],
                            lower_chars@ == lowercase(value_str@),
                            matches_view(matches@) == before + pattern_matches(
                                tag.key@,
                                value_str@,
                                p as int,
                            ),
                        decreases patterns.len() - p,
                    {
                        let pattern_chars = chars_of(patterns[p]);
                        proof {
                            assert(pattern_chars@ == lossy_encoder_patterns()[p as int]);
                        }
                        if contains_chars(&lower_chars, &pattern_chars) {
                            let found = EncoderTagMatch {
                                tag_key: tag.key.clone(),
                                tag_value: value_str.clone(),
                                matched_pattern: patterns[p].to_string(),
                            };
                            proof {
                                assert(found.tag_key@ == tag.key@);
                                assert(found.tag_value@ == value_str@);
                                assert(found.matched_pattern@ == lossy_encoder_patterns()[p as int]);
                            }
                            let ghost found_view = found@;
                            let ghost old_view = matches_view(matches@);
                            matches.push(found);
                            proof {
                                assert(matches_view(matches@) =~= old_view.push(found_view));
                                assert((before + pattern_matches(tag.key@, value_str@, p as int)).push(found_view)
                                    =~= before + pattern_matches(tag.key@, value_str@, p as int).push(found_view));
                                assert(pattern_matches(tag.key@, value_str@, p + 1) == pattern_matches(
                                    tag.key@,
                                    value_str@,
                                    p as int,
                                ).push(found_view));
                                assert(matches_view(matches@) =~= before + pattern_matches(
                                    tag.key@,
                                    value_str@,
                                    p + 1,
                                ));
                            }
                        } else {
                            proof {
                                assert(matches_view(matches@) =~= before + pattern_matches(
                                    tag.key@,
                                    value_str@,
                                    p + 1,
                                ));
                            }
                        }
                        p = p + 1;
                    }
                },
                None => {},
            }
        }
        t = t + 1;
    }
    proof {
        assert(tags@.take(tags@.len() as int) =~= tags@);
    }
    matches
}

} // verus!
