//! Evidence-based assessment of a possible lossy history.
//!
//! A filter edge is compatible with mastering and resampling; ultrasonic energy can be added
//! after compression; encoder tags can be stale. None of them establishes provenance. Only a
//! confirmed codec-grid hypothesis produces a lossy inference, an incomplete decode or a failed
//! checksum withholds it, and no measurement supports a positive authenticity verdict.
//!
//! The measurements themselves (steepness, edge frequency, band levels, grid scores) are
//! floating-point values that travel beside this assessment; what reaches it are the
//! readings taken from them.

use vstd::prelude::*;
use vstd::seq_lib::seq_to_set_is_finite;

use crate::decode::DecodeStatus;
use crate::mdct_grid::MdctWindow;
use crate::tags::{matches_view, EncoderTagMatch, TagMatchView};
use crate::text::str_eq;

verus! {

broadcast use vstd::string::group_string_axioms;

/// The possible verdicts on a file's lossy history.
#[derive(Debug, Clone, Copy, PartialEq, Eq, Structural)]
pub enum Verdict {
    /// Reserved: no current measurement establishes a lossless source history.
    ProbablyAuthentic,
    ProbablyTranscoded,
    Indeterminate,
    /// The file is in a lossy format and says so; the question of a disguise does not arise.
    DeclaredLossy,
}

/// How strong the evidence behind a verdict is. Not a probability: a graded reading of a small
/// set of indicators.
#[derive(Debug, Clone, Copy, PartialEq, Eq, Structural)]
pub enum EvidenceStrength {
    /// Nothing supports an inference either way.
    NoEvidence,
    /// A confirmed codec grid, without a sharp spectral edge beside it.
    GridOnly,
    /// A confirmed codec grid corroborated by a sharp spectral edge.
    GridCorroborated,
}

/// Readings taken from the spectral measurements.
#[derive(Debug, Clone, Copy, PartialEq, Eq, Structural)]
pub struct SpectralEvidence {
    /// The Nyquist frequency is a finite, positive number.
    pub nyquist_valid: bool,
    /// The spectrum carried usable signal (not silence or an analysis floor).
    pub has_signal: bool,
    /// A codec-like edge was found by the narrow-probe scan.
    pub edge_found: bool,
    /// The measured rolloff is at least as steep as the transcode threshold.
    pub rolloff_sharp: bool,
    /// The band above the CD ceiling was measured and sits within the qualifying level.
    pub above_cd_ceiling: bool,
}

/// Readings taken from the MDCT grid sweep.
#[derive(Debug, Clone, Copy, PartialEq, Eq, Structural)]
pub struct GridEvidence {
    /// The sweep ran (the track was long and loud enough).
    pub analyzed: bool,
    /// One offset stood out, and was confirmed, far beyond the file's own noise.
    pub grid_detected: bool,
    /// The window of the winning hypothesis, when one was tested.
    pub window: Option<MdctWindow>,
    /// The winning frame offset.
    pub frame_offset: usize,
}

/// One stated observation behind a verdict. The measured numbers an observation quotes are
/// carried beside it by the caller; this names the observation and its non-numeric content.
pub enum IndicatorDetail {
    /// A container tag names an encoder that only ever produces lossy output.
    EncoderTagMatched {
        tag_key: String,
        tag_value: String,
        matched_pattern: String,
        /// Further distinct `(key, value)` tags beyond the one quoted.
        additional_tags: usize,
    },
    /// Metadata alone cannot establish the audio's processing history.
    TagIsOnlyEvidence,
    /// Silence or an analysis-floor spectrum supplies no spectral evidence.
    InsufficientSignal,
    /// The embedded checksum does not match the decoded samples.
    IntegrityMismatch,
    /// No usable sample rate, so no spectral claim can be made.
    InvalidSampleRate,
    /// A sharp edge, compatible with both native filtering and codec lowpasses.
    SharpRolloff,
    /// No sharp sustained edge in the tested frequency range.
    NoEncoderLowpass,
    /// Clean tests cannot establish a lossless history.
    TransparentEncodeUnseen,
    /// An edge too gradual to attribute to a codec either way.
    GradualRolloff,
    /// The MDCT coefficients collapse at one confirmed frame alignment.
    MdctGridAligned { window: MdctWindow, frame_offset: usize },
    /// No confirmed alignment under the tested hypotheses; AAC is not ruled out.
    MdctGridClear,
    /// Energy above the CD ceiling, which could also have been added after transcoding.
    ContentAboveCdCeiling,
    /// The container declares a lossy codec.
    DeclaredLossyCodec { codec: String },
    /// Part of the audio never reached the analysis.
    DecodeIncomplete { skipped_packets: usize, stopped_early: bool, channels_unequal: bool },
}

/// An [`IndicatorDetail`] with its text taken by characters.
pub enum IndicatorView {
    EncoderTagMatched {
        tag_key: Seq<char>,
        tag_value: Seq<char>,
        matched_pattern: Seq<char>,
        additional_tags: nat,
    },
    TagIsOnlyEvidence,
    InsufficientSignal,
    IntegrityMismatch,
    InvalidSampleRate,
    SharpRolloff,
    NoEncoderLowpass,
    TransparentEncodeUnseen,
    GradualRolloff,
    MdctGridAligned { window: MdctWindow, frame_offset: nat },
    MdctGridClear,
    ContentAboveCdCeiling,
    DeclaredLossyCodec { codec: Seq<char> },
    DecodeIncomplete { skipped_packets: nat, stopped_early: bool, channels_unequal: bool },
}

impl View for IndicatorDetail {
    type V = IndicatorView;

    open spec fn view(&self) -> IndicatorView {
        match self {
            IndicatorDetail::EncoderTagMatched {
                tag_key,
                tag_value,
                matched_pattern,
                additional_tags,
            } => IndicatorView::EncoderTagMatched {
                tag_key: tag_key@,
                tag_value: tag_value@,
                matched_pattern: matched_pattern@,
                additional_tags: *additional_tags as nat,
            },
            IndicatorDetail::TagIsOnlyEvidence => IndicatorView::TagIsOnlyEvidence,
            IndicatorDetail::InsufficientSignal => IndicatorView::InsufficientSignal,
            IndicatorDetail::IntegrityMismatch => IndicatorView::IntegrityMismatch,
            IndicatorDetail::InvalidSampleRate => IndicatorView::InvalidSampleRate,
            IndicatorDetail::SharpRolloff => IndicatorView::SharpRolloff,
            IndicatorDetail::NoEncoderLowpass => IndicatorView::NoEncoderLowpass,
            IndicatorDetail::TransparentEncodeUnseen => IndicatorView::TransparentEncodeUnseen,
            IndicatorDetail::GradualRolloff => IndicatorView::GradualRolloff,
            IndicatorDetail::MdctGridAligned { window, frame_offset } => IndicatorView::MdctGridAligned {
                window: *window,
                frame_offset: *frame_offset as nat,
            },
            IndicatorDetail::MdctGridClear => IndicatorView::MdctGridClear,
            IndicatorDetail::ContentAboveCdCeiling => IndicatorView::ContentAboveCdCeiling,
            IndicatorDetail::DeclaredLossyCodec { codec } => IndicatorView::DeclaredLossyCodec {
                codec: codec@,
            },
            IndicatorDetail::DecodeIncomplete { skipped_packets, stopped_early, channels_unequal } =>
                IndicatorView::DecodeIncomplete {
                skipped_packets: *skipped_packets as nat,
                stopped_early: *stopped_early,
                channels_unequal: *channels_unequal,
            },
        }
    }
}

/// The views of a list of indicators.
pub open spec fn indicators_view(list: Seq<IndicatorDetail>) -> Seq<IndicatorView> {
    list.map_values(|d: IndicatorDetail| d@)
}

/// The outcome of the assessment: a verdict, the strength of the evidence behind it (none
/// where the verdict is not an inference), and every observation that produced it.
pub struct TranscodeAssessment {
    pub verdict: Verdict,
    pub confidence: Option<EvidenceStrength>,
    pub indicators: Vec<IndicatorDetail>,
}

/// A [`TranscodeAssessment`] with its indicators taken by their views.
pub struct AssessmentView {
    pub verdict: Verdict,
    pub confidence: Option<EvidenceStrength>,
    pub indicators: Seq<IndicatorView>,
}

impl View for TranscodeAssessment {
    type V = AssessmentView;

    open spec fn view(&self) -> AssessmentView {
        AssessmentView {
            verdict: self.verdict,
            confidence: self.confidence,
            indicators: indicators_view(self.indicators@),
        }
    }
}

/// Codecs that are lossy by definition. An explicit list: wrongly calling a lossless codec
/// lossy would switch the check off where it is needed, so an unknown codec keeps the full
/// assessment.
pub open spec fn declared_lossy(codec: Seq<char>) -> bool {
    ||| codec == "mp3"@
    ||| codec == "mp2"@
    ||| codec == "mp1"@
    ||| codec == "aac"@
    ||| codec == "vorbis"@
    ||| codec == "opus"@
}

/// Whether a codec's short name is one of the lossy-by-definition codecs.
pub fn is_declared_lossy(codec: &str) -> (r: bool)
    ensures
        r == declared_lossy(codec@),
{
    str_eq(codec, "mp3") || str_eq(codec, "mp2") || str_eq(codec, "mp1") || str_eq(codec, "aac")
        || str_eq(codec, "vorbis") || str_eq(codec, "opus")
}

/// The grid sweep found, and confirmed, an encoder alignment under a named window.
pub open spec fn grid_aligned(grid: GridEvidence) -> bool {
    grid.analyzed && grid.grid_detected && grid.window is Some
}

/// What the spectral readings contribute: why no spectral claim can be made, or the edge
/// reading followed by the content above the CD ceiling when it qualifies.
pub open spec fn spectral_indicators(s: SpectralEvidence) -> Seq<IndicatorView> {
    if !s.nyquist_valid {
        seq![IndicatorView::InvalidSampleRate]
    } else if !s.has_signal {
        seq![IndicatorView::InsufficientSignal]
    } else {
        let edge = if !s.edge_found {
            IndicatorView::NoEncoderLowpass
        } else if s.rolloff_sharp {
            IndicatorView::SharpRolloff
        } else {
            IndicatorView::GradualRolloff
        };
        if s.above_cd_ceiling {
            seq![edge, IndicatorView::ContentAboveCdCeiling]
        } else {
            seq![edge]
        }
    }
}

/// What the grid sweep contributes: the confirmed alignment, or (when it ran) a clear sweep,
/// followed by the statement that clean tests establish nothing.
pub open spec fn grid_indicators(g: GridEvidence) -> Seq<IndicatorView> {
    if grid_aligned(g) {
        seq![IndicatorView::MdctGridAligned { window: g.window->0, frame_offset: g.frame_offset as nat }]
    } else if g.analyzed {
        seq![IndicatorView::MdctGridClear, IndicatorView::TransparentEncodeUnseen]
    } else {
        seq![IndicatorView::TransparentEncodeUnseen]
    }
}

/// The distinct `(key, value)` pairs among tag matches.
pub open spec fn tag_pairs(tags: Seq<TagMatchView>) -> Set<(Seq<char>, Seq<char>)> {
    tags.map_values(|m: TagMatchView| (m.key, m.value)).to_set()
}

/// What the tag matches contribute: the first match, with the count of further distinct
/// tags, and (when nothing else supports an inference) the statement that metadata alone
/// establishes nothing.
pub open spec fn tag_indicators(tags: Seq<TagMatchView>, aligned: bool) -> Seq<IndicatorView> {
    if tags.len() == 0 {
        Seq::empty()
    } else {
        let first = IndicatorView::EncoderTagMatched {
            tag_key: tags[0].key,
            tag_value: tags[0].value,
            matched_pattern: tags[0].pattern,
            additional_tags: (tag_pairs(tags).len() - 1) as nat,
        };
        if aligned {
            seq![first]
        } else {
            seq![first, IndicatorView::TagIsOnlyEvidence]
        }
    }
}

/// The full assessment, stated directly.
pub open spec fn assessment_of(
    spectral: SpectralEvidence,
    tags: Seq<TagMatchView>,
    grid: GridEvidence,
    codec: Seq<char>,
    status: DecodeStatus,
) -> AssessmentView {
    if declared_lossy(codec) {
        AssessmentView {
            verdict: Verdict::DeclaredLossy,
            confidence: None,
            indicators: seq![IndicatorView::DeclaredLossyCodec { codec }],
        }
    } else {
        let aligned = grid_aligned(grid);
        let observed = spectral_indicators(spectral) + grid_indicators(grid) + tag_indicators(
            tags,
            aligned,
        );
        if !status.complete {
            AssessmentView {
                verdict: Verdict::Indeterminate,
                confidence: Some(EvidenceStrength::NoEvidence),
                indicators: seq![
                    IndicatorView::DecodeIncomplete {
                        skipped_packets: status.skipped_packets as nat,
                        stopped_early: status.stopped_early,
                        channels_unequal: status.channels_unequal,
                    },
                ] + observed,
            }
        } else if aligned {
            AssessmentView {
                verdict: Verdict::ProbablyTranscoded,
                confidence: Some(
                    if spectral.rolloff_sharp {
                        EvidenceStrength::GridCorroborated
                    } else {
                        EvidenceStrength::GridOnly
                    },
                ),
                indicators: observed,
            }
        } else {
            AssessmentView {
                verdict: Verdict::Indeterminate,
                confidence: Some(EvidenceStrength::NoEvidence),
                indicators: observed,
            }
        }
    }
}

/// The `(key, value)` pair a match quotes.
pub open spec fn pair_of(m: TagMatchView) -> (Seq<char>, Seq<char>) {
    (m.key, m.value)
}

/// How many distinct `(key, value)` tags a list of matches names: one tag matching two
/// patterns is one piece of evidence, not two.
pub fn distinct_tag_count(tags: &[EncoderTagMatch]) -> (n: usize)
    ensures
        n == tag_pairs(matches_view(tags@)).len(),
{
    let mut count: usize = 0;
    let mut i: usize = 0;
    proof {
        assert(tag_pairs(matches_view(tags@.take(0))) =~= Set::empty());
    }
    while i < tags.len()
        invariant
            i <= tags@.len(),
            count <= i,
            count == tag_pairs(matches_view(tags@.take(i as int))).len(),
        decreases tags.len() - i,
    {
        let mut seen = false;
        let mut j: usize = 0;
        while j < i
            invariant
                j <= i < tags@.len(),
                seen <==> exists|k: int|
                    0 <= k < j && (#[trigger] tags@[k]).tag_key@ == tags@[i as int].tag_key@
                        && tags@[k].tag_value@ == tags@[i as int].tag_value@,
            decreases i - j,
        {
            if tags[j].tag_key == tags[i].tag_key && tags[j].tag_value == tags[i].tag_value {
                seen = true;
            }
            j = j + 1;
        }
        proof {
            let prev = matches_view(tags@.take(i as int)).map_values(|m: TagMatchView| (m.key, m.value));
            let next = matches_view(tags@.take(i + 1)).map_values(|m: TagMatchView| (m.key, m.value));
            let pair = (tags@[i as int].tag_key@, tags@[i as int].tag_value@);
            assert(next =~= prev + seq![pair]);
            Seq::lemma_to_set_insert_commutes(prev, pair);
            seq_to_set_is_finite(prev);
            vstd::set::axiom_set_insert_len(prev.to_set(), pair);
            if seen {
                let k = choose|k: int|
                    0 <= k < i && (#[trigger] tags@[k]).tag_key@ == tags@[i as int].tag_key@
                        && tags@[k].tag_value@ == tags@[i as int].tag_value@;
                assert(prev[k] == pair);
                assert(prev.to_set().contains(pair));
            } else {
                assert(!prev.contains(pair));
            }
        }
        if !seen {
            count = count + 1;
        }
        i = i + 1;
    }
    proof {
        assert(tags@.take(tags@.len() as int) =~= tags@);
    }
    count
}

/// Evaluates the evidence without mistaking bandwidth, a filter or metadata for
/// provenance: a declared lossy codec is not accused of anything; only a confirmed codec
/// grid supports a lossy inference; an incomplete decode withholds every inference while
/// still reporting what was observed.
pub fn assess_transcode_risk(
    spectral: &SpectralEvidence,
    encoder_tag_matches: &[EncoderTagMatch],
    mdct_grid: &GridEvidence,
    codec: &str,
    decode_status: &DecodeStatus,
) -> (r: TranscodeAssessment)
    ensures
        r@ == assessment_of(
            *spectral,
            matches_view(encoder_tag_matches@),
            *mdct_grid,
            codec@,
            *decode_status,
        ),
{
    if is_declared_lossy(codec) {
        let mut indicators: Vec<IndicatorDetail> = Vec::new();
        indicators.push(IndicatorDetail::DeclaredLossyCodec { codec: codec.to_string() });
        proof {
            assert(indicators_view(indicators@) =~= seq![
                IndicatorView::DeclaredLossyCodec { codec: codec@ },
            ]);
        }
        return TranscodeAssessment {
            verdict: Verdict::DeclaredLossy,
            confidence: None,
            indicators,
        };
    }
    let ghost tags = matches_view(encoder_tag_matches@);
    let sharp = spectral.rolloff_sharp;
    let mut verdict = Verdict::Indeterminate;
    let mut confidence = Some(EvidenceStrength::NoEvidence);
    let mut indicators: Vec<IndicatorDetail> = Vec::new();

    if !spectral.nyquist_valid {
        indicators.push(IndicatorDetail::InvalidSampleRate);
    } else if !spectral.has_signal {
        indicators.push(IndicatorDetail::InsufficientSignal);
    } else {
        let detail = if !spectral.edge_found {
            IndicatorDetail::NoEncoderLowpass
        } else if sharp {
            IndicatorDetail::SharpRolloff
        } else {
            IndicatorDetail::GradualRolloff
        };
        indicators.push(detail);
        if spectral.above_cd_ceiling {
            indicators.push(IndicatorDetail::ContentAboveCdCeiling);
        }
    }
    proof {
        assert(indicators_view(indicators@) =~= spectral_indicators(*spectral));
    }
    let ghost after_spectral = indicators_view(indicators@);

    let aligned = mdct_grid.analyzed && mdct_grid.grid_detected && mdct_grid.window.is_some();
    if aligned {
        let window = match mdct_grid.window {
            Some(w) => w,
            None => MdctWindow::Sine,
        };
        verdict = Verdict::ProbablyTranscoded;
        confidence = Some(
            if sharp {
                EvidenceStrength::GridCorroborated
            } else {
                EvidenceStrength::GridOnly
            },
        );
        indicators.push(IndicatorDetail::MdctGridAligned { window, frame_offset: mdct_grid.frame_offset });
    } else {
        if mdct_grid.analyzed {
            indicators.push(IndicatorDetail::MdctGridClear);
        }
        indicators.push(IndicatorDetail::TransparentEncodeUnseen);
    }
    proof {
        assert(indicators_view(indicators@) =~= after_spectral + grid_indicators(*mdct_grid));
    }
    let ghost after_grid = indicators_view(indicators@);

    if encoder_tag_matches.len() > 0 {
        let first = &encoder_tag_matches[0];
        let distinct = distinct_tag_count(encoder_tag_matches);
        let additional_tags = if distinct > 0 { distinct - 1 } else { 0 };
        indicators.push(IndicatorDetail::EncoderTagMatched {
            tag_key: first.tag_key.clone(),
            tag_value: first.tag_value.clone(),
            matched_pattern: first.matched_pattern.clone(),
            additional_tags,
        });
        proof {
            assert(tags[0] == first@);
            assert(tags.len() > 0);
            assert(tag_pairs(tags).contains(pair_of(tags[0]))) by {
                assert(tags.map_values(|m: TagMatchView| (m.key, m.value))[0] == pair_of(tags[0]));
            }
            seq_to_set_is_finite(tags.map_values(|m: TagMatchView| (m.key, m.value)));
            vstd::set_lib::lemma_set_empty_equivalency_len(tag_pairs(tags));
        }
        if !aligned {
            indicators.push(IndicatorDetail::TagIsOnlyEvidence);
        }
    }
    proof {
        assert(indicators_view(indicators@) =~= after_grid + tag_indicators(tags, aligned));
        assert(indicators_view(indicators@) =~= spectral_indicators(*spectral) + grid_indicators(
            *mdct_grid,
        ) + tag_indicators(tags, aligned));
    }

    if !decode_status.complete {
        verdict = Verdict::Indeterminate;
        confidence = Some(EvidenceStrength::NoEvidence);
        let ghost observed = indicators_view(indicators@);
        indicators.insert(
            0,
            IndicatorDetail::DecodeIncomplete {
                skipped_packets: decode_status.skipped_packets,
                stopped_early: decode_status.stopped_early,
                channels_unequal: decode_status.channels_unequal,
            },
        );
        proof {
            assert(indicators_view(indicators@) =~= seq![
                IndicatorView::DecodeIncomplete {
                    skipped_packets: decode_status.skipped_packets as nat,
                    stopped_early: decode_status.stopped_early,
                    channels_unequal: decode_status.channels_unequal,
                },
            ] + observed);
        }
    }
    TranscodeAssessment { verdict, confidence, indicators }
}

/// An assessment with its inference withdrawn because the embedded checksum failed: a
/// declared lossy file is left as it is; any other verdict becomes indeterminate with no
/// evidence, and the mismatch is stated first.
pub open spec fn withheld(a: AssessmentView) -> AssessmentView {
    if a.verdict == Verdict::DeclaredLossy {
        a
    } else {
        AssessmentView {
            verdict: Verdict::Indeterminate,
            confidence: Some(EvidenceStrength::NoEvidence),
            indicators: seq![IndicatorView::IntegrityMismatch] + a.indicators,
        }
    }
}

impl TranscodeAssessment {
    /// Withdraws the provenance inference when the file's embedded checksum failed.
    pub fn withhold_on_integrity_failure(&mut self)
        ensures
            final(self)@ == withheld(old(self)@),
    {
        if self.verdict != Verdict::DeclaredLossy {
            self.verdict = Verdict::Indeterminate;
            self.confidence = Some(EvidenceStrength::NoEvidence);
            let ghost before = indicators_view(self.indicators@);
            self.indicators.insert(0, IndicatorDetail::IntegrityMismatch);
            proof {
                assert(indicators_view(self.indicators@) =~= seq![IndicatorView::IntegrityMismatch]
                    + before);
            }
        }
    }

    /// Applies the file's own checksum result: a failed check (`Some(false)`) withdraws the
    /// inference; a passed check, or none to make, leaves the assessment as it is.
    pub fn apply_integrity_check(&mut self, integrity_verified: Option<bool>)
        ensures
            final(self)@ == (if integrity_verified == Some(false) {
                withheld(old(self)@)
            } else {
                old(self)@
            }),
    {
        if let Some(false) = integrity_verified {
            self.withhold_on_integrity_failure();
        }
    }
}

/// A file in a lossy format is never accused of disguising anything: its verdict is
/// `DeclaredLossy`, with no evidence strength and the codec as its only indicator; and only
/// such a file receives that verdict.
pub proof fn lemma_declared_lossy_is_no_accusation(
    spectral: SpectralEvidence,
    tags: Seq<TagMatchView>,
    grid: GridEvidence,
    codec: Seq<char>,
    status: DecodeStatus,
)
    ensures
        declared_lossy(codec) ==> {
            let a = assessment_of(spectral, tags, grid, codec, status);
            &&& a.verdict == Verdict::DeclaredLossy
            &&& a.confidence is None
            &&& a.indicators == seq![IndicatorView::DeclaredLossyCodec { codec }]
        },
        (assessment_of(spectral, tags, grid, codec, status).verdict == Verdict::DeclaredLossy)
            ==> declared_lossy(codec),
{
}

/// No measurement establishes a lossless history: the reserved `ProbablyAuthentic` verdict
/// is never produced, neither by the assessment nor after a checksum failure.
pub proof fn lemma_authenticity_is_never_claimed(
    spectral: SpectralEvidence,
    tags: Seq<TagMatchView>,
    grid: GridEvidence,
    codec: Seq<char>,
    status: DecodeStatus,
)
    ensures
        assessment_of(spectral, tags, grid, codec, status).verdict != Verdict::ProbablyAuthentic,
        withheld(assessment_of(spectral, tags, grid, codec, status)).verdict
            != Verdict::ProbablyAuthentic,
{
}

/// A verdict always comes with stated evidence: the indicator list is never empty.
pub proof fn lemma_every_verdict_is_explained(
    spectral: SpectralEvidence,
    tags: Seq<TagMatchView>,
    grid: GridEvidence,
    codec: Seq<char>,
    status: DecodeStatus,
)
    ensures
        assessment_of(spectral, tags, grid, codec, status).indicators.len() > 0,
        withheld(assessment_of(spectral, tags, grid, codec, status)).indicators.len() > 0,
{
}

/// Only confirmed codec-grid evidence on a complete decode of a file that does not declare
/// a lossy codec produces `ProbablyTranscoded`. Encoder tags and spectral edges, whatever
/// they read, never accuse a file on their own.
pub proof fn lemma_only_a_confirmed_grid_accuses(
    spectral: SpectralEvidence,
    tags: Seq<TagMatchView>,
    grid: GridEvidence,
    codec: Seq<char>,
    status: DecodeStatus,
)
    ensures
        (assessment_of(spectral, tags, grid, codec, status).verdict == Verdict::ProbablyTranscoded)
            <==> (!declared_lossy(codec) && status.complete && grid_aligned(grid)),
{
}

/// Evidence strength is stated exactly when the verdict is an inference, and it is a
/// graded grid reading only for a `ProbablyTranscoded` verdict.
pub proof fn lemma_strength_accompanies_inference(
    spectral: SpectralEvidence,
    tags: Seq<TagMatchView>,
    grid: GridEvidence,
    codec: Seq<char>,
    status: DecodeStatus,
)
    ensures
        ({
            let a = assessment_of(spectral, tags, grid, codec, status);
            &&& (a.confidence is None <==> a.verdict == Verdict::DeclaredLossy)
            &&& (a.verdict == Verdict::Indeterminate ==> a.confidence == Some(
                EvidenceStrength::NoEvidence,
            ))
            &&& (a.verdict == Verdict::ProbablyTranscoded ==> a.confidence != Some(
                EvidenceStrength::NoEvidence,
            ))
        }),
{
}

/// An incomplete decode withholds the verdict but not the observations: the file reads as
/// indeterminate, the incompleteness is stated first, and every other indicator is the one a
/// complete decode of the same evidence would state.
pub proof fn lemma_incomplete_decode_withholds_only_the_verdict(
    spectral: SpectralEvidence,
    tags: Seq<TagMatchView>,
    grid: GridEvidence,
    codec: Seq<char>,
    status: DecodeStatus,
)
    requires
        !declared_lossy(codec),
        !status.complete,
    ensures
        ({
            let a = assessment_of(spectral, tags, grid, codec, status);
            let whole = assessment_of(
                spectral,
                tags,
                grid,
                codec,
                DecodeStatus { complete: true, ..status },
            );
            &&& a.verdict == Verdict::Indeterminate
            &&& a.confidence == Some(EvidenceStrength::NoEvidence)
            &&& a.indicators[0] == IndicatorView::DecodeIncomplete {
                skipped_packets: status.skipped_packets as nat,
                stopped_early: status.stopped_early,
                channels_unequal: status.channels_unequal,
            }
            &&& a.indicators.subrange(1, a.indicators.len() as int) == whole.indicators
        }),
{
    let a = assessment_of(spectral, tags, grid, codec, status);
    let whole = assessment_of(
        spectral,
        tags,
        grid,
        codec,
        DecodeStatus { complete: true, ..status },
    );
    assert(a.indicators.subrange(1, a.indicators.len() as int) =~= whole.indicators);
}

/// A failed checksum withdraws any inference, a structural one included, and leaves a
/// declared lossy file as it is.
pub proof fn lemma_checksum_failure_withdraws_any_inference(
    spectral: SpectralEvidence,
    tags: Seq<TagMatchView>,
    grid: GridEvidence,
    codec: Seq<char>,
    status: DecodeStatus,
)
    ensures
        ({
            let a = assessment_of(spectral, tags, grid, codec, status);
            let w = withheld(a);
            &&& w.verdict != Verdict::ProbablyTranscoded
            &&& (declared_lossy(codec) ==> w == a)
            &&& (!declared_lossy(codec) ==> w.verdict == Verdict::Indeterminate
                && w.indicators[0] == IndicatorView::IntegrityMismatch)
        }),
{
}

/// Exactly six codecs are lossy by definition: a codec name is declared lossy if and only if
/// it is `mp3`, `mp2`, `mp1`, `aac`, `vorbis` or `opus`, so every other name (`flac`,
/// `alac`, any `pcm_*`, an unknown codec) keeps the full assessment, and the assessment
/// calls a file `DeclaredLossy` exactly for those six names.
pub proof fn lemma_exactly_six_codecs_are_declared_lossy(
    spectral: SpectralEvidence,
    tags: Seq<TagMatchView>,
    grid: GridEvidence,
    codec: Seq<char>,
    status: DecodeStatus,
)
    ensures
        declared_lossy(codec) <==> (codec == "mp3"@ || codec == "mp2"@ || codec == "mp1"@
            || codec == "aac"@ || codec == "vorbis"@ || codec == "opus"@),
        (assessment_of(spectral, tags, grid, codec, status).verdict == Verdict::DeclaredLossy) <==> (
        codec == "mp3"@ || codec == "mp2"@ || codec == "mp1"@ || codec == "aac"@ || codec
            == "vorbis"@ || codec == "opus"@),
{
}

/// The tag evidence quotes the first match as it is: when a file that does not declare a
/// lossy codec has encoder-tag matches, its assessment states exactly one
/// `EncoderTagMatched` observation, whose key, value and pattern are the first match's
/// `tag_key`, `tag_value` and `matched_pattern`, and with no matches it states none.
pub proof fn lemma_tag_evidence_quotes_the_first_match(
    spectral: SpectralEvidence,
    matches: Seq<EncoderTagMatch>,
    grid: GridEvidence,
    codec: Seq<char>,
    status: DecodeStatus,
)
    ensures
        ({
            let a = assessment_of(spectral, matches_view(matches), grid, codec, status);
            &&& (!declared_lossy(codec) && matches.len() > 0) ==> exists|i: int|
                0 <= i < a.indicators.len() && (#[trigger] a.indicators[i] matches
                IndicatorView::EncoderTagMatched { tag_key, tag_value, matched_pattern, .. } && tag_key
                == matches[0].tag_key@ && tag_value == matches[0].tag_value@ && matched_pattern
                == matches[0].matched_pattern@)
            &&& forall|i: int, j: int|
                0 <= i < j < a.indicators.len() ==> !(#[trigger] a.indicators[i] is EncoderTagMatched
                    && #[trigger] a.indicators[j] is EncoderTagMatched)
            &&& matches.len() == 0 ==> forall|i: int|
                0 <= i < a.indicators.len() ==> !(#[trigger] a.indicators[i] is EncoderTagMatched)
        }),
{
    let tags = matches_view(matches);
    let a = assessment_of(spectral, tags, grid, codec, status);
    if !declared_lossy(codec) {
        let aligned = grid_aligned(grid);
        let pre = spectral_indicators(spectral) + grid_indicators(grid);
        let tagged = tag_indicators(tags, aligned);
        let observed = pre + tagged;
        assert(forall|i: int| 0 <= i < pre.len() ==> !(#[trigger] pre[i] is EncoderTagMatched));
        assert(forall|i: int| 1 <= i < tagged.len() ==> !(#[trigger] tagged[i] is EncoderTagMatched));
        let off: int = if status.complete { 0 } else { 1 };
        assert(forall|i: int|
            off <= i < a.indicators.len() ==> #[trigger] a.indicators[i] == observed[i - off]);
        assert(off == 1 ==> !(a.indicators[0] is EncoderTagMatched));
        let k = off + pre.len();
        assert forall|i: int| 0 <= i < a.indicators.len() && #[trigger] a.indicators[i] is EncoderTagMatched
            implies i == k && tags.len() > 0 by {
            if i >= off {
                if i - off >= pre.len() {
                    assert(observed[i - off] == tagged[i - off - pre.len()]);
                } else {
                    assert(observed[i - off] == pre[i - off]);
                }
            }
        }
        if matches.len() > 0 {
            assert(tags[0] == matches[0]@);
            assert(observed[pre.len() as int] == tagged[0]);
            assert(a.indicators[k] matches IndicatorView::EncoderTagMatched {
                tag_key,
                tag_value,
                matched_pattern,
                ..
            } && tag_key == matches[0].tag_key@ && tag_value == matches[0].tag_value@
                && matched_pattern == matches[0].matched_pattern@);
        }
    }
}

/// One tag naming a lossy encoder through several patterns counts as one tag: matches that
/// all quote the same `(key, value)` tag, whatever patterns they matched, make one distinct
/// tag.
pub proof fn lemma_repeated_patterns_in_one_tag_count_once(tags: Seq<TagMatchView>)
    requires
        tags.len() > 0,
        forall|i: int|
            0 <= i < tags.len() ==> (#[trigger] tags[i]).key == tags[0].key && tags[i].value
                == tags[0].value,
    ensures
        tag_pairs(tags).len() == 1,
{
    let pairs = tags.map_values(|t: TagMatchView| (t.key, t.value));
    let pair = (tags[0].key, tags[0].value);
    assert forall|x: (Seq<char>, Seq<char>)| pairs.to_set().contains(x) <==> x == pair by {
        if pairs.to_set().contains(x) {
            let i = choose|i: int| 0 <= i < pairs.len() && pairs[i] == x;
            assert(tags[i].key == tags[0].key);
        }
        if x == pair {
            assert(pairs[0] == x);
        }
    }
    assert(pairs.to_set() =~= Set::empty().insert(pair));
    vstd::set::axiom_set_insert_len(Set::<(Seq<char>, Seq<char>)>::empty(), pair);
}

} // verus!
