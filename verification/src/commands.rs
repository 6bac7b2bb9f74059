//! Which analysis request may publish its decoded samples to playback.
//!
//! Analyses run one at a time and may finish after the user has already picked another
//! file. Only the latest request for playback may replace what is loaded; an obsolete one is
//! told it was superseded.

use vstd::prelude::*;

use crate::text::str_eq;

verus! {

/// The analysis requests that concern playback: the identifier of the latest one, if any.
pub struct AnalysisRequests {
    latest_playback: Option<String>,
}

/// `id` is the latest request for playback.
pub open spec fn is_latest(latest: Option<Seq<char>>, id: Seq<char>) -> bool {
    latest == Some(id)
}

impl AnalysisRequests {
    /// The identifier of the latest request for playback, by its characters.
    pub closed spec fn latest(&self) -> Option<Seq<char>> {
        match self.latest_playback {
            Some(s) => Some(s@),
            None => None,
        }
    }

    /// No request yet.
    pub fn new() -> (r: Self)
        ensures
            r.latest() is None,
    {
        AnalysisRequests { latest_playback: None }
    }

    /// Makes `request_id` the latest request for playback, then runs `reset` (which stops
    /// whatever was loaded, also when the new analysis later fails).
    pub fn begin_playback(&mut self, request_id: String, reset: impl FnOnce())
        requires
            call_requires(reset, ()),
        ensures
            final(self).latest() == Some(request_id@),
            call_ensures(reset, (), ()),
    {
        self.latest_playback = Some(request_id);
        reset();
    }

    /// Whether `request_id` is still the latest request for playback.
    pub fn is_current(&self, request_id: &str) -> (r: bool)
        ensures
            r == is_latest(self.latest(), request_id@),
    {
        match &self.latest_playback {
            Some(latest) => str_eq(latest.as_str(), request_id),
            None => false,
        }
    }

    /// Whether a queued analysis may still start: one that does not load playback always
    /// may; one that does, only while it is the latest request, so that an obsolete request
    /// is dropped before any audio is decoded for it.
    pub fn admit_analysis(&self, request_id: &str, load_playback: bool) -> (r: Result<(), String>)
        ensures
            r is Ok <==> (!load_playback || is_latest(self.latest(), request_id@)),
            r is Err ==> r->Err_0@ == "analysis superseded by a newer file"@,
    {
        if load_playback && !self.is_current(request_id) {
            return Err("analysis superseded by a newer file".to_string());
        }
        Ok(())
    }

    /// Runs `publish` only when `request_id` is still the latest request for playback;
    /// otherwise reports that the analysis was superseded.
    pub fn publish_playback(&self, request_id: &str, publish: impl FnOnce()) -> (r: Result<(), String>)
        requires
            is_latest(self.latest(), request_id@) ==> call_requires(publish, ()),
        ensures
            r is Ok <==> is_latest(self.latest(), request_id@),
            r is Ok ==> call_ensures(publish, (), ()),
            r is Err ==> r->Err_0@ == "analysis superseded by a newer file"@,
    {
        if !self.is_current(request_id) {
            return Err("analysis superseded by a newer file".to_string());
        }
        publish();
        Ok(())
    }
}

impl Default for AnalysisRequests {
    fn default() -> (r: Self)
        ensures
            r.latest() is None,
    {
        AnalysisRequests::new()
    }
}

/// Of two requests begun one after the other, only the second may publish: once a newer
/// request is latest, an obsolete one can no longer replace the loaded playback.
pub proof fn lemma_an_obsolete_request_cannot_publish(first: Seq<char>, second: Seq<char>)
    requires
        first != second,
    ensures
        is_latest(Some(second), second),
        !is_latest(Some(second), first),
{
}

} // verus!
