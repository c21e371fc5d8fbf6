//! Calibration profiles: what was measured, on which machine and node.

use vstd::prelude::*;
use crate::sim::histogram::CalibrationHistogram;
use crate::text::same_text;

verus! {

/// Where a profile was captured.
#[derive(Debug)]
pub struct CalibrationProvenance {
    pub deployment_revision: String,
    pub architecture: String,
    pub hardware_profile: String,
    pub cpu_cores_per_node: usize,
    pub renderer_slots_per_node: usize,
    pub execution_permits_per_node: usize,
    pub native_render_permits_per_node: usize,
    /// Requests that were under way at once during the capture, if recorded.
    pub capture_concurrency: Option<usize>,
}

/// What was measured during a capture window.
#[derive(Debug)]
pub struct CalibrationProfile {
    pub schema_version: u32,
    pub kind: String,
    pub provenance: CalibrationProvenance,
    pub histograms: Vec<CalibrationHistogram>,
}

/// The histogram of a metric: the first of its name.
pub open spec fn histogram_of(
    histograms: Seq<CalibrationHistogram>,
    metric: Seq<char>,
) -> Option<CalibrationHistogram>
    decreases histograms.len(),
{
    if histograms.len() == 0 {
        None
    } else if histograms[0].metric@ == metric {
        Some(histograms[0])
    } else {
        histogram_of(histograms.skip(1), metric)
    }
}

pub(crate) proof fn lemma_histogram_at(
    histograms: Seq<CalibrationHistogram>,
    metric: Seq<char>,
    i: int,
)
    requires
        0 <= i <= histograms.len(),
        i < histograms.len() ==> histograms[i].metric@ == metric,
        forall|j: int| 0 <= j < i ==> (#[trigger] histograms[j]).metric@ != metric,
    ensures
        histogram_of(histograms, metric) == if i < histograms.len() {
            Some(histograms[i])
        } else {
            None
        },
    decreases histograms.len(),
{
    if histograms.len() > 0 && i > 0 {
        let rest = histograms.skip(1);
        assert(histograms[0].metric@ != metric);
        assert forall|j: int| 0 <= j < i - 1 implies (#[trigger] rest[j]).metric@ != metric by {
            assert(rest[j] == histograms[j + 1]);
        }
        lemma_histogram_at(rest, metric, i - 1);
    }
}

impl CalibrationProfile {
    /// The histogram of a metric.
    pub open spec fn of(&self, metric: Seq<char>) -> Option<CalibrationHistogram> {
        histogram_of(self.histograms@, metric)
    }

    /// No histogram counts more than a count can hold.
    pub open spec fn fits(&self) -> bool {
        forall|i: int| 0 <= i < self.histograms@.len() ==> (#[trigger] self.histograms@[i]).fits()
    }

    /// Whether no histogram counts more than a count can hold.
    pub fn counts_fit(&self) -> (r: bool)
        ensures
            r == self.fits(),
    {
        let mut i: usize = 0;
        while i < self.histograms.len()
            invariant
                i <= self.histograms@.len(),
                forall|j: int| 0 <= j < i ==> (#[trigger] self.histograms@[j]).fits(),
            decreases self.histograms.len() - i,
        {
            if !self.histograms[i].counts_fit() {
                return false;
            }
            i += 1;
        }
        true
    }

    /// The histogram of a metric.
    pub fn histogram(&self, metric: &str) -> (r: Option<&CalibrationHistogram>)
        ensures
            match r {
                Some(histogram) => self.of(metric@) == Some(*histogram) && (self.fits()
                    ==> histogram.fits()),
                None => self.of(metric@) is None,
            },
    {
        let mut i: usize = 0;
        while i < self.histograms.len()
            invariant
                i <= self.histograms@.len(),
                forall|j: int| 0 <= j < i ==> (#[trigger] self.histograms@[j]).metric@ != metric@,
            decreases self.histograms.len() - i,
        {
            if same_text(self.histograms[i].metric.as_str(), metric) {
                proof {
                    lemma_histogram_at(self.histograms@, metric@, i as int);
                }
                return Some(&self.histograms[i]);
            }
            i += 1;
        }
        proof {
            lemma_histogram_at(self.histograms@, metric@, i as int);
        }
        None
    }
}

/// The histogram of a metric is the first that is named for it, and a metric that none is
/// named for has none.
pub proof fn law_the_first_histogram_counts(
    histograms: Seq<CalibrationHistogram>,
    metric: Seq<char>,
    i: int,
)
    requires
        0 <= i <= histograms.len(),
        forall|j: int| 0 <= j < i ==> (#[trigger] histograms[j]).metric@ != metric,
    ensures
        i < histograms.len() && histograms[i].metric@ == metric ==> histogram_of(histograms, metric)
            == Some(histograms[i]),
        i == histograms.len() ==> histogram_of(histograms, metric) is None,
    decreases histograms.len(),
{
    if histograms.len() > 0 && i > 0 {
        let rest = histograms.skip(1);
        assert(histograms[0].metric@ != metric);
        assert forall|j: int| 0 <= j < i - 1 implies (#[trigger] rest[j]).metric@ != metric by {
            assert(rest[j] == histograms[j + 1]);
        }
        law_the_first_histogram_counts(rest, metric, i - 1);
        if i < histograms.len() {
            assert(rest[i - 1] == histograms[i]);
        }
    }
}

} // verus!
