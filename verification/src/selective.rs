//! Region-wise composition of dithered images.
//!
//! Each region of an image names an algorithm and a mask. The regions'
//! renderings are merged pixel by pixel: a pixel belongs to the first region
//! whose mask covers it, and to the default rendering where no mask does.

use vstd::prelude::*;

verus! {

/// The algorithms that a region can ask for.
#[derive(Clone, Copy, Debug, PartialEq, Eq, Structural)]
pub enum DitheringAlgorithmType {
    Ordered,
    FloydSteinberg,
    Atkinson,
    Halftone,
    Random,
    SierraLite,
    Burkes,
    Stucki,
    JarvisJudiceNinke,
    Pattern,
    Riemersma,
    BlueNoise,
    VoidAndCluster,
    DirectBinarySearch,
    MultiTone,
}

impl DitheringAlgorithmType {
    /// The number that stands for the algorithm on the wire. The number 4
    /// is not in use.
    pub open spec fn code_of(self) -> u32 {
        match self {
            DitheringAlgorithmType::Ordered => 0,
            DitheringAlgorithmType::FloydSteinberg => 1,
            DitheringAlgorithmType::Atkinson => 2,
            DitheringAlgorithmType::Halftone => 3,
            DitheringAlgorithmType::Random => 5,
            DitheringAlgorithmType::SierraLite => 6,
            DitheringAlgorithmType::Burkes => 7,
            DitheringAlgorithmType::Stucki => 8,
            DitheringAlgorithmType::JarvisJudiceNinke => 9,
            DitheringAlgorithmType::Pattern => 10,
            DitheringAlgorithmType::Riemersma => 11,
            DitheringAlgorithmType::BlueNoise => 12,
            DitheringAlgorithmType::VoidAndCluster => 13,
            DitheringAlgorithmType::DirectBinarySearch => 14,
            DitheringAlgorithmType::MultiTone => 15,
        }
    }

    /// The number that stands for the algorithm on the wire.
    pub fn code(self) -> (code: u32)
        ensures
            code == self.code_of(),
    {
        match self {
            DitheringAlgorithmType::Ordered => 0,
            DitheringAlgorithmType::FloydSteinberg => 1,
            DitheringAlgorithmType::Atkinson => 2,
            DitheringAlgorithmType::Halftone => 3,
            DitheringAlgorithmType::Random => 5,
            DitheringAlgorithmType::SierraLite => 6,
            DitheringAlgorithmType::Burkes => 7,
            DitheringAlgorithmType::Stucki => 8,
            DitheringAlgorithmType::JarvisJudiceNinke => 9,
            DitheringAlgorithmType::Pattern => 10,
            DitheringAlgorithmType::Riemersma => 11,
            DitheringAlgorithmType::BlueNoise => 12,
            DitheringAlgorithmType::VoidAndCluster => 13,
            DitheringAlgorithmType::DirectBinarySearch => 14,
            DitheringAlgorithmType::MultiTone => 15,
        }
    }

    /// The algorithm that the number stands for, or `None` where it stands
    /// for none.
    pub fn from_code(code: u32) -> (algorithm: Option<DitheringAlgorithmType>)
        ensures
            algorithm matches Some(a) ==> a.code_of() == code,
            algorithm.is_none() ==> forall|a: DitheringAlgorithmType| #[trigger] a.code_of() != code,
    {
        match code {
            0 => Some(DitheringAlgorithmType::Ordered),
            1 => Some(DitheringAlgorithmType::FloydSteinberg),
            2 => Some(DitheringAlgorithmType::Atkinson),
            3 => Some(DitheringAlgorithmType::Halftone),
            5 => Some(DitheringAlgorithmType::Random),
            6 => Some(DitheringAlgorithmType::SierraLite),
            7 => Some(DitheringAlgorithmType::Burkes),
            8 => Some(DitheringAlgorithmType::Stucki),
            9 => Some(DitheringAlgorithmType::JarvisJudiceNinke),
            10 => Some(DitheringAlgorithmType::Pattern),
            11 => Some(DitheringAlgorithmType::Riemersma),
            12 => Some(DitheringAlgorithmType::BlueNoise),
            13 => Some(DitheringAlgorithmType::VoidAndCluster),
            14 => Some(DitheringAlgorithmType::DirectBinarySearch),
            15 => Some(DitheringAlgorithmType::MultiTone),
            _ => None,
        }
    }
}

/// The ways of rendering an image in more than two tones.
#[derive(Clone, Copy, Debug, PartialEq, Eq, Structural)]
pub enum MultiToneAlgorithm {
    Ordered,
    ErrorDiffusion,
    BlueNoise,
}

impl MultiToneAlgorithm {
    /// The number that stands for the algorithm on the wire.
    pub open spec fn code_of(self) -> u32 {
        match self {
            MultiToneAlgorithm::Ordered => 0,
            MultiToneAlgorithm::ErrorDiffusion => 1,
            MultiToneAlgorithm::BlueNoise => 2,
        }
    }

    /// The number that stands for the algorithm on the wire.
    pub fn code(self) -> (code: u32)
        ensures
            code == self.code_of(),
    {
        match self {
            MultiToneAlgorithm::Ordered => 0,
            MultiToneAlgorithm::ErrorDiffusion => 1,
            MultiToneAlgorithm::BlueNoise => 2,
        }
    }

    /// The algorithm that the number stands for, or `None` where it stands
    /// for none.
    pub fn from_code(code: u32) -> (algorithm: Option<MultiToneAlgorithm>)
        ensures
            algorithm matches Some(a) ==> a.code_of() == code,
            algorithm.is_none() ==> forall|a: MultiToneAlgorithm| #[trigger] a.code_of() != code,
    {
        match code {
            0 => Some(MultiToneAlgorithm::Ordered),
            1 => Some(MultiToneAlgorithm::ErrorDiffusion),
            2 => Some(MultiToneAlgorithm::BlueNoise),
            _ => None,
        }
    }
}

/// The threshold patterns that a region can ask for.
#[derive(Clone, Copy, Debug, PartialEq, Eq, Structural)]
pub enum PatternType {
    Dots,
    Lines,
    Crosses,
    Diamonds,
    Waves,
    Bricks,
    Custom,
}

impl PatternType {
    /// The number that stands for the pattern on the wire.
    pub open spec fn code_of(self) -> u32 {
        match self {
            PatternType::Dots => 0,
            PatternType::Lines => 1,
            PatternType::Crosses => 2,
            PatternType::Diamonds => 3,
            PatternType::Waves => 4,
            PatternType::Bricks => 5,
            PatternType::Custom => 6,
        }
    }

    /// The number that stands for the pattern on the wire.
    pub fn code(self) -> (code: u32)
        ensures
            code == self.code_of(),
    {
        match self {
            PatternType::Dots => 0,
            PatternType::Lines => 1,
            PatternType::Crosses => 2,
            PatternType::Diamonds => 3,
            PatternType::Waves => 4,
            PatternType::Bricks => 5,
            PatternType::Custom => 6,
        }
    }

    /// The pattern that the number stands for, or `None` where it stands
    /// for none.
    pub fn from_code(code: u32) -> (pattern: Option<PatternType>)
        ensures
            pattern matches Some(p) ==> p.code_of() == code,
            pattern.is_none() ==> forall|p: PatternType| #[trigger] p.code_of() != code,
    {
        match code {
            0 => Some(PatternType::Dots),
            1 => Some(PatternType::Lines),
            2 => Some(PatternType::Crosses),
            3 => Some(PatternType::Diamonds),
            4 => Some(PatternType::Waves),
            5 => Some(PatternType::Bricks),
            6 => Some(PatternType::Custom),
            _ => None,
        }
    }
}

/// The picture that the regions merged so far make up, four bytes a pixel,
/// and the pixels that some region has claimed.
pub struct RegionCompositor {
    pub pixels: usize,
    pub output: Vec<u8>,
    pub processed: Vec<bool>,
}

/// The pixel `p` of `after` carries the colour of the pixel `p` of
/// `source`, and is opaque.
pub open spec fn pixel_taken_from(after: Seq<u8>, source: Seq<u8>, p: int) -> bool {
    &&& after[4 * p] == source[4 * p]
    &&& after[4 * p + 1] == source[4 * p + 1]
    &&& after[4 * p + 2] == source[4 * p + 2]
    &&& after[4 * p + 3] == 255
}

/// The pixel `p` is the same in `after` as in `before`.
pub open spec fn pixel_kept(after: Seq<u8>, before: Seq<u8>, p: int) -> bool {
    &&& after[4 * p] == before[4 * p]
    &&& after[4 * p + 1] == before[4 * p + 1]
    &&& after[4 * p + 2] == before[4 * p + 2]
    &&& after[4 * p + 3] == before[4 * p + 3]
}

/// The pixel `p` went through the merge of a region as it should: where
/// the mask covers it and it was not claimed before, it is claimed now and
/// carries the region's colour; otherwise it is as it was.
pub open spec fn region_merged_at(
    after: RegionCompositor,
    before: RegionCompositor,
    mask: Seq<u8>,
    region_output: Seq<u8>,
    p: int,
) -> bool {
    if mask[p] > 0 && !before.processed[p] {
        after.processed[p] && pixel_taken_from(after.output@, region_output, p)
    } else {
        after.processed[p] == before.processed[p] && pixel_kept(after.output@, before.output@, p)
    }
}

/// The pixel `p` went through the merge of the default rendering as it
/// should: where it was claimed it is as it was; otherwise it carries the
/// default colour.
pub open spec fn default_merged_at(
    after: RegionCompositor,
    before: RegionCompositor,
    default_output: Seq<u8>,
    p: int,
) -> bool {
    if before.processed[p] {
        pixel_kept(after.output@, before.output@, p)
    } else {
        pixel_taken_from(after.output@, default_output, p)
    }
}

/// The pixel `p` is as it was.
pub open spec fn untouched_at(after: RegionCompositor, before: RegionCompositor, p: int) -> bool {
    after.processed[p] == before.processed[p] && pixel_kept(after.output@, before.output@, p)
}

impl RegionCompositor {
    /// The buffers hold four bytes and one mark for each pixel.
    pub open spec fn wf(&self) -> bool {
        &&& self.output.len() == 4 * self.pixels
        &&& self.processed.len() == self.pixels
    }

    /// A picture of `pixels` pixels in which no pixel is claimed yet.
    pub fn new(pixels: usize) -> (compositor: RegionCompositor)
        requires
            4 * pixels <= usize::MAX,
        ensures
            compositor.wf(),
            compositor.pixels == pixels,
            forall|p: int| 0 <= p < pixels ==> !compositor.processed[p],
            forall|i: int| 0 <= i < 4 * pixels ==> compositor.output[i] == 0,
    {
        RegionCompositor {
            pixels,
            output: crate::grid::filled(4 * pixels, 0u8),
            processed: crate::grid::filled(pixels, false),
        }
    }

    /// Merges the rendering of a region: every pixel that the mask covers
    /// and that no earlier region has claimed takes its colour from
    /// `region_output` and is claimed; every other pixel stays as it is.
    pub fn merge_region(&mut self, mask: &[u8], region_output: &[u8])
        requires
            old(self).wf(),
            mask.len() == old(self).pixels,
            region_output.len() == 4 * old(self).pixels,
        ensures
            final(self).wf(),
            final(self).pixels == old(self).pixels,
            forall|p: int|
                0 <= p < old(self).pixels ==> #[trigger] region_merged_at(
                    *final(self),
                    *old(self),
                    mask@,
                    region_output@,
                    p,
                ),
    {
        let pixels = self.pixels;
        let mut p: usize = 0;
        while p < pixels
            invariant
                p <= pixels,
                pixels == self.pixels,
                self.pixels == old(self).pixels,
                self.wf(),
                mask.len() == pixels,
                region_output.len() == 4 * pixels,
                forall|q: int|
                    0 <= q < p ==> #[trigger] region_merged_at(
                        *self,
                        *old(self),
                        mask@,
                        region_output@,
                        q,
                    ),
                forall|q: int| p <= q < pixels ==> #[trigger] untouched_at(*self, *old(self), q),
            decreases pixels - p,
        {
            let ghost previous = *self;
            assert(untouched_at(previous, *old(self), p as int));
            if mask[p] > 0 && !self.processed[p] {
                let base = 4 * p;
                self.output.set(base, region_output[base]);
                self.output.set(base + 1, region_output[base + 1]);
                self.output.set(base + 2, region_output[base + 2]);
                self.output.set(base + 3, 255);
                self.processed.set(p, true);
            }
            proof {
                assert forall|q: int| 0 <= q < p + 1 implies #[trigger] region_merged_at(
                    *self,
                    *old(self),
                    mask@,
                    region_output@,
                    q,
                ) by {
                    if q < p {
                        assert(region_merged_at(previous, *old(self), mask@, region_output@, q));
                    }
                }
                assert forall|q: int| p + 1 <= q < pixels implies #[trigger] untouched_at(
                    *self,
                    *old(self),
                    q,
                ) by {
                    assert(untouched_at(previous, *old(self), q));
                }
            }
            p = p + 1;
        }
    }

    /// Merges the default rendering: every pixel that no region has claimed
    /// takes its colour from `default_output`; every other pixel stays as
    /// it is.
    pub fn merge_default(&mut self, default_output: &[u8])
        requires
            old(self).wf(),
            default_output.len() == 4 * old(self).pixels,
        ensures
            final(self).wf(),
            final(self).pixels == old(self).pixels,
            final(self).processed@ == old(self).processed@,
            forall|p: int|
                0 <= p < old(self).pixels ==> #[trigger] default_merged_at(
                    *final(self),
                    *old(self),
                    default_output@,
                    p,
                ),
    {
        let pixels = self.pixels;
        let mut p: usize = 0;
        while p < pixels
            invariant
                p <= pixels,
                pixels == self.pixels,
                self.pixels == old(self).pixels,
                self.wf(),
                self.processed@ == old(self).processed@,
                default_output.len() == 4 * pixels,
                forall|q: int|
                    0 <= q < p ==> #[trigger] default_merged_at(
                        *self,
                        *old(self),
                        default_output@,
                        q,
                    ),
                forall|q: int| p <= q < pixels ==> #[trigger] untouched_at(*self, *old(self), q),
            decreases pixels - p,
        {
            let ghost previous = *self;
            assert(untouched_at(previous, *old(self), p as int));
            if !self.processed[p] {
                let base = 4 * p;
                self.output.set(base, default_output[base]);
                self.output.set(base + 1, default_output[base + 1]);
                self.output.set(base + 2, default_output[base + 2]);
                self.output.set(base + 3, 255);
            }
            proof {
                assert forall|q: int| 0 <= q < p + 1 implies #[trigger] default_merged_at(
                    *self,
                    *old(self),
                    default_output@,
                    q,
                ) by {
                    if q < p {
                        assert(default_merged_at(previous, *old(self), default_output@, q));
                    }
                }
                assert forall|q: int| p + 1 <= q < pixels implies #[trigger] untouched_at(
                    *self,
                    *old(self),
                    q,
                ) by {
                    assert(untouched_at(previous, *old(self), q));
                }
            }
            p = p + 1;
        }
    }

    /// The picture made up so far.
    pub fn into_output(self) -> (output: Vec<u8>)
        ensures
            output@ == self.output@,
    {
        self.output
    }
}

/// The first of the first `count` masks that covers the pixel `p`, or
/// `count` where none of them does.
pub open spec fn winner(masks: Seq<Seq<u8>>, p: int, count: int) -> int
    decreases count,
{
    if count <= 0 {
        0
    } else {
        let before = winner(masks, p, count - 1);
        if before < count - 1 {
            before
        } else if masks[count - 1][p] > 0 {
            count - 1
        } else {
            count
        }
    }
}

/// The first mask wins. Where regions are merged one after another into a
/// picture in which no pixel was claimed, each pixel ends up claimed by the
/// first region whose mask covers it, and carries that region's colour; a
/// pixel that no mask covers stays unclaimed, for the default rendering to
/// fill.
pub proof fn lemma_first_mask_wins(
    states: Seq<RegionCompositor>,
    masks: Seq<Seq<u8>>,
    outputs: Seq<Seq<u8>>,
    p: int,
    count: int,
)
    requires
        0 <= count <= masks.len(),
        masks.len() == outputs.len(),
        states.len() == masks.len() + 1,
        !states[0].processed[p],
        forall|k: int|
            0 <= k < masks.len() ==> #[trigger] region_merged_at(
                states[k + 1],
                states[k],
                masks[k],
                outputs[k],
                p,
            ),
    ensures
        0 <= winner(masks, p, count) <= count,
        winner(masks, p, count) < count ==> masks[winner(masks, p, count)][p] > 0,
        forall|k: int| 0 <= k < winner(masks, p, count) ==> masks[k][p] == 0,
        winner(masks, p, count) < count ==> states[count].processed[p] && pixel_taken_from(
            states[count].output@,
            outputs[winner(masks, p, count)],
            p,
        ),
        winner(masks, p, count) == count ==> !states[count].processed[p],
    decreases count,
{
    if count > 0 {
        lemma_first_mask_wins(states, masks, outputs, p, count - 1);
        assert(region_merged_at(
            states[count - 1 + 1],
            states[count - 1],
            masks[count - 1],
            outputs[count - 1],
            p,
        ));
    }
}

} // verus!
