//! The dose-volume histogram: samples of a cumulative curve that says, for a
//! dose, how much of a structure receives at least that dose.

use vstd::prelude::*;
use crate::binary64::{
    check_fraction, check_measure, check_nan, check_negative, is_fraction, is_measure, is_nan,
    is_negative, magnitude, magnitude_of,
};
use crate::error::Error;
use crate::traits::DvhCheck;
use crate::sorting::{
    is_ordered, is_stable_sort_of, lemma_ordered_is_sorted, lemma_sorted_samples,
    lemma_stable_sort_is_unique, sorted_range,
};
use crate::lookup::{
    first_at_least, last_at_least, lemma_first_at_least, lemma_first_at_least_is,
    lemma_last_at_least, lemma_last_at_least_is, Reading, Segment,
};

verus! {

/// The unit in which the doses of a histogram are given. It is a tag: the
/// histogram never converts.
#[derive(Clone, Copy, Debug, PartialEq, Eq, Structural)]
pub enum DoseType {
    /// Gray.
    Gy,
    /// Centigray.
    CGy,
}

/// The unit in which the volumes of a histogram are given.
#[derive(Clone, Copy, Debug, PartialEq, Eq, Structural)]
pub enum VolumeType {
    /// A fraction of the structure's volume, from zero to one.
    Percent,
    /// An absolute volume in cubic centimetres.
    Cc,
}

impl Default for DoseType {
    fn default() -> (r: Self)
        ensures
            r == DoseType::Gy,
    {
        DoseType::Gy
    }
}

impl Default for VolumeType {
    fn default() -> (r: Self)
        ensures
            r == VolumeType::Percent,
    {
        VolumeType::Percent
    }
}

/// One point of the curve: a dose and the volume that receives at least that
/// dose, each the bit pattern of a double-precision number.
#[derive(Clone, Copy, Debug, PartialEq, Eq, Structural)]
pub struct Sample {
    pub dose: u64,
    pub volume: u64,
}

/// Whether a histogram with volumes in `volume_type` takes the sample: its
/// dose and its volume are numbers, neither is below zero, and a volume in
/// percent is at most one.
pub open spec fn admits(volume_type: VolumeType, sample: Sample) -> bool {
    &&& is_measure(sample.dose)
    &&& is_measure(sample.volume)
    &&& volume_type == VolumeType::Percent ==> is_fraction(sample.volume)
}

/// The samples made of `doses` and `volumes`, pair by pair.
pub open spec fn pairs(doses: Seq<u64>, volumes: Seq<u64>) -> Seq<Sample> {
    Seq::new(doses.len(), |i: int| Sample { dose: doses[i], volume: volumes[i] })
}

/// The doses do not decrease along the sequence.
pub open spec fn ordered_by_dose(samples: Seq<Sample>) -> bool {
    forall|i: int, j: int|
        0 <= i <= j < samples.len() ==> magnitude(#[trigger] samples[i].dose) <= magnitude(
            #[trigger] samples[j].dose,
        )
}

/// What a histogram is: its two unit tags, its samples in the order in which
/// they are stored, and whether that order is known to be by dose.
pub struct DvhView {
    pub dose_type: DoseType,
    pub volume_type: VolumeType,
    pub samples: Seq<Sample>,
    pub sorted: bool,
}

impl DvhView {
    /// The number of samples.
    pub open spec fn len(self) -> nat {
        self.samples.len()
    }

    /// The doses, sample by sample.
    pub open spec fn doses(self) -> Seq<u64> {
        Seq::new(self.samples.len(), |i: int| self.samples[i].dose)
    }

    /// The volumes, sample by sample.
    pub open spec fn volumes(self) -> Seq<u64> {
        Seq::new(self.samples.len(), |i: int| self.samples[i].volume)
    }

    /// What holds of every histogram: each sample is one that the histogram
    /// takes, and a histogram that says it is sorted is ordered by dose.
    pub open spec fn wf(self) -> bool {
        &&& forall|i: int| 0 <= i < self.samples.len() ==> admits(self.volume_type, #[trigger] self.samples[i])
        &&& self.sorted ==> ordered_by_dose(self.samples)
    }

    /// Why the histogram answers no query, if it does not: it has no sample,
    /// it has a single one, or it is not sorted, in this order.
    pub open spec fn refusal(self) -> Option<Error> {
        if self.len() == 0 {
            Some(Error::DvhNoData)
        } else if self.len() < 2 {
            Some(Error::DvhInsufficientData)
        } else if !self.sorted {
            Some(Error::DvhUnsorted)
        } else {
            None
        }
    }

    /// The stretch between the samples at `from` and `to`, read from volume
    /// to dose, with the volume `x` on it.
    pub open spec fn by_volume(self, x: u64, from: int, to: int) -> Segment {
        Segment {
            x,
            x0: self.samples[from].volume,
            x1: self.samples[to].volume,
            y0: self.samples[from].dose,
            y1: self.samples[to].dose,
        }
    }

    /// The stretch between the samples at `from` and `to`, read from dose to
    /// volume, with the dose `x` on it.
    pub open spec fn by_dose(self, x: u64, from: int, to: int) -> Segment {
        Segment {
            x,
            x0: self.samples[from].dose,
            x1: self.samples[to].dose,
            y0: self.samples[from].volume,
            y1: self.samples[to].volume,
        }
    }

    /// What [`Dvh::dx`] answers for `volume`.
    ///
    /// The curve is read from its high-dose end. A volume that is at most the
    /// last sample's gets the last sample's dose. Any other volume gets the
    /// stretch that ends in the last sample whose volume is at least the
    /// queried one and starts in the sample after it, whose volume is below.
    /// A volume above every sample's gets the first sample's dose.
    pub open spec fn dx(self, volume: u64) -> Result<Reading, Error> {
        let last = self.len() - 1;
        let at = last_at_least(self.volumes(), volume);
        if is_negative(volume) {
            Err(Error::NegativeVolume)
        } else if self.refusal() is Some {
            Err(self.refusal()->0)
        } else if is_nan(volume) {
            Err(Error::DvhDxLogic)
        } else if at == last {
            Ok(Reading::Exact(self.samples[last].dose))
        } else if at < 0 {
            Ok(Reading::Exact(self.samples[0].dose))
        } else {
            Ok(Reading::Between(self.by_volume(volume, at + 1, at)))
        }
    }

    /// What [`Dvh::vx`] answers for `dose`.
    ///
    /// A dose that is at most the first sample's gets the first sample's
    /// volume. Any other dose gets the stretch that ends in the first sample
    /// whose dose is at least the queried one and starts in the sample before
    /// it, whose dose is below. A dose above every sample's gets the last
    /// sample's volume.
    pub open spec fn vx(self, dose: u64) -> Result<Reading, Error> {
        let at = first_at_least(self.doses(), dose);
        if is_negative(dose) {
            Err(Error::NegativeDose)
        } else if self.refusal() is Some {
            Err(self.refusal()->0)
        } else if is_nan(dose) {
            Err(Error::DvhVxLogic)
        } else if at == 0 {
            Ok(Reading::Exact(self.samples[0].volume))
        } else if at == self.len() {
            Ok(Reading::Exact(self.samples[self.len() - 1].volume))
        } else {
            Ok(Reading::Between(self.by_dose(dose, at - 1, at)))
        }
    }

    /// The histogram after it has taken the samples made of `doses` and
    /// `volumes`, pair by pair, of which there is at least one.
    pub open spec fn with_samples(self, doses: Seq<u64>, volumes: Seq<u64>) -> DvhView {
        DvhView { samples: self.samples + pairs(doses, volumes), sorted: false, ..self }
    }

    /// What [`Dvh::sort`] makes of this histogram is `after`: the same units
    /// and the same samples, sorted by dose, samples of equal dose in the
    /// order in which they stood. A histogram that is sorted stays as it is.
    pub open spec fn sorts_to(self, after: DvhView) -> bool {
        &&& after.dose_type == self.dose_type
        &&& after.volume_type == self.volume_type
        &&& after.sorted
        &&& is_stable_sort_of(after.samples, self.samples)
        &&& self.sorted ==> after == self
    }

    /// Sorting has one result.
    pub proof fn lemma_sort_is_determined(self, first: DvhView, second: DvhView)
        requires
            self.sorts_to(first),
            self.sorts_to(second),
        ensures
            first == second,
    {
        lemma_stable_sort_is_unique(self.samples, first.samples, second.samples);
    }

    /// Sorting twice is sorting once: the second sort changes nothing.
    pub proof fn lemma_sort_is_idempotent(self, once: DvhView, twice: DvhView)
        requires
            self.sorts_to(once),
            once.sorts_to(twice),
        ensures
            twice == once,
    {
    }

    /// Sorting keeps what holds of every histogram, moves no dose away from
    /// its volume, and leaves a histogram that answers every query that an
    /// unsorted one refuses for being unsorted.
    pub proof fn lemma_sort_keeps_samples(self, after: DvhView)
        requires
            self.wf(),
            self.sorts_to(after),
        ensures
            after.wf(),
            after.len() == self.len(),
            after.samples.to_multiset() == self.samples.to_multiset(),
            ordered_by_dose(after.samples),
            after.refusal() != Some(Error::DvhUnsorted),
    {
        lemma_sorted_samples(after.samples, self.samples);
    }

    /// A histogram that has no sample, a single sample or is not sorted
    /// refuses both queries for that reason, whatever is asked, unless what is
    /// asked is below zero.
    pub proof fn lemma_queries_refused(self, x: u64)
        requires
            self.refusal() is Some,
            !is_negative(x),
        ensures
            self.dx(x) == Err::<Reading, Error>(self.refusal()->0),
            self.vx(x) == Err::<Reading, Error>(self.refusal()->0),
            self.len() == 0 ==> self.refusal() == Some(Error::DvhNoData),
            self.len() == 1 ==> self.refusal() == Some(Error::DvhInsufficientData),
            self.len() >= 2 ==> self.refusal() == Some(Error::DvhUnsorted) && !self.sorted,
    {
    }

    /// A sorted histogram of two or more samples answers every query for a
    /// number that is zero or above, and the answer is a stored value or a
    /// stretch that encloses what was asked.
    pub proof fn lemma_queries_answered(self, x: u64)
        requires
            self.wf(),
            self.sorted,
            self.len() >= 2,
            is_measure(x),
        ensures
            self.dx(x) is Ok,
            self.vx(x) is Ok,
            self.dx(x) matches Ok(Reading::Between(segment)) ==> segment.encloses(),
            self.vx(x) matches Ok(Reading::Between(segment)) ==> segment.encloses(),
    {
        lemma_first_at_least(self.doses(), x);
        lemma_last_at_least(self.volumes(), x);
        let below = last_at_least(self.volumes(), x) + 1;
        if 0 < below < self.len() {
            assert(magnitude(self.volumes()[below]) < magnitude(x));
        }
        let before = first_at_least(self.doses(), x) - 1;
        if 0 <= before < self.len() - 1 {
            assert(magnitude(self.doses()[before]) < magnitude(x));
        }
    }

    /// The histogram after it has taken one more sample.
    pub open spec fn with_sample(self, sample: Sample) -> DvhView {
        DvhView { samples: self.samples.push(sample), sorted: false, ..self }
    }
}

/// A dose-volume histogram.
///
/// The unit tags are fixed when the histogram is made. Samples are appended
/// and never removed; appending forgets the sort order, and only
/// [`Dvh::sort`] restores it.
///
/// Two histograms are equal if they agree in their units, in whether they are
/// sorted, and in the bit patterns of their samples, one by one.
#[derive(Debug, PartialEq)]
pub struct Dvh {
    dose_type: DoseType,
    volume_type: VolumeType,
    samples: Vec<Sample>,
    is_sorted: bool,
}

impl View for Dvh {
    type V = DvhView;

    closed spec fn view(&self) -> DvhView {
        DvhView {
            dose_type: self.dose_type,
            volume_type: self.volume_type,
            samples: self.samples@,
            sorted: self.is_sorted,
        }
    }
}

impl Clone for Dvh {
    fn clone(&self) -> (r: Self)
        ensures
            r@ == self@,
    {
        proof {
            use_type_invariant(self);
        }
        let samples = self.samples.clone();
        Dvh {
            dose_type: self.dose_type,
            volume_type: self.volume_type,
            samples,
            is_sorted: self.is_sorted,
        }
    }
}

impl Default for Dvh {
    /// An empty histogram in gray and percent. Unlike [`Dvh::new`] it does
    /// not claim to be sorted.
    fn default() -> (r: Self)
        ensures
            r@ == (DvhView {
                dose_type: DoseType::Gy,
                volume_type: VolumeType::Percent,
                samples: Seq::empty(),
                sorted: false,
            }),
    {
        Dvh {
            dose_type: DoseType::Gy,
            volume_type: VolumeType::Percent,
            samples: Vec::new(),
            is_sorted: false,
        }
    }
}

impl DvhCheck for Dvh {
    /// The histogram is sorted.
    open spec fn ready(&self) -> bool {
        self@.sorted
    }

    /// Brings the histogram into its sorted state, as [`Dvh::sort`] does.
    ///
    /// A histogram holds no value that [`Dvh::add`] refuses: no dose or
    /// volume below zero, and no volume in percent above one. So the check
    /// finds nothing to reject and always succeeds.
    fn dvh_check(&mut self) -> (r: Result<(), Error>)
        ensures
            r is Ok,
            old(self)@.sorts_to(final(self)@),
            final(self)@.wf(),
    {
        self.sort();
        Ok(())
    }
}

impl Dvh {
    /// What holds of every histogram at every time: see [`DvhView::wf`].
    #[verifier::type_invariant]
    pub open spec fn well_formed(&self) -> bool {
        self@.wf()
    }

    /// An empty histogram with the given units. Having no samples, it is
    /// sorted.
    pub fn new(dose_type: DoseType, volume_type: VolumeType) -> (r: Dvh)
        ensures
            r@ == (DvhView { dose_type, volume_type, samples: Seq::empty(), sorted: true }),
            r@.wf(),
    {
        Dvh { dose_type, volume_type, samples: Vec::new(), is_sorted: true }
    }

    /// The unit of the doses.
    pub fn dose_type(&self) -> (r: DoseType)
        ensures
            r == self@.dose_type,
    {
        self.dose_type
    }

    /// The unit of the volumes.
    pub fn volume_type(&self) -> (r: VolumeType)
        ensures
            r == self@.volume_type,
    {
        self.volume_type
    }

    /// The number of samples.
    pub fn len(&self) -> (r: usize)
        ensures
            r == self@.len(),
    {
        self.samples.len()
    }

    /// Whether the histogram has no samples.
    pub fn is_empty(&self) -> (r: bool)
        ensures
            r == (self@.len() == 0),
    {
        self.samples.len() == 0
    }

    /// Whether the samples are known to be in the order of their doses.
    pub fn is_sorted(&self) -> (r: bool)
        ensures
            r == self@.sorted,
            r ==> ordered_by_dose(self@.samples),
    {
        proof {
            use_type_invariant(self);
        }
        self.is_sorted
    }

    /// Decides [`admits`] for this histogram's volume unit.
    fn takes(&self, sample: Sample) -> (r: bool)
        ensures
            r == admits(self@.volume_type, sample),
    {
        if !check_measure(sample.dose) {
            return false;
        }
        match self.volume_type {
            VolumeType::Percent => check_fraction(sample.volume),
            VolumeType::Cc => check_measure(sample.volume),
        }
    }

    /// Appends the sample of dose `d` and volume `v`, if the histogram takes
    /// it, and says whether it did. A sample is refused if its dose or its
    /// volume is below zero or not a number, or if the volumes are in percent
    /// and `v` is above one. A refused call changes nothing; an accepted one
    /// leaves the histogram unsorted.
    pub fn add(&mut self, d: u64, v: u64) -> (r: bool)
        ensures
            r == admits(old(self)@.volume_type, Sample { dose: d, volume: v }),
            r ==> final(self)@ == old(self)@.with_sample(Sample { dose: d, volume: v }),
            !r ==> final(self)@ == old(self)@,
            final(self)@.wf(),
    {
        proof {
            use_type_invariant(&*self);
        }
        let sample = Sample { dose: d, volume: v };
        if !self.takes(sample) {
            return false;
        }
        let mut samples: Vec<Sample> = Vec::new();
        std::mem::swap(&mut samples, &mut self.samples);
        samples.push(sample);
        self.is_sorted = false;
        self.samples = samples;
        true
    }

    /// Appends the samples made of `d` and `v`, pair by pair, if the
    /// histogram takes them all, and says whether it did. The call is refused
    /// if `d` and `v` differ in length or if [`Dvh::add`] would refuse one of
    /// the pairs. A refused call changes nothing, and neither does the
    /// accepted call of no samples: a sorted histogram stays sorted. Any other
    /// accepted call leaves the histogram unsorted.
    pub fn add_slice(&mut self, d: &[u64], v: &[u64]) -> (r: bool)
        ensures
            r == (d@.len() == v@.len() && forall|i: int|
                0 <= i < d@.len() ==> admits(
                    old(self)@.volume_type,
                    #[trigger] pairs(d@, v@)[i],
                )),
            r && d@.len() > 0 ==> final(self)@ == old(self)@.with_samples(d@, v@),
            r && d@.len() == 0 ==> final(self)@ == old(self)@,
            !r ==> final(self)@ == old(self)@,
            final(self)@.wf(),
    {
        proof {
            use_type_invariant(&*self);
        }
        let n = d.len();
        if n != v.len() {
            return false;
        }
        if n == 0 {
            return true;
        }
        let ghost fresh = pairs(d@, v@);
        let mut i: usize = 0;
        while i < n
            invariant
                i <= n == d@.len() == v@.len(),
                fresh == pairs(d@, v@),
                *self == *old(self),
                self@.wf(),
                forall|k: int| 0 <= k < i ==> admits(self@.volume_type, #[trigger] fresh[k]),
            decreases n - i,
        {
            let sample = Sample { dose: d[i], volume: v[i] };
            assert(sample == fresh[i as int]);
            if !self.takes(sample) {
                return false;
            }
            i = i + 1;
        }
        let mut samples: Vec<Sample> = Vec::new();
        std::mem::swap(&mut samples, &mut self.samples);
        let mut i: usize = 0;
        while i < n
            invariant
                i <= n == d@.len() == v@.len(),
                fresh == pairs(d@, v@),
                samples@ == old(self)@.samples + fresh.take(i as int),
            decreases n - i,
        {
            samples.push(Sample { dose: d[i], volume: v[i] });
            i = i + 1;
        }
        assert(fresh.take(n as int) =~= fresh);
        self.is_sorted = false;
        self.samples = samples;
        true
    }

    /// Sorts the samples by dose. Samples of equal dose stay in the order in
    /// which they stood, so each dose keeps its volume and the result is the
    /// same whatever the order of the work. A histogram that is sorted is
    /// left as it is.
    pub fn sort(&mut self)
        ensures
            old(self)@.sorts_to(final(self)@),
            final(self)@.wf(),
    {
        proof {
            use_type_invariant(&*self);
        }
        if self.is_sorted {
            proof {
                lemma_ordered_is_sorted(self@.samples);
            }
            return;
        }
        if is_ordered(&self.samples) {
            proof {
                lemma_ordered_is_sorted(self@.samples);
            }
        } else {
            let sorted = sorted_range(&self.samples, 0, self.samples.len());
            proof {
                assert(self@.samples.subrange(0, self@.samples.len() as int) =~= self@.samples);
                lemma_sorted_samples(sorted@, self@.samples);
            }
            self.samples = sorted;
        }
        self.is_sorted = true;
    }

    /// The doses, sample by sample, in the order in which the samples are
    /// stored.
    pub fn doses(&self) -> (r: Vec<u64>)
        ensures
            r@ == self@.doses(),
    {
        let n = self.samples.len();
        let mut doses: Vec<u64> = Vec::new();
        let mut i: usize = 0;
        while i < n
            invariant
                i <= n == self.samples.len(),
                doses@ == self@.doses().take(i as int),
            decreases n - i,
        {
            doses.push(self.samples[i].dose);
            i = i + 1;
        }
        doses
    }

    /// The volumes, sample by sample: each belongs to the dose at the same
    /// position of [`Dvh::doses`].
    pub fn volumes(&self) -> (r: Vec<u64>)
        ensures
            r@ == self@.volumes(),
    {
        let n = self.samples.len();
        let mut volumes: Vec<u64> = Vec::new();
        let mut i: usize = 0;
        while i < n
            invariant
                i <= n == self.samples.len(),
                volumes@ == self@.volumes().take(i as int),
            decreases n - i,
        {
            volumes.push(self.samples[i].volume);
            i = i + 1;
        }
        volumes
    }

    /// The check that both queries make of the histogram before they read it.
    fn refuses(&self) -> (r: Option<Error>)
        ensures
            r == self@.refusal(),
    {
        if self.samples.len() == 0 {
            Some(Error::DvhNoData)
        } else if self.samples.len() < 2 {
            Some(Error::DvhInsufficientData)
        } else if !self.is_sorted {
            Some(Error::DvhUnsorted)
        } else {
            None
        }
    }

    /// The least dose at which the volume that receives it has fallen to
    /// `volume`.
    ///
    /// Fails with `NegativeVolume` for a volume below zero, then with
    /// `DvhNoData`, `DvhInsufficientData` or `DvhUnsorted` for a histogram
    /// that has no sample, a single sample or is not sorted, and with
    /// `DvhDxLogic` for a volume that is not a number, which no stretch of
    /// the curve encloses. Every other query is answered: see
    /// [`DvhView::dx`].
    pub fn dx(&self, volume: u64) -> (r: Result<Reading, Error>)
        ensures
            r == self@.dx(volume),
            r matches Ok(Reading::Between(segment)) ==> segment.encloses(),
    {
        proof {
            use_type_invariant(self);
        }
        if check_negative(volume) {
            return Err(Error::NegativeVolume);
        }
        if let Some(error) = self.refuses() {
            return Err(error);
        }
        if check_nan(volume) {
            return Err(Error::DvhDxLogic);
        }
        let n = self.samples.len();
        let x = magnitude_of(volume);
        let ghost volumes = self@.volumes();
        let mut upper = n - 1;
        if x <= magnitude_of(self.samples[upper].volume) {
            proof {
                lemma_last_at_least_is(volumes, volume, upper as int);
            }
            return Ok(Reading::Exact(self.samples[upper].dose));
        }
        while upper > 0
            invariant
                0 <= upper < n == self.samples.len(),
                n == volumes.len(),
                volumes == self@.volumes(),
                x == magnitude(volume),
                !is_negative(volume),
                !is_nan(volume),
                self@.refusal() is None,
                forall|k: int| upper <= k < n ==> magnitude(#[trigger] volumes[k]) < x,
            decreases upper,
        {
            let lower = upper;
            upper = upper - 1;
            if x <= magnitude_of(self.samples[upper].volume) {
                proof {
                    lemma_last_at_least_is(volumes, volume, upper as int);
                    assert(magnitude(volumes[lower as int]) < x);
                }
                return Ok(
                    Reading::Between(
                        Segment {
                            x: volume,
                            x0: self.samples[lower].volume,
                            x1: self.samples[upper].volume,
                            y0: self.samples[lower].dose,
                            y1: self.samples[upper].dose,
                        },
                    ),
                );
            }
        }
        proof {
            lemma_last_at_least_is(volumes, volume, -1);
        }
        Ok(Reading::Exact(self.samples[0].dose))
    }

    /// The volume that receives at least `dose`.
    ///
    /// Fails with `NegativeDose` for a dose below zero, then with
    /// `DvhNoData`, `DvhInsufficientData` or `DvhUnsorted` for a histogram
    /// that has no sample, a single sample or is not sorted, and with
    /// `DvhVxLogic` for a dose that is not a number, which no stretch of the
    /// curve encloses. Every other query is answered: see [`DvhView::vx`].
    pub fn vx(&self, dose: u64) -> (r: Result<Reading, Error>)
        ensures
            r == self@.vx(dose),
            r matches Ok(Reading::Between(segment)) ==> segment.encloses(),
    {
        proof {
            use_type_invariant(self);
        }
        if check_negative(dose) {
            return Err(Error::NegativeDose);
        }
        if let Some(error) = self.refuses() {
            return Err(error);
        }
        if check_nan(dose) {
            return Err(Error::DvhVxLogic);
        }
        let n = self.samples.len();
        let x = magnitude_of(dose);
        let ghost doses = self@.doses();
        if x <= magnitude_of(self.samples[0].dose) {
            proof {
                lemma_first_at_least_is(doses, dose, 0);
            }
            return Ok(Reading::Exact(self.samples[0].volume));
        }
        let mut upper: usize = 1;
        while upper < n
            invariant
                1 <= upper <= n == self.samples.len(),
                n == doses.len(),
                doses == self@.doses(),
                x == magnitude(dose),
                !is_negative(dose),
                !is_nan(dose),
                self@.refusal() is None,
                forall|k: int| 0 <= k < upper ==> magnitude(#[trigger] doses[k]) < x,
            decreases n - upper,
        {
            if x <= magnitude_of(self.samples[upper].dose) {
                let lower = upper - 1;
                proof {
                    lemma_first_at_least_is(doses, dose, upper as int);
                    assert(magnitude(doses[lower as int]) < x);
                }
                return Ok(
                    Reading::Between(
                        Segment {
                            x: dose,
                            x0: self.samples[lower].dose,
                            x1: self.samples[upper].dose,
                            y0: self.samples[lower].volume,
                            y1: self.samples[upper].volume,
                        },
                    ),
                );
            }
            upper = upper + 1;
        }
        proof {
            lemma_first_at_least_is(doses, dose, n as int);
        }
        Ok(Reading::Exact(self.samples[n - 1].volume))
    }
}

} // verus!
