//! Placement of segments along one sequence: a sliding window whose length is
//! drawn afresh for every segment and whose start advances by a configured step.

use vstd::prelude::*;

verus! {

/// How far the window start moves after a segment of length `len` was emitted.
#[derive(Clone, Copy, Debug, PartialEq, Eq, Structural)]
pub enum Step {
    /// `floor(num * len / den)`: a fraction of the length just emitted.
    Fraction { num: u32, den: u32 },
    /// A fixed number of positions, whatever the length.
    Absolute { distance: usize },
}

/// What happens when the window no longer fits before the end of the sequence.
#[derive(Clone, Copy, Debug, PartialEq, Eq, Structural)]
pub enum TailPolicy {
    /// Emit the remainder `[start, total)`, which may be shorter than the minimum.
    PadToEnd,
    /// Move the window back so that it ends at `total` and keeps the drawn length
    /// (the whole sequence when that length exceeds it).
    PullBack,
}

/// Why a configuration was refused.
#[derive(Clone, Copy, Debug, PartialEq, Eq, Structural)]
pub enum ConfigError {
    /// The minimum segment length is zero.
    ZeroMinLength,
    /// The minimum segment length exceeds the maximum.
    InvertedRange,
    /// The step would not move the window forward for a segment of minimum length.
    NonPositiveStep,
}

/// Bounds of the drawn segment lengths, the step and the tail policy.
#[derive(Clone, Copy, Debug, PartialEq, Eq, Structural)]
pub struct SplitConfig {
    pub min_length: usize,
    pub max_length: usize,
    pub step: Step,
    pub tail: TailPolicy,
}

/// A half-open span `[start, end)` of a sequence.
#[derive(Clone, Copy, Debug, PartialEq, Eq, Structural)]
pub struct Segment {
    pub start: usize,
    pub end: usize,
}

pub open spec fn seg_len(s: Segment) -> int {
    s.end - s.start
}

/// How far the window moves after a segment of length `len`.
pub open spec fn advance_of(step: Step, len: int) -> int {
    match step {
        Step::Fraction { num, den } => (num * len) / (den as int),
        Step::Absolute { distance } => distance as int,
    }
}

/// The step moves the window by at least one position for a segment of length `min`.
pub open spec fn step_moves(step: Step, min: int) -> bool {
    match step {
        Step::Fraction { num, den } => den > 0 && num * min >= den,
        Step::Absolute { distance } => distance >= 1,
    }
}

/// Strictly increasing starts.
pub open spec fn starts_increase(segs: Seq<Segment>) -> bool {
    forall|i: int, j: int| 0 <= i < j < segs.len() ==> segs[i].start < segs[j].start
}

/// The segments emitted so far for a sequence of length `total` (all of them when
/// `complete`): each lies within the sequence and is at most `max_length` long;
/// each is at least `min_length` long, except a last one that ends at `total`;
/// starts increase strictly, except for a final pulled-back segment.
pub open spec fn well_placed(segs: Seq<Segment>, total: int, config: SplitConfig, complete: bool) -> bool {
    &&& forall|i: int|
        0 <= i < segs.len() ==> #[trigger] segs[i].start <= segs[i].end <= total && seg_len(segs[i])
            <= config.max_length
    &&& forall|i: int|
        0 <= i < segs.len() && (i + 1 < segs.len() || !complete) ==> config.min_length <= seg_len(
            #[trigger] segs[i],
        )
    &&& (complete && segs.len() > 0 && seg_len(segs.last()) < config.min_length) ==> segs.last().end
        == total
    &&& starts_increase(
        if complete && config.tail == TailPolicy::PullBack && segs.len() > 0 {
            segs.drop_last()
        } else {
            segs
        },
    )
}

/// Where the window stands after a segment: the step from it, or the end of
/// the sequence when the step leads past it.
pub open spec fn next_start(seg: Segment, total: int, step: Step) -> int {
    if seg.start + advance_of(step, seg_len(seg)) <= total {
        seg.start + advance_of(step, seg_len(seg))
    } else {
        total
    }
}

/// The first segment starts at zero and each later one where the step from the
/// one before it leads (a final pulled-back segment aside); when `complete`,
/// nothing more fits: the last segment ends the sequence, or the step from it
/// leads to the end or past it.
pub open spec fn chained(segs: Seq<Segment>, total: int, config: SplitConfig, complete: bool) -> bool {
    &&& segs.len() > 0 ==> segs[0].start == 0
    &&& forall|i: int|
        0 <= i && i + 1 < segs.len() && !(complete && config.tail == TailPolicy::PullBack && i + 2
            == segs.len()) ==> #[trigger] segs[i + 1].start == segs[i].start + advance_of(
            config.step,
            seg_len(segs[i]),
        )
    &&& (complete && segs.len() > 0) ==> (segs.last().end == total || segs.last().start
        + advance_of(config.step, seg_len(segs.last())) >= total)
}

impl SplitConfig {
    pub open spec fn wf(self) -> bool {
        &&& 1 <= self.min_length <= self.max_length
        &&& step_moves(self.step, self.min_length as int)
    }

    /// A configuration, or the first reason to refuse it: a zero minimum, then a
    /// minimum above the maximum, then a step that does not move the window.
    pub fn new(min_length: usize, max_length: usize, step: Step, tail: TailPolicy) -> (r: Result<
        SplitConfig,
        ConfigError,
    >)
        ensures
            min_length == 0 ==> r == Err::<SplitConfig, ConfigError>(ConfigError::ZeroMinLength),
            min_length >= 1 && min_length > max_length ==> r == Err::<SplitConfig, ConfigError>(
                ConfigError::InvertedRange,
            ),
            1 <= min_length <= max_length && !step_moves(step, min_length as int) ==> r == Err::<
                SplitConfig,
                ConfigError,
            >(ConfigError::NonPositiveStep),
            1 <= min_length <= max_length && step_moves(step, min_length as int) ==> r == Ok::<
                SplitConfig,
                ConfigError,
            >((SplitConfig { min_length, max_length, step, tail })),
            r is Ok ==> r->Ok_0.wf(),
    {
        if min_length == 0 {
            return Err(ConfigError::ZeroMinLength);
        }
        if min_length > max_length {
            return Err(ConfigError::InvertedRange);
        }
        let moves = match step {
            Step::Fraction { num, den } => den > 0 && scaled(num, min_length) >= den as u128,
            Step::Absolute { distance } => distance >= 1,
        };
        if !moves {
            return Err(ConfigError::NonPositiveStep);
        }
        Ok(SplitConfig { min_length, max_length, step, tail })
    }

    /// The length `min_length + offset`, with `offset` capped at the width of the range.
    pub fn length_at_offset(&self, offset: usize) -> (r: usize)
        requires
            self.min_length <= self.max_length,
        ensures
            r == self.min_length + if offset <= self.max_length - self.min_length {
                offset as int
            } else {
                self.max_length - self.min_length
            },
            self.min_length <= r <= self.max_length,
    {
        let width = self.max_length - self.min_length;
        if offset <= width {
            self.min_length + offset
        } else {
            self.max_length
        }
    }
}

/// The exact product `num * len`, which always fits in 128 bits.
fn scaled(num: u32, len: usize) -> (r: u128)
    ensures
        r == num * len,
{
    assert((num as int) * (len as int) <= 0xffff_ffffu128 * 0xffff_ffff_ffff_ffffu128)
        by (nonlinear_arith)
        requires
            num <= 0xffff_ffffu32,
            len <= 0xffff_ffff_ffff_ffffu64,
    ;
    (num as u128) * (len as u128)
}

/// On a valid configuration every drawn length moves the window forward.
pub proof fn lemma_advance_positive(config: SplitConfig, len: int)
    requires
        config.wf(),
        config.min_length <= len,
    ensures
        advance_of(config.step, len) >= 1,
{
    match config.step {
        Step::Fraction { num, den } => {
            let m = config.min_length as int;
            assert(num * len >= num * m) by (nonlinear_arith)
                requires
                    len >= m,
                    num >= 0,
            ;
            assert((num * len) / (den as int) >= 1) by (nonlinear_arith)
                requires
                    num * len >= den,
                    den > 0,
            ;
        },
        Step::Absolute { distance } => {},
    }
}

/// The sliding-window state for one sequence of length `total`.
pub struct Placer {
    pub config: SplitConfig,
    pub total: usize,
    /// Where the next window starts.
    pub start: usize,
    /// A length has been consumed already.
    pub started: bool,
    /// No segment is left to emit.
    pub done: bool,
    /// The segments emitted so far.
    pub emitted: Ghost<Seq<Segment>>,
}

impl Placer {
    pub open spec fn wf(self) -> bool {
        &&& self.config.wf()
        &&& self.start <= self.total
        &&& !self.started ==> self.emitted@.len() == 0 && self.start == 0 && !self.done
        &&& self.started ==> self.emitted@.len() > 0
        &&& well_placed(self.emitted@, self.total as int, self.config, self.done)
        &&& chained(self.emitted@, self.total as int, self.config, self.done)
        &&& (self.started && !self.done) ==> self.start == next_start(
            self.emitted@.last(),
            self.total as int,
            self.config.step,
        )
        &&& !self.done ==> forall|i: int|
            0 <= i < self.emitted@.len() ==> #[trigger] self.emitted@[i].start < self.start
    }

    /// The window `[start, start + len)` fits in the sequence.
    pub open spec fn fits(self, len: int) -> bool {
        !self.done && self.start + len <= self.total
    }

    /// The segment that a draw of `len` yields, if any.
    pub open spec fn next_of(self, len: int) -> Option<Segment> {
        if self.done {
            None
        } else if !self.started && self.total < len {
            Some(Segment { start: 0, end: self.total })
        } else if self.start + len <= self.total {
            Some(Segment { start: self.start, end: (self.start + len) as usize })
        } else if self.start < self.total {
            match self.config.tail {
                TailPolicy::PadToEnd => Some(Segment { start: self.start, end: self.total }),
                TailPolicy::PullBack => Some(
                    Segment {
                        start: if len <= self.total {
                            (self.total - len) as usize
                        } else {
                            0
                        },
                        end: self.total,
                    },
                ),
            }
        } else {
            None
        }
    }

    /// A measure that every step on an unfinished placer lowers.
    pub open spec fn remaining(self) -> int {
        if self.done {
            0
        } else {
            self.total - self.start + 1
        }
    }

    pub fn new(total: usize, config: SplitConfig) -> (r: Placer)
        requires
            config.wf(),
        ensures
            r.wf(),
            r.config == config,
            r.total == total,
            r.start == 0,
            !r.started,
            !r.done,
            r.emitted@ == Seq::<Segment>::empty(),
    {
        Placer { config, total, start: 0, started: false, done: false, emitted: Ghost(Seq::empty()) }
    }

    /// Consumes one drawn length and yields the next segment, if any. The first
    /// draw always yields one: the whole sequence when it is shorter than the draw.
    pub fn next_segment(&mut self, len: usize) -> (r: Option<Segment>)
        requires
            old(self).wf(),
            old(self).config.min_length <= len <= old(self).config.max_length,
        ensures
            final(self).wf(),
            r == old(self).next_of(len as int),
            final(self).config == old(self).config,
            final(self).total == old(self).total,
            final(self).emitted@ == match r {
                Some(s) => old(self).emitted@.push(s),
                None => old(self).emitted@,
            },
            final(self).done == (old(self).done || !old(self).fits(len as int)),
            old(self).fits(len as int) ==> final(self).start as int == if old(self).start
                + advance_of(old(self).config.step, len as int) <= old(self).total {
                old(self).start + advance_of(old(self).config.step, len as int)
            } else {
                old(self).total as int
            },
            old(self).done ==> *final(self) == *old(self),
            !old(self).done ==> final(self).remaining() < old(self).remaining(),
    {
        if self.done {
            return None;
        }
        let first = !self.started;
        self.started = true;
        let total = self.total;
        let start = self.start;
        if start <= total && len <= total - start {
            let seg = Segment { start, end: start + len };
            proof {
                lemma_advance_positive(self.config, len as int);
            }
            let adv: u128 = match self.config.step {
                Step::Fraction { num, den } => scaled(num, len) / (den as u128),
                Step::Absolute { distance } => distance as u128,
            };
            if adv <= (total - start) as u128 {
                self.start = start + adv as usize;
            } else {
                self.start = total;
            }
            self.emitted = Ghost(self.emitted@.push(seg));
            assert(starts_increase(self.emitted@));
            return Some(seg);
        }
        self.done = true;
        let r = if first {
            Some(Segment { start: 0, end: total })
        } else if start < total {
            match self.config.tail {
                TailPolicy::PadToEnd => Some(Segment { start, end: total }),
                TailPolicy::PullBack => {
                    let s = if len <= total {
                        total - len
                    } else {
                        0
                    };
                    Some(Segment { start: s, end: total })
                },
            }
        } else {
            None
        };
        match r {
            Some(seg) => {
                self.emitted = Ghost(self.emitted@.push(seg));
                assert(self.emitted@.drop_last() =~= old(self).emitted@);
            },
            None => {},
        }
        r
    }
}

/// A first draw longer than the sequence yields exactly one segment: the whole
/// sequence, after which the placer is finished and yields nothing more.
pub proof fn lemma_short_sequence_single_segment(p: Placer, len: int)
    requires
        p.wf(),
        !p.started,
        p.total < len,
    ensures
        p.next_of(len) == Some(Segment { start: 0, end: p.total }),
        !p.fits(len),
        forall|q: Placer, l: int| q.done ==> #[trigger] q.next_of(l) is None,
{
}

} // verus!
