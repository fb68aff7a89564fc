//! Drawing segment lengths uniformly and carving a whole sequence with them.

use crate::placement::{chained, well_placed, Placer, Segment, SplitConfig};
use rand::rngs::StdRng;
use rand::Rng;
use vstd::prelude::*;

verus! {

/// rand's `StdRng`, carried opaque through the sampler: the generator that every
/// draw of a run shares.
#[verifier::external_type_specification]
#[verifier::external_body]
pub struct ExStdRng(rand::rngs::StdRng);

/// Relies on `rand::Rng::gen_range` over an inclusive range: the value lies in
/// `[lo, hi]`; it panics only when the range is empty (`lo > hi`).
#[verifier::external_body]
fn draw_uniform(rng: &mut StdRng, lo: usize, hi: usize) -> (r: usize)
    requires
        lo <= hi,
    ensures
        lo <= r <= hi,
{
    rng.gen_range(lo..=hi)
}

/// Draws a length uniformly from `[min_length, max_length]`.
pub fn sample_uniform(rng: &mut StdRng, config: &SplitConfig) -> (r: usize)
    requires
        config.wf(),
    ensures
        config.min_length <= r <= config.max_length,
{
    draw_uniform(rng, config.min_length, config.max_length)
}

/// Carves a sequence of length `total` into segments whose lengths are drawn
/// uniformly, one draw per step of the window.
pub fn split_uniform(rng: &mut StdRng, total: usize, config: &SplitConfig) -> (r: Vec<Segment>)
    requires
        config.wf(),
    ensures
        well_placed(r@, total as int, *config, true),
        chained(r@, total as int, *config, true),
        r@.len() >= 1,
        total < config.min_length ==> r@ == seq![Segment { start: 0, end: total }],
{
    let mut placer = Placer::new(total, *config);
    let mut out: Vec<Segment> = Vec::new();
    while !placer.done
        invariant
            placer.wf(),
            placer.config == *config,
            placer.total == total,
            out@ == placer.emitted@,
            !placer.started ==> !placer.done,
            total < config.min_length && placer.started ==> placer.done && out@ == seq![
                Segment { start: 0, end: total },
            ],
        decreases placer.remaining(),
    {
        let len = sample_uniform(rng, config);
        match placer.next_segment(len) {
            Some(seg) => out.push(seg),
            None => {},
        }
        assert(total < config.min_length ==> out@ =~= seq![Segment { start: 0, end: total }]);
    }
    out
}

} // verus!
