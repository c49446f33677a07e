//! Choosing the kind of each new track segment.
use vstd::prelude::*;
use rand::Rng;

verus! {

/// The thread-local random generator of `rand`.
#[verifier::external_type_specification]
#[verifier::external_body]
pub struct ExThreadRng(rand::rngs::ThreadRng);

/// Calls `rand::thread_rng`, which hands out a handle to the thread's
/// generator; nothing is claimed of it.
#[verifier::external_body]
fn thread_rng() -> (r: rand::rngs::ThreadRng) {
    rand::thread_rng()
}

/// Calls `Rng::gen_range(0..n)`, which panics on an empty range and
/// otherwise returns a value of the range; which value depends on chance,
/// so only the bound is claimed.
#[verifier::external_body]
fn gen_below(rng: &mut rand::rngs::ThreadRng, n: usize) -> (r: usize)
    requires
        n > 0,
    ensures
        r < n,
{
    rng.gen_range(0..n)
}

/// The kinds of track segment.
#[derive(Clone, Copy, PartialEq, Eq, Structural, Debug)]
pub enum SegmentKind {
    RandomObstacles,
    MovingObstacles,
    SlalomObstacles,
}

/// The number of kinds a new segment is drawn from.
pub const DRAWN_KINDS: usize = 2;

/// The kind drawn for each value of the draw: obstacles at random places,
/// or a slalom. Moving obstacles are never drawn.
pub open spec fn spec_kind_for_draw(choice: usize) -> SegmentKind {
    if choice == 0 {
        SegmentKind::RandomObstacles
    } else {
        SegmentKind::SlalomObstacles
    }
}

/// Every kind a new segment can have is drawn by some value below
/// `DRAWN_KINDS`, and the draws give different kinds: random obstacles and
/// a slalom are both possible, and moving obstacles are not.
pub proof fn lemma_drawn_kinds_reachable()
    ensures
        exists|d: usize| d < DRAWN_KINDS && #[trigger] spec_kind_for_draw(d) == SegmentKind::RandomObstacles,
        exists|d: usize| d < DRAWN_KINDS && #[trigger] spec_kind_for_draw(d) == SegmentKind::SlalomObstacles,
        forall|d: usize| d < DRAWN_KINDS ==> #[trigger] spec_kind_for_draw(d) != SegmentKind::MovingObstacles,
        forall|d: usize, e: usize| d < e < DRAWN_KINDS ==> #[trigger] spec_kind_for_draw(d) != #[trigger] spec_kind_for_draw(e),
{
    assert(spec_kind_for_draw(0) == SegmentKind::RandomObstacles);
    assert(spec_kind_for_draw(1) == SegmentKind::SlalomObstacles);
}

/// The kind of segment for a draw below `DRAWN_KINDS`.
pub fn kind_for_draw(choice: usize) -> (r: SegmentKind)
    requires
        choice < DRAWN_KINDS,
    ensures
        r == spec_kind_for_draw(choice),
{
    let kinds = [SegmentKind::RandomObstacles, SegmentKind::SlalomObstacles];
    kinds[choice]
}

/// Draws the kind of a new segment at random: obstacles at random places or
/// a slalom, never moving obstacles.
pub fn new_random_segment_kind() -> (r: SegmentKind)
    ensures
        r == SegmentKind::RandomObstacles || r == SegmentKind::SlalomObstacles,
{
    let mut rng = thread_rng();
    let choice = gen_below(&mut rng, DRAWN_KINDS);
    kind_for_draw(choice)
}

/// The number of gates of a slalom segment.
pub const SLALOM_GATES: usize = 3;

/// Whether the `i`-th gate of a slalom stands on the left: the gates
/// alternate, starting on the left.
pub fn slalom_gate_is_left(i: usize) -> (r: bool)
    ensures
        r == (i % 2 == 0),
{
    i % 2 == 0
}

} // verus!
