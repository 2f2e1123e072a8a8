//! Live animations, advanced by elapsed time.
//!
//! An animation is the time-stepped form of a timed reaction.  Each call of
//! [`Animation::populate`] consumes the time of one tick, hands out the
//! changes that fall due, and says whether the animation goes on.
//! [`step`] states what one call does.

use vstd::prelude::*;
use vstd::arithmetic::div_mod::{lemma_div_is_ordered, lemma_div_multiples_vanish, lemma_div_pos_is_pos};
use vstd::arithmetic::mul::{lemma_mul_inequality, lemma_mul_is_commutative, lemma_mul_nonnegative};
use crate::content::sprite::{SpriteAnimation, SpriteFrame};
use crate::coord::{Nanos, Position};
use crate::entity_store::{insert, ComponentValue, EntityChange, EntityId};

verus! {

#[derive(Debug, Clone, PartialEq, Eq)]
pub enum Animation {
    /// The position of `id` moves evenly along `path`, starting at `base`.
    /// `progress` is the time consumed so far, of `duration` in all, so the
    /// part of the path covered is `progress / duration`.
    Slide { id: EntityId, base: Position, path: Position, progress: Nanos, duration: Nanos },
    /// `id` shows the frame at `index` for `remaining` more time, then the
    /// frames after it; `then` follows the last frame.
    Sprites {
        id: EntityId,
        animation: SpriteAnimation,
        then: EntityChange,
        index: usize,
        remaining: Nanos,
    },
    /// The position of `id` moves evenly from `base` to the end of `path`
    /// in the first half of `duration` and back in the second half;
    /// `mid_change` falls due at the turn.
    BumpSlide {
        id: EntityId,
        base: Position,
        path: Position,
        progress: Nanos,
        duration: Nanos,
        mid_change: Option<EntityChange>,
    },
}

#[derive(Debug, Clone, PartialEq, Eq)]
pub enum AnimationStatus {
    /// The animation goes on in the state given.
    Running(Animation),
    /// The animation is over.
    Finished,
}

/// A change handed out by an animation.
#[derive(Clone, Copy, Debug, PartialEq, Eq, Structural, Hash)]
pub enum AnimatedChange {
    /// To be judged by the policy before it is applied.
    Checked(EntityChange),
    /// To be applied as it is.
    Unchecked(EntityChange),
}

/// An animation as a mathematical value.
pub ghost enum AnimationView {
    Slide { id: EntityId, base: Position, path: Position, progress: Nanos, duration: Nanos },
    Sprites {
        id: EntityId,
        animation: Seq<SpriteFrame>,
        then: EntityChange,
        index: usize,
        remaining: Nanos,
    },
    BumpSlide {
        id: EntityId,
        base: Position,
        path: Position,
        progress: Nanos,
        duration: Nanos,
        mid_change: Option<EntityChange>,
    },
}

/// An animation status as a mathematical value.
pub ghost enum AnimationStatusView {
    Running(AnimationView),
    Finished,
}

/// What one call of `populate` yields.
pub ghost struct Step {
    pub status: AnimationStatusView,
    /// The changes handed out, in order.
    pub changes: Seq<AnimatedChange>,
}

impl View for Animation {
    type V = AnimationView;

    open spec fn view(&self) -> AnimationView {
        match *self {
            Animation::Slide { id, base, path, progress, duration } => AnimationView::Slide {
                id,
                base,
                path,
                progress,
                duration,
            },
            Animation::Sprites { id, animation, then, index, remaining } => AnimationView::Sprites {
                id,
                animation: animation@,
                then,
                index,
                remaining,
            },
            Animation::BumpSlide {
                id,
                base,
                path,
                progress,
                duration,
                mid_change,
            } => AnimationView::BumpSlide { id, base, path, progress, duration, mid_change },
        }
    }
}

impl View for AnimationStatus {
    type V = AnimationStatusView;

    open spec fn view(&self) -> AnimationStatusView {
        match *self {
            AnimationStatus::Running(animation) => AnimationStatusView::Running(animation@),
            AnimationStatus::Finished => AnimationStatusView::Finished,
        }
    }
}

/// The length `len * num / den`, rounded towards zero.
pub open spec fn scaled(len: int, num: int, den: int) -> int {
    if len >= 0 {
        (len * num) / den
    } else {
        -(((-len) * num) / den)
    }
}

/// Whether the end of `path`, laid out from `base`, is a position.
pub open spec fn path_fits(base: Position, path: Position) -> bool {
    &&& i64::MIN <= base.x + path.x <= i64::MAX
    &&& i64::MIN <= base.y + path.y <= i64::MAX
}

/// The point reached from `base` after `num / den` of `path`.
pub open spec fn point_along(base: Position, path: Position, num: int, den: int) -> Position {
    Position {
        x: (base.x + scaled(path.x as int, num, den)) as i64,
        y: (base.y + scaled(path.y as int, num, den)) as i64,
    }
}

/// The time consumed of `duration` once `delta` more has passed: it stops
/// at `duration`.
pub open spec fn advanced(progress: Nanos, duration: Nanos, delta: Nanos) -> Nanos {
    if progress + delta >= duration {
        duration
    } else {
        (progress + delta) as Nanos
    }
}

/// How far out a lunge is after `progress` of `duration`, as a part of
/// `duration`: it grows to the whole at half time and shrinks back to
/// nothing.
pub open spec fn lunge_reach(progress: Nanos, duration: Nanos) -> int {
    if 2 * progress <= duration {
        2 * progress
    } else {
        2 * (duration - progress)
    }
}

/// Whether the turn of a lunge falls in the step from `before` to `after`.
pub open spec fn turn_falls_due(before: Nanos, after: Nanos, duration: Nanos) -> bool {
    2 * before < duration <= 2 * after
}

impl AnimationView {
    /// The entity that is animated.
    pub open spec fn id(self) -> EntityId {
        match self {
            AnimationView::Slide { id, .. } => id,
            AnimationView::Sprites { id, .. } => id,
            AnimationView::BumpSlide { id, .. } => id,
        }
    }

    /// What `populate` asks of an animation: a slide takes time, has not
    /// consumed more than it takes, and ends at a position; a sprite
    /// sequence stands at one of its frames, which can be counted.
    pub open spec fn wf(self) -> bool {
        match self {
            AnimationView::Slide { base, path, progress, duration, .. } => {
                &&& 0 < duration
                &&& progress <= duration
                &&& path_fits(base, path)
            },
            AnimationView::Sprites { animation, index, .. } => index < animation.len() <= usize::MAX,
            AnimationView::BumpSlide { base, path, progress, duration, .. } => {
                &&& 0 < duration
                &&& progress <= duration
                &&& path_fits(base, path)
            },
        }
    }
}

/// The change that puts `id` at `position`, to be applied as it is.
pub open spec fn moved(id: EntityId, position: Position) -> AnimatedChange {
    AnimatedChange::Unchecked(EntityChange::Insert(id, ComponentValue::Position(position)))
}

/// One step of a slide.
pub open spec fn step_slide(
    id: EntityId,
    base: Position,
    path: Position,
    progress: Nanos,
    duration: Nanos,
    delta: Nanos,
) -> Step {
    let progress = advanced(progress, duration, delta);
    Step {
        status: if progress < duration {
            AnimationStatusView::Running(
                AnimationView::Slide { id, base, path, progress, duration },
            )
        } else {
            AnimationStatusView::Finished
        },
        changes: seq![moved(id, point_along(base, path, progress as int, duration as int))],
    }
}

/// One step of a lunge.
pub open spec fn step_bump_slide(
    id: EntityId,
    base: Position,
    path: Position,
    progress: Nanos,
    duration: Nanos,
    mid_change: Option<EntityChange>,
    delta: Nanos,
) -> Step {
    let after = advanced(progress, duration, delta);
    let position = moved(id, point_along(base, path, lunge_reach(after, duration), duration as int));
    Step {
        status: if after < duration {
            AnimationStatusView::Running(
                AnimationView::BumpSlide { id, base, path, progress: after, duration, mid_change },
            )
        } else {
            AnimationStatusView::Finished
        },
        changes: if turn_falls_due(progress, after, duration) && mid_change is Some {
            seq![position, AnimatedChange::Checked(mid_change->0)]
        } else {
            seq![position]
        },
    }
}

/// Where a sprite sequence stands once the frame before `index` is over
/// and `rest` more time is to be consumed: at the first frame from `index`
/// on that `rest` does not outlast, or at its end.
pub open spec fn seek_frame(
    id: EntityId,
    animation: Seq<SpriteFrame>,
    then: EntityChange,
    index: int,
    rest: int,
) -> Step
    decreases animation.len() - index,
{
    if 0 <= index < animation.len() {
        let frame = animation[index];
        if rest < frame.spec_duration() {
            Step {
                status: AnimationStatusView::Running(
                    AnimationView::Sprites {
                        id,
                        animation,
                        then,
                        index: index as usize,
                        remaining: (frame.spec_duration() - rest) as Nanos,
                    },
                ),
                changes: seq![
                    AnimatedChange::Unchecked(
                        EntityChange::Insert(id, ComponentValue::Sprite(frame.sprite)),
                    ),
                ],
            }
        } else {
            seek_frame(id, animation, then, index + 1, rest - frame.spec_duration())
        }
    } else {
        Step { status: AnimationStatusView::Finished, changes: seq![AnimatedChange::Checked(then)] }
    }
}

/// One step of a sprite sequence.
pub open spec fn step_sprites(
    id: EntityId,
    animation: Seq<SpriteFrame>,
    then: EntityChange,
    index: usize,
    remaining: Nanos,
    delta: Nanos,
) -> Step {
    if delta < remaining {
        Step {
            status: AnimationStatusView::Running(
                AnimationView::Sprites {
                    id,
                    animation,
                    then,
                    index,
                    remaining: (remaining - delta) as Nanos,
                },
            ),
            changes: seq![],
        }
    } else {
        seek_frame(id, animation, then, index + 1, delta - remaining)
    }
}

/// What advancing `animation` by `delta` yields.
pub open spec fn step(animation: AnimationView, delta: Nanos) -> Step {
    match animation {
        AnimationView::Slide { id, base, path, progress, duration } => step_slide(
            id,
            base,
            path,
            progress,
            duration,
            delta,
        ),
        AnimationView::Sprites { id, animation, then, index, remaining } => step_sprites(
            id,
            animation,
            then,
            index,
            remaining,
            delta,
        ),
        AnimationView::BumpSlide { id, base, path, progress, duration, mid_change } => step_bump_slide(
            id,
            base,
            path,
            progress,
            duration,
            mid_change,
            delta,
        ),
    }
}

/// A scaled length lies between nothing and the whole length, and the
/// whole length scaled by one is itself.
pub proof fn lemma_scaled_bounds(len: int, num: int, den: int)
    requires
        0 <= num <= den,
        0 < den,
    ensures
        len >= 0 ==> 0 <= scaled(len, num, den) <= len,
        len <= 0 ==> len <= scaled(len, num, den) <= 0,
        scaled(len, den, den) == len,
        scaled(len, 0, den) == 0,
{
    let mag = if len >= 0 {
        len
    } else {
        -len
    };
    lemma_mul_nonnegative(mag, num);
    lemma_mul_inequality(num, den, mag);
    lemma_mul_is_commutative(mag, num);
    lemma_mul_is_commutative(mag, den);
    lemma_div_is_ordered(mag * num, mag * den, den);
    lemma_div_multiples_vanish(mag, den);
    lemma_mul_is_commutative(den, mag);
    lemma_div_pos_is_pos(mag * num, den);
    assert(mag * 0 == 0);
    assert(0int / den == 0) by {
        lemma_div_multiples_vanish(0, den);
    }
}

/// The length `len * num / den`, rounded towards zero.
pub fn scale(len: i64, num: u64, den: u64) -> (r: i64)
    requires
        num <= den,
        0 < den,
    ensures
        r == scaled(len as int, num as int, den as int),
{
    proof {
        lemma_scaled_bounds(len as int, num as int, den as int);
    }
    if len >= 0 {
        let mag: u128 = len as u128;
        assert(mag * num <= 0x7fff_ffff_ffff_ffff * 0xffff_ffff_ffff_ffff) by (nonlinear_arith)
            requires
                0 <= mag <= 0x7fff_ffff_ffff_ffff,
                0 <= num <= 0xffff_ffff_ffff_ffff,
        ;
        let q: u128 = (mag * (num as u128)) / (den as u128);
        q as i64
    } else {
        let mag: u128 = (-(len as i128)) as u128;
        assert(mag * num <= 0x8000_0000_0000_0000 * 0xffff_ffff_ffff_ffff) by (nonlinear_arith)
            requires
                0 <= mag <= 0x8000_0000_0000_0000,
                0 <= num <= 0xffff_ffff_ffff_ffff,
        ;
        let q: u128 = (mag * (num as u128)) / (den as u128);
        (-(q as i128)) as i64
    }
}

/// The point reached from `base` after `num / den` of `path`.
pub fn point_on_path(base: Position, path: Position, num: u64, den: u64) -> (p: Position)
    requires
        num <= den,
        0 < den,
        path_fits(base, path),
    ensures
        p == point_along(base, path, num as int, den as int),
{
    proof {
        lemma_scaled_bounds(path.x as int, num as int, den as int);
        lemma_scaled_bounds(path.y as int, num as int, den as int);
    }
    Position { x: base.x + scale(path.x, num, den), y: base.y + scale(path.y, num, den) }
}

/// The time consumed of `duration` once `delta` more has passed.
fn advance(progress: Nanos, duration: Nanos, delta: Nanos) -> (after: Nanos)
    requires
        progress <= duration,
    ensures
        after == advanced(progress, duration, delta),
        progress <= after <= duration,
{
    if delta >= duration - progress {
        duration
    } else {
        progress + delta
    }
}

impl Animation {
    /// The entity that is animated.
    pub fn id(&self) -> (id: EntityId)
        ensures
            id == self@.id(),
    {
        match self {
            Animation::Slide { id, .. } => *id,
            Animation::Sprites { id, .. } => *id,
            Animation::BumpSlide { id, .. } => *id,
        }
    }

    /// Advances the animation by the time `time_delta` of one tick.
    ///
    /// The changes that fall due are appended to `changes`, and the result
    /// says whether the animation goes on, and in which state.
    pub fn populate(self, time_delta: Nanos, changes: &mut Vec<AnimatedChange>) -> (status:
        AnimationStatus)
        requires
            self@.wf(),
        ensures
            status@ == step(self@, time_delta).status,
            final(changes)@ == old(changes)@ + step(self@, time_delta).changes,
            status matches AnimationStatus::Running(next) ==> next@.wf() && next@.id() == self@.id(),
    {
        match self {
            Animation::Slide { id, base, path, progress, duration } => {
                let progress = advance(progress, duration, time_delta);
                let new_position = point_on_path(base, path, progress, duration);
                changes.push(AnimatedChange::Unchecked(insert::position(id, new_position)));
                assert(changes@ =~= old(changes)@ + step(self@, time_delta).changes);
                if progress < duration {
                    AnimationStatus::Running(Animation::Slide { id, base, path, progress, duration })
                } else {
                    AnimationStatus::Finished
                }
            },
            Animation::BumpSlide { id, base, path, progress, duration, mid_change } => {
                let after = advance(progress, duration, time_delta);
                let back = duration - after;
                let reach: u64 = if after <= back {
                    2 * after
                } else {
                    2 * back
                };
                let new_position = point_on_path(base, path, reach, duration);
                changes.push(AnimatedChange::Unchecked(insert::position(id, new_position)));
                if progress < duration - progress && after >= back {
                    if let Some(change) = mid_change {
                        changes.push(AnimatedChange::Checked(change));
                    }
                }
                assert(changes@ =~= old(changes)@ + step(self@, time_delta).changes);
                if after < duration {
                    AnimationStatus::Running(
                        Animation::BumpSlide { id, base, path, progress: after, duration, mid_change },
                    )
                } else {
                    AnimationStatus::Finished
                }
            },
            Animation::Sprites { id, animation, then, index, remaining } => {
                if time_delta < remaining {
                    assert(changes@ =~= old(changes)@ + step(self@, time_delta).changes);
                    return AnimationStatus::Running(
                        Animation::Sprites {
                            id,
                            animation,
                            then,
                            index,
                            remaining: remaining - time_delta,
                        },
                    );
                }
                let frames: usize = animation.len();
                let mut time_delta_rest: Nanos = time_delta - remaining;
                let mut index: usize = index + 1;
                loop
                    invariant
                        index <= animation@.len(),
                        frames == animation@.len(),
                        self@.id() == id,
                        changes@ == old(changes)@,
                        seek_frame(id, animation@, then, index as int, time_delta_rest as int) == step(
                            self@,
                            time_delta,
                        ),
                    decreases animation@.len() - index,
                {
                    if index == frames {
                        changes.push(AnimatedChange::Checked(then));
                        assert(changes@ =~= old(changes)@ + step(self@, time_delta).changes);
                        return AnimationStatus::Finished;
                    }
                    let frame: SpriteFrame = animation[index];
                    let frame_duration = frame.duration();
                    if time_delta_rest < frame_duration {
                        changes.push(AnimatedChange::Unchecked(insert::sprite(id, frame.sprite)));
                        assert(changes@ =~= old(changes)@ + step(self@, time_delta).changes);
                        return AnimationStatus::Running(
                            Animation::Sprites {
                                id,
                                animation,
                                then,
                                index,
                                remaining: frame_duration - time_delta_rest,
                            },
                        );
                    }
                    time_delta_rest -= frame_duration;
                    index += 1;
                }
            },
        }
    }
}

/// The changes of `changes` that are to be applied as they are, in order.
pub open spec fn unchecked_of(changes: Seq<AnimatedChange>) -> Seq<EntityChange>
    decreases changes.len(),
{
    if changes.len() == 0 {
        seq![]
    } else {
        match changes.last() {
            AnimatedChange::Unchecked(change) => unchecked_of(changes.drop_last()).push(change),
            AnimatedChange::Checked(_) => unchecked_of(changes.drop_last()),
        }
    }
}

/// The changes of `changes` that are to be judged first, in order.
pub open spec fn checked_of(changes: Seq<AnimatedChange>) -> Seq<EntityChange>
    decreases changes.len(),
{
    if changes.len() == 0 {
        seq![]
    } else {
        match changes.last() {
            AnimatedChange::Checked(change) => checked_of(changes.drop_last()).push(change),
            AnimatedChange::Unchecked(_) => checked_of(changes.drop_last()),
        }
    }
}

/// The changes to judge first of two lists in a row are those of the one,
/// then those of the other.
pub proof fn lemma_checked_of_add(a: Seq<AnimatedChange>, b: Seq<AnimatedChange>)
    ensures
        checked_of(a + b) == checked_of(a) + checked_of(b),
    decreases b.len(),
{
    if b.len() == 0 {
        assert(a + b =~= a);
        assert(checked_of(a) + checked_of(b) =~= checked_of(a));
    } else {
        lemma_checked_of_add(a, b.drop_last());
        assert((a + b).drop_last() =~= a + b.drop_last());
        assert((a + b).last() == b.last());
        match b.last() {
            AnimatedChange::Checked(change) => {
                assert(checked_of(a + b) =~= checked_of(a) + checked_of(b));
            },
            AnimatedChange::Unchecked(_) => {},
        }
    }
}

/// The changes to apply as they are of two lists in a row are those of
/// the one, then those of the other.
pub proof fn lemma_unchecked_of_add(a: Seq<AnimatedChange>, b: Seq<AnimatedChange>)
    ensures
        unchecked_of(a + b) == unchecked_of(a) + unchecked_of(b),
    decreases b.len(),
{
    if b.len() == 0 {
        assert(a + b =~= a);
        assert(unchecked_of(a) + unchecked_of(b) =~= unchecked_of(a));
    } else {
        lemma_unchecked_of_add(a, b.drop_last());
        assert((a + b).drop_last() =~= a + b.drop_last());
        assert((a + b).last() == b.last());
        match b.last() {
            AnimatedChange::Unchecked(change) => {
                assert(unchecked_of(a + b) =~= unchecked_of(a) + unchecked_of(b));
            },
            AnimatedChange::Checked(_) => {},
        }
    }
}

/// The time that a run of ticks takes in all.
pub open spec fn total(deltas: Seq<Nanos>) -> nat
    decreases deltas.len(),
{
    if deltas.len() == 0 {
        0
    } else {
        deltas[0] as nat + total(deltas.drop_first())
    }
}

/// What advancing `animation` by each of `deltas` in turn yields: the
/// status after the last tick that reaches the animation, and all changes
/// handed out.  An animation that has finished is not advanced again.
pub open spec fn run(animation: AnimationView, deltas: Seq<Nanos>) -> Step
    decreases deltas.len(),
{
    if deltas.len() == 0 {
        Step { status: AnimationStatusView::Running(animation), changes: seq![] }
    } else {
        let first = step(animation, deltas[0]);
        match first.status {
            AnimationStatusView::Finished => first,
            AnimationStatusView::Running(next) => {
                let rest = run(next, deltas.drop_first());
                Step { status: rest.status, changes: first.changes + rest.changes }
            },
        }
    }
}

/// The end of `path`, laid out from `base`.
pub open spec fn path_end(base: Position, path: Position) -> Position {
    Position { x: (base.x + path.x) as i64, y: (base.y + path.y) as i64 }
}

/// A tick that takes a slide to the end of its time or beyond finishes it
/// and puts the entity exactly at the end of the path: progress stops at
/// the whole, however long the tick.
pub proof fn lemma_slide_step_reaching_end(
    id: EntityId,
    base: Position,
    path: Position,
    progress: Nanos,
    duration: Nanos,
    delta: Nanos,
)
    requires
        (AnimationView::Slide { id, base, path, progress, duration }).wf(),
        progress + delta >= duration,
    ensures
        step(AnimationView::Slide { id, base, path, progress, duration }, delta) == (Step {
            status: AnimationStatusView::Finished,
            changes: seq![moved(id, path_end(base, path))],
        }),
{
    lemma_scaled_bounds(path.x as int, duration as int, duration as int);
    lemma_scaled_bounds(path.y as int, duration as int, duration as int);
}

/// A tick that leaves a slide short of the end of its time keeps it
/// running, with the time of the tick added to its progress.
pub proof fn lemma_slide_step_short_of_end(
    id: EntityId,
    base: Position,
    path: Position,
    progress: Nanos,
    duration: Nanos,
    delta: Nanos,
)
    requires
        (AnimationView::Slide { id, base, path, progress, duration }).wf(),
        progress + delta < duration,
    ensures
        step(AnimationView::Slide { id, base, path, progress, duration }, delta) == (Step {
            status: AnimationStatusView::Running(
                AnimationView::Slide {
                    id,
                    base,
                    path,
                    progress: (progress + delta) as Nanos,
                    duration,
                },
            ),
            changes: seq![
                moved(id, point_along(base, path, progress + delta, duration as int)),
            ],
        }),
{
}

/// A slide advanced by ticks that together take it to the end of its time
/// is finished by the tick that gets there, and the last position handed
/// out is the end of the path.
pub proof fn lemma_slide_run_reaches_end(
    id: EntityId,
    base: Position,
    path: Position,
    progress: Nanos,
    duration: Nanos,
    deltas: Seq<Nanos>,
)
    requires
        (AnimationView::Slide { id, base, path, progress, duration }).wf(),
        progress + total(deltas) >= duration,
        deltas.len() > 0,
    ensures
        ({
            let end = run(AnimationView::Slide { id, base, path, progress, duration }, deltas);
            &&& end.status == AnimationStatusView::Finished
            &&& end.changes.len() > 0
            &&& end.changes.last() == moved(id, path_end(base, path))
        }),
    decreases deltas.len(),
{
    let slide = AnimationView::Slide { id, base, path, progress, duration };
    let delta = deltas[0];
    if progress + delta >= duration {
        lemma_slide_step_reaching_end(id, base, path, progress, duration, delta);
    } else {
        lemma_slide_step_short_of_end(id, base, path, progress, duration, delta);
        let after = (progress + delta) as Nanos;
        let rest = deltas.drop_first();
        assert(rest.len() > 0) by {
            if rest.len() == 0 {
                assert(total(rest) == 0);
            }
        }
        lemma_slide_run_reaches_end(id, base, path, after, duration, rest);
        let tail = run(AnimationView::Slide { id, base, path, progress: after, duration }, rest);
        let first = step(slide, delta);
        assert((first.changes + tail.changes).last() == tail.changes.last());
    }
}

/// A slide advanced by ticks that together leave it short of the end of
/// its time is still running, and has consumed the time of all of them.
pub proof fn lemma_slide_run_short_of_end(
    id: EntityId,
    base: Position,
    path: Position,
    progress: Nanos,
    duration: Nanos,
    deltas: Seq<Nanos>,
)
    requires
        (AnimationView::Slide { id, base, path, progress, duration }).wf(),
        progress + total(deltas) < duration,
    ensures
        run(AnimationView::Slide { id, base, path, progress, duration }, deltas).status
            == AnimationStatusView::Running(
            AnimationView::Slide {
                id,
                base,
                path,
                progress: (progress + total(deltas)) as Nanos,
                duration,
            },
        ),
    decreases deltas.len(),
{
    if deltas.len() > 0 {
        let delta = deltas[0];
        lemma_slide_step_short_of_end(id, base, path, progress, duration, delta);
        lemma_slide_run_short_of_end(
            id,
            base,
            path,
            (progress + delta) as Nanos,
            duration,
            deltas.drop_first(),
        );
    }
}

/// The changes that one step of a lunge hands out: the position, to be
/// applied as it is, and the change at the turn, to be judged first,
/// where the turn falls in the step.
pub proof fn lemma_bump_slide_step_changes(
    id: EntityId,
    base: Position,
    path: Position,
    progress: Nanos,
    duration: Nanos,
    mid_change: Option<EntityChange>,
    delta: Nanos,
)
    ensures
        ({
            let bump = AnimationView::BumpSlide { id, base, path, progress, duration, mid_change };
            let after = advanced(progress, duration, delta);
            &&& unchecked_of(step(bump, delta).changes) == seq![
                EntityChange::Insert(
                    id,
                    ComponentValue::Position(
                        point_along(base, path, lunge_reach(after, duration), duration as int),
                    ),
                ),
            ]
            &&& checked_of(step(bump, delta).changes) == if turn_falls_due(progress, after, duration)
                && mid_change is Some {
                seq![mid_change->0]
            } else {
                seq![]
            }
        }),
{
    let bump = AnimationView::BumpSlide { id, base, path, progress, duration, mid_change };
    let changes = step(bump, delta).changes;
    reveal_with_fuel(unchecked_of, 3);
    reveal_with_fuel(checked_of, 3);
    if changes.len() == 2 {
        assert(changes.drop_last().drop_last() =~= Seq::<AnimatedChange>::empty());
        assert(changes.drop_last().last() == changes[0]);
        assert(unchecked_of(changes) =~= seq![
            EntityChange::Insert(
                id,
                ComponentValue::Position(
                    point_along(
                        base,
                        path,
                        lunge_reach(advanced(progress, duration, delta), duration),
                        duration as int,
                    ),
                ),
            ),
        ]);
        assert(checked_of(changes) =~= seq![mid_change->0]);
    } else {
        assert(changes.drop_last() =~= Seq::<AnimatedChange>::empty());
        assert(unchecked_of(changes) =~= seq![
            EntityChange::Insert(
                id,
                ComponentValue::Position(
                    point_along(
                        base,
                        path,
                        lunge_reach(advanced(progress, duration, delta), duration),
                        duration as int,
                    ),
                ),
            ),
        ]);
        assert(checked_of(changes) =~= Seq::<EntityChange>::empty());
    }
}

/// A lunge advanced by ticks that together take it to the end of its time
/// is finished by the tick that gets there.  The last position handed out
/// is where it started, and the change at the turn is handed out once,
/// unless the turn lay behind when the ticks began.
pub proof fn lemma_bump_slide_run_returns(
    id: EntityId,
    base: Position,
    path: Position,
    progress: Nanos,
    duration: Nanos,
    mid_change: Option<EntityChange>,
    deltas: Seq<Nanos>,
)
    requires
        (AnimationView::BumpSlide { id, base, path, progress, duration, mid_change }).wf(),
        progress + total(deltas) >= duration,
        deltas.len() > 0,
    ensures
        ({
            let end = run(
                AnimationView::BumpSlide { id, base, path, progress, duration, mid_change },
                deltas,
            );
            &&& end.status == AnimationStatusView::Finished
            &&& unchecked_of(end.changes).len() > 0
            &&& unchecked_of(end.changes).last() == EntityChange::Insert(
                id,
                ComponentValue::Position(base),
            )
            &&& checked_of(end.changes) == if 2 * progress < duration && mid_change is Some {
                seq![mid_change->0]
            } else {
                seq![]
            }
        }),
    decreases deltas.len(),
{
    let bump = AnimationView::BumpSlide { id, base, path, progress, duration, mid_change };
    let delta = deltas[0];
    let first = step(bump, delta);
    let after = advanced(progress, duration, delta);
    lemma_bump_slide_step_changes(id, base, path, progress, duration, mid_change, delta);
    if progress + delta >= duration {
        lemma_scaled_bounds(path.x as int, 0, duration as int);
        lemma_scaled_bounds(path.y as int, 0, duration as int);
        assert(lunge_reach(after, duration) == 0);
    } else {
        let rest = deltas.drop_first();
        assert(rest.len() > 0) by {
            if rest.len() == 0 {
                assert(total(rest) == 0);
            }
        }
        lemma_bump_slide_run_returns(id, base, path, after, duration, mid_change, rest);
        let tail = run(
            AnimationView::BumpSlide { id, base, path, progress: after, duration, mid_change },
            rest,
        );
        lemma_unchecked_of_add(first.changes, tail.changes);
        lemma_checked_of_add(first.changes, tail.changes);
        assert((unchecked_of(first.changes) + unchecked_of(tail.changes)).last() == unchecked_of(
            tail.changes,
        ).last());
        assert(checked_of(first.changes) + checked_of(tail.changes) =~= if 2 * progress < duration
            && mid_change is Some {
            seq![mid_change->0]
        } else {
            seq![]
        });
    }
}

} // verus!
