//! The reaction scheduler: the set of live animations.
//!
//! A scheduler holds at most one animation for each entity.  Descriptors
//! are turned into animations by [`Scheduler::schedule`]; a later
//! descriptor for an entity supersedes what was running for it.
//! [`Scheduler::tick`] advances every live animation by the time of one tick
//! and drops those that finish.  [`Scheduler::adjudicate`] judges a proposed
//! change and schedules what it sets off.

use vstd::prelude::*;
use crate::content::animation::{
    checked_of,
    lemma_checked_of_add,
    unchecked_of,
    seek_frame,
    moved,
    scale,
    scaled,
    step,
    AnimatedChange,
    Animation,
    AnimationStatus,
    AnimationStatusView,
    AnimationView,
    lemma_scaled_bounds,
};
use crate::content::change_desc::{descs_view, ChangeDesc, ChangeDescView};
use crate::content::sprite::SpriteFrame;
use crate::coord::{Nanos, Position};
use crate::entity_store::{insert, EntityChange, EntityId, EntityStore};
use crate::policy::{check, verdict};
use crate::spatial_hash::SpatialHashTable;

verus! {

/// The number of thousandths in a whole.
pub const MILLI_WHOLE: u64 = 1000;

/// The live animations, in the order in which they were scheduled.
pub struct Scheduler {
    pub live: Vec<Animation>,
}

/// The animations of a list as mathematical values.
pub open spec fn animations_view(live: Seq<Animation>) -> Seq<AnimationView> {
    live.map_values(|a: Animation| a@)
}

impl View for Scheduler {
    type V = Seq<AnimationView>;

    open spec fn view(&self) -> Seq<AnimationView> {
        animations_view(self.live@)
    }
}

/// Whether every animation of `live` can be advanced, and no two of them
/// animate the same entity.
pub open spec fn live_wf(live: Seq<AnimationView>) -> bool {
    &&& forall|i: int| 0 <= i < live.len() ==> (#[trigger] live[i]).wf()
    &&& forall|i: int, j: int|
        0 <= i < live.len() && 0 <= j < live.len() && i != j ==> (#[trigger] live[i]).id() != (
        #[trigger] live[j]).id()
}

/// The animations of `live` but the one of the entity `id`, in order.
pub open spec fn without(live: Seq<AnimationView>, id: EntityId) -> Seq<AnimationView>
    decreases live.len(),
{
    if live.len() == 0 {
        live
    } else if live.last().id() == id {
        without(live.drop_last(), id)
    } else {
        without(live.drop_last(), id).push(live.last())
    }
}

/// The animation of the entity `id` among `live`, if it has one.
pub open spec fn animation_of(live: Seq<AnimationView>, id: EntityId) -> Option<AnimationView> {
    if exists|i: int| 0 <= i < live.len() && (#[trigger] live[i]).id() == id {
        Some(live[choose|i: int| 0 <= i < live.len() && (#[trigger] live[i]).id() == id])
    } else {
        None
    }
}

/// Whether the way from `from` to `to` is a vector of positions.
pub open spec fn spans(from: Position, to: Position) -> bool {
    &&& i64::MIN <= to.x - from.x <= i64::MAX
    &&& i64::MIN <= to.y - from.y <= i64::MAX
}

/// What a descriptor becomes when it is scheduled.
pub ghost struct Compiled {
    /// The animation that starts, if one does.
    pub animation: Option<AnimationView>,
    /// The changes that fall due at once.
    pub changes: Seq<AnimatedChange>,
    /// Whether the descriptor takes the place of what is running for its
    /// entity.  An immediate descriptor animates nothing and does not.
    pub supersedes: bool,
}

/// What `desc` becomes when it is scheduled.
///
/// An immediate change is applied as it is.  A slide starts at its first
/// position with no time consumed; one that takes no time, or spans more
/// than a position can hold, puts the entity at its end at once.  A sprite
/// sequence starts at its first frame with the whole time of that frame
/// ahead; an empty one hands out its closing change at once.  A lunge
/// starts like a slide, along the given part of the way; one that takes no
/// time, spans too much, or whose part is not between nothing and the
/// whole, leaves the entity where it is and hands out its change at once.
pub open spec fn compile(desc: ChangeDescView) -> Compiled {
    match desc {
        ChangeDescView::Immediate(change) => Compiled {
            animation: None,
            changes: seq![AnimatedChange::Unchecked(change)],
            supersedes: false,
        },
        ChangeDescView::Slide { id, from, to, duration } => if duration > 0 && spans(from, to) {
            Compiled {
                animation: Some(
                    AnimationView::Slide {
                        id,
                        base: from,
                        path: Position { x: (to.x - from.x) as i64, y: (to.y - from.y) as i64 },
                        progress: 0,
                        duration,
                    },
                ),
                changes: seq![],
                supersedes: true,
            }
        } else {
            Compiled { animation: None, changes: seq![moved(id, to)], supersedes: true }
        },
        ChangeDescView::Sprites { id, animation, then } => if 0 < animation.len() <= usize::MAX {
            Compiled {
                animation: Some(
                    AnimationView::Sprites {
                        id,
                        animation,
                        then,
                        index: 0,
                        remaining: animation[0].spec_duration() as Nanos,
                    },
                ),
                changes: seq![],
                supersedes: true,
            }
        } else {
            Compiled {
                animation: None,
                changes: seq![AnimatedChange::Checked(then)],
                supersedes: true,
            }
        },
        ChangeDescView::BumpSlide { id, from, to, duration, fraction, mid_change } => if duration > 0
            && spans(from, to) && 0 <= fraction <= MILLI_WHOLE {
            Compiled {
                animation: Some(
                    AnimationView::BumpSlide {
                        id,
                        base: from,
                        path: Position {
                            x: scaled(to.x - from.x, fraction as int, MILLI_WHOLE as int) as i64,
                            y: scaled(to.y - from.y, fraction as int, MILLI_WHOLE as int) as i64,
                        },
                        progress: 0,
                        duration,
                        mid_change,
                    },
                ),
                changes: seq![],
                supersedes: true,
            }
        } else {
            Compiled {
                animation: None,
                changes: match mid_change {
                    Some(change) => seq![AnimatedChange::Checked(change)],
                    None => seq![],
                },
                supersedes: true,
            }
        },
    }
}

/// The live animations once `desc` has been scheduled among `live`.
pub open spec fn scheduled(live: Seq<AnimationView>, desc: ChangeDescView) -> Seq<AnimationView> {
    let compiled = compile(desc);
    if compiled.supersedes {
        match compiled.animation {
            Some(animation) => without(live, desc.id()).push(animation),
            None => without(live, desc.id()),
        }
    } else {
        live
    }
}

/// The outcome of a step that concerns several animations.
pub ghost struct Round {
    /// The animations that are live afterwards.
    pub live: Seq<AnimationView>,
    /// The changes handed out, in order.
    pub changes: Seq<AnimatedChange>,
}

/// What scheduling each of `descs` in turn among `live` yields.
pub open spec fn scheduled_all(live: Seq<AnimationView>, descs: Seq<ChangeDescView>) -> Round
    decreases descs.len(),
{
    if descs.len() == 0 {
        Round { live, changes: seq![] }
    } else {
        let front = scheduled_all(live, descs.drop_last());
        Round {
            live: scheduled(front.live, descs.last()),
            changes: front.changes + compile(descs.last()).changes,
        }
    }
}

/// What advancing each of `live` by `delta` yields: the animations that go
/// on, in their order, and the changes of all of them, in that order too.
pub open spec fn ticked(live: Seq<AnimationView>, delta: Nanos) -> Round
    decreases live.len(),
{
    if live.len() == 0 {
        Round { live: seq![], changes: seq![] }
    } else {
        let front = ticked(live.drop_last(), delta);
        let last = step(live.last(), delta);
        Round {
            live: match last.status {
                AnimationStatusView::Running(next) => front.live.push(next),
                AnimationStatusView::Finished => front.live,
            },
            changes: front.changes + last.changes,
        }
    }
}

/// The outcome of judging a change and scheduling what it sets off.
pub ghost struct Adjudication {
    /// Whether the change may be applied.
    pub accept: bool,
    /// The animations that are live afterwards.
    pub live: Seq<AnimationView>,
    /// The changes that fall due at once, in order: the change itself
    /// where it is accepted, then those of its reactions.
    pub changes: Seq<AnimatedChange>,
    /// Entities to remove from the world.
    pub deletions: Seq<EntityId>,
}

/// What judging `change` against the world and scheduling its reactions
/// among `live` yields.
pub open spec fn adjudicated(
    live: Seq<AnimationView>,
    change: EntityChange,
    store: &EntityStore,
    spatial: &SpatialHashTable,
) -> Adjudication {
    let v = verdict(change, store, spatial);
    let round = scheduled_all(live, v.reactions);
    Adjudication {
        accept: v.accept,
        live: round.live,
        changes: if v.accept {
            seq![AnimatedChange::Unchecked(change)] + round.changes
        } else {
            round.changes
        },
        deletions: v.deletions,
    }
}

/// Removing the animation of an entity that has none changes nothing.
pub proof fn lemma_without_absent(live: Seq<AnimationView>, id: EntityId)
    requires
        forall|i: int| 0 <= i < live.len() ==> (#[trigger] live[i]).id() != id,
    ensures
        without(live, id) == live,
    decreases live.len(),
{
    if live.len() > 0 {
        lemma_without_absent(live.drop_last(), id);
        assert(live.drop_last().push(live.last()) =~= live);
    }
}

/// Where only the animation at `at` is of the entity `id`, removing the
/// animation of `id` removes that one.
pub proof fn lemma_without_present(live: Seq<AnimationView>, id: EntityId, at: int)
    requires
        0 <= at < live.len(),
        live[at].id() == id,
        forall|i: int| 0 <= i < live.len() && i != at ==> (#[trigger] live[i]).id() != id,
    ensures
        without(live, id) == live.remove(at),
    decreases live.len(),
{
    let front = live.drop_last();
    if at == live.len() - 1 {
        lemma_without_absent(front, id);
        assert(live.remove(at) =~= front);
    } else {
        lemma_without_present(front, id, at);
        assert(front.remove(at).push(live.last()) =~= live.remove(at));
    }
}

/// What is left when the animation of `id` is removed comes from `live`
/// in order, and none of it is of `id`.
pub proof fn lemma_without_keeps_others(live: Seq<AnimationView>, id: EntityId)
    ensures
        without(live, id).len() <= live.len(),
        forall|i: int|
            0 <= i < without(live, id).len() ==> (#[trigger] without(live, id)[i]).id() != id
                && live.contains(without(live, id)[i]),
        live_wf(live) ==> live_wf(without(live, id)),
    decreases live.len(),
{
    if live.len() > 0 {
        let front = live.drop_last();
        lemma_without_keeps_others(front, id);
        let kept = without(live, id);
        assert forall|i: int| 0 <= i < kept.len() implies (#[trigger] kept[i]).id() != id
            && live.contains(kept[i]) by {
            if i < without(front, id).len() {
                let a = without(front, id)[i];
                assert(front.contains(a));
                let k = choose|k: int| 0 <= k < front.len() && front[k] == a;
                assert(live[k] == a);
            } else {
                assert(kept[i] == live.last());
                assert(live[live.len() - 1] == kept[i]);
            }
        }
        if live_wf(live) {
            assert(live_wf(front)) by {
                assert forall|i: int| 0 <= i < front.len() implies (#[trigger] front[i]).wf() by {
                    assert(live[i].wf());
                }
                assert forall|i: int, j: int|
                    0 <= i < front.len() && 0 <= j < front.len() && i != j implies (
                #[trigger] front[i]).id() != (#[trigger] front[j]).id() by {
                    assert(live[i].id() != live[j].id());
                }
            }
            let inner = without(front, id);
            if live.last().id() != id {
                assert forall|i: int| 0 <= i < kept.len() implies (#[trigger] kept[i]).wf() by {
                    if i < inner.len() {
                        assert(inner[i].wf());
                    } else {
                        assert(live[live.len() - 1].wf());
                    }
                }
                assert forall|i: int, j: int|
                    0 <= i < kept.len() && 0 <= j < kept.len() && i != j implies (
                #[trigger] kept[i]).id() != (#[trigger] kept[j]).id() by {
                    if i < inner.len() && j < inner.len() {
                        assert(inner[i].id() != inner[j].id());
                    } else {
                        let m = if i < inner.len() {
                            i
                        } else {
                            j
                        };
                        assert(front.contains(inner[m]));
                        let k = choose|k: int| 0 <= k < front.len() && front[k] == inner[m];
                        assert(live[k].id() != live[live.len() - 1].id());
                    }
                }
            }
        }
    }
}

/// An animation that goes on after a step can be advanced again, and is
/// still of the same entity.
pub proof fn lemma_step_keeps_wf(animation: AnimationView, delta: Nanos)
    requires
        animation.wf(),
    ensures
        step(animation, delta).status matches AnimationStatusView::Running(next) ==> next.wf()
            && next.id() == animation.id(),
{
    match animation {
        AnimationView::Sprites { id, animation, then, index, remaining } => {
            if delta >= remaining {
                lemma_seek_keeps_wf(id, animation, then, index + 1, delta - remaining);
            }
        },
        _ => {},
    }
}

/// A sprite sequence that goes on after a seek stands at one of its
/// frames.
proof fn lemma_seek_keeps_wf(
    id: EntityId,
    animation: Seq<SpriteFrame>,
    then: EntityChange,
    index: int,
    rest: int,
)
    requires
        0 <= index <= animation.len() <= usize::MAX,
    ensures
        seek_frame(id, animation, then, index, rest).status matches AnimationStatusView::Running(
            next,
        ) ==> next.wf() && next.id() == id,
    decreases animation.len() - index,
{
    if index < animation.len() {
        if rest >= animation[index].spec_duration() {
            lemma_seek_keeps_wf(
                id,
                animation,
                then,
                index + 1,
                rest - animation[index].spec_duration(),
            );
        }
    }
}

/// What is live after a tick was live before it, under the same entity,
/// and can be advanced again.
pub proof fn lemma_ticked_keeps_wf(live: Seq<AnimationView>, delta: Nanos)
    requires
        live_wf(live),
    ensures
        live_wf(ticked(live, delta).live),
        forall|i: int|
            0 <= i < ticked(live, delta).live.len() ==> exists|j: int|
                0 <= j < live.len() && (#[trigger] live[j]).id() == (#[trigger] ticked(
                    live,
                    delta,
                ).live[i]).id(),
    decreases live.len(),
{
    if live.len() > 0 {
        let front = live.drop_last();
        assert(live_wf(front)) by {
            assert forall|i: int| 0 <= i < front.len() implies (#[trigger] front[i]).wf() by {
                assert(live[i].wf());
            }
            assert forall|i: int, j: int|
                0 <= i < front.len() && 0 <= j < front.len() && i != j implies (
            #[trigger] front[i]).id() != (#[trigger] front[j]).id() by {
                assert(live[i].id() != live[j].id());
            }
        }
        lemma_ticked_keeps_wf(front, delta);
        let at = live.len() - 1;
        assert(live[at].wf());
        lemma_step_keeps_wf(live.last(), delta);
        let before = ticked(front, delta).live;
        let after = ticked(live, delta).live;
        assert forall|i: int| 0 <= i < after.len() implies exists|j: int|
            0 <= j < live.len() && (#[trigger] live[j]).id() == (#[trigger] after[i]).id() by {
            if i < before.len() {
                let j = choose|j: int|
                    0 <= j < front.len() && (#[trigger] front[j]).id() == before[i].id();
                assert(live[j].id() == after[i].id());
            } else {
                assert(live[at].id() == after[i].id());
            }
        }
        assert forall|i: int, k: int|
            0 <= i < after.len() && 0 <= k < after.len() && i != k implies (#[trigger] after[i]).id()
            != (#[trigger] after[k]).id() by {
            if i < before.len() && k < before.len() {
                assert(before[i].id() != before[k].id());
            } else {
                let m = if i < before.len() {
                    i
                } else {
                    k
                };
                let j = choose|j: int|
                    0 <= j < front.len() && (#[trigger] front[j]).id() == before[m].id();
                assert(live[j].id() != live[at].id());
            }
        }
    }
}

/// The animation that a descriptor starts can be advanced, is of the
/// descriptor's entity, and takes the place of what was running for it.
pub proof fn lemma_compile_wf(desc: ChangeDescView)
    ensures
        compile(desc).animation matches Some(animation) ==> animation.wf() && animation.id()
            == desc.id() && compile(desc).supersedes,
{
    match desc {
        ChangeDescView::BumpSlide { from, to, fraction, .. } => {
            if 0 <= fraction <= MILLI_WHOLE {
                lemma_scaled_bounds(to.x - from.x, fraction as int, MILLI_WHOLE as int);
                lemma_scaled_bounds(to.y - from.y, fraction as int, MILLI_WHOLE as int);
            }
        },
        _ => {},
    }
}

/// Scheduling keeps the live animations well-formed.
pub proof fn lemma_scheduled_keeps_wf(live: Seq<AnimationView>, desc: ChangeDescView)
    requires
        live_wf(live),
    ensures
        live_wf(scheduled(live, desc)),
{
    lemma_compile_wf(desc);
    lemma_without_keeps_others(live, desc.id());
    let kept = without(live, desc.id());
    let after = scheduled(live, desc);
    if compile(desc).animation is Some {
        assert forall|i: int| 0 <= i < after.len() implies (#[trigger] after[i]).wf() by {
            if i < kept.len() {
                assert(kept[i].wf());
            }
        }
        assert forall|i: int, k: int|
            0 <= i < after.len() && 0 <= k < after.len() && i != k implies (#[trigger] after[i]).id()
            != (#[trigger] after[k]).id() by {
            if i < kept.len() && k < kept.len() {
                assert(kept[i].id() != kept[k].id());
            } else {
                let m = if i < kept.len() {
                    i
                } else {
                    k
                };
                assert(kept[m].id() != desc.id());
            }
        }
    }
}

/// The elements of `v`, last first.
fn reversed<T>(v: Vec<T>) -> (r: Vec<T>)
    ensures
        r@.len() == v@.len(),
        forall|k: int| 0 <= k < r@.len() ==> r@[k] == v@[v@.len() - 1 - k],
{
    let mut v = v;
    let ghost all = v@;
    let mut r: Vec<T> = Vec::new();
    while v.len() > 0
        invariant
            v@.len() + r@.len() == all.len(),
            forall|k: int| 0 <= k < v@.len() ==> v@[k] == all[k],
            forall|k: int| 0 <= k < r@.len() ==> r@[k] == all[all.len() - 1 - k],
        decreases v@.len(),
    {
        match v.pop() {
            Some(x) => {
                r.push(x);
            },
            None => {},
        }
    }
    r
}

impl Scheduler {
    /// The live animations can be advanced, and no entity has two.
    pub open spec fn wf(&self) -> bool {
        live_wf(self@)
    }

    /// A scheduler with nothing live.
    pub fn new() -> (s: Scheduler)
        ensures
            s@ == Seq::<AnimationView>::empty(),
            s.wf(),
    {
        let s = Scheduler { live: Vec::new() };
        assert(s@ =~= Seq::<AnimationView>::empty());
        s
    }

    /// The number of live animations.
    pub fn len(&self) -> (n: usize)
        ensures
            n == self@.len(),
    {
        self.live.len()
    }

    /// Place of the animation of the entity `id` among the live ones.
    fn find(&self, id: EntityId) -> (at: Option<usize>)
        ensures
            at matches Some(i) ==> i < self@.len() && self@[i as int].id() == id,
            at is None ==> forall|i: int| 0 <= i < self@.len() ==> (#[trigger] self@[i]).id() != id,
    {
        let mut i: usize = 0;
        while i < self.live.len()
            invariant
                i <= self.live@.len(),
                self@.len() == self.live@.len(),
                forall|k: int| 0 <= k < i ==> (#[trigger] self@[k]).id() != id,
            decreases self.live@.len() - i,
        {
            if self.live[i].id() == id {
                return Some(i);
            }
            i += 1;
        }
        None
    }

    /// The animation that is live for the entity `id`, if one is.
    pub fn get(&self, id: EntityId) -> (r: Option<&Animation>)
        requires
            self.wf(),
        ensures
            r matches Some(animation) ==> animation_of(self@, id) == Some(animation@),
            r is None ==> animation_of(self@, id) is None,
    {
        match self.find(id) {
            Some(i) => {
                proof {
                    let c = choose|c: int| 0 <= c < self@.len() && (#[trigger] self@[c]).id() == id;
                    assert(c == i);
                }
                Some(&self.live[i])
            },
            None => None,
        }
    }

    /// Whether an animation is live for the entity `id`.
    pub fn is_animating(&self, id: EntityId) -> (b: bool)
        ensures
            b <==> exists|i: int| 0 <= i < self@.len() && (#[trigger] self@[i]).id() == id,
    {
        self.find(id).is_some()
    }

    /// Turns `desc` into the animation that it starts, if it starts one,
    /// and appends the changes that fall due at once to `changes`.
    fn start(desc: ChangeDesc, changes: &mut Vec<AnimatedChange>) -> (animation: Option<Animation>)
        ensures
            animation matches Some(a) ==> compile(desc@).animation == Some(a@),
            animation is None ==> compile(desc@).animation is None,
            final(changes)@ == old(changes)@ + compile(desc@).changes,
    {
        match desc {
            ChangeDesc::Immediate(change) => {
                changes.push(AnimatedChange::Unchecked(change));
                assert(changes@ =~= old(changes)@ + compile(desc@).changes);
                None
            },
            ChangeDesc::Slide { id, from, to, duration } => {
                if duration > 0 {
                    if let (Some(x), Some(y)) = (to.x.checked_sub(from.x), to.y.checked_sub(from.y)) {
                        assert(changes@ =~= old(changes)@ + compile(desc@).changes);
                        return Some(
                            Animation::Slide {
                                id,
                                base: from,
                                path: Position { x, y },
                                progress: 0,
                                duration,
                            },
                        );
                    }
                }
                changes.push(AnimatedChange::Unchecked(insert::position(id, to)));
                assert(changes@ =~= old(changes)@ + compile(desc@).changes);
                None
            },
            ChangeDesc::Sprites { id, animation, then } => {
                if animation.len() > 0 {
                    let remaining = animation[0].duration();
                    assert(changes@ =~= old(changes)@ + compile(desc@).changes);
                    Some(Animation::Sprites { id, animation, then, index: 0, remaining })
                } else {
                    changes.push(AnimatedChange::Checked(then));
                    assert(changes@ =~= old(changes)@ + compile(desc@).changes);
                    None
                }
            },
            ChangeDesc::BumpSlide { id, from, to, duration, fraction, mid_change } => {
                if duration > 0 && 0 <= fraction && fraction as u64 <= MILLI_WHOLE {
                    if let (Some(x), Some(y)) = (to.x.checked_sub(from.x), to.y.checked_sub(from.y)) {
                        let path = Position {
                            x: scale(x, fraction as u64, MILLI_WHOLE),
                            y: scale(y, fraction as u64, MILLI_WHOLE),
                        };
                        assert(changes@ =~= old(changes)@ + compile(desc@).changes);
                        return Some(
                            Animation::BumpSlide {
                                id,
                                base: from,
                                path,
                                progress: 0,
                                duration,
                                mid_change,
                            },
                        );
                    }
                }
                if let Some(change) = mid_change {
                    changes.push(AnimatedChange::Checked(change));
                }
                assert(changes@ =~= old(changes)@ + compile(desc@).changes);
                None
            },
        }
    }

    /// Schedules `desc`.
    ///
    /// A timed descriptor takes the place of whatever is live for its
    /// entity: the old animation is dropped, and the new one, if the
    /// descriptor starts one, is put last.  An immediate descriptor leaves
    /// the live animations alone.  Changes that fall due at once are
    /// appended to `changes`.
    pub fn schedule(&mut self, desc: ChangeDesc, changes: &mut Vec<AnimatedChange>)
        requires
            old(self).wf(),
        ensures
            final(self).wf(),
            final(self)@ == scheduled(old(self)@, desc@),
            final(changes)@ == old(changes)@ + compile(desc@).changes,
    {
        let id = desc.id();
        let ghost desc_view = desc@;
        let timed = match &desc {
            ChangeDesc::Immediate(_) => false,
            _ => true,
        };
        proof {
            lemma_scheduled_keeps_wf(self@, desc_view);
            lemma_compile_wf(desc_view);
        }
        if timed {
            match self.find(id) {
                Some(i) => {
                    proof {
                        lemma_without_present(self@, id, i as int);
                    }
                    let dropped = self.live.remove(i);
                    assert(self@ =~= old(self)@.remove(i as int));
                },
                None => {
                    proof {
                        lemma_without_absent(self@, id);
                    }
                },
            }
        }
        let ghost kept = self@;
        match Self::start(desc, changes) {
            Some(animation) => {
                self.live.push(animation);
                assert(self@ =~= kept.push(animation@));
            },
            None => {},
        }
    }

    /// Advances every live animation by the time `time_delta` of one tick.
    ///
    /// The animations are advanced in order, each by the same time.  Their
    /// changes are appended to `changes` in that order, and the animations
    /// that finish are dropped.
    pub fn tick(&mut self, time_delta: Nanos, changes: &mut Vec<AnimatedChange>)
        requires
            old(self).wf(),
        ensures
            final(self).wf(),
            final(self)@ == ticked(old(self)@, time_delta).live,
            final(changes)@ == old(changes)@ + ticked(old(self)@, time_delta).changes,
    {
        let ghost before = self@;
        let mut taken: Vec<Animation> = Vec::new();
        std::mem::swap(&mut self.live, &mut taken);
        let ghost all = taken@;
        assert(animations_view(all) =~= before);
        let mut stack = reversed(taken);
        let n = stack.len();
        let mut i: usize = 0;
        assert(self@ =~= Seq::<AnimationView>::empty());
        assert(animations_view(all).take(0) =~= Seq::<AnimationView>::empty());
        assert(changes@ =~= old(changes)@ + ticked(before.take(0), time_delta).changes);
        while i < n
            invariant
                i <= n,
                n == all.len(),
                before == animations_view(all),
                live_wf(before),
                stack@.len() == n - i,
                forall|k: int| 0 <= k < stack@.len() ==> stack@[k] == all[n - 1 - k],
                self@ == ticked(before.take(i as int), time_delta).live,
                changes@ == old(changes)@ + ticked(before.take(i as int), time_delta).changes,
            decreases n - i,
        {
            let ghost so_far = ticked(before.take(i as int), time_delta);
            match stack.pop() {
                Some(animation) => {
                    assert(animation == all[i as int]);
                    assert(animation@ == before[i as int]);
                    assert(before[i as int].wf());
                    let ghost live_before = self@;
                    let ghost changes_before = changes@;
                    let status = animation.populate(time_delta, changes);
                    proof {
                        assert(before.take(i + 1).drop_last() =~= before.take(i as int));
                        assert(before.take(i + 1).last() == before[i as int]);
                        assert(changes@ =~= old(changes)@ + (so_far.changes + step(
                            before[i as int],
                            time_delta,
                        ).changes));
                    }
                    match status {
                        AnimationStatus::Running(next) => {
                            self.live.push(next);
                            assert(self@ =~= live_before.push(next@));
                        },
                        AnimationStatus::Finished => {},
                    }
                },
                None => {},
            }
            i += 1;
        }
        proof {
            assert(before.take(n as int) =~= before);
            lemma_ticked_keeps_wf(before, time_delta);
        }
    }

    /// Schedules each of `descs` in turn.
    pub fn schedule_all(&mut self, descs: Vec<ChangeDesc>, changes: &mut Vec<AnimatedChange>)
        requires
            old(self).wf(),
        ensures
            final(self).wf(),
            final(self)@ == scheduled_all(old(self)@, descs_view(descs@)).live,
            final(changes)@ == old(changes)@ + scheduled_all(old(self)@, descs_view(descs@)).changes,
    {
        let ghost all = descs@;
        let ghost views = descs_view(all);
        let ghost before = self@;
        let mut stack = reversed(descs);
        let n = stack.len();
        let mut i: usize = 0;
        assert(views.take(0) =~= Seq::<ChangeDescView>::empty());
        assert(changes@ =~= old(changes)@ + scheduled_all(before, views.take(0)).changes);
        while i < n
            invariant
                i <= n,
                n == all.len(),
                views == descs_view(all),
                stack@.len() == n - i,
                forall|k: int| 0 <= k < stack@.len() ==> stack@[k] == all[n - 1 - k],
                self.wf(),
                self@ == scheduled_all(before, views.take(i as int)).live,
                changes@ == old(changes)@ + scheduled_all(before, views.take(i as int)).changes,
            decreases n - i,
        {
            let ghost so_far = scheduled_all(before, views.take(i as int));
            match stack.pop() {
                Some(desc) => {
                    assert(desc == all[i as int]);
                    assert(desc@ == views[i as int]);
                    self.schedule(desc, changes);
                    proof {
                        assert(views.take(i + 1).drop_last() =~= views.take(i as int));
                        assert(views.take(i + 1).last() == views[i as int]);
                        assert(changes@ =~= old(changes)@ + (so_far.changes + compile(
                            views[i as int],
                        ).changes));
                    }
                },
                None => {},
            }
            i += 1;
        }
        assert(views.take(n as int) =~= views);
    }

    /// Judges `change` against the world and schedules what it sets off.
    ///
    /// Returns whether the change may be applied.  What is to be applied
    /// now is appended to `changes`: the change itself where it is
    /// accepted, then the changes of its reactions, in the order of the
    /// rules.  Entities to delete are appended to `to_delete`.
    pub fn adjudicate(
        &mut self,
        change: EntityChange,
        entity_store: &EntityStore,
        spatial_hash: &SpatialHashTable,
        changes: &mut Vec<AnimatedChange>,
        to_delete: &mut Vec<EntityId>,
    ) -> (accept: bool)
        requires
            old(self).wf(),
            spatial_hash.wf(),
        ensures
            final(self).wf(),
            ({
                let a = adjudicated(old(self)@, change, entity_store, spatial_hash);
                &&& accept == a.accept
                &&& final(self)@ == a.live
                &&& final(changes)@ == old(changes)@ + a.changes
                &&& final(to_delete)@ == old(to_delete)@ + a.deletions
            }),
    {
        let mut reactions: Vec<ChangeDesc> = Vec::new();
        let accept = check(&change, entity_store, spatial_hash, &mut reactions, to_delete);
        proof {
            let v = verdict(change, entity_store, spatial_hash);
            assert(descs_view(Seq::<ChangeDesc>::empty()) =~= Seq::<ChangeDescView>::empty());
            assert(Seq::<ChangeDescView>::empty() + v.reactions =~= v.reactions);
        }
        if accept {
            changes.push(AnimatedChange::Unchecked(change));
        }
        let ghost mid = changes@;
        self.schedule_all(reactions, changes);
        proof {
            let a = adjudicated(old(self)@, change, entity_store, spatial_hash);
            assert(changes@ =~= old(changes)@ + a.changes);
        }
        accept
    }
}

/// Splits the changes handed out by animations into those to apply as they
/// are and those to judge first, each in their order.
pub fn partition(changes: &Vec<AnimatedChange>) -> (parts: (Vec<EntityChange>, Vec<EntityChange>))
    ensures
        parts.0@ == unchecked_of(changes@),
        parts.1@ == checked_of(changes@),
{
    let mut unchecked: Vec<EntityChange> = Vec::new();
    let mut checked: Vec<EntityChange> = Vec::new();
    let mut i: usize = 0;
    assert(changes@.take(0) =~= Seq::<AnimatedChange>::empty());
    while i < changes.len()
        invariant
            i <= changes@.len(),
            unchecked@ == unchecked_of(changes@.take(i as int)),
            checked@ == checked_of(changes@.take(i as int)),
        decreases changes@.len() - i,
    {
        proof {
            assert(changes@.take(i + 1).drop_last() =~= changes@.take(i as int));
            assert(changes@.take(i + 1).last() == changes@[i as int]);
        }
        match changes[i] {
            AnimatedChange::Unchecked(change) => unchecked.push(change),
            AnimatedChange::Checked(change) => checked.push(change),
        }
        i += 1;
    }
    assert(changes@.take(changes@.len() as int) =~= changes@);
    (unchecked, checked)
}

/// A timed descriptor for an entity takes the place of what was live for
/// it, and nothing of the old animation is left: what is live afterwards
/// is the same whatever was live for the entity before, none of it is the
/// old animation, and the new one starts with no time consumed.
pub proof fn lemma_schedule_supersedes(
    live: Seq<AnimationView>,
    other: Seq<AnimationView>,
    desc: ChangeDescView,
)
    requires
        !(desc is Immediate),
        without(live, desc.id()) == without(other, desc.id()),
    ensures
        scheduled(live, desc) == scheduled(other, desc),
        scheduled(live, desc) == scheduled(without(live, desc.id()), desc),
        forall|i: int|
            0 <= i < scheduled(live, desc).len() && (#[trigger] scheduled(live, desc)[i]).id()
                == desc.id() ==> compile(desc).animation == Some(scheduled(live, desc)[i]),
        compile(desc).animation matches Some(animation) ==> match animation {
            AnimationView::Slide { progress, .. } => progress == 0,
            AnimationView::BumpSlide { progress, .. } => progress == 0,
            AnimationView::Sprites { animation, index, remaining, .. } => index == 0 && remaining
                == animation[0].spec_duration(),
        },
{
    let id = desc.id();
    let kept = without(live, id);
    lemma_without_keeps_others(live, id);
    lemma_without_absent(kept, id);
    lemma_compile_wf(desc);
    match desc {
        ChangeDescView::Sprites { animation, .. } => {
            if animation.len() > 0 {
                assert(animation[0].spec_duration() <= u64::MAX) by {
                    assert(animation[0].millis * 1_000_000 <= 0xffff_ffff * 1_000_000)
                        by (nonlinear_arith)
                        requires
                            animation[0].millis <= 0xffff_ffff,
                    ;
                }
            }
        },
        _ => {},
    }
}

/// What the policy sets off never has to be judged again at once: every
/// change that falls due when a change is adjudicated is to be applied as
/// it is.  So judging one change ends after one round.
pub proof fn lemma_adjudicated_changes_unchecked(
    live: Seq<AnimationView>,
    change: EntityChange,
    store: &EntityStore,
    spatial: &SpatialHashTable,
)
    ensures
        checked_of(adjudicated(live, change, store, spatial).changes) == Seq::<EntityChange>::empty(),
{
    let v = verdict(change, store, spatial);
    assert forall|i: int| 0 <= i < v.reactions.len() implies checked_of(
        compile(#[trigger] v.reactions[i]).changes,
    ) == Seq::<EntityChange>::empty() by {
        lemma_verdict_reaction_starts_unchecked(change, store, spatial, i);
    }
    lemma_scheduled_all_unchecked(live, v.reactions);
    let round = scheduled_all(live, v.reactions);
    if v.accept {
        let first = seq![AnimatedChange::Unchecked(change)];
        assert(first.drop_last() =~= Seq::<AnimatedChange>::empty());
        assert(checked_of(first) == Seq::<EntityChange>::empty()) by {
            reveal_with_fuel(checked_of, 2);
        }
        lemma_checked_of_add(first, round.changes);
    }
}

/// Descriptors that each start without a change to judge do so together.
proof fn lemma_scheduled_all_unchecked(live: Seq<AnimationView>, descs: Seq<ChangeDescView>)
    requires
        forall|i: int|
            0 <= i < descs.len() ==> checked_of(compile(#[trigger] descs[i]).changes) == Seq::<
                EntityChange,
            >::empty(),
    ensures
        checked_of(scheduled_all(live, descs).changes) == Seq::<EntityChange>::empty(),
    decreases descs.len(),
{
    if descs.len() > 0 {
        let front = descs.drop_last();
        assert forall|i: int| 0 <= i < front.len() implies checked_of(
            compile(#[trigger] front[i]).changes,
        ) == Seq::<EntityChange>::empty() by {
            assert(front[i] == descs[i]);
        }
        lemma_scheduled_all_unchecked(live, front);
        assert(descs.last() == descs[descs.len() - 1]);
        lemma_checked_of_add(scheduled_all(live, front).changes, compile(descs.last()).changes);
    }
}

/// Each reaction of the policy starts an animation or is applied as it
/// is.
proof fn lemma_verdict_reaction_starts_unchecked(
    change: EntityChange,
    store: &EntityStore,
    spatial: &SpatialHashTable,
    i: int,
)
    requires
        0 <= i < verdict(change, store, spatial).reactions.len(),
    ensures
        checked_of(compile(verdict(change, store, spatial).reactions[i]).changes) == Seq::<
            EntityChange,
        >::empty(),
{
    let desc = verdict(change, store, spatial).reactions[i];
    reveal_with_fuel(checked_of, 2);
    match desc {
        ChangeDescView::Immediate(c) => {
            let first = seq![AnimatedChange::Unchecked(c)];
            assert(first.drop_last() =~= Seq::<AnimatedChange>::empty());
        },
        _ => {},
    }
}

} // verus!
