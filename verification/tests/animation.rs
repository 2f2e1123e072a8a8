use reaction_pipeline::content::animation::{AnimatedChange, Animation, AnimationStatus};
use reaction_pipeline::content::sprite::{SpriteFrame, TileSprite};
use reaction_pipeline::coord::Position;
use reaction_pipeline::entity_store::{insert, ComponentValue, EntityChange};

const MS: u64 = 1_000_000;

fn two_frames() -> Vec<SpriteFrame> {
    vec![SpriteFrame::new(100, TileSprite::Crab), SpriteFrame::new(50, TileSprite::Snail)]
}

#[test]
fn sprites_stay_on_frame_within_budget() {
    let then = insert::solid(7);
    let animation = Animation::Sprites {
        id: 7,
        animation: two_frames(),
        then,
        index: 0,
        remaining: 100 * MS,
    };
    let mut changes = Vec::new();
    let status = animation.populate(30 * MS, &mut changes);
    assert!(changes.is_empty());
    assert_eq!(
        status,
        AnimationStatus::Running(Animation::Sprites {
            id: 7,
            animation: two_frames(),
            then,
            index: 0,
            remaining: 70 * MS,
        })
    );
}

#[test]
fn sprites_advance_then_finish() {
    let then = insert::solid(7);
    let animation = Animation::Sprites {
        id: 7,
        animation: two_frames(),
        then,
        index: 0,
        remaining: 100 * MS,
    };
    let mut changes = Vec::new();
    let status = animation.populate(30 * MS, &mut changes);
    let animation = match status {
        AnimationStatus::Running(animation) => animation,
        AnimationStatus::Finished => panic!("finished too early"),
    };
    let status = animation.populate(90 * MS, &mut changes);
    assert_eq!(
        changes,
        vec![AnimatedChange::Unchecked(insert::sprite(7, TileSprite::Snail))]
    );
    let animation = match status {
        AnimationStatus::Running(animation) => animation,
        AnimationStatus::Finished => panic!("finished too early"),
    };
    assert_eq!(
        animation,
        Animation::Sprites { id: 7, animation: two_frames(), then, index: 1, remaining: 30 * MS }
    );
    let mut changes = Vec::new();
    let status = animation.populate(50 * MS, &mut changes);
    assert_eq!(changes, vec![AnimatedChange::Checked(then)]);
    assert_eq!(status, AnimationStatus::Finished);
}

#[test]
fn slide_reaches_end_exactly() {
    let base = Position::new(2000, -3000);
    let path = Position::new(1000, 0);
    let mut animation =
        Animation::Slide { id: 1, base, path, progress: 0, duration: 50 * MS };
    let mut last = None;
    for delta in [10 * MS, 15 * MS, 25 * MS] {
        let mut changes = Vec::new();
        let status = animation.clone().populate(delta, &mut changes);
        assert_eq!(changes.len(), 1);
        last = Some(changes[0]);
        match status {
            AnimationStatus::Running(next) => animation = next,
            AnimationStatus::Finished => {
                assert_eq!(delta, 25 * MS);
            }
        }
    }
    assert_eq!(
        last,
        Some(AnimatedChange::Unchecked(EntityChange::Insert(
            1,
            ComponentValue::Position(Position::new(3000, -3000))
        )))
    );
}

#[test]
fn slide_long_tick_stops_at_the_end() {
    let base = Position::new(0, 0);
    let path = Position::new(-1000, 2000);
    let animation = Animation::Slide { id: 1, base, path, progress: 0, duration: 50 * MS };
    let mut changes = Vec::new();
    let status = animation.populate(u64::MAX, &mut changes);
    assert_eq!(status, AnimationStatus::Finished);
    assert_eq!(
        changes,
        vec![AnimatedChange::Unchecked(insert::position(1, Position::new(-1000, 2000)))]
    );
}

#[test]
fn slide_position_is_rounded_towards_the_base() {
    let animation = Animation::Slide {
        id: 1,
        base: Position::new(1000, 1000),
        path: Position::new(1000, -1000),
        progress: 0,
        duration: 3,
    };
    let mut changes = Vec::new();
    let status = animation.populate(1, &mut changes);
    assert_eq!(
        changes,
        vec![AnimatedChange::Unchecked(insert::position(1, Position::new(1333, 667)))]
    );
    assert_eq!(
        status,
        AnimationStatus::Running(Animation::Slide {
            id: 1,
            base: Position::new(1000, 1000),
            path: Position::new(1000, -1000),
            progress: 1,
            duration: 3,
        })
    );
}

#[test]
fn slide_with_extreme_path_does_not_overflow() {
    let animation = Animation::Slide {
        id: 1,
        base: Position::new(i64::MAX, 0),
        path: Position::new(i64::MIN, i64::MAX),
        progress: 0,
        duration: u64::MAX,
    };
    let mut changes = Vec::new();
    let status = animation.populate(u64::MAX - 1, &mut changes);
    assert!(matches!(status, AnimationStatus::Running(_)));
    assert_eq!(
        changes,
        vec![AnimatedChange::Unchecked(insert::position(
            1,
            Position::new(0, i64::MAX - 1)
        ))]
    );
}

#[test]
fn sprites_large_tick_skips_frames() {
    let then = insert::solid(7);
    let frames = vec![
        SpriteFrame::new(10, TileSprite::Crab),
        SpriteFrame::new(20, TileSprite::Snail),
        SpriteFrame::new(0, TileSprite::Window),
        SpriteFrame::new(30, TileSprite::Light),
    ];
    let animation = Animation::Sprites {
        id: 7,
        animation: frames.clone(),
        then,
        index: 0,
        remaining: 10 * MS,
    };
    let mut changes = Vec::new();
    let status = animation.populate(35 * MS, &mut changes);
    assert_eq!(
        changes,
        vec![AnimatedChange::Unchecked(insert::sprite(7, TileSprite::Light))]
    );
    assert_eq!(
        status,
        AnimationStatus::Running(Animation::Sprites {
            id: 7,
            animation: frames,
            then,
            index: 3,
            remaining: 25 * MS,
        })
    );
}

#[test]
fn sprites_tick_equal_to_remaining_moves_on() {
    let then = insert::solid(7);
    let animation = Animation::Sprites {
        id: 7,
        animation: two_frames(),
        then,
        index: 0,
        remaining: 100 * MS,
    };
    let mut changes = Vec::new();
    let status = animation.populate(100 * MS, &mut changes);
    assert_eq!(
        changes,
        vec![AnimatedChange::Unchecked(insert::sprite(7, TileSprite::Snail))]
    );
    assert_eq!(
        status,
        AnimationStatus::Running(Animation::Sprites {
            id: 7,
            animation: two_frames(),
            then,
            index: 1,
            remaining: 50 * MS,
        })
    );
}

#[test]
fn bump_slide_lunges_turns_and_returns() {
    let mid = insert::health(3, reaction_pipeline::content::health::HealthInfo::new(4, 8));
    let base = Position::new(1000, 1000);
    let path = Position::new(-490, 0);
    let mut animation = Animation::BumpSlide {
        id: 1,
        base,
        path,
        progress: 0,
        duration: 100 * MS,
        mid_change: Some(mid),
    };
    let mut seen = Vec::new();
    for delta in [25 * MS, 25 * MS, 25 * MS, 25 * MS] {
        let mut changes = Vec::new();
        let status = animation.clone().populate(delta, &mut changes);
        seen.push(changes);
        match status {
            AnimationStatus::Running(next) => animation = next,
            AnimationStatus::Finished => assert_eq!(seen.len(), 4),
        }
    }
    assert_eq!(
        seen,
        vec![
            vec![AnimatedChange::Unchecked(insert::position(1, Position::new(755, 1000)))],
            vec![
                AnimatedChange::Unchecked(insert::position(1, Position::new(510, 1000))),
                AnimatedChange::Checked(mid),
            ],
            vec![AnimatedChange::Unchecked(insert::position(1, Position::new(755, 1000)))],
            vec![AnimatedChange::Unchecked(insert::position(1, Position::new(1000, 1000)))],
        ]
    );
}

#[test]
fn bump_slide_in_one_tick_hands_out_change_and_ends_at_base() {
    let mid = insert::solid(3);
    let animation = Animation::BumpSlide {
        id: 1,
        base: Position::new(0, 0),
        path: Position::new(490, 490),
        progress: 0,
        duration: 100 * MS,
        mid_change: Some(mid),
    };
    let mut changes = Vec::new();
    let status = animation.populate(500 * MS, &mut changes);
    assert_eq!(status, AnimationStatus::Finished);
    assert_eq!(
        changes,
        vec![
            AnimatedChange::Unchecked(insert::position(1, Position::new(0, 0))),
            AnimatedChange::Checked(mid),
        ]
    );
}

#[test]
fn animation_id_names_the_entity() {
    let animation = Animation::Slide {
        id: 12,
        base: Position::new(0, 0),
        path: Position::new(0, 0),
        progress: 0,
        duration: 1,
    };
    assert_eq!(animation.id(), 12);
}
