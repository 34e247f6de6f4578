use timeline_tactics::skills::defs::AbilityId;
use timeline_tactics::timeline::decision::{
    choose_undo, first_ready, DecisionSlot, Intent, Target, UndoCandidate,
};
use timeline_tactics::timeline::events::BlockReason;

/// A sentinel for "busy and never due" (a slot that is taken).
const BUSY_SENTINEL: f32 = f32::INFINITY;

/// A fresh slot is free and **not ready**: `ready` asks "should we wait for them",
/// and the free actor is exactly the one to wait for.
#[test]
fn a_fresh_slot_is_idle_and_not_ready() {
    let fresh: DecisionSlot<f32> = DecisionSlot::default();
    assert_eq!(fresh, DecisionSlot::Idle { intent: None });
    assert!(fresh.is_idle(), "空闲且没意图 → 可以声明");
    assert!(!fresh.ready(), "还没决定 → 世界该等他");
}

/// The two predicates answer different questions.
#[test]
fn the_two_predicates_answer_different_questions() {
    let executing: DecisionSlot<f32> = DecisionSlot::Executing { until: 1.0 };
    assert!(!executing.is_idle(), "在时间轴上 → 不能声明");
    assert!(executing.ready(), "忙着一手 → 别等他");

    let decided: DecisionSlot<f32> = DecisionSlot::Idle {
        intent: Some(Intent {
            ability: AbilityId::Move,
            target: Target::Untargeted,
        }),
    };
    assert!(!decided.is_idle(), "已经有意图了 → 不能再声明");
    assert!(decided.ready(), "已经决定了 → 别等他");
}

/// Picking an actor: the free slot wins; with nobody free, the HUD gets `BUSY`.
#[test]
fn first_ready_picks_the_first_empty_slot_or_reports_busy() {
    let busy: DecisionSlot<f32> = DecisionSlot::Executing {
        until: BUSY_SENTINEL,
    };
    let picked = first_ready(&[busy]);
    assert_eq!(
        picked.map_err(|blocked| blocked.reason),
        Err(BlockReason::Busy),
        "没人空着就挑不到，而且要报一条原因"
    );

    let ready: DecisionSlot<f32> = DecisionSlot::Idle { intent: None };
    assert_eq!(first_ready(&[busy, ready]), Ok(1), "空槽的人中选");
}

fn pending_player_action() -> UndoCandidate {
    UndoCandidate {
        pending: true,
        input_driven: true,
        cancellable: true,
    }
}

/// An undo takes back the player's pending action.
#[test]
fn decision_undo_broadcasts_the_cancellation_before_despawning() {
    assert_eq!(choose_undo(true, false, &[pending_player_action()]), Some(0));
}

/// An uncancellable action survives the undo.
#[test]
fn decision_an_uncancellable_action_survives_the_undo() {
    let jump = UndoCandidate {
        cancellable: false,
        ..pending_player_action()
    };
    assert_eq!(choose_undo(true, false, &[jump]), None);
}

/// An action that already came due cannot be undone.
#[test]
fn decision_an_action_that_already_came_due_cannot_be_undone() {
    let due = UndoCandidate {
        pending: false,
        ..pending_player_action()
    };
    assert_eq!(choose_undo(true, false, &[due]), None);
}

/// Only a player's own action (an explicit undo or taking over) asks for an undo.
#[test]
fn decision_only_a_player_intent_asks_for_an_undo() {
    let actions = [pending_player_action()];
    assert_eq!(choose_undo(false, false, &actions), None, "没人表态就不该撤销");
    assert_eq!(
        choose_undo(false, true, &actions),
        Some(0),
        "一句「玩家动手了」就够时间线撤掉那条还没到点的行动"
    );
}

#[test]
fn an_enemy_action_is_not_undone_and_only_one_action_goes() {
    let enemy = UndoCandidate {
        input_driven: false,
        ..pending_player_action()
    };
    assert_eq!(
        choose_undo(true, true, &[enemy, pending_player_action(), pending_player_action()]),
        Some(1)
    );
}

#[test]
fn a_busy_actor_cannot_wait() {
    let slots = [DecisionSlot::Executing { until: 999.0f32 }];
    let picked = timeline_tactics::timeline::decision::first_ready(&slots);
    assert_eq!(picked.map_err(|b| b.reason), Err(BlockReason::Busy), "忙的时候不该被等待顶掉");
    assert_eq!(slots[0], DecisionSlot::Executing { until: 999.0 });
}
