use timeline_tactics::timeline::focus::{Focus, PendingFocus, FOCUS_MAX};
use timeline_tactics::timeline::interrupt::{contest_interrupt, interrupt_lands, roll_3d5, sum_of_faces};
use timeline_tactics::timeline::schedule::Cancellable;

fn focus_spends_only_when_available_and_recovers_to_the_cap_body() {
    let mut focus = Focus::default();
    assert_eq!(focus.current, FOCUS_MAX);

    for _ in 0..FOCUS_MAX {
        assert!(focus.spend());
    }
    assert!(!focus.spend(), "没有余量时花不出去");
    assert_eq!(focus.current, 0);

    focus.recover();
    assert_eq!(focus.current, 1);
    for _ in 0..FOCUS_MAX {
        focus.recover();
    }
    assert_eq!(focus.current, FOCUS_MAX, "回复封顶");
}

#[test]
fn focus_focus_spends_only_when_available_and_recovers_to_the_cap() {
    focus_spends_only_when_available_and_recovers_to_the_cap_body();
}

#[test]
fn resources_focus_spends_only_when_available_and_recovers_to_the_cap() {
    focus_spends_only_when_available_and_recovers_to_the_cap_body();
}

#[test]
fn an_empty_focus_pool_cannot_pay_and_stays_empty() {
    let mut focus = Focus { current: 0, max: 3 };
    assert!(!focus.available());
    assert!(!focus.spend());
    assert_eq!(focus, Focus { current: 0, max: 3 });
    assert!(PendingFocus(true).wants());
    assert!(!PendingFocus::default().wants());
}

#[test]
fn cancellable_carries_its_own_refund_and_penalty() {
    assert_eq!(Cancellable::Free.refund(), 0);
    assert_eq!(Cancellable::Never.penalty(), 0);
    let cost = Cancellable::Cost {
        refund: 2,
        penalty: 1,
    };
    assert_eq!((cost.refund(), cost.penalty()), (2, 1));
    assert_eq!(Cancellable::default(), Cancellable::Free);
}

/// An interrupt contest: no power means no contest; a power of 100 always wins.
#[test]
fn interrupt_despawns_a_pending_action_and_frees_the_slot() {
    assert!(!contest_interrupt(0, 3), "力度 0：连对抗都不做");
    for _ in 0..50 {
        assert!(contest_interrupt(100, 3), "力度 100：3d5 的差值最大 12，必赢");
    }
}

#[test]
fn three_d5_stays_between_3_and_15_and_the_rule_compares_both_sides() {
    for _ in 0..200 {
        let roll = roll_3d5();
        assert!((3..=15).contains(&roll), "{roll}");
    }
    assert!(interrupt_lands(5, 3, 3, 5), "5+3+3 = 11 >= 3+3+5 = 11");
    assert!(!interrupt_lands(5, 3, 3, 6));
    assert!(!interrupt_lands(0, -100, 15, 3), "没有力度就没有对抗");
    for _ in 0..50 {
        assert!(!contest_interrupt(1, 20), "差 19：怎么掷都打不断");
    }
}

#[test]
fn the_dice_really_roll() {
    let mut seen = std::collections::BTreeSet::new();
    for _ in 0..500 {
        let roll = roll_3d5();
        assert!((3..=15).contains(&roll), "{roll}");
        seen.insert(roll);
    }
    assert!(seen.len() > 3, "500 次 3d5 至少该掷出几种点数：{seen:?}");
}

#[test]
fn three_faces_add_up() {
    assert_eq!(sum_of_faces(1, 1, 1), 3);
    assert_eq!(sum_of_faces(5, 5, 5), 15);
    assert_eq!(sum_of_faces(2, 4, 3), 9);
}
