use timeline_tactics::hud::hint::{hint_step, HintShow};
use timeline_tactics::timeline::events::{ActionBlocked, BlockReason};

fn warning(show: HintShow) -> &'static str {
    match show {
        HintShow::Warn(message) => message,
        other => panic!("expected a warning, got {other:?}"),
    }
}

#[test]
fn a_blocked_input_shows_a_message_that_fades_out() {
    let shown = warning(hint_step(false, Some(ActionBlocked::busy().reason), true, None));
    assert!(shown.contains("CAN'T ACT"), "文案要说清楚是「还动不了」而不是别的：{shown}");

    // While the warning is up, a preview does not take the bar over.
    assert_eq!(hint_step(false, None, false, Some(true)), HintShow::Keep);
    assert_eq!(hint_step(false, None, false, None), HintShow::Keep);
    // Once it has faded, the preview gets the bar back, or the bar goes away.
    assert_eq!(hint_step(false, None, true, Some(true)), HintShow::Preview);
    assert_eq!(hint_step(false, None, true, Some(false)), HintShow::Hide);
    assert_eq!(hint_step(false, None, true, None), HintShow::Keep);
}

#[test]
fn a_refused_block_edit_reaches_the_same_hint_bar() {
    let shown = warning(hint_step(true, None, true, None));
    assert!(shown.contains("GROUND"), "文案要说清楚是「这里没有地」而不是别的：{shown}");
    assert_eq!(shown, "NO GROUND HERE · chunk not loaded");
    // The ground's refusal outranks the timeline's.
    assert_eq!(warning(hint_step(true, Some(BlockReason::Busy), false, Some(true))), shown);
}

#[test]
fn running_out_of_energy_gets_its_own_message() {
    let shown = warning(hint_step(false, Some(ActionBlocked::no_energy().reason), false, Some(true)));
    assert!(shown.contains("ENERGY"), "{shown}");
    assert_eq!(shown, "NOT ENOUGH ENERGY");
}
