//! The interrupt contest: when a hit lands on a unit whose move has not come due yet,
//! attacker and defender each roll 3d5 and the move is wiped out when the attack
//! side reaches the defence side.
//!
//! ```text
//! attack  = power            + 3 + 3d5
//! defence = interrupt_resist + 3 + 3d5
//! attack >= defence → the move is destroyed and the target gets its slot back
//! ```

use vstd::prelude::*;

verus! {

/// A uniformly random integer in `low..=high`, from the thread-local generator
/// (`rand::random_range`). The face depends on chance, so only its range is stated.
#[verifier::external_body]
fn random_in(low: i32, high: i32) -> (r: i32)
    requires
        low <= high,
    ensures
        low <= r <= high,
{
    rand::random_range(low..=high)
}

/// One face of a five-sided die.
pub open spec fn is_face(f: i32) -> bool {
    1 <= f <= 5
}

/// The total of three faces of five-sided dice.
pub fn sum_of_faces(a: i32, b: i32, c: i32) -> (r: i32)
    requires
        is_face(a),
        is_face(b),
        is_face(c),
    ensures
        r == a + b + c,
        3 <= r <= 15,
{
    a + b + c
}

/// 3d5: three five-sided dice thrown and added up (3..=15). The interrupt contest
/// adds one to each side for a bit of luck.
///
/// Each die is a uniform draw from `1..=5`; which faces come up is chance, so the
/// result is only known to be one such total.
pub fn roll_3d5() -> (r: i32)
    ensures
        3 <= r <= 15,
        exists|a: i32, b: i32, c: i32| is_face(a) && is_face(b) && is_face(c) && r == a + b + c,
{
    let first = random_in(1, 5);
    let second = random_in(1, 5);
    let third = random_in(1, 5);
    sum_of_faces(first, second, third)
}

/// The attack side of the contest.
pub open spec fn attack_score(power: i32, roll: i32) -> int {
    power + 3 + roll
}

/// The defence side of the contest.
pub open spec fn defence_score(interrupt_resist: i32, roll: i32) -> int {
    interrupt_resist + 3 + roll
}

/// The rule on given rolls: no power, no contest; otherwise the move is interrupted
/// when the attack side reaches the defence side.
pub fn interrupt_lands(power: i32, interrupt_resist: i32, attack_roll: i32, defence_roll: i32) -> (lands: bool)
    requires
        power + 3 <= i32::MAX,
        interrupt_resist + 3 <= i32::MAX,
        i32::MIN <= attack_score(power, attack_roll) <= i32::MAX,
        i32::MIN <= defence_score(interrupt_resist, defence_roll) <= i32::MAX,
    ensures
        lands == (power != 0 && attack_score(power, attack_roll) >= defence_score(
            interrupt_resist,
            defence_roll,
        )),
{
    if power == 0 {
        return false;
    }
    let attack = power + 3 + attack_roll;
    let defence = interrupt_resist + 3 + defence_roll;
    attack >= defence
}

/// Run the contest for a hit of strength `power` against a pending move with this
/// interrupt resistance: no power means no contest (and no dice); otherwise each
/// side rolls 3d5.
///
/// The dice decide, so what holds of every outcome is stated: a hit without power
/// never interrupts; a hit at least 12 stronger than the resistance always does (the
/// dice differ by at most 12); a hit more than 12 weaker never does.
pub fn contest_interrupt(power: i32, interrupt_resist: i32) -> (lands: bool)
    requires
        power <= i32::MAX - 18,
        interrupt_resist <= i32::MAX - 18,
    ensures
        power == 0 ==> !lands,
        power != 0 && power >= interrupt_resist + 12 ==> lands,
        power + 12 < interrupt_resist ==> !lands,
        exists|attack_roll: i32, defence_roll: i32|
            #![trigger attack_score(power, attack_roll), defence_score(interrupt_resist, defence_roll)]
            3 <= attack_roll <= 15 && 3 <= defence_roll <= 15 && lands == (power != 0
                && attack_score(power, attack_roll) >= defence_score(interrupt_resist, defence_roll)),
{
    if power == 0 {
        let lands = false;
        proof {
            let three: i32 = 3;
            assert(attack_score(power, three) == 3 + three);
            assert(defence_score(interrupt_resist, three) == interrupt_resist + 3 + three);
            assert(3 <= three <= 15 && lands == (power != 0 && attack_score(power, three)
                >= defence_score(interrupt_resist, three)));
        }
        return lands;
    }
    let attack_roll = roll_3d5();
    let defence_roll = roll_3d5();
    let lands = interrupt_lands(power, interrupt_resist, attack_roll, defence_roll);
    proof {
        assert(3 <= attack_roll <= 15 && 3 <= defence_roll <= 15 && lands == (power != 0
            && attack_score(power, attack_roll) >= defence_score(interrupt_resist, defence_roll)));
    }
    lands
}

/// Each side rolls its own 3d5, and that is what makes a close contest a contest:
/// whenever the hit has power and the two sides are within 12 of each other, some
/// pair of rolls breaks the move and some other pair does not. Were both sides to
/// share one roll, the dice would cancel and the outcome would be fixed by
/// `power >= interrupt_resist` alone.
pub proof fn lemma_each_side_rolls_its_own_dice(power: i32, interrupt_resist: i32)
    ensures
        power != 0 && interrupt_resist - 12 <= power < interrupt_resist + 12 ==> {
            &&& exists|a: i32, d: i32|
                3 <= a <= 15 && 3 <= d <= 15 && #[trigger] attack_score(power, a)
                    >= #[trigger] defence_score(interrupt_resist, d)
            &&& exists|a: i32, d: i32|
                3 <= a <= 15 && 3 <= d <= 15 && #[trigger] attack_score(power, a)
                    < #[trigger] defence_score(interrupt_resist, d)
        },
        forall|roll: i32|
            (#[trigger] attack_score(power, roll) >= defence_score(interrupt_resist, roll)) == (
            power >= interrupt_resist),
{
    assert(attack_score(power, 15) >= defence_score(interrupt_resist, 3) <==> power
        >= interrupt_resist - 12);
    assert(attack_score(power, 3) < defence_score(interrupt_resist, 15) <==> power
        < interrupt_resist + 12);
}

} // verus!
