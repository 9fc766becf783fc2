//! What holds of the search for every hand, pile and set of known cards.

use vstd::prelude::*;
use crate::cards::Card;
use crate::cards::DrawCard;
use crate::collection::ascending_below;
use crate::collection::hand_score;
use crate::collection::in_order;
use crate::collection::lemma_ascending_members;
use crate::collection::lemma_ascending_strict;
use crate::evaluation::exceeds;
use crate::moves::consistent;
use crate::moves::swapped_pile;
use crate::moves::unknown_ids;
use crate::search::best_discard;
use crate::search::best_draw;
use crate::search::common_den;
use crate::search::deck_plan;
use crate::search::deck_plans;
use crate::search::deck_values;
use crate::search::depth_of;
use crate::search::discard_plans;
use crate::search::draw_plans;
use crate::search::first_best;
use crate::search::idle_plan;
use crate::search::keep;
use crate::search::return_plan;
use crate::search::scaled;
use crate::search::scaled_sum;
use crate::search::settle_plan;
use crate::search::value;
use crate::search::visible_plan;
use crate::search::visible_plans;
use crate::search::visible_row;
use crate::search::Plan;

verus! {

/// The evaluation of `a` is strictly greater than that of `b`.
pub open spec fn above(a: Plan, b: Plan) -> bool {
    exceeds(a.num, a.den, b.num, b.den)
}

/// The evaluation of `a` is not less than that of `b`.
pub open spec fn at_least(a: Plan, b: Plan) -> bool {
    !exceeds(b.num, b.den, a.num, a.den)
}

/// The place, among the first `n` of `plans`, of the plan that `first_best` chooses.
pub open spec fn first_best_index(plans: Seq<Plan>, n: nat) -> int
    decreases n,
{
    if n <= 1 {
        0
    } else {
        let k = first_best_index(plans, (n - 1) as nat);
        if above(plans[n - 1], plans[k]) {
            n - 1
        } else {
            k
        }
    }
}

/// A plan of equal evaluation never displaces the plan met before it.
pub proof fn law_tie_keeps_earlier(best: Plan, cand: Plan)
    requires
        cand.num * best.den == best.num * cand.den,
    ensures
        keep(best, cand) == best,
{
}

/// Strictly greater, then not less, gives strictly greater.
pub proof fn lemma_above_chain(a: Plan, b: Plan, c: Plan)
    requires
        a.den > 0,
        b.den > 0,
        c.den > 0,
        above(a, b),
        at_least(b, c),
    ensures
        above(a, c),
{
    let (an, ad, bn, bd, cn, cd) = (a.num, a.den, b.num, b.den, c.num, c.den);
    assert((an * bd) * cd > (bn * ad) * cd) by (nonlinear_arith)
        requires
            an * bd > bn * ad,
            cd > 0,
    ;
    assert((bn * cd) * ad >= (cn * bd) * ad) by (nonlinear_arith)
        requires
            bn * cd >= cn * bd,
            ad > 0,
    ;
    assert((bn * ad) * cd == (bn * cd) * ad) by (nonlinear_arith);
    assert((an * bd) * cd == (an * cd) * bd) by (nonlinear_arith);
    assert((cn * bd) * ad == (cn * ad) * bd) by (nonlinear_arith);
    assert(an * cd > cn * ad) by (nonlinear_arith)
        requires
            (an * cd) * bd > (cn * ad) * bd,
            bd > 0,
    ;
}

/// Tie-break stability. Among plans met in order, the one chosen is the
/// earliest of greatest evaluation: it is strictly greater than every plan
/// met before it, and no plan is greater than it.
pub proof fn law_first_best_is_earliest_greatest(plans: Seq<Plan>, n: nat)
    requires
        1 <= n <= plans.len(),
        forall|k: int| 0 <= k < n ==> (#[trigger] plans[k]).den > 0,
    ensures
        0 <= first_best_index(plans, n) < n,
        first_best(plans, n) == plans[first_best_index(plans, n)],
        forall|m: int| 0 <= m < first_best_index(plans, n) ==> above(first_best(plans, n), #[trigger] plans[m]),
        forall|m: int| 0 <= m < n ==> at_least(first_best(plans, n), #[trigger] plans[m]),
    decreases n,
{
    if n > 1 {
        let before = (n - 1) as nat;
        law_first_best_is_earliest_greatest(plans, before);
        let k = first_best_index(plans, before);
        let cand = plans[n - 1];
        if above(cand, plans[k]) {
            assert forall|m: int| 0 <= m < n - 1 implies above(cand, #[trigger] plans[m]) by {
                lemma_above_chain(cand, plans[k], plans[m]);
            }
        }
    }
}

/// `plan` takes one of `cards` into some slot of the hand.
pub open spec fn is_visible_move(plan: Plan, hand: Seq<u8>, pile: Set<u8>, known: Set<u8>, depth: nat, cards: Seq<u8>) -> bool {
    exists|slot: int, c: int|
        0 <= slot < 7 && 0 <= c < cards.len() && plan == #[trigger] visible_plan(
            hand,
            pile,
            known,
            depth,
            slot,
            cards[c],
        )
}

/// `plan` draws from the deck into some slot of the hand.
pub open spec fn is_deck_move(plan: Plan, hand: Seq<u8>, pile: Set<u8>, known: Set<u8>, depth: nat, cards: Seq<u8>) -> bool {
    exists|slot: int| 0 <= slot < 7 && plan == #[trigger] deck_plan(hand, pile, known, depth, slot, cards)
}

/// The plans of one slot's row, place by place.
pub proof fn lemma_visible_row_members(
    hand: Seq<u8>,
    pile: Set<u8>,
    known: Set<u8>,
    depth: nat,
    slot: int,
    cards: Seq<u8>,
    j: nat,
)
    requires
        j <= cards.len(),
    ensures
        visible_row(hand, pile, known, depth, slot, cards, j).len() == j,
        forall|k: int|
            0 <= k < j ==> #[trigger] visible_row(hand, pile, known, depth, slot, cards, j)[k] == visible_plan(
                hand,
                pile,
                known,
                depth,
                slot,
                cards[k],
            ),
    decreases j,
{
    if j > 0 {
        lemma_visible_row_members(hand, pile, known, depth, slot, cards, (j - 1) as nat);
    }
}

/// Every plan among the visible moves takes a listed card into a slot.
pub proof fn lemma_visible_plans_members(
    hand: Seq<u8>,
    pile: Set<u8>,
    known: Set<u8>,
    depth: nat,
    cards: Seq<u8>,
    i: nat,
)
    requires
        i <= 7,
    ensures
        forall|k: int|
            0 <= k < visible_plans(hand, pile, known, depth, cards, i).len() ==> is_visible_move(
                #[trigger] visible_plans(hand, pile, known, depth, cards, i)[k],
                hand,
                pile,
                known,
                depth,
                cards,
            ),
    decreases i,
{
    if i > 0 {
        let before = visible_plans(hand, pile, known, depth, cards, (i - 1) as nat);
        let row = visible_row(hand, pile, known, depth, i - 1, cards, cards.len());
        lemma_visible_plans_members(hand, pile, known, depth, cards, (i - 1) as nat);
        lemma_visible_row_members(hand, pile, known, depth, i - 1, cards, cards.len());
        assert forall|k: int| 0 <= k < (before + row).len() implies is_visible_move(
            #[trigger] (before + row)[k],
            hand,
            pile,
            known,
            depth,
            cards,
        ) by {
            if k >= before.len() {
                let c = k - before.len();
                assert(row[c] == visible_plan(hand, pile, known, depth, i - 1, cards[c]));
            }
        }
    }
}

/// The deck moves, place by place.
pub proof fn lemma_deck_plans_members(
    hand: Seq<u8>,
    pile: Set<u8>,
    known: Set<u8>,
    depth: nat,
    cards: Seq<u8>,
    i: nat,
)
    ensures
        deck_plans(hand, pile, known, depth, cards, i).len() == i,
        forall|k: int|
            0 <= k < i ==> #[trigger] deck_plans(hand, pile, known, depth, cards, i)[k] == deck_plan(
                hand,
                pile,
                known,
                depth,
                k,
                cards,
            ),
    decreases i,
{
    if i > 0 {
        lemma_deck_plans_members(hand, pile, known, depth, cards, (i - 1) as nat);
    }
}

/// The plans of the draw phase: leaving the hand comes first, and every
/// other plan is a visible move of a pile card or, where a card is unknown,
/// a deck move.
pub proof fn lemma_draw_plans_members(hand: Seq<u8>, pile: Set<u8>, known: Set<u8>, depth: nat)
    ensures
        draw_plans(hand, pile, known, depth).len() >= 1,
        draw_plans(hand, pile, known, depth)[0] == idle_plan(hand, pile, known, depth),
        forall|k: int|
            1 <= k < draw_plans(hand, pile, known, depth).len() ==> {
                let plan = #[trigger] draw_plans(hand, pile, known, depth)[k];
                ||| is_visible_move(plan, hand, pile, known, depth, in_order(pile))
                ||| (in_order(unknown_ids(hand, pile, known)).len() > 0 && is_deck_move(
                    plan,
                    hand,
                    pile,
                    known,
                    depth,
                    in_order(unknown_ids(hand, pile, known)),
                ))
            },
{
    let plans = draw_plans(hand, pile, known, depth);
    let first = seq![idle_plan(hand, pile, known, depth)];
    let seen = visible_plans(hand, pile, known, depth, in_order(pile), 7);
    let unseen = in_order(unknown_ids(hand, pile, known));
    let deck = deck_plans(hand, pile, known, depth, unseen, 7);
    lemma_visible_plans_members(hand, pile, known, depth, in_order(pile), 7);
    lemma_deck_plans_members(hand, pile, known, depth, unseen, 7);
    assert forall|k: int| 1 <= k < plans.len() implies {
        let plan = #[trigger] plans[k];
        ||| is_visible_move(plan, hand, pile, known, depth, in_order(pile))
        ||| (unseen.len() > 0 && is_deck_move(plan, hand, pile, known, depth, unseen))
    } by {
        if k < 1 + seen.len() {
            assert(plans[k] == seen[k - 1]);
        } else {
            let slot = k - 1 - seen.len();
            assert(plans[k] == deck[slot]);
            assert(deck[slot] == deck_plan(hand, pile, known, depth, slot, unseen));
        }
    }
}

/// The evaluation of a position has a positive denominator.
pub proof fn lemma_value_positive(hand: Seq<u8>, pile: Set<u8>, known: Set<u8>, depth: nat)
    ensures
        value(hand, pile, known, depth).1 > 0,
    decreases depth, 0nat,
{
    if depth > 0 {
        let plans = draw_plans(hand, pile, known, (depth - 1) as nat);
        lemma_draw_plans_positive(hand, pile, known, (depth - 1) as nat);
        law_first_best_is_earliest_greatest(plans, plans.len());
    }
}

/// Every plan of the draw phase has a positive denominator.
pub proof fn lemma_draw_plans_positive(hand: Seq<u8>, pile: Set<u8>, known: Set<u8>, depth: nat)
    ensures
        draw_plans(hand, pile, known, depth).len() >= 1,
        forall|k: int|
            0 <= k < draw_plans(hand, pile, known, depth).len() ==> (#[trigger] draw_plans(
                hand,
                pile,
                known,
                depth,
            )[k]).den > 0,
    decreases depth, 1nat,
{
    let plans = draw_plans(hand, pile, known, depth);
    let cards = in_order(pile);
    let unseen = in_order(unknown_ids(hand, pile, known));
    lemma_draw_plans_members(hand, pile, known, depth);
    assert forall|k: int| 0 <= k < plans.len() implies (#[trigger] plans[k]).den > 0 by {
        let plan = plans[k];
        if k == 0 {
            lemma_value_positive(hand, pile, known, depth);
        } else if is_visible_move(plan, hand, pile, known, depth, cards) {
            let (slot, c) = choose|slot: int, c: int|
                0 <= slot < 7 && 0 <= c < cards.len() && plan == #[trigger] visible_plan(
                    hand,
                    pile,
                    known,
                    depth,
                    slot,
                    cards[c],
                );
            lemma_value_positive(
                hand.update(slot, cards[c]),
                swapped_pile(hand, pile, slot, cards[c]),
                known,
                depth,
            );
        } else {
            let slot = choose|slot: int|
                0 <= slot < 7 && plan == #[trigger] deck_plan(hand, pile, known, depth, slot, unseen);
            lemma_deck_values_len(hand, pile, known, depth, slot, unseen, unseen.len());
            assert(common_den(unseen.len(), depth) * unseen.len() > 0) by (nonlinear_arith)
                requires
                    common_den(unseen.len(), depth) > 0,
                    unseen.len() > 0,
            ;
        }
    }
}

/// A deck move has one term for each card that could be drawn.
pub proof fn lemma_deck_values_len(
    hand: Seq<u8>,
    pile: Set<u8>,
    known: Set<u8>,
    depth: nat,
    slot: int,
    cards: Seq<u8>,
    j: nat,
)
    ensures
        deck_values(hand, pile, known, depth, slot, cards, j).len() == j,
        forall|k: int|
            0 <= k < j ==> #[trigger] deck_values(hand, pile, known, depth, slot, cards, j)[k] == value(
                hand.update(slot, cards[k]),
                swapped_pile(hand, pile, slot, cards[k]),
                known,
                depth,
            ),
    decreases j,
{
    if j > 0 {
        lemma_deck_values_len(hand, pile, known, depth, slot, cards, (j - 1) as nat);
    }
}

/// Never worse than doing nothing. The turn chosen in the draw phase is
/// evaluated at least as high as leaving the hand as it is.
pub proof fn law_draw_never_worse(hand: Seq<u8>, pile: Set<u8>, known: Set<u8>, depth: nat)
    ensures
        at_least(best_draw(hand, pile, known, depth), idle_plan(hand, pile, known, depth)),
{
    let plans = draw_plans(hand, pile, known, depth);
    lemma_draw_plans_positive(hand, pile, known, depth);
    lemma_draw_plans_members(hand, pile, known, depth);
    law_first_best_is_earliest_greatest(plans, plans.len());
    assert(at_least(first_best(plans, plans.len()), plans[0]));
}

/// Without lookahead, a chosen swap with the discard pile takes a card that
/// lies in the pile into a slot of the hand, gives up the card held there,
/// and leads to a score that is not below the present one.
pub proof fn law_chosen_swap_keeps_score(hand: Seq<u8>, pile: Set<u8>, known: Set<u8>)
    ensures
        best_draw(hand, pile, known, 0).draw matches Some(card) ==> pile.contains(card) && exists|slot: int|
            0 <= slot < 7 && best_draw(hand, pile, known, 0).discard == hand[slot] && #[trigger] hand_score(
                hand.update(slot, card),
                swapped_pile(hand, pile, slot, card),
            ) >= hand_score(hand, pile),
{
    let plans = draw_plans(hand, pile, known, 0);
    let cards = in_order(pile);
    let best = best_draw(hand, pile, known, 0);
    lemma_draw_plans_positive(hand, pile, known, 0);
    lemma_draw_plans_members(hand, pile, known, 0);
    law_first_best_is_earliest_greatest(plans, plans.len());
    lemma_ascending_members(pile, 53);
    let k = first_best_index(plans, plans.len());
    assert(best == plans[k]);
    assert(at_least(best, plans[0]));
    if best.draw.is_some() {
        assert(is_visible_move(best, hand, pile, known, 0, cards));
        let (slot, c) = choose|slot: int, c: int|
            0 <= slot < 7 && 0 <= c < cards.len() && best == #[trigger] visible_plan(
                hand,
                pile,
                known,
                0,
                slot,
                cards[c],
            );
        assert(pile.contains(cards[c]));
        assert(hand_score(hand.update(slot, cards[c]), swapped_pile(hand, pile, slot, cards[c])) >= hand_score(
            hand,
            pile,
        ));
    }
}

/// The plans of the discard phase, place by place.
pub proof fn lemma_discard_plans_members(
    hand: Seq<u8>,
    pile: Set<u8>,
    known: Set<u8>,
    depth: nat,
    drawn: u8,
    i: nat,
)
    ensures
        discard_plans(hand, pile, known, depth, drawn, i).len() == i + 1,
        discard_plans(hand, pile, known, depth, drawn, i)[0] == return_plan(hand, pile, known, depth, drawn),
        forall|k: int|
            1 <= k <= i ==> #[trigger] discard_plans(hand, pile, known, depth, drawn, i)[k] == settle_plan(
                hand,
                pile,
                known,
                depth,
                k - 1,
                drawn,
            ),
    decreases i,
{
    if i > 0 {
        lemma_discard_plans_members(hand, pile, known, depth, drawn, (i - 1) as nat);
    }
}

/// Never worse than doing nothing. The turn chosen in the discard phase
/// either gives the drawn card back or keeps it in a slot and gives up the
/// card held there; and it is evaluated at least as high as the position
/// is before the card is kept.
pub proof fn law_discard_never_worse(hand: Seq<u8>, pile: Set<u8>, known: Set<u8>, depth: nat, drawn: u8)
    ensures
        at_least(best_discard(hand, pile, known, depth, drawn), return_plan(hand, pile, known, depth, drawn)),
        best_discard(hand, pile, known, depth, drawn) == return_plan(hand, pile, known, depth, drawn) || exists|slot: int|
            0 <= slot < 7 && best_discard(hand, pile, known, depth, drawn) == #[trigger] settle_plan(
                hand,
                pile,
                known,
                depth,
                slot,
                drawn,
            ),
{
    let plans = discard_plans(hand, pile, known, depth, drawn, 7);
    lemma_discard_plans_members(hand, pile, known, depth, drawn, 7);
    assert forall|k: int| 0 <= k < plans.len() implies (#[trigger] plans[k]).den > 0 by {
        if k > 0 {
            lemma_value_positive(
                hand.update(k - 1, drawn),
                swapped_pile(hand, pile, k - 1, drawn),
                known,
                depth,
            );
        } else {
            lemma_value_positive(hand, pile, known, depth);
        }
    }
    law_first_best_is_earliest_greatest(plans, plans.len());
    let k = first_best_index(plans, plans.len());
    assert(at_least(first_best(plans, plans.len()), plans[0]));
    if k > 0 {
        assert(plans[k] == settle_plan(hand, pile, known, depth, k - 1, drawn));
    }
}

/// Without lookahead, the discard chosen for a card drawn from the deck
/// either is that card, which leaves the hand as it was, or is the card of
/// a slot in which the drawn card scores at least the present score.
pub proof fn law_kept_card_keeps_score(hand: Seq<u8>, pile: Set<u8>, known: Set<u8>, drawn: u8)
    ensures
        best_discard(hand, pile, known, 0, drawn).discard == drawn || exists|slot: int|
            0 <= slot < 7 && best_discard(hand, pile, known, 0, drawn).discard == hand[slot] && #[trigger] hand_score(
                hand.update(slot, drawn),
                swapped_pile(hand, pile, slot, drawn),
            ) >= hand_score(hand, pile),
{
    law_discard_never_worse(hand, pile, known, 0, drawn);
    let best = best_discard(hand, pile, known, 0, drawn);
    if best != return_plan(hand, pile, known, 0, drawn) {
        let slot = choose|slot: int|
            0 <= slot < 7 && best == #[trigger] settle_plan(hand, pile, known, 0, slot, drawn);
        assert(hand_score(hand.update(slot, drawn), swapped_pile(hand, pile, slot, drawn)) >= hand_score(
            hand,
            pile,
        ));
    }
}

/// Depth clamp. With any two positive counts of remaining turns the search
/// evaluates and chooses alike.
pub proof fn law_depth_clamp(hand: Seq<u8>, pile: Set<u8>, known: Set<u8>, drawn: u8, turns: u8, other: u8)
    requires
        turns >= 1,
        other >= 1,
    ensures
        value(hand, pile, known, depth_of(turns)) == value(hand, pile, known, depth_of(other)),
        best_draw(hand, pile, known, depth_of(turns)) == best_draw(hand, pile, known, depth_of(other)),
        best_discard(hand, pile, known, depth_of(turns), drawn) == best_discard(
            hand,
            pile,
            known,
            depth_of(other),
            drawn,
        ),
{
}

/// Determinism. Two draw actions that both answer to the plan chosen for
/// the same hand, pile and known cards are the same action, and so are two
/// discards.
pub proof fn law_same_inputs_same_action(
    hand: Seq<u8>,
    pile: Set<u8>,
    known: Set<u8>,
    depth: nat,
    drawn: u8,
    first_draw: DrawCard,
    second_draw: DrawCard,
    first_discard: Card,
    second_discard: Card,
)
    requires
        first_draw.source() == best_draw(hand, pile, known, depth).draw,
        second_draw.source() == best_draw(hand, pile, known, depth).draw,
        first_discard.id == best_discard(hand, pile, known, depth, drawn).discard,
        second_discard.id == best_discard(hand, pile, known, depth, drawn).discard,
    ensures
        first_draw == second_draw,
        first_discard == second_discard,
{
}

/// Taking a card out of a set takes it out of the ascending list, and
/// nothing else.
pub proof fn lemma_ascending_remove(s: Set<u8>, card: u8, n: nat)
    requires
        n <= 256,
    ensures
        ascending_below(s.remove(card), n).len() == ascending_below(s, n).len() - (if s.contains(card) && card
            < n {
            1int
        } else {
            0int
        }),
    decreases n,
{
    if n > 0 {
        lemma_ascending_remove(s, card, (n - 1) as nat);
    }
}

/// A card drawn from the deck is no longer unknown afterwards, and nothing
/// else changes about what is unknown, whichever slot it went to.
pub proof fn law_deck_draw_reveals_one_card(hand: Seq<u8>, pile: Set<u8>, known: Set<u8>, slot: int, card: u8)
    requires
        hand.len() == 7,
        0 <= slot < 7,
        unknown_ids(hand, pile, known).contains(card),
    ensures
        unknown_ids(hand.update(slot, card), swapped_pile(hand, pile, slot, card), known) == unknown_ids(
            hand,
            pile,
            known,
        ).remove(card),
        in_order(unknown_ids(hand.update(slot, card), swapped_pile(hand, pile, slot, card), known)).len()
            == in_order(unknown_ids(hand, pile, known)).len() - 1,
{
    let after_hand = hand.update(slot, card);
    let after_pile = swapped_pile(hand, pile, slot, card);
    let before = unknown_ids(hand, pile, known);
    let after = unknown_ids(after_hand, after_pile, known);
    assert forall|x: u8| after.contains(x) == before.remove(card).contains(x) by {
        if x == card {
            assert(after_hand[slot] == x);
            assert(after_hand.contains(x));
        } else {
            if hand.contains(x) {
                let j = choose|j: int| 0 <= j < hand.len() && hand[j] == x;
                if j != slot {
                    assert(after_hand[j] == x);
                    assert(after_hand.contains(x));
                } else {
                    assert(after_pile.contains(x));
                }
            }
            if after_hand.contains(x) {
                let j = choose|j: int| 0 <= j < after_hand.len() && after_hand[j] == x;
                assert(hand[j] == x);
                assert(hand.contains(x));
            }
            if after_pile.contains(x) && !pile.contains(x) {
                assert(hand[slot] == x);
                assert(hand.contains(x));
            }
        }
    }
    assert(after =~= before.remove(card));
    lemma_ascending_remove(before, card, 53);
}

/// Expectation. With at most one ply of lookahead, every position that a
/// deck draw leads to is evaluated as a whole number or as a fraction over
/// the shared denominator, so the evaluation of a deck move is the exact
/// mean of the evaluations it averages.
pub proof fn law_deck_terms_share_denominator(
    hand: Seq<u8>,
    pile: Set<u8>,
    known: Set<u8>,
    depth: nat,
    slot: int,
    card: u8,
)
    requires
        hand.len() == 7,
        0 <= slot < 7,
        depth <= 1,
        unknown_ids(hand, pile, known).contains(card),
    ensures
        ({
            let v = value(hand.update(slot, card), swapped_pile(hand, pile, slot, card), known, depth);
            let d = common_den(in_order(unknown_ids(hand, pile, known)).len(), depth);
            v.1 == 1 || v.1 == d
        }),
{
    if depth == 1 {
        let after_hand = hand.update(slot, card);
        let after_pile = swapped_pile(hand, pile, slot, card);
        let unseen = in_order(unknown_ids(after_hand, after_pile, known));
        let plans = draw_plans(after_hand, after_pile, known, 0);
        law_deck_draw_reveals_one_card(hand, pile, known, slot, card);
        lemma_draw_plans_positive(after_hand, after_pile, known, 0);
        lemma_draw_plans_members(after_hand, after_pile, known, 0);
        law_first_best_is_earliest_greatest(plans, plans.len());
        let best = first_best(plans, plans.len());
        let k = first_best_index(plans, plans.len());
        assert(best == plans[k]);
        if k > 0 && !is_visible_move(best, after_hand, after_pile, known, 0, in_order(after_pile)) {
            let s = choose|s: int|
                0 <= s < 7 && best == #[trigger] deck_plan(after_hand, after_pile, known, 0, s, unseen);
            lemma_deck_values_len(after_hand, after_pile, known, 0, s, unseen, unseen.len());
            assert(best.den == 1 * unseen.len());
        }
    }
}

/// Tie-break stability of the draw decision. The turn chosen is the
/// earliest plan of greatest evaluation in the order of `draw_plans`:
/// leaving the hand, then the visible moves by slot and by pile order, then
/// the deck moves by slot.
pub proof fn law_draw_choice_is_earliest_greatest(hand: Seq<u8>, pile: Set<u8>, known: Set<u8>, depth: nat)
    ensures
        ({
            let plans = draw_plans(hand, pile, known, depth);
            let best = best_draw(hand, pile, known, depth);
            let k = first_best_index(plans, plans.len());
            &&& 0 <= k < plans.len()
            &&& best == plans[k]
            &&& forall|m: int| 0 <= m < k ==> above(best, #[trigger] plans[m])
            &&& forall|m: int| 0 <= m < plans.len() ==> at_least(best, #[trigger] plans[m])
        }),
{
    let plans = draw_plans(hand, pile, known, depth);
    lemma_draw_plans_positive(hand, pile, known, depth);
    law_first_best_is_earliest_greatest(plans, plans.len());
}

/// Tie-break stability of the discard decision. The turn chosen is the
/// earliest plan of greatest evaluation in the order of `discard_plans`:
/// giving the drawn card back, then keeping it in each slot in turn.
pub proof fn law_discard_choice_is_earliest_greatest(
    hand: Seq<u8>,
    pile: Set<u8>,
    known: Set<u8>,
    depth: nat,
    drawn: u8,
)
    ensures
        ({
            let plans = discard_plans(hand, pile, known, depth, drawn, 7);
            let best = best_discard(hand, pile, known, depth, drawn);
            let k = first_best_index(plans, plans.len());
            &&& plans.len() == 8
            &&& 0 <= k < 8
            &&& best == plans[k]
            &&& forall|m: int| 0 <= m < k ==> above(best, #[trigger] plans[m])
            &&& forall|m: int| 0 <= m < 8 ==> at_least(best, #[trigger] plans[m])
        }),
{
    let plans = discard_plans(hand, pile, known, depth, drawn, 7);
    lemma_discard_plans_members(hand, pile, known, depth, drawn, 7);
    assert forall|k: int| 0 <= k < plans.len() implies (#[trigger] plans[k]).den > 0 by {
        if k > 0 {
            lemma_value_positive(
                hand.update(k - 1, drawn),
                swapped_pile(hand, pile, k - 1, drawn),
                known,
                depth,
            );
        } else {
            lemma_value_positive(hand, pile, known, depth);
        }
    }
    law_first_best_is_earliest_greatest(plans, plans.len());
}

/// The number of visible moves into the slots `0..i`.
pub proof fn lemma_visible_plans_count(
    hand: Seq<u8>,
    pile: Set<u8>,
    known: Set<u8>,
    depth: nat,
    cards: Seq<u8>,
    i: nat,
)
    ensures
        visible_plans(hand, pile, known, depth, cards, i).len() == i * cards.len(),
    decreases i,
{
    if i > 0 {
        lemma_visible_plans_count(hand, pile, known, depth, cards, (i - 1) as nat);
        lemma_visible_row_members(hand, pile, known, depth, i - 1, cards, cards.len());
        assert((i - 1) * cards.len() + cards.len() == i * cards.len()) by (nonlinear_arith);
    } else {
        assert(i * cards.len() == 0) by (nonlinear_arith)
            requires
                i == 0,
        ;
    }
}

/// There is one plan for leaving the hand, seven for each card of the
/// pile, and seven for the deck unless no card is unknown.
pub proof fn law_plan_count(hand: Seq<u8>, pile: Set<u8>, known: Set<u8>, depth: nat)
    ensures
        draw_plans(hand, pile, known, depth).len() == 1 + 7 * in_order(pile).len() + (if in_order(
            unknown_ids(hand, pile, known),
        ).len() == 0 {
            0int
        } else {
            7int
        }),
{
    lemma_visible_plans_count(hand, pile, known, depth, in_order(pile), 7);
    lemma_deck_plans_members(hand, pile, known, depth, in_order(unknown_ids(hand, pile, known)), 7);
}

/// Taking into a slot the card that the slot holds already changes
/// nothing, and is evaluated as leaving the hand is.
pub proof fn law_same_card_swap_is_idle(hand: Seq<u8>, pile: Set<u8>, known: Set<u8>, depth: nat, slot: int)
    requires
        0 <= slot < hand.len(),
        !pile.contains(hand[slot]),
    ensures
        hand.update(slot, hand[slot]) == hand,
        swapped_pile(hand, pile, slot, hand[slot]) == pile,
        value(hand.update(slot, hand[slot]), swapped_pile(hand, pile, slot, hand[slot]), known, depth) == value(
            hand,
            pile,
            known,
            depth,
        ),
{
    assert(hand.update(slot, hand[slot]) =~= hand);
    assert(swapped_pile(hand, pile, slot, hand[slot]) =~= pile);
}

/// Expectation. With at most one ply of lookahead, each term of a deck
/// move enters the sum as the very fraction it is: its numerator over the
/// shared denominator equals its evaluation.
pub proof fn law_deck_terms_are_exact(hand: Seq<u8>, pile: Set<u8>, known: Set<u8>, depth: nat, slot: int, k: int)
    requires
        hand.len() == 7,
        0 <= slot < 7,
        depth <= 1,
        0 <= k < in_order(unknown_ids(hand, pile, known)).len(),
    ensures
        ({
            let cards = in_order(unknown_ids(hand, pile, known));
            let term = deck_values(hand, pile, known, depth, slot, cards, cards.len())[k];
            let d = common_den(cards.len(), depth);
            scaled(term, d) * term.1 == term.0 * d
        }),
{
    let cards = in_order(unknown_ids(hand, pile, known));
    lemma_deck_values_len(hand, pile, known, depth, slot, cards, cards.len());
    lemma_ascending_members(unknown_ids(hand, pile, known), 53);
    law_deck_terms_share_denominator(hand, pile, known, depth, slot, cards[k]);
}

/// The sum of the scores reached by drawing each of `cards[0..j]` into `slot`.
pub open spec fn score_sum(hand: Seq<u8>, pile: Set<u8>, slot: int, cards: Seq<u8>, j: nat) -> int
    decreases j,
{
    if j == 0 {
        0
    } else {
        score_sum(hand, pile, slot, cards, (j - 1) as nat) + hand_score(
            hand.update(slot, cards[j - 1]),
            swapped_pile(hand, pile, slot, cards[j - 1]),
        )
    }
}

/// Without lookahead the terms of a deck move add up to the sum of the scores.
pub proof fn lemma_scaled_sum_of_scores(
    hand: Seq<u8>,
    pile: Set<u8>,
    known: Set<u8>,
    slot: int,
    cards: Seq<u8>,
    j: nat,
)
    requires
        j <= cards.len(),
    ensures
        scaled_sum(deck_values(hand, pile, known, 0, slot, cards, cards.len()), 1, j) == score_sum(
            hand,
            pile,
            slot,
            cards,
            j,
        ),
    decreases j,
{
    if j > 0 {
        lemma_scaled_sum_of_scores(hand, pile, known, slot, cards, (j - 1) as nat);
        lemma_deck_values_len(hand, pile, known, 0, slot, cards, cards.len());
    }
}

/// Expectation. Without lookahead a deck move is evaluated at the
/// arithmetic mean of the scores that the unknown cards would give: the sum
/// of those scores over their number.
pub proof fn law_deck_plan_is_mean_of_scores(hand: Seq<u8>, pile: Set<u8>, known: Set<u8>, slot: int, cards: Seq<u8>)
    ensures
        deck_plan(hand, pile, known, 0, slot, cards).num == score_sum(hand, pile, slot, cards, cards.len()),
        deck_plan(hand, pile, known, 0, slot, cards).den == cards.len(),
{
    lemma_deck_values_len(hand, pile, known, 0, slot, cards, cards.len());
    lemma_scaled_sum_of_scores(hand, pile, known, slot, cards, cards.len());
}

/// Every move leads from a consistent position to a consistent position:
/// the card taken leaves the pile or the unknown cards, and the card given
/// up joins the pile.
pub proof fn law_moves_keep_positions_consistent(hand: Seq<u8>, pile: Set<u8>, known: Set<u8>, slot: int, card: u8)
    requires
        consistent(hand, pile, known),
        0 <= slot < 7,
        pile.contains(card) || unknown_ids(hand, pile, known).contains(card),
    ensures
        consistent(hand.update(slot, card), swapped_pile(hand, pile, slot, card), known),
        !swapped_pile(hand, pile, slot, card).contains(card),
        swapped_pile(hand, pile, slot, card).contains(hand[slot]),
{
    let after_hand = hand.update(slot, card);
    let after_pile = swapped_pile(hand, pile, slot, card);
    assert forall|i: int| 0 <= i < 7 implies hand[i] != card by {
        if hand[i] == card {
            assert(hand.contains(card));
            assert(hand.to_set().contains(card));
        }
    }
    assert forall|i: int, j: int| 0 <= i < 7 && 0 <= j < 7 && i != j implies after_hand[i] != after_hand[j] by {
    }
    assert(!known.contains(card));
    assert forall|i: int| 0 <= i < 7 implies !after_pile.contains(#[trigger] after_hand[i]) && !known.contains(
        after_hand[i],
    ) by {
        if i != slot {
            assert(after_hand[i] == hand[i]);
        }
    }
}

/// The place of a visible move among the visible moves into the slots
/// `0..i`: slot by slot, and within a slot in the order of `cards`.
pub proof fn lemma_visible_plan_place(
    hand: Seq<u8>,
    pile: Set<u8>,
    known: Set<u8>,
    depth: nat,
    cards: Seq<u8>,
    i: nat,
    slot: int,
    m: int,
)
    requires
        i <= 7,
        0 <= slot < i,
        0 <= m < cards.len(),
    ensures
        0 <= slot * cards.len() + m < visible_plans(hand, pile, known, depth, cards, i).len(),
        visible_plans(hand, pile, known, depth, cards, i)[slot * cards.len() + m] == visible_plan(
            hand,
            pile,
            known,
            depth,
            slot,
            cards[m],
        ),
    decreases i,
{
    let d = cards.len() as int;
    lemma_visible_plans_count(hand, pile, known, depth, cards, i);
    lemma_visible_plans_count(hand, pile, known, depth, cards, (i - 1) as nat);
    lemma_visible_row_members(hand, pile, known, depth, i - 1, cards, cards.len());
    assert(0 <= slot * d && slot * d + d <= i * d && (i - 1) * d + d == i * d) by (nonlinear_arith)
        requires
            0 <= slot < i,
            0 <= d,
    ;
    if slot < i - 1 {
        lemma_visible_plan_place(hand, pile, known, depth, cards, (i - 1) as nat, slot, m);
    }
}

/// Every place among the visible moves into the slots `0..i` is that of
/// one slot and one card.
pub proof fn lemma_visible_place_of(
    hand: Seq<u8>,
    pile: Set<u8>,
    known: Set<u8>,
    depth: nat,
    cards: Seq<u8>,
    i: nat,
    q: int,
)
    requires
        i <= 7,
        0 <= q < visible_plans(hand, pile, known, depth, cards, i).len(),
    ensures
        exists|slot: int, m: int|
            0 <= slot < i && 0 <= m < cards.len() && q == slot * cards.len() + m && visible_plans(
                hand,
                pile,
                known,
                depth,
                cards,
                i,
            )[q] == #[trigger] visible_plan(hand, pile, known, depth, slot, cards[m]),
    decreases i,
{
    let d = cards.len() as int;
    if i > 0 {
        let before = visible_plans(hand, pile, known, depth, cards, (i - 1) as nat);
        lemma_visible_plans_count(hand, pile, known, depth, cards, i);
        lemma_visible_plans_count(hand, pile, known, depth, cards, (i - 1) as nat);
        lemma_visible_row_members(hand, pile, known, depth, i - 1, cards, cards.len());
        assert((i - 1) * d + d == i * d) by (nonlinear_arith);
        if q < before.len() {
            lemma_visible_place_of(hand, pile, known, depth, cards, (i - 1) as nat, q);
            let (slot, m) = choose|slot: int, m: int|
                0 <= slot < i - 1 && 0 <= m < cards.len() && q == slot * cards.len() + m && before[q]
                    == #[trigger] visible_plan(hand, pile, known, depth, slot, cards[m]);
            assert(visible_plans(hand, pile, known, depth, cards, i)[q] == visible_plan(
                hand,
                pile,
                known,
                depth,
                slot,
                cards[m],
            ));
        } else {
            let m = q - (i - 1) * d;
            assert(visible_plans(hand, pile, known, depth, cards, i)[q] == visible_plan(
                hand,
                pile,
                known,
                depth,
                i - 1,
                cards[m],
            ));
        }
    } else {
        lemma_visible_plans_count(hand, pile, known, depth, cards, i);
    }
}

/// Tie-break stability by slot and pile order. When the turn chosen takes
/// the pile card at `place` into `slot`, it is strictly better than leaving
/// the hand and than every visible move of a lower slot, or of the same
/// slot and an earlier pile card; and no visible move is better than it.
pub proof fn law_chosen_swap_is_earliest_greatest(
    hand: Seq<u8>,
    pile: Set<u8>,
    known: Set<u8>,
    depth: nat,
    slot: int,
    place: int,
)
    requires
        hand.len() == 7,
        hand.no_duplicates(),
        0 <= slot < 7,
        0 <= place < in_order(pile).len(),
        best_draw(hand, pile, known, depth) == visible_plan(hand, pile, known, depth, slot, in_order(pile)[place]),
    ensures
        above(best_draw(hand, pile, known, depth), idle_plan(hand, pile, known, depth)),
        forall|j: int, m: int|
            0 <= j < 7 && 0 <= m < in_order(pile).len() ==> at_least(
                best_draw(hand, pile, known, depth),
                #[trigger] visible_plan(hand, pile, known, depth, j, in_order(pile)[m]),
            ),
        forall|j: int, m: int|
            0 <= j < 7 && 0 <= m < in_order(pile).len() && (j < slot || (j == slot && m < place)) ==> above(
                best_draw(hand, pile, known, depth),
                #[trigger] visible_plan(hand, pile, known, depth, j, in_order(pile)[m]),
            ),
{
    let cards = in_order(pile);
    let d = cards.len() as int;
    let plans = draw_plans(hand, pile, known, depth);
    let best = best_draw(hand, pile, known, depth);
    let seen = visible_plans(hand, pile, known, depth, cards, 7);
    let unseen = in_order(unknown_ids(hand, pile, known));
    let k = first_best_index(plans, plans.len());
    law_draw_choice_is_earliest_greatest(hand, pile, known, depth);
    lemma_draw_plans_members(hand, pile, known, depth);
    lemma_visible_plans_count(hand, pile, known, depth, cards, 7);
    lemma_deck_plans_members(hand, pile, known, depth, unseen, 7);
    lemma_ascending_strict(pile, 53);
    assert(k != 0);
    if k > seen.len() {
        assert(plans[k] == deck_plans(hand, pile, known, depth, unseen, 7)[k - 1 - seen.len()]);
        assert(false);
    }
    assert(plans[k] == seen[k - 1]);
    lemma_visible_place_of(hand, pile, known, depth, cards, 7, k - 1);
    let (s, c) = choose|s: int, c: int|
        0 <= s < 7 && 0 <= c < cards.len() && k - 1 == s * cards.len() + c && seen[k - 1] == #[trigger] visible_plan(
            hand,
            pile,
            known,
            depth,
            s,
            cards[c],
        );
    assert(hand[s] == hand[slot]);
    assert(s == slot);
    assert(cards[c] == cards[place]);
    assert(c == place);
    assert(above(best, plans[0]));
    assert forall|j: int, m: int| 0 <= j < 7 && 0 <= m < cards.len() implies at_least(
        best,
        #[trigger] visible_plan(hand, pile, known, depth, j, cards[m]),
    ) && ((j < slot || (j == slot && m < place)) ==> above(
        best,
        visible_plan(hand, pile, known, depth, j, cards[m]),
    )) by {
        lemma_visible_plan_place(hand, pile, known, depth, cards, 7, j, m);
        assert(plans[1 + j * d + m] == seen[j * d + m]);
        if j < slot || (j == slot && m < place) {
            assert(j * d + m < slot * d + place) by (nonlinear_arith)
                requires
                    0 <= j,
                    0 <= m < d,
                    0 <= place,
                    j < slot || (j == slot && m < place),
            ;
        }
    }
}

/// Tie-break stability of the discard by slot. For a hand without repeats
/// and a drawn card that is not held: the drawn card goes back exactly when
/// keeping it in no slot is better than the position as it is; and when
/// the card of a slot is given up, keeping the drawn card there is
/// strictly better than giving it back and than keeping it in any lower
/// slot, and no slot is better.
pub proof fn law_chosen_discard_is_earliest_greatest(
    hand: Seq<u8>,
    pile: Set<u8>,
    known: Set<u8>,
    depth: nat,
    drawn: u8,
)
    requires
        hand.len() == 7,
        hand.no_duplicates(),
        forall|i: int| 0 <= i < 7 ==> hand[i] != drawn,
    ensures
        best_discard(hand, pile, known, depth, drawn).discard == drawn <==> forall|j: int|
            0 <= j < 7 ==> at_least(
                return_plan(hand, pile, known, depth, drawn),
                #[trigger] settle_plan(hand, pile, known, depth, j, drawn),
            ),
        forall|i: int|
            0 <= i < 7 && best_discard(hand, pile, known, depth, drawn).discard == hand[i] ==> {
                &&& best_discard(hand, pile, known, depth, drawn) == settle_plan(hand, pile, known, depth, i, drawn)
                &&& above(
                    settle_plan(hand, pile, known, depth, i, drawn),
                    return_plan(hand, pile, known, depth, drawn),
                )
                &&& forall|j: int|
                    0 <= j < 7 ==> at_least(
                        settle_plan(hand, pile, known, depth, i, drawn),
                        #[trigger] settle_plan(hand, pile, known, depth, j, drawn),
                    )
                &&& forall|j: int|
                    0 <= j < i ==> above(
                        settle_plan(hand, pile, known, depth, i, drawn),
                        #[trigger] settle_plan(hand, pile, known, depth, j, drawn),
                    )
            },
{
    let plans = discard_plans(hand, pile, known, depth, drawn, 7);
    let best = best_discard(hand, pile, known, depth, drawn);
    let give = return_plan(hand, pile, known, depth, drawn);
    let k = first_best_index(plans, plans.len());
    law_discard_choice_is_earliest_greatest(hand, pile, known, depth, drawn);
    lemma_discard_plans_members(hand, pile, known, depth, drawn, 7);
    assert(plans[0] == give);
    assert forall|j: int| 0 <= j < 7 implies plans[j + 1] == #[trigger] settle_plan(
        hand,
        pile,
        known,
        depth,
        j,
        drawn,
    ) by {
    }
    if k > 0 {
        assert(best == settle_plan(hand, pile, known, depth, k - 1, drawn));
        assert(best.discard == hand[k - 1]);
        assert(above(best, plans[0]));
        assert forall|i: int| 0 <= i < 7 && best.discard == hand[i] implies i == k - 1 by {
        }
        assert forall|j: int| 0 <= j < 7 implies at_least(
            best,
            #[trigger] settle_plan(hand, pile, known, depth, j, drawn),
        ) by {
            assert(at_least(best, plans[j + 1]));
        }
        assert forall|j: int| 0 <= j < k - 1 implies above(
            best,
            #[trigger] settle_plan(hand, pile, known, depth, j, drawn),
        ) by {
            assert(above(best, plans[j + 1]));
        }
    } else {
        assert(best == give);
        assert forall|j: int| 0 <= j < 7 implies at_least(
            give,
            #[trigger] settle_plan(hand, pile, known, depth, j, drawn),
        ) by {
            assert(at_least(best, plans[j + 1]));
        }
    }
}

/// The places of the plans of the draw phase: leaving the hand comes
/// first; the visible move of the pile card at `m` into `slot` stands at
/// `1 + slot * pile size + m`; the deck moves follow all of them, slot by slot.
pub proof fn law_plan_places(hand: Seq<u8>, pile: Set<u8>, known: Set<u8>, depth: nat, slot: int, m: int)
    requires
        0 <= slot < 7,
    ensures
        draw_plans(hand, pile, known, depth)[0] == idle_plan(hand, pile, known, depth),
        0 <= m < in_order(pile).len() ==> draw_plans(hand, pile, known, depth)[1 + slot * in_order(pile).len() + m]
            == visible_plan(hand, pile, known, depth, slot, in_order(pile)[m]),
        in_order(unknown_ids(hand, pile, known)).len() > 0 ==> draw_plans(hand, pile, known, depth)[1 + 7
            * in_order(pile).len() + slot] == deck_plan(
            hand,
            pile,
            known,
            depth,
            slot,
            in_order(unknown_ids(hand, pile, known)),
        ),
{
    let cards = in_order(pile);
    let unseen = in_order(unknown_ids(hand, pile, known));
    lemma_visible_plans_count(hand, pile, known, depth, cards, 7);
    lemma_deck_plans_members(hand, pile, known, depth, unseen, 7);
    if 0 <= m < cards.len() {
        lemma_visible_plan_place(hand, pile, known, depth, cards, 7, slot, m);
    }
}

/// Tie-break stability of a deck draw. When the plan chosen stands at the
/// place of the deck move into `slot`, that move is strictly better than
/// leaving the hand, than every visible move and than the deck move into
/// any lower slot; and no deck move is better than it. A deck move that
/// only equals the best visible move is not chosen.
pub proof fn law_chosen_deck_move_is_earliest_greatest(
    hand: Seq<u8>,
    pile: Set<u8>,
    known: Set<u8>,
    depth: nat,
    slot: int,
)
    requires
        0 <= slot < 7,
        in_order(unknown_ids(hand, pile, known)).len() > 0,
        first_best_index(draw_plans(hand, pile, known, depth), draw_plans(hand, pile, known, depth).len()) == 1 + 7
            * in_order(pile).len() + slot,
    ensures
        ({
            let unseen = in_order(unknown_ids(hand, pile, known));
            let best = deck_plan(hand, pile, known, depth, slot, unseen);
            &&& best_draw(hand, pile, known, depth) == best
            &&& above(best, idle_plan(hand, pile, known, depth))
            &&& forall|j: int, m: int|
                0 <= j < 7 && 0 <= m < in_order(pile).len() ==> above(
                    best,
                    #[trigger] visible_plan(hand, pile, known, depth, j, in_order(pile)[m]),
                )
            &&& forall|j: int| 0 <= j < slot ==> above(best, #[trigger] deck_plan(hand, pile, known, depth, j, unseen))
            &&& forall|j: int| 0 <= j < 7 ==> at_least(best, #[trigger] deck_plan(hand, pile, known, depth, j, unseen))
        }),
{
    let cards = in_order(pile);
    let d = cards.len() as int;
    let unseen = in_order(unknown_ids(hand, pile, known));
    let plans = draw_plans(hand, pile, known, depth);
    let best = best_draw(hand, pile, known, depth);
    law_draw_choice_is_earliest_greatest(hand, pile, known, depth);
    law_plan_count(hand, pile, known, depth);
    law_plan_places(hand, pile, known, depth, slot, 0);
    assert(above(best, plans[0]));
    assert forall|j: int, m: int| 0 <= j < 7 && 0 <= m < cards.len() implies above(
        best,
        #[trigger] visible_plan(hand, pile, known, depth, j, cards[m]),
    ) by {
        law_plan_places(hand, pile, known, depth, j, m);
        assert(0 <= j * d + m < 7 * d) by (nonlinear_arith)
            requires
                0 <= j < 7,
                0 <= m < d,
        ;
        assert(above(best, plans[1 + j * d + m]));
    }
    assert forall|j: int| 0 <= j < 7 implies at_least(
        best,
        #[trigger] deck_plan(hand, pile, known, depth, j, unseen),
    ) && (j < slot ==> above(best, deck_plan(hand, pile, known, depth, j, unseen))) by {
        law_plan_places(hand, pile, known, depth, j, 0);
        assert(at_least(best, plans[1 + 7 * d + j]));
        if j < slot {
            assert(above(best, plans[1 + 7 * d + j]));
        }
    }
}

/// The score reached by taking `card` into `slot`.
pub open spec fn score_after(hand: Seq<u8>, pile: Set<u8>, slot: int, card: u8) -> int {
    hand_score(hand.update(slot, card), swapped_pile(hand, pile, slot, card))
}

/// Tie-break stability in scores. Without lookahead, when the turn chosen
/// takes the pile card at `place` into `slot`, the score it reaches is
/// above the present score and above that of every visible move of a
/// lower slot, or of the same slot and an earlier pile card; and no visible
/// move reaches a higher score.
pub proof fn law_chosen_swap_scores_first_and_most(
    hand: Seq<u8>,
    pile: Set<u8>,
    known: Set<u8>,
    slot: int,
    place: int,
)
    requires
        hand.len() == 7,
        hand.no_duplicates(),
        0 <= slot < 7,
        0 <= place < in_order(pile).len(),
        best_draw(hand, pile, known, 0).draw == Some(in_order(pile)[place]),
        best_draw(hand, pile, known, 0).discard == hand[slot],
    ensures
        score_after(hand, pile, slot, in_order(pile)[place]) > hand_score(hand, pile),
        forall|j: int, m: int|
            0 <= j < 7 && 0 <= m < in_order(pile).len() ==> #[trigger] score_after(hand, pile, j, in_order(pile)[m])
                <= score_after(hand, pile, slot, in_order(pile)[place]),
        forall|j: int, m: int|
            0 <= j < 7 && 0 <= m < in_order(pile).len() && (j < slot || (j == slot && m < place))
                ==> #[trigger] score_after(hand, pile, j, in_order(pile)[m]) < score_after(
                hand,
                pile,
                slot,
                in_order(pile)[place],
            ),
{
    let cards = in_order(pile);
    let best = best_draw(hand, pile, known, 0);
    let plans = draw_plans(hand, pile, known, 0);
    law_draw_choice_is_earliest_greatest(hand, pile, known, 0);
    lemma_draw_plans_members(hand, pile, known, 0);
    lemma_ascending_strict(pile, 53);
    let k = first_best_index(plans, plans.len());
    assert(k != 0);
    assert(is_visible_move(best, hand, pile, known, 0, cards));
    let (s, c) = choose|s: int, c: int|
        0 <= s < 7 && 0 <= c < cards.len() && best == #[trigger] visible_plan(hand, pile, known, 0, s, cards[c]);
    assert(hand[s] == hand[slot]);
    assert(s == slot);
    assert(cards[c] == cards[place]);
    assert(c == place);
    law_chosen_swap_is_earliest_greatest(hand, pile, known, 0, slot, place);
    assert forall|j: int, m: int| 0 <= j < 7 && 0 <= m < cards.len() implies #[trigger] score_after(
        hand,
        pile,
        j,
        cards[m],
    ) <= score_after(hand, pile, slot, cards[place]) && ((j < slot || (j == slot && m < place)) ==> score_after(
        hand,
        pile,
        j,
        cards[m],
    ) < score_after(hand, pile, slot, cards[place])) by {
        let other = visible_plan(hand, pile, known, 0, j, cards[m]);
        assert(at_least(best, other));
        if j < slot || (j == slot && m < place) {
            assert(above(best, other));
        }
    }
}

/// Tie-break stability of the discard in scores. Without lookahead, for a
/// hand without repeats and a drawn card that is not held: the drawn card
/// goes back exactly when it raises the score in no slot; and when the card
/// of a slot is given up, the drawn card scores there above the present
/// score and above every lower slot, and no slot scores higher.
pub proof fn law_chosen_discard_scores_first_and_most(hand: Seq<u8>, pile: Set<u8>, known: Set<u8>, drawn: u8)
    requires
        hand.len() == 7,
        hand.no_duplicates(),
        forall|i: int| 0 <= i < 7 ==> hand[i] != drawn,
    ensures
        best_discard(hand, pile, known, 0, drawn).discard == drawn <==> forall|j: int|
            0 <= j < 7 ==> #[trigger] score_after(hand, pile, j, drawn) <= hand_score(hand, pile),
        forall|i: int|
            0 <= i < 7 && best_discard(hand, pile, known, 0, drawn).discard == hand[i] ==> {
                &&& score_after(hand, pile, i, drawn) > hand_score(hand, pile)
                &&& forall|j: int|
                    0 <= j < 7 ==> #[trigger] score_after(hand, pile, j, drawn) <= score_after(hand, pile, i, drawn)
                &&& forall|j: int|
                    0 <= j < i ==> #[trigger] score_after(hand, pile, j, drawn) < score_after(hand, pile, i, drawn)
            },
{
    law_chosen_discard_is_earliest_greatest(hand, pile, known, 0, drawn);
    let give = return_plan(hand, pile, known, 0, drawn);
    let best = best_discard(hand, pile, known, 0, drawn);
    if best.discard == drawn {
        assert forall|j: int| 0 <= j < 7 implies #[trigger] score_after(hand, pile, j, drawn) <= hand_score(
            hand,
            pile,
        ) by {
            assert(at_least(give, settle_plan(hand, pile, known, 0, j, drawn)));
        }
    }
    if forall|j: int| 0 <= j < 7 ==> #[trigger] score_after(hand, pile, j, drawn) <= hand_score(hand, pile) {
        assert forall|j: int| 0 <= j < 7 implies at_least(
            give,
            #[trigger] settle_plan(hand, pile, known, 0, j, drawn),
        ) by {
            assert(score_after(hand, pile, j, drawn) <= hand_score(hand, pile));
        }
    }
    assert forall|i: int| 0 <= i < 7 && best.discard == hand[i] implies {
        &&& score_after(hand, pile, i, drawn) > hand_score(hand, pile)
        &&& forall|j: int|
            0 <= j < 7 ==> #[trigger] score_after(hand, pile, j, drawn) <= score_after(hand, pile, i, drawn)
        &&& forall|j: int|
            0 <= j < i ==> #[trigger] score_after(hand, pile, j, drawn) < score_after(hand, pile, i, drawn)
    } by {
        let kept = settle_plan(hand, pile, known, 0, i, drawn);
        assert(above(kept, give));
        assert forall|j: int| 0 <= j < 7 implies #[trigger] score_after(hand, pile, j, drawn) <= score_after(
            hand,
            pile,
            i,
            drawn,
        ) by {
            assert(at_least(kept, settle_plan(hand, pile, known, 0, j, drawn)));
        }
        assert forall|j: int| 0 <= j < i implies #[trigger] score_after(hand, pile, j, drawn) < score_after(
            hand,
            pile,
            i,
            drawn,
        ) by {
            assert(above(kept, settle_plan(hand, pile, known, 0, j, drawn)));
        }
    }
}

} // verus!
