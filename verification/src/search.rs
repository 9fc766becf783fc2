//! The search shared by the policies: every one-move outcome is evaluated,
//! and the first outcome with the greatest evaluation is kept.
//!
//! Candidates are met in a fixed order: keeping the hand as it is; then, slot
//! by slot, each card of the discard pile in ascending order; then, slot by
//! slot, a draw from the deck, evaluated as the mean over the unknown cards.
//! A candidate replaces the running best only when it is strictly greater.

use vstd::prelude::*;
use fantasy_realms_unofficial_api::card_collection::CardCollection;
use crate::cards::Card;
use crate::cards::DrawCard;
use crate::cards::Hand;
use crate::collection::collection_ids;
use crate::collection::hand_score;
use crate::collection::in_order;
use crate::collection::ordered_cards;
use crate::collection::score_hand;
use crate::collection::union_of;
use crate::evaluation::exceeds;
use crate::evaluation::Evaluation;
use crate::laws::law_deck_terms_share_denominator;
use crate::laws::law_moves_keep_positions_consistent;
use crate::moves::fresh;
use crate::moves::sound;
use crate::moves::swap_in;
use crate::moves::swapped_pile;
use crate::moves::unknown_cards;
use crate::moves::unknown_ids;

verus! {

/// A candidate turn in the model: the visible card drawn (`None` for the
/// deck), the card given up, and the evaluation `num / den`.
pub struct Plan {
    pub draw: Option<u8>,
    pub discard: u8,
    pub num: int,
    pub den: int,
}

/// A candidate turn: what to draw, what to discard, and its evaluation.
#[derive(Clone, Copy, Debug)]
pub struct BotTurn {
    pub draw: DrawCard,
    pub discard: Card,
    pub evaluation: Evaluation,
}

impl View for BotTurn {
    type V = Plan;

    open spec fn view(&self) -> Plan {
        Plan {
            draw: self.draw.source(),
            discard: self.discard.id,
            num: self.evaluation.num as int,
            den: self.evaluation.den as int,
        }
    }
}

impl BotTurn {
    /// The cards named lie inside the catalog and the evaluation within
    /// the machine bounds for `depth` plies.
    pub open spec fn valid(&self, depth: nat) -> bool {
        &&& self.discard.wf()
        &&& (self.draw matches DrawCard::Discard(c) ==> c.wf())
        &&& in_range(self.evaluation, depth)
    }

    /// A candidate turn with the given parts.
    pub fn new(draw: DrawCard, discard: Card, evaluation: Evaluation) -> (r: BotTurn)
        ensures
            r.draw == draw,
            r.discard == discard,
            r.evaluation == evaluation,
    {
        BotTurn { draw, discard, evaluation }
    }
}

/// The plies of lookahead that a count of remaining turns buys: none at
/// zero, one otherwise.
pub open spec fn depth_of(turns: u8) -> nat {
    if turns == 0 {
        0
    } else {
        1
    }
}

/// The running best after meeting `cand`: ties keep the earlier plan.
pub open spec fn keep(best: Plan, cand: Plan) -> Plan {
    if exceeds(cand.num, cand.den, best.num, best.den) {
        cand
    } else {
        best
    }
}

/// The plan chosen among the first `n` of `plans`, met in order.
pub open spec fn first_best(plans: Seq<Plan>, n: nat) -> Plan
    decreases n,
{
    if n <= 1 {
        plans[0]
    } else {
        keep(first_best(plans, (n - 1) as nat), plans[n - 1])
    }
}

/// The evaluation `(num, den)` of a position with `depth` plies of
/// lookahead: the oracle's score at depth zero, else the evaluation of the
/// best turn found from it with one ply less.
pub open spec fn value(hand: Seq<u8>, pile: Set<u8>, known: Set<u8>, depth: nat) -> (int, int)
    decreases depth, 0nat, 0nat,
{
    if depth == 0 {
        (hand_score(hand, pile), 1)
    } else {
        let plans = draw_plans(hand, pile, known, (depth - 1) as nat);
        let t = first_best(plans, plans.len());
        (t.num, t.den)
    }
}

/// The plan of leaving the hand as it is; its nominal discard is the first card.
pub open spec fn idle_plan(hand: Seq<u8>, pile: Set<u8>, known: Set<u8>, depth: nat) -> Plan
    decreases depth, 1nat, 0nat,
{
    let v = value(hand, pile, known, depth);
    Plan { draw: None, discard: hand[0], num: v.0, den: v.1 }
}

/// The plan of taking the pile card `card` into `slot`.
pub open spec fn visible_plan(hand: Seq<u8>, pile: Set<u8>, known: Set<u8>, depth: nat, slot: int, card: u8) -> Plan
    decreases depth, 1nat, 0nat,
{
    let v = value(hand.update(slot, card), swapped_pile(hand, pile, slot, card), known, depth);
    Plan { draw: Some(card), discard: hand[slot], num: v.0, den: v.1 }
}

/// The plans of taking each of `cards[0..j]` into `slot`, in that order.
pub open spec fn visible_row(
    hand: Seq<u8>,
    pile: Set<u8>,
    known: Set<u8>,
    depth: nat,
    slot: int,
    cards: Seq<u8>,
    j: nat,
) -> Seq<Plan>
    decreases depth, 2nat, j,
{
    if j == 0 {
        Seq::empty()
    } else {
        visible_row(hand, pile, known, depth, slot, cards, (j - 1) as nat).push(
            visible_plan(hand, pile, known, depth, slot, cards[j - 1]),
        )
    }
}

/// The visible moves into the slots `0..i`: slot by slot, and within a slot
/// in the order of `cards`.
pub open spec fn visible_plans(
    hand: Seq<u8>,
    pile: Set<u8>,
    known: Set<u8>,
    depth: nat,
    cards: Seq<u8>,
    i: nat,
) -> Seq<Plan>
    decreases depth, 3nat, i,
{
    if i == 0 {
        Seq::empty()
    } else {
        visible_plans(hand, pile, known, depth, cards, (i - 1) as nat) + visible_row(
            hand,
            pile,
            known,
            depth,
            i - 1,
            cards,
            cards.len(),
        )
    }
}

/// The denominator shared by the evaluations of the positions that a deck
/// draw leads to, when `n` cards are unknown: with lookahead each of them
/// is a whole number or a mean over the `n - 1` cards still unknown there.
pub open spec fn common_den(n: nat, depth: nat) -> int {
    if depth == 0 || n <= 1 {
        1
    } else {
        n - 1
    }
}

/// The evaluations of the positions reached by drawing each of
/// `cards[0..j]` into `slot`.
pub open spec fn deck_values(
    hand: Seq<u8>,
    pile: Set<u8>,
    known: Set<u8>,
    depth: nat,
    slot: int,
    cards: Seq<u8>,
    j: nat,
) -> Seq<(int, int)>
    decreases depth, 1nat, j,
{
    if j == 0 {
        Seq::empty()
    } else {
        deck_values(hand, pile, known, depth, slot, cards, (j - 1) as nat).push(
            value(
                hand.update(slot, cards[j - 1]),
                swapped_pile(hand, pile, slot, cards[j - 1]),
                known,
                depth,
            ),
        )
    }
}

/// The plan of drawing from the deck into `slot`: its evaluation is the
/// mean, over the unknown cards, of the evaluations they lead to.
pub open spec fn deck_plan(hand: Seq<u8>, pile: Set<u8>, known: Set<u8>, depth: nat, slot: int, cards: Seq<u8>) -> Plan
    decreases depth, 2nat, 0nat,
{
    let terms = deck_values(hand, pile, known, depth, slot, cards, cards.len());
    let den = common_den(cards.len(), depth);
    Plan { draw: None, discard: hand[slot], num: scaled_sum(terms, den, terms.len()), den: den * terms.len() }
}

/// The deck moves into the slots `0..i`.
pub open spec fn deck_plans(
    hand: Seq<u8>,
    pile: Set<u8>,
    known: Set<u8>,
    depth: nat,
    cards: Seq<u8>,
    i: nat,
) -> Seq<Plan>
    decreases depth, 3nat, i,
{
    if i == 0 {
        Seq::empty()
    } else {
        deck_plans(hand, pile, known, depth, cards, (i - 1) as nat).push(
            deck_plan(hand, pile, known, depth, i - 1, cards),
        )
    }
}

/// Every plan of the draw phase, in the order in which they are met:
/// leaving the hand; the visible moves, slot by slot and within a slot in
/// ascending order of the pile; the deck moves, slot by slot. With no
/// unknown card there is no deck move.
pub open spec fn draw_plans(hand: Seq<u8>, pile: Set<u8>, known: Set<u8>, depth: nat) -> Seq<Plan>
    decreases depth, 4nat, 0nat,
{
    let first = seq![idle_plan(hand, pile, known, depth)];
    let seen = visible_plans(hand, pile, known, depth, in_order(pile), 7);
    let unseen = in_order(unknown_ids(hand, pile, known));
    if unseen.len() == 0 {
        first + seen
    } else {
        first + seen + deck_plans(hand, pile, known, depth, unseen, 7)
    }
}

/// The turn chosen in the draw phase: the first plan of greatest
/// evaluation among those of `draw_plans`.
pub open spec fn best_draw(hand: Seq<u8>, pile: Set<u8>, known: Set<u8>, depth: nat) -> Plan {
    let plans = draw_plans(hand, pile, known, depth);
    first_best(plans, plans.len())
}

/// The plan of keeping the drawn card in `slot` and giving up the card held there.
pub open spec fn settle_plan(hand: Seq<u8>, pile: Set<u8>, known: Set<u8>, depth: nat, slot: int, drawn: u8) -> Plan {
    let v = value(hand.update(slot, drawn), swapped_pile(hand, pile, slot, drawn), known, depth);
    Plan { draw: None, discard: hand[slot], num: v.0, den: v.1 }
}

/// The plan of giving the drawn card straight back: it is valued as the
/// position is, with the same lookahead as the other plans.
pub open spec fn return_plan(hand: Seq<u8>, pile: Set<u8>, known: Set<u8>, depth: nat, drawn: u8) -> Plan {
    let v = value(hand, pile, known, depth);
    Plan { draw: None, discard: drawn, num: v.0, den: v.1 }
}

/// The plans of the discard phase that were met once the slots `0..i` were
/// tried: giving the drawn card back, then keeping it in each slot.
pub open spec fn discard_plans(
    hand: Seq<u8>,
    pile: Set<u8>,
    known: Set<u8>,
    depth: nat,
    drawn: u8,
    i: nat,
) -> Seq<Plan>
    decreases i,
{
    if i == 0 {
        seq![return_plan(hand, pile, known, depth, drawn)]
    } else {
        discard_plans(hand, pile, known, depth, drawn, (i - 1) as nat).push(
            settle_plan(hand, pile, known, depth, i - 1, drawn),
        )
    }
}

/// The turn chosen in the discard phase after `drawn` came from the deck:
/// the first plan of greatest evaluation among those of `discard_plans`.
pub open spec fn best_discard(hand: Seq<u8>, pile: Set<u8>, known: Set<u8>, depth: nat, drawn: u8) -> Plan {
    let plans = discard_plans(hand, pile, known, depth, drawn, 7);
    first_best(plans, plans.len())
}

/// The numerator of `v` over the denominator `d`, for `v` a whole number
/// or a fraction over `d`.
pub open spec fn scaled(v: (int, int), d: int) -> int
    recommends
        v.1 == 1 || v.1 == d,
{
    if v.1 == d {
        v.0
    } else {
        v.0 * d
    }
}

/// The sum of the first `j` of `terms`, as a numerator over `d`.
pub open spec fn scaled_sum(terms: Seq<(int, int)>, d: int, j: nat) -> int
    decreases j,
{
    if j == 0 {
        0
    } else {
        scaled_sum(terms, d, (j - 1) as nat) + scaled(terms[j - 1], d)
    }
}

/// The plans that a list of candidate turns stands for.
pub open spec fn plans_of(turns: Seq<BotTurn>) -> Seq<Plan> {
    turns.map_values(|t: BotTurn| t@)
}

/// The fractions that a list of evaluations stands for.
pub open spec fn fractions_of(terms: Seq<Evaluation>) -> Seq<(int, int)> {
    terms.map_values(|e: Evaluation| (e.num as int, e.den as int))
}

/// The greatest magnitude that the numerator of a turn's evaluation reaches
/// with `depth` plies: a score lies within sixteen bits, and each ply sums
/// at most one term per catalog card.
pub open spec fn magnitude(depth: nat) -> int {
    if depth == 0 {
        1_736_704
    } else {
        4_878_401_536
    }
}

/// Machine bounds that the evaluation of a turn chosen with `depth` plies meets.
pub open spec fn in_range(e: Evaluation, depth: nat) -> bool {
    &&& -magnitude(depth) <= e.num <= magnitude(depth)
    &&& 1 <= e.den
    &&& e.den <= if depth == 0 { 53int } else { 2809int }
}

/// The first turn of greatest evaluation among `candidates`: a later
/// candidate is chosen only if it is strictly greater than all before it.
pub fn pick_first_best(candidates: &Vec<BotTurn>) -> (turn: BotTurn)
    requires
        candidates@.len() > 0,
        forall|k: int| 0 <= k < candidates@.len() ==> (#[trigger] candidates@[k]).evaluation.den > 0,
    ensures
        turn@ == first_best(plans_of(candidates@), candidates@.len()),
        exists|k: int| 0 <= k < candidates@.len() && candidates@[k] == turn,
{
    let mut turn = candidates[0];
    let mut n: usize = 1;
    while n < candidates.len()
        invariant
            1 <= n <= candidates@.len(),
            forall|k: int| 0 <= k < candidates@.len() ==> (#[trigger] candidates@[k]).evaluation.den > 0,
            turn.evaluation.den > 0,
            turn@ == first_best(plans_of(candidates@), n as nat),
            exists|k: int| 0 <= k < candidates@.len() && candidates@[k] == turn,
        decreases candidates@.len() - n,
    {
        let candidate = candidates[n];
        if candidate.evaluation.exceeds(&turn.evaluation) {
            turn = candidate;
        }
        n = n + 1;
    }
    turn
}

/// The mean of `terms`, each a whole number or a fraction over `den`: their
/// sum over `den`, divided by their count.
pub fn mean(terms: &Vec<Evaluation>, den: i64) -> (r: Evaluation)
    requires
        0 < terms@.len() <= 53,
        1 <= den <= 52,
        forall|k: int| 0 <= k < terms@.len() ==> in_range(#[trigger] terms@[k], 0),
        forall|k: int| 0 <= k < terms@.len() ==> (#[trigger] terms@[k]).den == 1 || terms@[k].den == den,
    ensures
        r.num == scaled_sum(fractions_of(terms@), den as int, terms@.len()),
        r.den == den * terms@.len(),
        in_range(r, 1),
        den == 1 && (forall|k: int| 0 <= k < terms@.len() ==> -32768 <= (#[trigger] terms@[k]).num <= 32767)
            ==> in_range(r, 0),
{
    let mut sum: i64 = 0;
    let mut j: usize = 0;
    while j < terms.len()
        invariant
            j <= terms@.len() <= 53,
            1 <= den <= 52,
            forall|k: int| 0 <= k < terms@.len() ==> in_range(#[trigger] terms@[k], 0),
            sum == scaled_sum(fractions_of(terms@), den as int, j as nat),
            -90_308_608 * j <= sum <= 90_308_608 * j,
            den == 1 && (forall|k: int| 0 <= k < terms@.len() ==> -32768 <= (#[trigger] terms@[k]).num <= 32767)
                ==> -32768 * j <= sum <= 32768 * j,
        decreases terms@.len() - j,
    {
        let e = terms[j];
        assert(in_range(e, 0));
        let term: i64 = if e.den == den {
            e.num
        } else {
            assert(-1_736_704 * 52 <= e.num * den <= 1_736_704 * 52) by (nonlinear_arith)
                requires
                    -1_736_704 <= e.num <= 1_736_704,
                    1 <= den <= 52,
            ;
            e.num * den
        };
        sum = sum + term;
        j = j + 1;
    }
    assert(1 <= den * terms@.len() <= 2809) by (nonlinear_arith)
        requires
            1 <= den <= 52,
            0 < terms@.len() <= 53,
    ;
    Evaluation { num: sum, den: den * (terms.len() as i64) }
}

/// Evaluates a position: the oracle's score when no turn remains, else the
/// evaluation of the best turn that one ply of search finds. Any count of
/// remaining turns above one is treated as one.
pub fn evaluate_hand(
    hand: &Hand,
    discard_pile: &CardCollection,
    known_opponent_cards: &Vec<CardCollection>,
    minimum_turns_remaining: u8,
) -> (r: Evaluation)
    requires
        hand.wf(),
        sound(hand@, collection_ids(*discard_pile), union_of(known_opponent_cards@)),
    ensures
        (r.num as int, r.den as int) == value(
            hand@,
            collection_ids(*discard_pile),
            union_of(known_opponent_cards@),
            depth_of(minimum_turns_remaining),
        ),
        in_range(r, 0),
        minimum_turns_remaining == 0 ==> r.den == 1 && -32768 <= r.num <= 32767,
    decreases depth_of(minimum_turns_remaining), 0nat,
{
    if minimum_turns_remaining == 0 {
        Evaluation::whole(score_hand(hand, discard_pile))
    } else {
        let candidates = draw_candidates(hand, discard_pile, known_opponent_cards, 0);
        let turn = pick_first_best(&candidates);
        turn.evaluation
    }
}

/// Every candidate turn of the draw phase with its evaluation, in the
/// order in which candidates are met.
pub fn draw_candidates(
    hand: &Hand,
    discard_pile: &CardCollection,
    known_opponent_cards: &Vec<CardCollection>,
    turns: u8,
) -> (candidates: Vec<BotTurn>)
    requires
        hand.wf(),
        sound(hand@, collection_ids(*discard_pile), union_of(known_opponent_cards@)),
    ensures
        plans_of(candidates@) == draw_plans(
            hand@,
            collection_ids(*discard_pile),
            union_of(known_opponent_cards@),
            depth_of(turns),
        ),
        candidates@.len() > 0,
        forall|k: int| 0 <= k < candidates@.len() ==> (#[trigger] candidates@[k]).valid(depth_of(turns)),
    decreases depth_of(turns), 1nat,
{
    let ghost h = hand@;
    let ghost p = collection_ids(*discard_pile);
    let ghost known = union_of(known_opponent_cards@);
    let ghost depth = depth_of(turns);
    let unknown = unknown_cards(hand, discard_pile, known_opponent_cards);
    let unseen = ordered_cards(&unknown);
    let visible = ordered_cards(discard_pile);
    let ghost us = in_order(unknown_ids(h, p, known));
    let ghost ds = in_order(p);
    let base = evaluate_hand(hand, discard_pile, known_opponent_cards, turns);
    let mut candidates: Vec<BotTurn> = Vec::new();
    candidates.push(BotTurn::new(DrawCard::Deck, hand.card(0), base));
    let ghost first = seq![idle_plan(h, p, known, depth)];
    assert(plans_of(candidates@) =~= first);
    let mut i: usize = 0;
    while i < 7
        invariant
            i <= 7,
            hand.wf(),
            sound(h, p, known),
            h == hand@,
            p == collection_ids(*discard_pile),
            known == union_of(known_opponent_cards@),
            depth == depth_of(turns),
            ds == in_order(p),
            visible@.len() == ds.len(),
            forall|k: int| 0 <= k < visible@.len() ==> (#[trigger] visible@[k]).id == ds[k],
            forall|k: int| 0 <= k < visible@.len() ==> (#[trigger] visible@[k]).wf(),
            forall|k: int| 0 <= k < visible@.len() ==> p.contains((#[trigger] visible@[k]).id),
            plans_of(candidates@) =~= first + visible_plans(h, p, known, depth, ds, i as nat),
            forall|k: int| 0 <= k < candidates@.len() ==> (#[trigger] candidates@[k]).valid(depth),
        decreases 7 - i,
    {
        let mut j: usize = 0;
        let ghost before = first + visible_plans(h, p, known, depth, ds, i as nat);
        while j < visible.len()
            invariant
                i < 7,
                j <= visible@.len(),
                hand.wf(),
                sound(h, p, known),
                h == hand@,
                p == collection_ids(*discard_pile),
                known == union_of(known_opponent_cards@),
                depth == depth_of(turns),
                visible@.len() == ds.len(),
                forall|k: int| 0 <= k < visible@.len() ==> (#[trigger] visible@[k]).id == ds[k],
                forall|k: int| 0 <= k < visible@.len() ==> (#[trigger] visible@[k]).wf(),
            forall|k: int| 0 <= k < visible@.len() ==> p.contains((#[trigger] visible@[k]).id),
                plans_of(candidates@) =~= before + visible_row(h, p, known, depth, i as int, ds, j as nat),
                forall|k: int| 0 <= k < candidates@.len() ==> (#[trigger] candidates@[k]).valid(depth),
            decreases visible@.len() - j,
        {
            let draw = visible[j];
            let (test_hand, new_discard_pile) = swap_in(hand, discard_pile, i, draw);
            proof {
                law_moves_keep_positions_consistent(h, p, known, i as int, draw.id);
            }
            let evaluation = evaluate_hand(&test_hand, &new_discard_pile, known_opponent_cards, turns);
            let candidate = BotTurn::new(DrawCard::Discard(draw), hand.card(i), evaluation);
            assert(candidate@ == visible_plan(h, p, known, depth, i as int, ds[j as int]));
            let ghost row = visible_row(h, p, known, depth, i as int, ds, j as nat);
            let ghost met = plans_of(candidates@);
            candidates.push(candidate);
            j = j + 1;
            assert(plans_of(candidates@) =~= met.push(candidate@));
            assert(visible_row(h, p, known, depth, i as int, ds, j as nat) == row.push(candidate@));
            assert((before + row).push(candidate@) =~= before + row.push(candidate@));
        }
        i = i + 1;
    }
    let count = unseen.len();
    if count > 0 {
        let den: i64 = if turns == 0 || count <= 1 {
            1
        } else {
            (count - 1) as i64
        };
        let ghost before = first + visible_plans(h, p, known, depth, ds, 7);
        let mut i: usize = 0;
        while i < 7
            invariant
                i <= 7,
                hand.wf(),
                sound(h, p, known),
                h == hand@,
                p == collection_ids(*discard_pile),
                known == union_of(known_opponent_cards@),
                depth == depth_of(turns),
                count == unseen@.len(),
                0 < count <= 53,
                1 <= den <= 52,
                den == common_den(us.len(), depth),
                us == in_order(unknown_ids(h, p, known)),
                unseen@.len() == us.len(),
                forall|k: int| 0 <= k < unseen@.len() ==> (#[trigger] unseen@[k]).id == us[k],
                forall|k: int| 0 <= k < unseen@.len() ==> (#[trigger] unseen@[k]).wf(),
            forall|k: int| 0 <= k < unseen@.len() ==> unknown_ids(h, p, known).contains((#[trigger] unseen@[k]).id),
                plans_of(candidates@) =~= before + deck_plans(h, p, known, depth, us, i as nat),
                forall|k: int| 0 <= k < candidates@.len() ==> (#[trigger] candidates@[k]).valid(depth),
            decreases 7 - i,
        {
            let mut terms: Vec<Evaluation> = Vec::new();
            let mut j: usize = 0;
            while j < count
                invariant
                    i < 7,
                    j <= count,
                    hand.wf(),
                    sound(h, p, known),
                    h == hand@,
                    p == collection_ids(*discard_pile),
                    known == union_of(known_opponent_cards@),
                    depth == depth_of(turns),
                    count == unseen@.len(),
                    unseen@.len() == us.len(),
                    forall|k: int| 0 <= k < unseen@.len() ==> (#[trigger] unseen@[k]).id == us[k],
                    forall|k: int| 0 <= k < unseen@.len() ==> (#[trigger] unseen@[k]).wf(),
            forall|k: int| 0 <= k < unseen@.len() ==> unknown_ids(h, p, known).contains((#[trigger] unseen@[k]).id),
                    terms@.len() == j,
                    fractions_of(terms@) =~= deck_values(h, p, known, depth, i as int, us, j as nat),
                    forall|k: int| 0 <= k < terms@.len() ==> in_range(#[trigger] terms@[k], 0),
                    forall|k: int| 0 <= k < terms@.len() ==> (#[trigger] terms@[k]).den == 1 || terms@[k].den == den,
                    den == common_den(us.len(), depth),
                    us == in_order(unknown_ids(h, p, known)),
                    turns == 0 ==> forall|k: int|
                        0 <= k < terms@.len() ==> -32768 <= (#[trigger] terms@[k]).num <= 32767,
                decreases count - j,
            {
                let draw = unseen[j];
                let (test_hand, new_discard_pile) = swap_in(hand, discard_pile, i, draw);
                proof {
                    law_moves_keep_positions_consistent(h, p, known, i as int, draw.id);
                    law_deck_terms_share_denominator(h, p, known, depth, i as int, draw.id);
                }
                let evaluation = evaluate_hand(&test_hand, &new_discard_pile, known_opponent_cards, turns);
                terms.push(evaluation);
                j = j + 1;
            }
            let total = mean(&terms, den);
            let candidate = BotTurn::new(DrawCard::Deck, hand.card(i), total);
            assert(candidate@ == deck_plan(h, p, known, depth, i as int, us));
            let ghost row = deck_plans(h, p, known, depth, us, i as nat);
            let ghost met = plans_of(candidates@);
            candidates.push(candidate);
            i = i + 1;
            assert(plans_of(candidates@) =~= met.push(candidate@));
            assert(deck_plans(h, p, known, depth, us, i as nat) == row.push(candidate@));
            assert((before + row).push(candidate@) =~= before + row.push(candidate@));
        }
    }
    candidates
}

/// The turn chosen in the draw phase with `turns` turns remaining.
pub fn plan_draw(
    hand: &Hand,
    discard_pile: &CardCollection,
    known_opponent_cards: &Vec<CardCollection>,
    turns: u8,
) -> (turn: BotTurn)
    requires
        hand.wf(),
        sound(hand@, collection_ids(*discard_pile), union_of(known_opponent_cards@)),
    ensures
        turn@ == best_draw(hand@, collection_ids(*discard_pile), union_of(known_opponent_cards@), depth_of(turns)),
        turn.valid(depth_of(turns)),
{
    let candidates = draw_candidates(hand, discard_pile, known_opponent_cards, turns);
    pick_first_best(&candidates)
}

/// Every candidate turn of the discard phase with its evaluation, after
/// `draw` came from the deck.
pub fn discard_candidates(
    hand: &Hand,
    discard_pile: &CardCollection,
    known_opponent_cards: &Vec<CardCollection>,
    turns: u8,
    draw: &Card,
) -> (candidates: Vec<BotTurn>)
    requires
        hand.wf(),
        sound(hand@, collection_ids(*discard_pile), union_of(known_opponent_cards@)),
        fresh(draw.id, hand@, collection_ids(*discard_pile), union_of(known_opponent_cards@)),
    ensures
        plans_of(candidates@) == discard_plans(
            hand@,
            collection_ids(*discard_pile),
            union_of(known_opponent_cards@),
            depth_of(turns),
            draw.id,
            7,
        ),
        candidates@.len() == 8,
        forall|k: int| 0 <= k < candidates@.len() ==> (#[trigger] candidates@[k]).valid(0),
        forall|k: int| 0 <= k < candidates@.len() ==> (#[trigger] candidates@[k]).draw == DrawCard::Deck,
{
    let ghost h = hand@;
    let ghost p = collection_ids(*discard_pile);
    let ghost known = union_of(known_opponent_cards@);
    let ghost depth = depth_of(turns);
    let mut candidates: Vec<BotTurn> = Vec::new();
    let base = evaluate_hand(hand, discard_pile, known_opponent_cards, turns);
    candidates.push(BotTurn::new(DrawCard::Deck, *draw, base));
    assert(draw.wf());
    let mut i: usize = 0;
    while i < 7
        invariant
            i <= 7,
            hand.wf(),
            draw.wf(),
            sound(h, p, known),
            fresh(draw.id, h, p, known),
            h == hand@,
            p == collection_ids(*discard_pile),
            known == union_of(known_opponent_cards@),
            depth == depth_of(turns),
            candidates@.len() == i + 1,
            plans_of(candidates@) =~= discard_plans(h, p, known, depth, draw.id, i as nat),
            forall|k: int| 0 <= k < candidates@.len() ==> (#[trigger] candidates@[k]).valid(0),
            forall|k: int| 0 <= k < candidates@.len() ==> (#[trigger] candidates@[k]).draw == DrawCard::Deck,
        decreases 7 - i,
    {
        let (test_hand, new_discard_pile) = swap_in(hand, discard_pile, i, *draw);
        proof {
            law_moves_keep_positions_consistent(h, p, known, i as int, draw.id);
        }
        let evaluation = evaluate_hand(&test_hand, &new_discard_pile, known_opponent_cards, turns);
        let candidate = BotTurn::new(DrawCard::Deck, hand.card(i), evaluation);
        assert(candidate@ == settle_plan(h, p, known, depth, i as int, draw.id));
        candidates.push(candidate);
        i = i + 1;
    }
    candidates
}

/// The turn chosen in the discard phase, after `draw` came from the deck,
/// with `turns` turns remaining.
pub fn plan_discard(
    hand: &Hand,
    discard_pile: &CardCollection,
    known_opponent_cards: &Vec<CardCollection>,
    turns: u8,
    draw: &Card,
) -> (turn: BotTurn)
    requires
        hand.wf(),
        sound(hand@, collection_ids(*discard_pile), union_of(known_opponent_cards@)),
        fresh(draw.id, hand@, collection_ids(*discard_pile), union_of(known_opponent_cards@)),
    ensures
        turn@ == best_discard(
            hand@,
            collection_ids(*discard_pile),
            union_of(known_opponent_cards@),
            depth_of(turns),
            draw.id,
        ),
        turn.valid(0),
        turn.draw == DrawCard::Deck,
{
    let candidates = discard_candidates(hand, discard_pile, known_opponent_cards, turns, draw);
    pick_first_best(&candidates)
}

} // verus!
