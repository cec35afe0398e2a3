//! Moves, the chances attached to them, and the order in which they are
//! reported.

use crate::classification::Analysis;
use vstd::prelude::*;
use vstd::string::StringExecFns;

verus! {

/// The share of the opponent's replies, in percent, after which the mover
/// wins, draws or loses.
#[derive(Debug, Clone, Copy, PartialEq, Eq, Structural)]
pub struct Chances {
    pub win: u8,
    pub draw: u8,
    pub lose: u8,
}

impl Chances {
    /// The chances of a move that ends the game with `outcome`: all on that
    /// outcome, none on the others.
    pub open spec fn certain(outcome: Analysis) -> Chances {
        match outcome {
            Analysis::Win => Chances { win: 100, draw: 0, lose: 0 },
            Analysis::Draw => Chances { win: 0, draw: 100, lose: 0 },
            Analysis::Lose => Chances { win: 0, draw: 0, lose: 100 },
        }
    }

    /// The chances of a move that wins on the spot.
    pub fn win() -> (chances: Chances)
        ensures
            chances == Chances::certain(Analysis::Win),
    {
        Chances { win: 100, draw: 0, lose: 0 }
    }

    /// The chances of a move that draws on the spot.
    pub fn draw() -> (chances: Chances)
        ensures
            chances == Chances::certain(Analysis::Draw),
    {
        Chances { win: 0, draw: 100, lose: 0 }
    }

    /// The chances of a move that loses on the spot.
    pub fn lose() -> (chances: Chances)
        ensures
            chances == Chances::certain(Analysis::Lose),
    {
        Chances { win: 0, draw: 0, lose: 100 }
    }

    /// The three percentages added up.
    pub open spec fn total(self) -> int {
        self.win + self.draw + self.lose
    }
}

/// A move into an empty square, with what it leads to.
#[derive(Debug, Clone, Copy, PartialEq, Eq)]
pub struct Move {
    /// The target square as (column, row).
    pub square: (usize, usize),
    pub analysis: Analysis,
    pub chances: Chances,
}

impl Move {
    /// The move into `square` that ends the game at once with `outcome`.
    pub open spec fn decisive(square: (usize, usize), outcome: Analysis) -> Move {
        Move { square, analysis: outcome, chances: Chances::certain(outcome) }
    }

    /// A move into `square` that wins at once.
    pub fn winning_move(square: (usize, usize)) -> (made: Self)
        ensures
            made == Move::decisive(square, Analysis::Win),
    {
        Move { square, analysis: Analysis::Win, chances: Chances::win() }
    }

    /// A move into `square` that draws at once.
    pub fn draw_move(square: (usize, usize)) -> (made: Self)
        ensures
            made == Move::decisive(square, Analysis::Draw),
    {
        Move { square, analysis: Analysis::Draw, chances: Chances::draw() }
    }

    /// A move into `square` that loses at once.
    pub fn losing_move(square: (usize, usize)) -> (made: Self)
        ensures
            made == Move::decisive(square, Analysis::Lose),
    {
        Move { square, analysis: Analysis::Lose, chances: Chances::lose() }
    }
}

/// The letter of a column: `A`, `B` or `C`.
pub open spec fn column_letter(column: usize) -> char {
    if column == 0 {
        'A'
    } else if column == 1 {
        'B'
    } else {
        'C'
    }
}

/// The character of a decimal digit.
pub open spec fn digit_char(digit: int) -> char {
    if digit == 0 {
        '0'
    } else if digit == 1 {
        '1'
    } else if digit == 2 {
        '2'
    } else if digit == 3 {
        '3'
    } else if digit == 4 {
        '4'
    } else if digit == 5 {
        '5'
    } else if digit == 6 {
        '6'
    } else if digit == 7 {
        '7'
    } else if digit == 8 {
        '8'
    } else {
        '9'
    }
}

/// The decimal digits of a number, without leading zeros.
pub open spec fn decimal(number: nat) -> Seq<char>
    decreases number,
{
    if number < 10 {
        seq![digit_char(number as int)]
    } else {
        decimal(number / 10).push(digit_char((number % 10) as int))
    }
}

/// The annotation of a square: the letter of its column, then the number of
/// its row, counted from one.
pub open spec fn annotation_of(square: (usize, usize)) -> Seq<char> {
    seq![column_letter(square.0)] + decimal((square.1 + 1) as nat)
}

/// The text of one decimal digit.
fn digit_text(digit: usize) -> (text: &'static str)
    requires
        digit < 10,
    ensures
        text@ == seq![digit_char(digit as int)],
{
    proof {
        reveal_strlit("0");
        reveal_strlit("1");
        reveal_strlit("2");
        reveal_strlit("3");
        reveal_strlit("4");
        reveal_strlit("5");
        reveal_strlit("6");
        reveal_strlit("7");
        reveal_strlit("8");
        reveal_strlit("9");
    }
    let text = if digit == 0 {
        "0"
    } else if digit == 1 {
        "1"
    } else if digit == 2 {
        "2"
    } else if digit == 3 {
        "3"
    } else if digit == 4 {
        "4"
    } else if digit == 5 {
        "5"
    } else if digit == 6 {
        "6"
    } else if digit == 7 {
        "7"
    } else if digit == 8 {
        "8"
    } else {
        "9"
    };
    assert(text@ =~= seq![digit_char(digit as int)]);
    text
}

/// Writes a number in decimal digits.
fn decimal_text(number: usize) -> (text: String)
    ensures
        text@ == decimal(number as nat),
{
    let mut text = String::from_str(digit_text(number % 10));
    let mut rest = number / 10;
    while rest > 0
        invariant
            decimal(number as nat) == if rest > 0 {
                decimal(rest as nat) + text@
            } else {
                text@
            },
        decreases rest,
    {
        let ghost behind = text@;
        text = String::from_str(digit_text(rest % 10)).concat(text.as_str());
        proof {
            let digit = seq![digit_char((rest % 10) as int)];
            assert(text@ == digit + behind);
            if rest >= 10 {
                assert(decimal((rest / 10) as nat).push(digit[0]) + behind == decimal(
                    (rest / 10) as nat,
                ) + (digit + behind));
            }
        }
        rest = rest / 10;
    }
    text
}

/// Names a square, given as (column, row), by the letter of its column and
/// the number of its row: (0, 0) is `A1`, (2, 1) is `C2`.
pub fn get_square_annotation(square: (usize, usize)) -> (annotation: String)
    requires
        square.0 < 3,
        square.1 < usize::MAX,
    ensures
        annotation@ == annotation_of(square),
{
    proof {
        reveal_strlit("A");
        reveal_strlit("B");
        reveal_strlit("C");
    }
    let letter = ["A", "B", "C"];
    let number = decimal_text(square.1 + 1);
    let annotation = String::from_str(letter[square.0]).concat(number.as_str());
    assert(letter[square.0 as int]@ =~= seq![column_letter(square.0)]);
    annotation
}

/// `count` out of `total` in percent, rounded to the nearest whole number,
/// a half being rounded up.
pub open spec fn percentage(count: nat, total: nat) -> nat {
    (200 * count + total) / (2 * total)
}

/// The test for a move being classified as `class`.
pub open spec fn classified(class: Analysis) -> spec_fn(Move) -> bool {
    |made: Move| made.analysis == class
}

/// The number of moves classified as `class`.
pub open spec fn count_of(moves: Seq<Move>, class: Analysis) -> nat {
    moves.filter(classified(class)).len()
}

/// Whether some move is classified as `class`.
pub open spec fn has_class(moves: Seq<Move>, class: Analysis) -> bool {
    exists|i: int| 0 <= i < moves.len() && moves[i].analysis == class
}

/// The best classification found among `moves`.
pub open spec fn best_class(moves: Seq<Move>) -> Analysis {
    if has_class(moves, Analysis::Win) {
        Analysis::Win
    } else if has_class(moves, Analysis::Draw) {
        Analysis::Draw
    } else {
        Analysis::Lose
    }
}

/// Whether `a` is reported before `b` whatever the order in which they were
/// found: by classification first, then by the chance to win, to draw and to
/// lose, the greater value first.
pub open spec fn outranks(a: Move, b: Move) -> bool {
    ||| a.analysis.rank() > b.analysis.rank()
    ||| a.analysis == b.analysis && a.chances.win > b.chances.win
    ||| a.analysis == b.analysis && a.chances.win == b.chances.win && a.chances.draw
        > b.chances.draw
    ||| a.analysis == b.analysis && a.chances.win == b.chances.win && a.chances.draw
        == b.chances.draw && a.chances.lose > b.chances.lose
}

/// The index of the first move at or after `from` that does not outrank
/// `made`, or the length of `ranked` if all of them do.
pub open spec fn slot_from(ranked: Seq<Move>, made: Move, from: int) -> int
    decreases ranked.len() - from,
{
    if 0 <= from < ranked.len() && outranks(ranked[from], made) {
        slot_from(ranked, made, from + 1)
    } else {
        from
    }
}

/// The moves in the order in which they are reported: a move that outranks
/// another comes first, and of two moves that rank alike the one found later
/// comes first.
pub open spec fn best_first(moves: Seq<Move>) -> Seq<Move>
    decreases moves.len(),
{
    if moves.len() == 0 {
        Seq::empty()
    } else {
        let ranked = best_first(moves.drop_last());
        ranked.insert(slot_from(ranked, moves.last(), 0), moves.last())
    }
}

/// A percentage lies between 0 and 100 and is the whole number nearest to
/// the exact share.
pub proof fn lemma_percentage_is_nearest(count: nat, total: nat)
    requires
        0 < total,
        count <= total,
    ensures
        percentage(count, total) <= 100,
        2 * total * percentage(count, total) <= 200 * count + total,
        200 * count + total < 2 * total * percentage(count, total) + 2 * total,
{
    let p = percentage(count, total);
    vstd::arithmetic::div_mod::lemma_fundamental_div_mod((200 * count + total) as int, (2 * total) as int);
    vstd::arithmetic::div_mod::lemma_mod_pos_bound((200 * count + total) as int, (2 * total) as int);
    assert(p <= 100) by (nonlinear_arith)
        requires
            0 < total,
            count <= total,
            2 * total * p <= 200 * count + total,
    ;
}

/// Computes `count` out of `total` in percent, rounded to the nearest whole
/// number.
pub fn percent(count: usize, total: usize) -> (share: u8)
    requires
        0 < total,
        count <= total,
    ensures
        share == percentage(count as nat, total as nat),
        share <= 100,
{
    proof {
        lemma_percentage_is_nearest(count as nat, total as nat);
    }
    let wide_count = count as u128;
    let wide_total = total as u128;
    ((200 * wide_count + wide_total) / (2 * wide_total)) as u8
}

/// Every move is classified in exactly one of the three ways.
pub proof fn lemma_counts_cover(moves: Seq<Move>)
    ensures
        count_of(moves, Analysis::Win) + count_of(moves, Analysis::Draw) + count_of(
            moves,
            Analysis::Lose,
        ) == moves.len(),
    decreases moves.len(),
{
    reveal(Seq::filter);
    if moves.len() > 0 {
        lemma_counts_cover(moves.drop_last());
    }
}

/// Counts the moves classified as a win, as a draw and as a loss, in this
/// order.
pub fn count_moves(moves: &Vec<Move>) -> (counts: (usize, usize, usize))
    ensures
        counts.0 == count_of(moves@, Analysis::Win),
        counts.1 == count_of(moves@, Analysis::Draw),
        counts.2 == count_of(moves@, Analysis::Lose),
        counts.0 + counts.1 + counts.2 == moves@.len(),
{
    let mut win_count: usize = 0;
    let mut draw_count: usize = 0;
    let mut lose_count: usize = 0;
    let mut i: usize = 0;
    while i < moves.len()
        invariant
            i <= moves.len(),
            win_count == count_of(moves@.take(i as int), Analysis::Win),
            draw_count == count_of(moves@.take(i as int), Analysis::Draw),
            lose_count == count_of(moves@.take(i as int), Analysis::Lose),
            win_count + draw_count + lose_count == i,
        decreases moves.len() - i,
    {
        proof {
            let seen = moves@.take(i as int);
            assert(moves@.take(i + 1) == seen.push(moves@[i as int]));
            seen.lemma_filter_push(moves@[i as int], classified(Analysis::Win));
            seen.lemma_filter_push(moves@[i as int], classified(Analysis::Draw));
            seen.lemma_filter_push(moves@[i as int], classified(Analysis::Lose));
        }
        match moves[i].analysis {
            Analysis::Lose => lose_count += 1,
            Analysis::Draw => draw_count += 1,
            Analysis::Win => win_count += 1,
        }
        i += 1;
    }
    assert(moves@.take(moves@.len() as int) == moves@);
    (win_count, draw_count, lose_count)
}

/// Picks the first of the moves with the best classification.
pub fn best_move(moves: &Vec<Move>) -> (best: &Move)
    requires
        moves@.len() > 0,
    ensures
        best.analysis == best_class(moves@),
        exists|i: int|
            {
                &&& 0 <= i < moves@.len()
                &&& moves@[i] == *best
                &&& forall|j: int| 0 <= j < i ==> moves@[j].analysis.rank() < best.analysis.rank()
            },
{
    let mut best: usize = 0;
    let mut i: usize = 1;
    while i < moves.len()
        invariant
            0 <= best < i <= moves.len(),
            forall|j: int| 0 <= j < best ==> moves@[j].analysis.rank() < moves@[best as int].analysis.rank(),
            forall|j: int| best <= j < i ==> moves@[j].analysis.rank() <= moves@[best as int].analysis.rank(),
        decreases moves.len() - i,
    {
        if moves[i].analysis > moves[best].analysis {
            best = i;
        }
        i += 1;
    }
    proof {
        let top = moves@[best as int].analysis;
        assert(has_class(moves@, top));
        assert(forall|j: int| 0 <= j < moves@.len() ==> moves@[j].analysis.rank() <= top.rank());
    }
    &moves[best]
}

/// Whether `a` is reported before `b` whatever the order in which they were
/// found.
pub fn ranks_before(a: &Move, b: &Move) -> (before: bool)
    ensures
        before == outranks(*a, *b),
{
    if a.analysis != b.analysis {
        a.analysis > b.analysis
    } else if a.chances.win != b.chances.win {
        a.chances.win > b.chances.win
    } else if a.chances.draw != b.chances.draw {
        a.chances.draw > b.chances.draw
    } else {
        a.chances.lose > b.chances.lose
    }
}

/// The slot of a move is the index up to which the moves outrank it.
pub proof fn lemma_slot(ranked: Seq<Move>, made: Move, from: int, slot: int)
    requires
        0 <= from <= slot <= ranked.len(),
        forall|k: int| from <= k < slot ==> outranks(ranked[k], made),
        slot < ranked.len() ==> !outranks(ranked[slot], made),
    ensures
        slot_from(ranked, made, from) == slot,
    decreases slot - from,
{
    if from < slot {
        lemma_slot(ranked, made, from + 1, slot);
    }
}

/// Ranking neither drops nor adds a move.
pub proof fn lemma_best_first_is_permutation(moves: Seq<Move>)
    ensures
        best_first(moves).len() == moves.len(),
        best_first(moves).to_multiset() == moves.to_multiset(),
    decreases moves.len(),
{
    if moves.len() == 0 {
        assert(best_first(moves) == moves);
    } else {
        let ranked = best_first(moves.drop_last());
        let slot = slot_from(ranked, moves.last(), 0);
        lemma_best_first_is_permutation(moves.drop_last());
        lemma_slot_in_range(ranked, moves.last(), 0);
        vstd::seq_lib::to_multiset_insert(ranked, slot, moves.last());
        vstd::seq_lib::to_multiset_build(moves.drop_last(), moves.last());
        assert(moves.drop_last().push(moves.last()) == moves);
    }
}

/// A slot lies within the moves or just behind them, behind moves that all
/// outrank the new move and in front of one that does not.
pub proof fn lemma_slot_in_range(ranked: Seq<Move>, made: Move, from: int)
    requires
        0 <= from <= ranked.len(),
    ensures
        from <= slot_from(ranked, made, from) <= ranked.len(),
        forall|k: int| from <= k < slot_from(ranked, made, from) ==> outranks(ranked[k], made),
        slot_from(ranked, made, from) < ranked.len() ==> !outranks(
            ranked[slot_from(ranked, made, from)],
            made,
        ),
    decreases ranked.len() - from,
{
    if from < ranked.len() && outranks(ranked[from], made) {
        lemma_slot_in_range(ranked, made, from + 1);
    }
}

/// Whether no move of `ranked` is outranked by a later one.
pub open spec fn descending(ranked: Seq<Move>) -> bool {
    forall|i: int, j: int| 0 <= i < j < ranked.len() ==> !outranks(ranked[j], ranked[i])
}

/// Ranked moves are in descending order: no move is outranked by a later
/// one, so no later move has a better classification than an earlier one.
pub proof fn lemma_best_first_is_descending(moves: Seq<Move>)
    ensures
        descending(best_first(moves)),
        forall|i: int, j: int|
            0 <= i < j < best_first(moves).len() ==> best_first(moves)[j].analysis.rank()
                <= best_first(moves)[i].analysis.rank(),
    decreases moves.len(),
{
    if moves.len() > 0 {
        let ranked = best_first(moves.drop_last());
        let made = moves.last();
        let slot = slot_from(ranked, made, 0);
        let after = best_first(moves);
        lemma_best_first_is_descending(moves.drop_last());
        lemma_slot_in_range(ranked, made, 0);
        assert forall|i: int, j: int| 0 <= i < j < after.len() implies !outranks(
            after[j],
            after[i],
        ) by {
            if j > slot && slot < ranked.len() {
                assert(!outranks(ranked[j - 1], ranked[slot]));
            }
        }
    }
}

/// Ranking keeps the best classification, which is that of the first move.
pub proof fn lemma_best_comes_first(moves: Seq<Move>)
    requires
        moves.len() > 0,
    ensures
        best_first(moves).len() > 0,
        best_first(moves)[0].analysis == best_class(moves),
        best_class(best_first(moves)) == best_class(moves),
{
    let ranked = best_first(moves);
    lemma_best_first_is_permutation(moves);
    lemma_best_first_is_descending(moves);
    assert forall|class: Analysis| has_class(moves, class) == has_class(ranked, class) by {
        if has_class(moves, class) {
            lemma_same_classes(moves, ranked, class);
        }
        if has_class(ranked, class) {
            lemma_same_classes(ranked, moves, class);
        }
    }
    assert(has_class(ranked, ranked[0].analysis));
}

/// A classification found among some moves is found in every rearrangement
/// of them.
pub proof fn lemma_same_classes(moves: Seq<Move>, others: Seq<Move>, class: Analysis)
    requires
        moves.to_multiset() == others.to_multiset(),
        has_class(moves, class),
    ensures
        has_class(others, class),
{
    let i = choose|i: int| 0 <= i < moves.len() && moves[i].analysis == class;
    assert(moves.contains(moves[i]));
    vstd::seq_lib::to_multiset_contains(moves, moves[i]);
    vstd::seq_lib::to_multiset_contains(others, moves[i]);
    let j = choose|j: int| 0 <= j < others.len() && others[j] == moves[i];
    assert(others[j].analysis == class);
}

/// Three shares of one total, each rounded on its own, add up to 100 give or
/// take one.
pub proof fn lemma_percentages_add_up(wins: nat, draws: nat, losses: nat)
    requires
        wins + draws + losses > 0,
    ensures
        99 <= percentage(wins, wins + draws + losses) + percentage(draws, wins + draws + losses)
            + percentage(losses, wins + draws + losses) <= 101,
{
    let total = wins + draws + losses;
    let win = percentage(wins, total);
    let draw = percentage(draws, total);
    let lose = percentage(losses, total);
    let sum = win + draw + lose;
    lemma_percentage_is_nearest(wins, total);
    lemma_percentage_is_nearest(draws, total);
    lemma_percentage_is_nearest(losses, total);
    assert(2 * total * sum == 2 * total * win + 2 * total * draw + 2 * total * lose)
        by (nonlinear_arith)
        requires
            sum == win + draw + lose,
    ;
    assert(99 <= sum <= 101) by (nonlinear_arith)
        requires
            0 < total,
            2 * total * sum <= 203 * total,
            197 * total < 2 * total * sum,
    ;
}

/// Puts the moves in the order in which they are reported: best first, and
/// of two moves that rank alike the later one first.
pub fn rank_moves(moves: &Vec<Move>) -> (ranked: Vec<Move>)
    ensures
        ranked@ == best_first(moves@),
{
    let mut ranked: Vec<Move> = Vec::new();
    let mut i: usize = 0;
    while i < moves.len()
        invariant
            i <= moves.len(),
            ranked@ == best_first(moves@.take(i as int)),
            ranked@.len() == i,
        decreases moves.len() - i,
    {
        let made = moves[i];
        let mut slot: usize = 0;
        while slot < ranked.len() && ranks_before(&ranked[slot], &made)
            invariant
                slot <= ranked.len(),
                forall|k: int| 0 <= k < slot ==> outranks(ranked@[k], made),
            decreases ranked.len() - slot,
        {
            slot += 1;
        }
        proof {
            lemma_slot(ranked@, made, 0, slot as int);
            assert(moves@.take(i + 1).drop_last() == moves@.take(i as int));
        }
        ranked.insert(slot, made);
        i += 1;
    }
    assert(moves@.take(moves@.len() as int) == moves@);
    ranked
}

} // verus!
