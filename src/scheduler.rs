//! The review scheduler: the order in which cards come up, and how an
//! answer changes a card.
use vstd::prelude::*;
use std::collections::HashMap;
use crate::deck::{Card, Deck, Note};

verus! {

broadcast use vstd::std_specs::hash::group_hash_axioms;

/// How well the user knew a card.
#[derive(Debug, Clone, Copy, PartialEq, Eq, Structural)]
pub enum Rating {
    Again,
    Hard,
    Good,
    Easy,
}

/// What a scheduler does for the study screen.
pub trait Scheduler {
    spec fn well_formed(&self) -> bool;

    /// The scheduler knows the card and can take this answer for it.
    spec fn can_answer(&self, card_id: i64, rating: Rating) -> bool;

    fn new(deck: Deck) -> (s: Self) where Self: Sized
        ensures
            s.well_formed(),
    ;

    fn next_card(&mut self) -> (r: Option<Card>)
        requires
            old(self).well_formed(),
        ensures
            final(self).well_formed(),
    ;

    fn answer_card(&mut self, card_id: i64, rating: Rating)
        requires
            old(self).well_formed(),
            old(self).can_answer(card_id, rating),
        ensures
            final(self).well_formed(),
    ;

    fn get_note(&self, note_id: i64) -> Option<&Note>;

    fn reviews_complete(&self) -> usize;

    fn total_session_cards(&self) -> usize;

    fn hard_cards(&self) -> &[i64];

    fn rewind_last_answer(&mut self) -> (r: Option<Card>)
        requires
            old(self).well_formed(),
        ensures
            final(self).well_formed(),
    ;

    fn add_card_to_front(&mut self, card_id: i64)
        requires
            old(self).well_formed(),
        ensures
            final(self).well_formed(),
    ;
}

/// The state of an SM-2 session, seen as mathematical values.
pub struct SchedulerModel {
    pub cards: Map<i64, Card>,
    pub notes: Map<i64, Note>,
    /// Card ids to review; the last one comes up next.
    pub queue: Seq<i64>,
    pub total: nat,
    pub reviews: nat,
    pub hard: Seq<i64>,
    /// The last answer, with the card as it was before it.
    pub last: Option<(i64, Rating, Card)>,
}

/// A review session scheduled in the manner of SM-2.
pub struct Sm2Scheduler {
    cards: HashMap<i64, Card>,
    notes: HashMap<i64, Note>,
    review_queue: Vec<i64>,
    session_total: usize,
    session_reviews_complete: usize,
    hard_cards_this_session: Vec<i64>,
    last_answer: Option<(i64, Rating, Card)>,
}

/// The cards of a list by id; a later card replaces an earlier one with the same id.
pub open spec fn cards_by_id(v: Seq<Card>) -> Map<i64, Card>
    decreases v.len(),
{
    if v.len() == 0 {
        Map::empty()
    } else {
        cards_by_id(v.drop_last()).insert(v.last().id, v.last())
    }
}

/// Strictly increasing.
pub open spec fn ascending(s: Seq<i64>) -> bool {
    forall|i: int, j: int| 0 <= i < j < s.len() ==> s[i] < s[j]
}

/// `s` with every `x` taken out.
pub open spec fn without(s: Seq<i64>, x: i64) -> Seq<i64>
    decreases s.len(),
{
    if s.len() == 0 {
        Seq::empty()
    } else if s.last() == x {
        without(s.drop_last(), x)
    } else {
        without(s.drop_last(), x).push(s.last())
    }
}

/// The ease factor lowered by `step`, but not below 1300.
pub open spec fn lowered_ease(ease: u32, step: u32) -> u32 {
    if ease >= 1300 + step {
        (ease - step) as u32
    } else {
        1300
    }
}

/// A hard answer's interval: a fifth longer, rounded to the nearest day, and
/// at least one day longer, at most `u32::MAX`.
pub open spec fn hard_interval(interval: u32) -> u32 {
    let grown = (6 * interval + 2) / 5;
    let longer = if grown > interval + 1 { grown } else { interval + 1 };
    if longer > u32::MAX { u32::MAX } else { longer as u32 }
}

/// Where a forgotten card goes back into the queue: this many places before
/// the end, five less its lapses, but at least two.
pub open spec fn cooldown_distance(lapses: u32) -> nat {
    if lapses + 2 >= 5 { 2 } else { (5 - lapses) as nat }
}

/// The card after an answer.
pub open spec fn answered(c: Card, rating: Rating) -> Card {
    match rating {
        Rating::Again => Card {
            lapses: (c.lapses + 1) as u32,
            ease_factor: lowered_ease(c.ease_factor, 200),
            interval: 0,
            ..c
        },
        Rating::Hard => Card { ease_factor: lowered_ease(c.ease_factor, 150), interval: hard_interval(c.interval), ..c },
        _ => c,
    }
}

impl View for Sm2Scheduler {
    type V = SchedulerModel;

    closed spec fn view(&self) -> SchedulerModel {
        SchedulerModel {
            cards: self.cards@,
            notes: self.notes@,
            queue: self.review_queue@,
            total: self.session_total as nat,
            reviews: self.session_reviews_complete as nat,
            hard: self.hard_cards_this_session@,
            last: self.last_answer,
        }
    }
}

impl SchedulerModel {
    /// Each card is filed under its own id.
    pub open spec fn well_formed(self) -> bool {
        &&& forall|k: i64| #[trigger] self.cards.contains_key(k) ==> self.cards[k].id == k
        &&& self.last matches Some((id, _, c)) ==> c.id == id
    }

    pub open spec fn can_answer(self, card_id: i64, rating: Rating) -> bool {
        &&& self.cards.contains_key(card_id)
        &&& rating == Rating::Again ==> self.cards[card_id].lapses < u32::MAX
        &&& rating != Rating::Again ==> self.reviews < usize::MAX
    }

    /// The session after an answer for a card it holds.
    pub open spec fn after_answer(self, card_id: i64, rating: Rating) -> SchedulerModel {
        let c = self.cards[card_id];
        let c2 = answered(c, rating);
        SchedulerModel {
            cards: self.cards.insert(card_id, c2),
            last: Some((card_id, rating, c)),
            queue: if rating == Rating::Again {
                let d = cooldown_distance(c2.lapses);
                let at = if self.queue.len() >= d { (self.queue.len() - d) as int } else { 0 };
                self.queue.insert(at, c.id)
            } else {
                self.queue
            },
            reviews: if rating == Rating::Again { self.reviews } else { self.reviews + 1 },
            hard: if rating == Rating::Hard && !self.hard.contains(card_id) {
                self.hard.push(card_id)
            } else {
                self.hard
            },
            ..self
        }
    }

    /// The session after the last answer is taken back.
    pub open spec fn after_rewind(self) -> SchedulerModel {
        match self.last {
            Some((id, rating, c)) => SchedulerModel {
                queue: without(self.queue, id),
                reviews: if rating != Rating::Again && self.reviews > 0 { (self.reviews - 1) as nat } else { self.reviews },
                hard: if rating == Rating::Hard { without(self.hard, id) } else { self.hard },
                cards: self.cards.insert(id, c),
                last: None,
                ..self
            },
            None => self,
        }
    }
}

/// Relies on rand's `SliceRandom::shuffle` with the thread-local generator:
/// it only swaps elements, so the slice ends with the same elements.
#[verifier::external_body]
fn shuffle_ids(v: &mut Vec<i64>)
    ensures
        final(v)@.to_multiset() == old(v)@.to_multiset(),
{
    rand::seq::SliceRandom::shuffle(v.as_mut_slice(), &mut rand::thread_rng());
}

fn remove_all(v: &mut Vec<i64>, x: i64)
    ensures
        final(v)@ == without(old(v)@, x),
{
    let mut out: Vec<i64> = Vec::new();
    let mut i: usize = 0;
    assert(v@.subrange(0, 0) =~= Seq::<i64>::empty());
    while i < v.len()
        invariant
            i <= v@.len(),
            out@ == without(v@.subrange(0, i as int), x),
        decreases v.len() - i,
    {
        assert(v@.subrange(0, i + 1).drop_last() =~= v@.subrange(0, i as int));
        if v[i] != x {
            out.push(v[i]);
        }
        i = i + 1;
    }
    assert(v@.subrange(0, v@.len() as int) =~= v@);
    *v = out;
}

fn contains_id(v: &Vec<i64>, x: i64) -> (r: bool)
    ensures
        r == v@.contains(x),
{
    let mut i: usize = 0;
    while i < v.len()
        invariant
            i <= v@.len(),
            forall|j: int| 0 <= j < i ==> v@[j] != x,
        decreases v.len() - i,
    {
        if v[i] == x {
            return true;
        }
        i = i + 1;
    }
    false
}

proof fn lemma_insert_contains(s: Seq<i64>, p: int, x: i64)
    requires
        0 <= p <= s.len(),
    ensures
        forall|y: i64| #[trigger] s.insert(p, x).contains(y) <==> (s.contains(y) || y == x),
{
    let t = s.insert(p, x);
    assert forall|y: i64| #[trigger] t.contains(y) <==> (s.contains(y) || y == x) by {
        if t.contains(y) {
            let j = choose|j: int| 0 <= j < t.len() && t[j] == y;
            if j < p {
                assert(s[j] == y);
            } else if j > p {
                assert(s[j - 1] == y);
            }
        }
        if s.contains(y) {
            let j = choose|j: int| 0 <= j < s.len() && s[j] == y;
            if j < p {
                assert(t[j] == y);
            } else {
                assert(t[j + 1] == y);
            }
        }
        if y == x {
            assert(t[p] == x);
        }
    }
}

/// Puts `x` into an ascending list, unless it is there already.
fn insert_sorted(v: &mut Vec<i64>, x: i64)
    requires
        ascending(old(v)@),
    ensures
        ascending(final(v)@),
        forall|y: i64| final(v)@.contains(y) <==> (old(v)@.contains(y) || y == x),
{
    let mut p: usize = 0;
    while p < v.len() && v[p] < x
        invariant
            v@ == old(v)@,
            p <= v@.len(),
            forall|j: int| 0 <= j < p ==> v@[j] < x,
        decreases v.len() - p,
    {
        p = p + 1;
    }
    if p < v.len() && v[p] == x {
        assert(v@[p as int] == x);
        assert(old(v)@.contains(x));
        return;
    }
    let ghost before = v@;
    assert(before == old(v)@);
    v.insert(p, x);
    proof {
        lemma_insert_contains(before, p as int, x);
    }
    assert forall|i: int, j: int| 0 <= i < j < v@.len() implies v@[i] < v@[j] by {
        if j < p {
            assert(v@[i] == before[i] && v@[j] == before[j]);
        } else if j == p {
            assert(v@[i] == before[i]);
        } else if i < p {
            assert(v@[i] == before[i] && v@[j] == before[j - 1]);
            if p < before.len() {
                assert(before[p as int] > x);
            }
        } else if i == p {
            assert(v@[j] == before[j - 1]);
            assert(before[p as int] > x);
        } else {
            assert(v@[i] == before[i - 1] && v@[j] == before[j - 1]);
        }
    }
}

impl Sm2Scheduler {
    /// A session over all cards of the deck, in ascending order of id (so
    /// the highest id comes up first), with nothing answered yet.
    pub fn new(deck: Deck) -> (s: Sm2Scheduler)
        ensures
            s@.well_formed(),
            s@.cards == cards_by_id(deck.cards@),
            s@.notes == deck.notes@,
            ascending(s@.queue),
            forall|id: i64| s@.queue.contains(id) <==> s@.cards.contains_key(id),
            s@.total == s@.queue.len(),
            s@.reviews == 0,
            s@.hard == Seq::<i64>::empty(),
            s@.last is None,
    {
        let mut cards: HashMap<i64, Card> = HashMap::new();
        let mut queue: Vec<i64> = Vec::new();
        let mut i: usize = 0;
        assert(deck.cards@.subrange(0, 0) =~= Seq::<Card>::empty());
        while i < deck.cards.len()
            invariant
                i <= deck.cards@.len(),
                cards@ == cards_by_id(deck.cards@.subrange(0, i as int)),
                forall|k: i64| #[trigger] cards@.contains_key(k) ==> cards@[k].id == k,
                ascending(queue@),
                forall|id: i64| queue@.contains(id) <==> cards@.contains_key(id),
            decreases deck.cards.len() - i,
        {
            let c = deck.cards[i];
            assert(deck.cards@.subrange(0, i + 1).drop_last() =~= deck.cards@.subrange(0, i as int));
            cards.insert(c.id, c);
            insert_sorted(&mut queue, c.id);
            i = i + 1;
        }
        assert(deck.cards@.subrange(0, deck.cards@.len() as int) =~= deck.cards@);
        let total = queue.len();
        Sm2Scheduler {
            cards,
            notes: deck.notes,
            review_queue: queue,
            session_total: total,
            session_reviews_complete: 0,
            hard_cards_this_session: Vec::new(),
            last_answer: None,
        }
    }

    /// `new`, with the queue then put in random order.
    pub fn new_shuffled(deck: Deck) -> (s: Sm2Scheduler)
        ensures
            s@.well_formed(),
            s@.cards == cards_by_id(deck.cards@),
            s@.notes == deck.notes@,
            forall|id: i64| s@.queue.contains(id) <==> s@.cards.contains_key(id),
            s@.total == s@.queue.len(),
            s@.reviews == 0,
            s@.hard == Seq::<i64>::empty(),
            s@.last is None,
    {
        let mut s = Sm2Scheduler::new(deck);
        s.shuffle_queue();
        s
    }

    /// Puts the cards still to review in random order.
    pub fn shuffle_queue(&mut self)
        ensures
            final(self)@.queue.to_multiset() == old(self)@.queue.to_multiset(),
            final(self)@.queue.len() == old(self)@.queue.len(),
            forall|id: i64| final(self)@.queue.contains(id) <==> old(self)@.queue.contains(id),
            final(self)@ == (SchedulerModel { queue: final(self)@.queue, ..old(self)@ }),
    {
        let ghost before = self.review_queue@;
        shuffle_ids(&mut self.review_queue);
        proof {
            assert forall|id: i64| self.review_queue@.contains(id) <==> before.contains(id) by {
                before.to_multiset_ensures();
                self.review_queue@.to_multiset_ensures();
                assert(self.review_queue@.to_multiset().count(id) == before.to_multiset().count(id));
            }
            before.to_multiset_ensures();
            self.review_queue@.to_multiset_ensures();
        }
    }

    /// Takes the next card to review from the queue.
    pub fn next_card(&mut self) -> (r: Option<Card>)
        ensures
            old(self)@.queue.len() == 0 ==> r is None && final(self)@ == old(self)@,
            old(self)@.queue.len() > 0 ==> {
                let id = old(self)@.queue.last();
                &&& final(self)@ == (SchedulerModel { queue: old(self)@.queue.drop_last(), ..old(self)@ })
                &&& r == if old(self)@.cards.contains_key(id) {
                    Some(old(self)@.cards[id])
                } else {
                    None::<Card>
                }
            },
    {
        match self.review_queue.pop() {
            None => None,
            Some(id) => match self.cards.get(&id) {
                Some(c) => Some(*c),
                None => None,
            },
        }
    }

    /// Puts a card back so that it comes up next.
    pub fn add_card_to_front(&mut self, card_id: i64)
        ensures
            final(self)@ == (SchedulerModel { queue: old(self)@.queue.push(card_id), ..old(self)@ }),
    {
        self.review_queue.push(card_id);
    }

    /// Records an answer for a card: a forgotten card loses ease and goes
    /// back into the queue a few places before the end; any other answer
    /// counts as a review, and a hard one also lowers the ease, lengthens
    /// the interval and marks the card as hard.
    pub fn answer_card(&mut self, card_id: i64, rating: Rating)
        requires
            old(self)@.well_formed(),
            old(self)@.can_answer(card_id, rating),
        ensures
            final(self)@ == old(self)@.after_answer(card_id, rating),
            final(self)@.well_formed(),
    {
        let card: Card = match self.cards.get(&card_id) {
            Some(c) => *c,
            None => {
                return;
            },
        };
        self.last_answer = Some((card_id, rating, card));
        let mut updated = card;
        match rating {
            Rating::Again => {
                updated.lapses = card.lapses + 1;
                updated.ease_factor = if card.ease_factor >= 1500 {
                    card.ease_factor - 200
                } else {
                    1300
                };
                updated.interval = 0;
                let distance: usize = if updated.lapses >= 3 {
                    2
                } else {
                    (5 - updated.lapses) as usize
                };
                let at = if self.review_queue.len() >= distance {
                    self.review_queue.len() - distance
                } else {
                    0
                };
                self.review_queue.insert(at, card.id);
            },
            _ => {
                self.session_reviews_complete = self.session_reviews_complete + 1;
                if let Rating::Hard = rating {
                    if !contains_id(&self.hard_cards_this_session, card_id) {
                        self.hard_cards_this_session.push(card_id);
                    }
                    updated.ease_factor = if card.ease_factor >= 1450 {
                        card.ease_factor - 150
                    } else {
                        1300
                    };
                    let grown: u64 = (6 * card.interval as u64 + 2) / 5;
                    let longer: u64 = if grown > card.interval as u64 + 1 {
                        grown
                    } else {
                        card.interval as u64 + 1
                    };
                    updated.interval = if longer > u32::MAX as u64 {
                        u32::MAX
                    } else {
                        longer as u32
                    };
                }
            },
        }
        self.cards.insert(card_id, updated);
        proof {
            let m = old(self)@.after_answer(card_id, rating);
            assert(self@.cards =~= m.cards);
        }
    }

    /// Takes back the last answer: the card gets its earlier state back and
    /// leaves the queue, and the review and hard-card records are undone.
    /// Returns the card as restored, or nothing when there is no answer to
    /// take back.
    pub fn rewind_last_answer(&mut self) -> (r: Option<Card>)
        requires
            old(self)@.well_formed(),
        ensures
            final(self)@ == old(self)@.after_rewind(),
            final(self)@.well_formed(),
            r == match old(self)@.last {
                Some((_, _, c)) => Some(c),
                None => None::<Card>,
            },
    {
        match self.last_answer.take() {
            Some((card_id, rating, original)) => {
                remove_all(&mut self.review_queue, card_id);
                if !matches!(rating, Rating::Again) && self.session_reviews_complete > 0 {
                    self.session_reviews_complete = self.session_reviews_complete - 1;
                }
                if matches!(rating, Rating::Hard) {
                    remove_all(&mut self.hard_cards_this_session, card_id);
                }
                self.cards.insert(card_id, original);
                Some(original)
            },
            None => None,
        }
    }

    /// The current state of the card with this id, if the session has it.
    pub fn card(&self, card_id: i64) -> (r: Option<Card>)
        ensures
            r == (if self@.cards.contains_key(card_id) {
                Some(self@.cards[card_id])
            } else {
                None::<Card>
            }),
    {
        match self.cards.get(&card_id) {
            Some(c) => Some(*c),
            None => None,
        }
    }

    /// The note with this id, if the deck has one.
    pub fn get_note(&self, note_id: i64) -> (r: Option<&Note>)
        ensures
            match r {
                Some(n) => self@.notes.contains_key(note_id) && *n == self@.notes[note_id],
                None => !self@.notes.contains_key(note_id),
            },
    {
        self.notes.get(&note_id)
    }

    /// How many answers of this session counted as reviews.
    pub fn reviews_complete(&self) -> (r: usize)
        ensures
            r == self@.reviews,
    {
        self.session_reviews_complete
    }

    /// How many cards the session started with.
    pub fn total_session_cards(&self) -> (r: usize)
        ensures
            r == self@.total,
    {
        self.session_total
    }

    /// The cards answered as hard in this session, each once.
    pub fn hard_cards(&self) -> (r: &[i64])
        ensures
            r@ == self@.hard,
    {
        self.hard_cards_this_session.as_slice()
    }
}

impl Scheduler for Sm2Scheduler {
    open spec fn well_formed(&self) -> bool {
        self@.well_formed()
    }

    open spec fn can_answer(&self, card_id: i64, rating: Rating) -> bool {
        self@.can_answer(card_id, rating)
    }

    fn new(deck: Deck) -> (s: Self) {
        Sm2Scheduler::new_shuffled(deck)
    }

    fn next_card(&mut self) -> (r: Option<Card>) {
        Sm2Scheduler::next_card(self)
    }

    fn answer_card(&mut self, card_id: i64, rating: Rating) {
        Sm2Scheduler::answer_card(self, card_id, rating)
    }

    fn get_note(&self, note_id: i64) -> Option<&Note> {
        Sm2Scheduler::get_note(self, note_id)
    }

    fn reviews_complete(&self) -> usize {
        Sm2Scheduler::reviews_complete(self)
    }

    fn total_session_cards(&self) -> usize {
        Sm2Scheduler::total_session_cards(self)
    }

    fn hard_cards(&self) -> &[i64] {
        Sm2Scheduler::hard_cards(self)
    }

    fn rewind_last_answer(&mut self) -> (r: Option<Card>) {
        Sm2Scheduler::rewind_last_answer(self)
    }

    fn add_card_to_front(&mut self, card_id: i64) {
        Sm2Scheduler::add_card_to_front(self, card_id)
    }
}

} // verus!
