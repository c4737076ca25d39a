//! The short lists of the tricks and of the registry. They are `SmallVec`s,
//! which keep a handful of items in place and move to the heap only beyond
//! that. What such a list holds is named here, and each operation on it says
//! what it does to that.
use vstd::prelude::*;
use rand::rngs::StdRng;
use rand::seq::SliceRandom;
use rand::SeedableRng;
use smallvec::SmallVec;
use crate::card::Card;
use crate::id::PlayerIdx;
use crate::subscriber::Subscriber;
use crate::war_trick_play::WarPlay;

verus! {

/// A list of seats, sixteen of them in place.
#[verifier::external_body]
#[derive(Debug)]
pub struct SeatList {
    items: SmallVec<[PlayerIdx; 16]>,
}

/// A list of the plays of a war trick, twelve of them in place.
#[verifier::external_body]
#[derive(Debug)]
pub struct PlayList {
    items: SmallVec<[WarPlay; 12]>,
}

/// A list of runs, twelve of them in place.
#[verifier::external_body]
#[derive(Debug)]
pub struct RunList {
    items: SmallVec<[(Card, Card); 12]>,
}

/// A list of the connections of a user, one of them in place.
#[verifier::external_body]
#[derive(Debug)]
pub struct SubList {
    items: SmallVec<[Subscriber; 1]>,
}

/// The seats that a list of seats holds, in order.
pub uninterp spec fn seats(v: SeatList) -> Seq<PlayerIdx>;

/// The connections that a list of connections holds, in order.
pub uninterp spec fn subs(v: SubList) -> Seq<Subscriber>;

impl View for SubList {
    type V = Seq<Subscriber>;

    /// The connections of the list, in order.
    open spec fn view(&self) -> Seq<Subscriber> {
        subs(*self)
    }
}

/// The plays that a list of plays holds, in order.
pub uninterp spec fn war_plays(v: PlayList) -> Seq<WarPlay>;

/// The runs that a list of runs holds, in order.
pub uninterp spec fn runs(v: RunList) -> Seq<(Card, Card)>;

/// `SmallVec::new` makes an empty list.
#[verifier::external_body]
pub(crate) fn seats_new() -> (v: SeatList)
    ensures
        seats(v) == Seq::<PlayerIdx>::empty(),
{
    SeatList { items: SmallVec::new() }
}

/// `SmallVec::push` appends an item to the list.
#[verifier::external_body]
pub(crate) fn seats_push(v: &mut SeatList, p: PlayerIdx)
    ensures
        seats(*final(v)) == seats(*old(v)).push(p),
{
    v.items.push(p);
}

/// `SmallVec::as_slice` gives the items of the list as a slice.
#[verifier::external_body]
pub(crate) fn seats_slice(v: &SeatList) -> (s: &[PlayerIdx])
    ensures
        s@ == seats(*v),
{
    v.items.as_slice()
}

/// `SmallVec::clone` makes a list of the same items in the same order.
#[verifier::external_body]
pub(crate) fn seats_clone(v: &SeatList) -> (r: SeatList)
    ensures
        seats(r) == seats(*v),
{
    SeatList { items: v.items.clone() }
}

/// `SmallVec::clear` removes all items from the list.
#[verifier::external_body]
pub(crate) fn seats_clear(v: &mut SeatList)
    ensures
        seats(*final(v)) == Seq::<PlayerIdx>::empty(),
{
    v.items.clear();
}

/// `SmallVec::new` makes an empty list.
#[verifier::external_body]
pub(crate) fn subs_new() -> (v: SubList)
    ensures
        subs(v) == Seq::<Subscriber>::empty(),
{
    SubList { items: SmallVec::new() }
}

/// `SmallVec::push` appends an item to the list.
#[verifier::external_body]
pub(crate) fn subs_push(v: &mut SubList, sub: Subscriber)
    ensures
        subs(*final(v)) == subs(*old(v)).push(sub),
{
    v.items.push(sub);
}

/// `SmallVec::as_slice` gives the items of the list as a slice.
#[verifier::external_body]
pub(crate) fn subs_slice(v: &SubList) -> (s: &[Subscriber])
    ensures
        s@ == subs(*v),
{
    v.items.as_slice()
}

/// `SmallVec::remove` takes the item at a place out of the list and gives it
/// back; the items behind it move up. It panics beyond the last item.
#[verifier::external_body]
pub(crate) fn subs_remove(v: &mut SubList, i: usize) -> (sub: Subscriber)
    requires
        i < subs(*old(v)).len(),
    ensures
        sub == subs(*old(v))[i as int],
        subs(*final(v)) == subs(*old(v)).remove(i as int),
{
    v.items.remove(i)
}

/// `SmallVec::insert` puts an item at a place of the list; the items from
/// there on move back. It panics beyond the place behind the last item.
#[verifier::external_body]
pub(crate) fn subs_insert(v: &mut SubList, i: usize, sub: Subscriber)
    requires
        i <= subs(*old(v)).len(),
    ensures
        subs(*final(v)) == subs(*old(v)).insert(i as int, sub),
{
    v.items.insert(i, sub);
}

/// The order in which a deck lies after it was shuffled with a generator made
/// from `seed`. The generator is the one that `StdRng` is in the version of
/// the library that this crate is built with; a later version may have
/// another, and with it another order.
pub uninterp spec fn deck_order(cards: Seq<Card>, seed: u64) -> Seq<Card>;

/// `StdRng::seed_from_u64` makes a generator that depends on the seed alone,
/// and `shuffle` swaps the items of a slice among themselves as the generator
/// says: the same cards lie in the deck afterwards, in an order that the cards
/// and the seed fix.
#[verifier::external_body]
pub(crate) fn shuffle_deck(cards: &mut Vec<Card>, seed: u64)
    ensures
        final(cards)@ == deck_order(old(cards)@, seed),
        final(cards)@.to_multiset() == old(cards)@.to_multiset(),
{
    cards.shuffle(&mut StdRng::seed_from_u64(seed));
}

/// The order of the seats that receive dreck, and the order of the dreck, after
/// both were shuffled, the seats first, with one generator made from `seed`.
/// As with `deck_order`, the orders are those of the generator of the version
/// of the library that this crate is built with.
pub uninterp spec fn dreck_order(players: Seq<PlayerIdx>, cards: Seq<Card>, seed: u64) -> (Seq<PlayerIdx>, Seq<Card>);

/// `StdRng::seed_from_u64` makes a generator that depends on the seed alone,
/// and `shuffle` swaps the items of a slice among themselves as the generator
/// says: the same seats and the same cards are there afterwards, in orders that
/// the lists and the seed fix.
#[verifier::external_body]
pub(crate) fn shuffle_dreck(players: &mut SeatList, cards: &mut Vec<Card>, seed: u64)
    ensures
        seats(*final(players)) == dreck_order(seats(*old(players)), old(cards)@, seed).0,
        final(cards)@ == dreck_order(seats(*old(players)), old(cards)@, seed).1,
        seats(*final(players)).to_multiset() == seats(*old(players)).to_multiset(),
        final(cards)@.to_multiset() == old(cards)@.to_multiset(),
{
    let mut rng = StdRng::seed_from_u64(seed);
    players.items.shuffle(&mut rng);
    cards.shuffle(&mut rng);
}

/// `SmallVec::new` makes an empty list.
#[verifier::external_body]
pub(crate) fn war_plays_new() -> (v: PlayList)
    ensures
        war_plays(v) == Seq::<WarPlay>::empty(),
{
    PlayList { items: SmallVec::new() }
}

/// `SmallVec::push` appends an item to the list.
#[verifier::external_body]
pub(crate) fn war_plays_push(v: &mut PlayList, p: WarPlay)
    ensures
        war_plays(*final(v)) == war_plays(*old(v)).push(p),
{
    v.items.push(p);
}

/// `SmallVec::as_slice` gives the items of the list as a slice.
#[verifier::external_body]
pub(crate) fn war_plays_slice(v: &PlayList) -> (s: &[WarPlay])
    ensures
        s@ == war_plays(*v),
{
    v.items.as_slice()
}

/// `SmallVec::clone` makes a list of the same items in the same order.
#[verifier::external_body]
pub(crate) fn war_plays_clone(v: &PlayList) -> (r: PlayList)
    ensures
        war_plays(r) == war_plays(*v),
{
    PlayList { items: v.items.clone() }
}

/// `SmallVec::clone` makes a list of the same items in the same order.
#[verifier::external_body]
pub(crate) fn runs_clone(v: &RunList) -> (r: RunList)
    ensures
        runs(r) == runs(*v),
{
    RunList { items: v.items.clone() }
}

/// `SmallVec::new` makes an empty list.
#[verifier::external_body]
pub(crate) fn runs_new() -> (v: RunList)
    ensures
        runs(v) == Seq::<(Card, Card)>::empty(),
{
    RunList { items: SmallVec::new() }
}

/// `SmallVec::push` appends an item to the list.
#[verifier::external_body]
pub(crate) fn runs_push(v: &mut RunList, run: (Card, Card))
    ensures
        runs(*final(v)) == runs(*old(v)).push(run),
{
    v.items.push(run);
}

/// `SmallVec::as_slice` gives the items of the list as a slice.
#[verifier::external_body]
pub(crate) fn runs_slice(v: &RunList) -> (s: &[(Card, Card)])
    ensures
        s@ == runs(*v),
{
    v.items.as_slice()
}

/// `SmallVec::drain`, with a range from the start, removes the first `n` items
/// of the list and keeps the rest in order. It panics beyond the length.
#[verifier::external_body]
pub(crate) fn runs_drain_front(v: &mut RunList, n: usize)
    requires
        n <= runs(*old(v)).len(),
    ensures
        runs(*final(v)) == runs(*old(v)).subrange(n as int, runs(*old(v)).len() as int),
{
    v.items.drain(..n);
}

} // verus!
