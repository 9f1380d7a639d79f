//! The deck transformer: one descriptor per distinct card under a stable
//! identifier, and one object per physical copy, in input order.
use crate::{
    describes, descriptor_error, same_content, CardEntry, CardError,
    CustomDeckState, GetCardInfo,
};
use std::collections::HashMap;
use vstd::prelude::*;

verus! {

broadcast use vstd::std_specs::hash::group_hash_axioms;

/// One physical copy of a card, embedding its own descriptor.
pub struct CardObject {
    pub guid: String,
    pub card_id: i64,
    pub custom_deck: HashMap<i64, CustomDeckState>,
}

/// What a deck turns into: the identifier of every copy, the descriptor of
/// every distinct card by identifier, and the copies themselves.
pub struct DeckData {
    pub deck_ids: Vec<i64>,
    pub custom_deck: HashMap<i64, CustomDeckState>,
    pub contained_objects: Vec<CardObject>,
}

/// The identifier of the card at (0-based) position `k` of a deck.
pub open spec fn deck_id(k: int) -> int {
    (k + 1) * 100
}

/// The identifiers of the first `n` cards.
pub open spec fn ids_below(n: int) -> Set<i64> {
    Set::new(|id: i64| exists|k: int| 0 <= k < n && id == deck_id(k))
}

pub open spec fn amounts_of<T: GetCardInfo + Clone>(deck: Seq<CardEntry<T>>) -> Seq<i64> {
    deck.map_values(|e: CardEntry<T>| e.amount)
}

/// How many copies an amount makes: none for an amount below 1.
pub open spec fn count_of(a: i64) -> nat {
    if a > 0 {
        a as nat
    } else {
        0
    }
}

/// For each copy, card after card, the position of its card in the deck.
pub open spec fn owners(amounts: Seq<i64>) -> Seq<int>
    decreases amounts.len(),
{
    if amounts.len() == 0 {
        seq![]
    } else {
        owners(amounts.drop_last()) + Seq::new(
            count_of(amounts.last()),
            |_j: int| amounts.len() - 1,
        )
    }
}

/// Each card's identifier, repeated once per copy, card after card.
pub open spec fn copies(amounts: Seq<i64>) -> Seq<i64> {
    owners(amounts).map_values(|k: int| deck_id(k) as i64)
}

/// The sum of the amounts.
pub open spec fn total(amounts: Seq<i64>) -> int
    decreases amounts.len(),
{
    if amounts.len() == 0 {
        0
    } else {
        total(amounts.drop_last()) + amounts.last()
    }
}

/// Whether every card of the deck can be described.
pub open spec fn all_describable<T: GetCardInfo + Clone>(deck: Seq<CardEntry<T>>) -> bool {
    forall|k: int| 0 <= k < deck.len() ==> (#[trigger] descriptor_error(deck[k].card)).is_none()
}

/// `e` is the first error met, at card `k`, all cards before it described.
pub open spec fn first_error_at<T: GetCardInfo + Clone>(deck: Seq<CardEntry<T>>, k: int, e: CardError) -> bool {
    &&& 0 <= k < deck.len()
    &&& forall|j: int| 0 <= j < k ==> (#[trigger] descriptor_error(deck[j].card)).is_none()
    &&& descriptor_error(deck[k].card) == Some(e)
}

/// Copy `m` of the deck, its card at position `k`, with token `guid`.
pub open spec fn object_for<T: GetCardInfo>(o: CardObject, k: int, card: T, guid: String) -> bool {
    let id = deck_id(k) as i64;
    &&& o.card_id == id
    &&& o.guid == guid
    &&& o.custom_deck@.dom() == set![id]
    &&& describes(o.custom_deck@[id], card)
}

/// `d` is the transformation of `deck`, the copies taking `guids` in order.
pub open spec fn deck_data_of<T: GetCardInfo + Clone>(
    deck: Seq<CardEntry<T>>,
    guids: Seq<String>,
    d: DeckData,
) -> bool {
    let own = owners(amounts_of(deck));
    &&& d.deck_ids@ == copies(amounts_of(deck))
    &&& d.custom_deck@.dom() == ids_below(deck.len() as int)
    &&& forall|k: int|
        0 <= k < deck.len() ==> describes(
            #[trigger] d.custom_deck@[deck_id(k) as i64],
            deck[k].card,
        )
    &&& d.contained_objects@.len() == own.len()
    &&& forall|m: int|
        0 <= m < own.len() ==> object_for(
            #[trigger] d.contained_objects@[m],
            own[m],
            deck[own[m]].card,
            guids[m],
        )
}

proof fn lemma_owners_range(amounts: Seq<i64>, m: int)
    requires
        0 <= m < owners(amounts).len(),
    ensures
        0 <= owners(amounts)[m] < amounts.len(),
    decreases amounts.len(),
{
    let init = amounts.drop_last();
    if m < owners(init).len() {
        lemma_owners_range(init, m);
    }
}

proof fn lemma_owners_prefix(amounts: Seq<i64>, j: int)
    requires
        0 <= j <= amounts.len(),
    ensures
        owners(amounts.take(j)).len() <= owners(amounts).len(),
    decreases amounts.len() - j,
{
    if j == amounts.len() {
        assert(amounts.take(j) =~= amounts);
    } else {
        lemma_owners_prefix(amounts, j + 1);
        assert(amounts.take(j + 1).drop_last() =~= amounts.take(j));
    }
}

/// Transforms a deck, card by card in input order: the card at position `k`
/// gets identifier `(k + 1) * 100`, one descriptor, and `amount` copies, the
/// copies taking the tokens of `guids` in order. The first error of the card
/// source aborts the whole transformation.
pub fn generate_deck_data<T: GetCardInfo + Clone>(deck: Vec<CardEntry<T>>, guids: Vec<String>) -> (r:
    Result<DeckData, CardError>)
    requires
        deck@.len() * 100 <= i64::MAX,
        guids@.len() == owners(amounts_of(deck@)).len(),
    ensures
        r is Ok <==> all_describable(deck@),
        r matches Ok(d) ==> deck_data_of(deck@, guids@, d),
        r matches Err(e) ==> exists|k: int| first_error_at(deck@, k, e),
{
    let ghost amounts = amounts_of(deck@);
    let mut card_ids: Vec<i64> = Vec::new();
    let mut custom_deck: HashMap<i64, CustomDeckState> = HashMap::new();
    let mut contained_objects: Vec<CardObject> = Vec::new();
    let n = deck.len();
    let mut idx: usize = 0;
    while idx < n
        invariant
            n == deck@.len(),
            idx <= n,
            n * 100 <= i64::MAX,
            amounts == amounts_of(deck@),
            guids@.len() == owners(amounts).len(),
            forall|j: int| 0 <= j < idx ==> (#[trigger] descriptor_error(deck@[j].card)).is_none(),
            card_ids@ == copies(amounts.take(idx as int)),
            custom_deck@.dom() == ids_below(idx as int),
            forall|k: int|
                0 <= k < idx ==> describes(
                    #[trigger] custom_deck@[deck_id(k) as i64],
                    deck@[k].card,
                ),
            contained_objects@.len() == owners(amounts.take(idx as int)).len(),
            forall|m: int|
                0 <= m < contained_objects@.len() ==> object_for(
                    #[trigger] contained_objects@[m],
                    owners(amounts.take(idx as int))[m],
                    deck@[owners(amounts.take(idx as int))[m]].card,
                    guids@[m],
                ),
        decreases n - idx,
    {
        let entry = &deck[idx];
        let id: i64 = (idx as i64 + 1) * 100;
        let descriptor = match entry.get_custom_deck_state() {
            Ok(d) => d,
            Err(e) => {
                assert(first_error_at(deck@, idx as int, e));
                return Err(e);
            },
        };
        let ghost before_ids = custom_deck@.dom();
        custom_deck.insert(id, descriptor);
        proof {
            assert(custom_deck@.dom() == before_ids.insert(id));
            assert forall|x: i64| #[trigger] ids_below(idx + 1).contains(x) <==> custom_deck@.dom().contains(x) by {
                if x == id {
                    assert(0 <= idx < idx + 1 && x == deck_id(idx as int));
                } else {
                    if ids_below(idx + 1).contains(x) {
                        let k = choose|k: int| 0 <= k < idx + 1 && x == deck_id(k);
                        assert(k != idx);
                        assert(ids_below(idx as int).contains(x));
                    }
                    if custom_deck@.dom().contains(x) {
                        assert(ids_below(idx as int).contains(x));
                        let k = choose|k: int| 0 <= k < idx && x == deck_id(k);
                        assert(0 <= k < idx + 1 && x == deck_id(k));
                    }
                }
            }
            assert(custom_deck@.dom() =~= ids_below(idx + 1));
            assert forall|k: int| 0 <= k < idx + 1 implies describes(
                #[trigger] custom_deck@[deck_id(k) as i64],
                deck@[k].card,
            ) by {
                if k < idx {
                    assert(deck_id(k) as i64 != id);
                }
            }
        }
        let ghost own_before = owners(amounts.take(idx as int));
        let ghost ids_before = card_ids@;
        let amount = entry.amount;
        proof {
            lemma_owners_prefix(amounts, idx + 1);
            assert(amounts.take(idx + 1).drop_last() =~= amounts.take(idx as int));
        }
        let mut c: i64 = 0;
        while c < amount
            invariant
                0 <= c,
                amount > 0 ==> c <= amount,
                amount <= 0 ==> c == 0,
                amount == deck@[idx as int].amount,
                idx < n,
                n == deck@.len(),
                id == deck_id(idx as int),
                entry == &deck@[idx as int],
                descriptor_error(entry.card).is_none(),
                amounts == amounts_of(deck@),
                guids@.len() == owners(amounts).len(),
                own_before.len() + count_of(amount) <= owners(amounts).len(),
                card_ids@ == ids_before + Seq::new(c as nat, |_j: int| id),
                contained_objects@.len() == own_before.len() + c,
                forall|m: int|
                    0 <= m < contained_objects@.len() ==> object_for(
                        #[trigger] contained_objects@[m],
                        (own_before + Seq::new(c as nat, |_j: int| idx as int))[m],
                        deck@[(own_before + Seq::new(c as nat, |_j: int| idx as int))[m]].card,
                        guids@[m],
                    ),
            decreases amount - c,
        {
            let embedded = match entry.get_custom_deck_state() {
                Ok(d) => d,
                Err(e) => return Err(e),
            };
            let mut own: HashMap<i64, CustomDeckState> = HashMap::new();
            own.insert(id, embedded);
            let pos = contained_objects.len();
            let guid = guids[pos].clone();
            card_ids.push(id);
            contained_objects.push(CardObject { guid, card_id: id, custom_deck: own });
            proof {
                assert(own@.dom() =~= set![id]);
                let ob = own_before + Seq::new(c as nat, |_j: int| idx as int);
                let oa = own_before + Seq::new((c + 1) as nat, |_j: int| idx as int);
                assert forall|m: int| 0 <= m < contained_objects@.len() implies object_for(
                    #[trigger] contained_objects@[m],
                    oa[m],
                    deck@[oa[m]].card,
                    guids@[m],
                ) by {
                    if m < pos {
                        assert(oa[m] == ob[m]);
                    }
                }
            }
            c = c + 1;
            assert(card_ids@ =~= ids_before + Seq::new(c as nat, |_j: int| id));
        }
        proof {
            let a = amounts;
            assert(a.take(idx + 1).drop_last() =~= a.take(idx as int));
            assert(c == count_of(amount));
            assert(owners(a.take(idx + 1)) =~= own_before + Seq::new(c as nat, |_j: int| idx as int));
            assert(card_ids@ =~= copies(a.take(idx + 1)));
        }
        idx = idx + 1;
    }
    proof {
        assert(amounts.take(n as int) =~= amounts);
    }
    Ok(DeckData { deck_ids: card_ids, custom_deck, contained_objects })
}

/// With positive amounts, there are as many copies as the amounts add up to.
pub proof fn lemma_copies_len(amounts: Seq<i64>)
    requires
        forall|k: int| 0 <= k < amounts.len() ==> amounts[k] >= 1,
    ensures
        owners(amounts).len() == total(amounts),
    decreases amounts.len(),
{
    if amounts.len() > 0 {
        lemma_copies_len(amounts.drop_last());
    }
}

/// A card with a positive amount has a copy.
proof fn lemma_owner_present(amounts: Seq<i64>, k: int)
    requires
        0 <= k < amounts.len(),
        amounts[k] >= 1,
    ensures
        exists|m: int| 0 <= m < owners(amounts).len() && owners(amounts)[m] == k,
    decreases amounts.len(),
{
    let init = amounts.drop_last();
    if k == amounts.len() - 1 {
        let m = owners(init).len() as int;
        assert(owners(amounts)[m] == k);
    } else {
        lemma_owner_present(init, k);
        let m = choose|m: int| 0 <= m < owners(init).len() && owners(init)[m] == k;
        assert(owners(amounts)[m] == k);
    }
}

/// Of a transformed deck with positive amounts: the number of copies is the
/// sum of the amounts, and the descriptor keys are exactly the identifiers
/// that the copies carry, one per distinct card.
pub proof fn lemma_deck_counts<T: GetCardInfo + Clone>(
    deck: Seq<CardEntry<T>>,
    guids: Seq<String>,
    d: DeckData,
)
    requires
        forall|k: int| 0 <= k < deck.len() ==> (#[trigger] deck[k]).amount >= 1,
        deck.len() * 100 <= i64::MAX,
        deck_data_of(deck, guids, d),
    ensures
        d.contained_objects@.len() == total(amounts_of(deck)),
        d.deck_ids@.len() == total(amounts_of(deck)),
        d.custom_deck@.dom() == d.deck_ids@.to_set(),
        forall|k1: int, k2: int|
            0 <= k1 < k2 < deck.len() ==> #[trigger] deck_id(k1) != #[trigger] deck_id(k2),
{
    let a = amounts_of(deck);
    let own = owners(a);
    assert forall|k: int| 0 <= k < a.len() implies a[k] >= 1 by {
        assert(deck[k].amount >= 1);
    }
    lemma_copies_len(a);
    assert forall|x: i64| #[trigger] d.custom_deck@.dom().contains(x) <==> d.deck_ids@.to_set().contains(x) by {
        if d.custom_deck@.dom().contains(x) {
            let k = choose|k: int| 0 <= k < deck.len() && x == deck_id(k);
            lemma_owner_present(a, k);
            let m = choose|m: int| 0 <= m < own.len() && own[m] == k;
            assert(d.deck_ids@[m] == x);
        }
        if d.deck_ids@.to_set().contains(x) {
            let m = choose|m: int| 0 <= m < d.deck_ids@.len() && d.deck_ids@[m] == x;
            lemma_owners_range(a, m);
            assert(d.deck_ids@[m] == deck_id(own[m]) as i64);
            assert(0 <= own[m] < deck.len() && x == deck_id(own[m]));
            assert(ids_below(deck.len() as int).contains(x));
        }
    }
    assert(d.custom_deck@.dom() =~= d.deck_ids@.to_set());
}

/// Each copy embeds, under its own identifier, a descriptor with the same
/// content as the shared one for its card.
pub proof fn lemma_embedded_descriptor<T: GetCardInfo + Clone>(
    deck: Seq<CardEntry<T>>,
    guids: Seq<String>,
    d: DeckData,
)
    requires
        deck.len() * 100 <= i64::MAX,
        deck_data_of(deck, guids, d),
    ensures
        forall|m: int|
            0 <= m < d.contained_objects@.len() ==> same_content(
                (#[trigger] d.contained_objects@[m]).custom_deck@[d.deck_ids@[m]],
                d.custom_deck@[d.deck_ids@[m]],
            ),
{
    let a = amounts_of(deck);
    assert forall|m: int| 0 <= m < d.contained_objects@.len() implies same_content(
        (#[trigger] d.contained_objects@[m]).custom_deck@[d.deck_ids@[m]],
        d.custom_deck@[d.deck_ids@[m]],
    ) by {
        lemma_owners_range(a, m);
        let k = owners(a)[m];
        assert(d.deck_ids@[m] == deck_id(k) as i64);
        assert(object_for(d.contained_objects@[m], k, deck[k].card, guids[m]));
        assert(describes(d.custom_deck@[deck_id(k) as i64], deck[k].card));
    }
}

} // verus!
