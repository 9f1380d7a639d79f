use deckbuilder::deck::generate_deck_data;
use deckbuilder::{BasicCard, CardEntry, CardError, CardShape, GetCardInfo};

fn tokens(n: usize) -> Vec<String> {
    (0..n).map(|i| format!("token-{i}")).collect()
}

fn entry(name: &str, amount: i64) -> CardEntry<BasicCard> {
    let front = if name == "Missing" { String::new() } else { format!("front/{name}") };
    let shape = if name == "Coin" { CardShape::Circle } else { CardShape::RoundedHexagon };
    CardEntry {
        card: BasicCard {
            name: name.to_string(),
            front_url: front,
            back_url: "back".to_string(),
            shape,
        },
        amount,
    }
}

#[test]
fn identifiers_follow_input_order() {
    let d = match generate_deck_data(vec![entry("A", 2), entry("B", 1)], tokens(3)) {
        Ok(d) => d,
        Err(_) => panic!("the deck is valid"),
    };
    assert_eq!(d.deck_ids, vec![100, 100, 200]);
    assert_eq!(d.custom_deck.len(), 2);
    assert_eq!(d.custom_deck[&100].name, "A");
    assert_eq!(d.custom_deck[&200].name, "B");
    let guids: Vec<&str> = d.contained_objects.iter().map(|o| o.guid.as_str()).collect();
    assert_eq!(guids, vec!["token-0", "token-1", "token-2"]);
    let ids: Vec<i64> = d.contained_objects.iter().map(|o| o.card_id).collect();
    assert_eq!(ids, vec![100, 100, 200]);
}

#[test]
fn descriptors_are_filled_from_the_card() {
    let d = match generate_deck_data(vec![entry("Coin", 1), entry("Hex", 1)], tokens(2)) {
        Ok(d) => d,
        Err(_) => panic!("the deck is valid"),
    };
    let c = &d.custom_deck[&100];
    assert_eq!(c.face_url, "front/Coin");
    assert_eq!(c.back_url, "back");
    assert_eq!(c.num_width, Some(1));
    assert_eq!(c.num_height, Some(1));
    assert!(c.back_is_hidden);
    assert!(!c.unique_back);
    assert_eq!(c.card_type, 4);
    assert_eq!(d.custom_deck[&200].card_type, 2);
    assert_eq!(i64::from(CardShape::RoundedRectangle), 0);
    assert_eq!(i64::from(CardShape::Hexagon), 3);
}

#[test]
fn each_copy_embeds_its_own_descriptor() {
    let d = match generate_deck_data(vec![entry("A", 3)], tokens(3)) {
        Ok(d) => d,
        Err(_) => panic!("the deck is valid"),
    };
    assert_eq!(d.contained_objects.len(), 3);
    for o in &d.contained_objects {
        assert_eq!(o.custom_deck.len(), 1);
        assert_eq!(o.custom_deck[&100], d.custom_deck[&100]);
    }
    assert_ne!(d.contained_objects[0].guid, d.contained_objects[1].guid);
}

#[test]
fn copies_add_up_to_the_amounts() {
    let deck = vec![entry("A", 4), entry("B", 1), entry("C", 2)];
    let d = match generate_deck_data(deck, tokens(7)) {
        Ok(d) => d,
        Err(_) => panic!("the deck is valid"),
    };
    assert_eq!(d.contained_objects.len(), 7);
    assert_eq!(d.deck_ids.len(), 7);
    let mut keys: Vec<i64> = d.custom_deck.keys().copied().collect();
    keys.sort();
    assert_eq!(keys, vec![100, 200, 300]);
}

#[test]
fn empty_deck_gives_empty_data() {
    let d = match generate_deck_data(Vec::<CardEntry<BasicCard>>::new(), vec![]) {
        Ok(d) => d,
        Err(_) => panic!("the deck is valid"),
    };
    assert!(d.deck_ids.is_empty());
    assert!(d.custom_deck.is_empty());
    assert!(d.contained_objects.is_empty());
}

#[test]
fn first_card_error_aborts() {
    let r = generate_deck_data(vec![entry("A", 1), entry("Missing", 2), entry("B", 1)], tokens(4));
    match r {
        Ok(_) => panic!("a card cannot be described"),
        Err(e) => assert_eq!(
            e,
            CardError::FrontImageNotFound {
                card_name: "Missing".to_string(),
                image_url: String::new()
            }
        ),
    }
}

#[test]
fn custom_error_holds_message() {
    assert_eq!(
        CardError::custom("bad".to_string()),
        CardError::Custom { message: "bad".to_string() }
    );
}

#[test]
fn entry_descriptor_carries_name() {
    let d = match entry("Zed", 1).get_custom_deck_state() {
        Ok(d) => d,
        Err(_) => panic!("the card is valid"),
    };
    assert_eq!(d.name, "Zed");
    assert!(entry("Missing", 1).get_custom_deck_state().is_err());
}

#[test]
fn basic_card_reports_missing_back() {
    let card = BasicCard {
        name: "Plain".to_string(),
        front_url: "f".to_string(),
        back_url: String::new(),
        shape: CardShape::Rectangle,
    };
    assert_eq!(
        card.get_back_image(),
        Err(CardError::BackImageFileError { card_name: "Plain".to_string(), image_url: String::new() })
    );
    assert_eq!(card.get_card_shape(), Ok(CardShape::Rectangle));
    let parsed = match BasicCard::parse("Named") {
        Ok(c) => c,
        Err(_) => panic!("a basic card always parses"),
    };
    assert_eq!(parsed.get_name(), "Named");
}

#[test]
fn non_positive_amount_makes_no_copies() {
    let d = match generate_deck_data(vec![entry("A", 0), entry("B", 2)], tokens(2)) {
        Ok(d) => d,
        Err(_) => panic!("the deck is valid"),
    };
    assert_eq!(d.deck_ids, vec![200, 200]);
    assert_eq!(d.custom_deck.len(), 2);
}
