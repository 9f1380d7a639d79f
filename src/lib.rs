//! Card lists: a line-oriented text format of quantities and names, parsed
//! with exact error positions, and turned into the data of a stacked deck.
pub mod deck;
pub mod parser;

use parser::ParseError;
use vstd::prelude::*;

verus! {

/// An error reported by a card source while describing a card.
#[derive(Clone, Debug, PartialEq, Eq)]
pub enum CardError {
    CardDoesntExist { card_name: String },
    BackImageFileError { card_name: String, image_url: String },
    FrontImageNotFound { card_name: String, image_url: String },
    Custom { message: String },
}

impl CardError {
    pub fn custom(message: String) -> (r: Self)
        ensures
            r == (CardError::Custom { message }),
    {
        CardError::Custom { message }
    }
}

/// The physical outline of a card. Its code (see `shape_code`) is part of
/// the exported format and must not change.
#[derive(Clone, Copy, Debug, PartialEq, Eq)]
pub enum CardShape {
    RoundedRectangle,
    Rectangle,
    RoundedHexagon,
    Hexagon,
    Circle,
}

/// The wire code of a shape.
pub open spec fn shape_code(s: CardShape) -> i64 {
    match s {
        CardShape::RoundedRectangle => 0,
        CardShape::Rectangle => 1,
        CardShape::RoundedHexagon => 2,
        CardShape::Hexagon => 3,
        CardShape::Circle => 4,
    }
}

impl From<CardShape> for i64 {
    fn from(value: CardShape) -> (r: i64)
        ensures
            r == shape_code(value),
    {
        match value {
            CardShape::RoundedRectangle => 0,
            CardShape::Rectangle => 1,
            CardShape::RoundedHexagon => 2,
            CardShape::Hexagon => 3,
            CardShape::Circle => 4,
        }
    }
}

impl vstd::std_specs::convert::FromSpecImpl<CardShape> for i64 {
    open spec fn obeys_from_spec() -> bool {
        true
    }

    open spec fn from_spec(v: CardShape) -> i64 {
        shape_code(v)
    }
}

/// What a card source offers: a name, images, a shape, and a way to build a
/// card from its name. The spec functions say what each method returns, so
/// that the methods depend on the card alone.
pub trait GetCardInfo: Sized {
    /// The card's name, as text.
    spec fn name_view(&self) -> Seq<char>;

    /// What `get_front_image` returns.
    spec fn front_view(&self) -> Result<String, CardError>;

    /// What `get_back_image` returns.
    spec fn back_view(&self) -> Result<String, CardError>;

    /// What `get_card_shape` returns.
    spec fn shape_view(&self) -> Result<CardShape, CardError>;

    /// Whether `parse` builds a card from this name.
    spec fn accepts(name: Seq<char>) -> bool;

    /// Whether `parse` may refuse this name with this error.
    spec fn rejects_with(name: Seq<char>, e: ParseError) -> bool;

    /// The card's name.
    fn get_name(&self) -> (r: &str)
        ensures
            r@ == self.name_view(),
    ;

    /// The card's front image location.
    fn get_front_image(&self) -> (r: Result<String, CardError>)
        ensures
            r == self.front_view(),
    ;

    /// The card's back image location.
    fn get_back_image(&self) -> (r: Result<String, CardError>)
        ensures
            r == self.back_view(),
    ;

    /// The card's shape.
    fn get_card_shape(&self) -> (r: Result<CardShape, CardError>)
        ensures
            r == self.shape_view(),
    ;

    /// Builds the card of the given name; a card so built carries that name.
    fn parse(string: &str) -> (r: Result<Self, ParseError>)
        ensures
            r is Ok <==> Self::accepts(string@),
            r matches Ok(c) ==> c.name_view() == string@,
            r matches Err(e) ==> Self::rejects_with(string@, e),
    ;
}

/// A card whose attributes are given outright. An empty image location
/// means that the image cannot be found.
#[derive(Clone, Debug, PartialEq, Eq)]
pub struct BasicCard {
    pub name: String,
    pub front_url: String,
    pub back_url: String,
    pub shape: CardShape,
}

impl GetCardInfo for BasicCard {
    open spec fn name_view(&self) -> Seq<char> {
        self.name@
    }

    open spec fn front_view(&self) -> Result<String, CardError> {
        if self.front_url@.len() == 0 {
            Err(CardError::FrontImageNotFound { card_name: self.name, image_url: self.front_url })
        } else {
            Ok(self.front_url)
        }
    }

    open spec fn back_view(&self) -> Result<String, CardError> {
        if self.back_url@.len() == 0 {
            Err(CardError::BackImageFileError { card_name: self.name, image_url: self.back_url })
        } else {
            Ok(self.back_url)
        }
    }

    open spec fn shape_view(&self) -> Result<CardShape, CardError> {
        Ok(self.shape)
    }

    open spec fn accepts(name: Seq<char>) -> bool {
        true
    }

    open spec fn rejects_with(name: Seq<char>, e: ParseError) -> bool {
        false
    }

    fn get_name(&self) -> (r: &str) {
        self.name.as_str()
    }

    fn get_front_image(&self) -> (r: Result<String, CardError>) {
        if self.front_url.as_str().is_empty() {
            Err(
                CardError::FrontImageNotFound {
                    card_name: self.name.clone(),
                    image_url: self.front_url.clone(),
                },
            )
        } else {
            Ok(self.front_url.clone())
        }
    }

    fn get_back_image(&self) -> (r: Result<String, CardError>) {
        if self.back_url.as_str().is_empty() {
            Err(
                CardError::BackImageFileError {
                    card_name: self.name.clone(),
                    image_url: self.back_url.clone(),
                },
            )
        } else {
            Ok(self.back_url.clone())
        }
    }

    fn get_card_shape(&self) -> (r: Result<CardShape, CardError>) {
        Ok(self.shape)
    }

    /// A card of that name, with no images yet and the usual shape; it is
    /// always built.
    fn parse(string: &str) -> (r: Result<Self, ParseError>)
        ensures
            r matches Ok(c) && c.name@ == string@ && c.front_url@.len() == 0
                && c.back_url@.len() == 0 && c.shape == CardShape::RoundedRectangle,
    {
        Ok(
            BasicCard {
                name: string.to_owned(),
                front_url: String::new(),
                back_url: String::new(),
                shape: CardShape::RoundedRectangle,
            },
        )
    }
}

/// A card and how many copies of it a deck holds.
#[derive(Clone)]
pub struct CardEntry<T: GetCardInfo + Clone> {
    pub card: T,
    pub amount: i64,
}

/// The description of one distinct card in the exported deck.
#[derive(Clone, Debug, PartialEq, Eq)]
pub struct CustomDeckState {
    pub name: String,
    pub face_url: String,
    pub back_url: String,
    pub num_width: Option<i64>,
    pub num_height: Option<i64>,
    pub back_is_hidden: bool,
    pub unique_back: bool,
    pub card_type: i64,
}

/// The first error that describing the card meets, asking for the front
/// image, the back image and the shape in that order.
pub open spec fn descriptor_error<T: GetCardInfo>(card: T) -> Option<CardError> {
    match card.front_view() {
        Err(e) => Some(e),
        Ok(_) => match card.back_view() {
            Err(e) => Some(e),
            Ok(_) => match card.shape_view() {
                Err(e) => Some(e),
                Ok(_) => None,
            },
        },
    }
}

/// `d` is the descriptor of a card whose attributes all came back.
pub open spec fn describes<T: GetCardInfo>(d: CustomDeckState, card: T) -> bool {
    &&& card.front_view() matches Ok(f) && d.face_url == f
    &&& card.back_view() matches Ok(b) && d.back_url == b
    &&& card.shape_view() matches Ok(s) && d.card_type == shape_code(s)
    &&& d.name@ == card.name_view()
    &&& d.num_width == Some(1i64)
    &&& d.num_height == Some(1i64)
    &&& d.back_is_hidden
    &&& !d.unique_back
}

/// What describing a card gives: its first error, or its descriptor.
pub open spec fn descriptor_result<T: GetCardInfo>(r: Result<CustomDeckState, CardError>, card: T) -> bool {
    match descriptor_error(card) {
        Some(e) => r == Err::<CustomDeckState, CardError>(e),
        None => r matches Ok(d) && describes(d, card),
    }
}

/// Two descriptors with the same content.
pub open spec fn same_content(a: CustomDeckState, b: CustomDeckState) -> bool {
    &&& a.name@ == b.name@
    &&& a.face_url == b.face_url
    &&& a.back_url == b.back_url
    &&& a.num_width == b.num_width
    &&& a.num_height == b.num_height
    &&& a.back_is_hidden == b.back_is_hidden
    &&& a.unique_back == b.unique_back
    &&& a.card_type == b.card_type
}

impl<T: GetCardInfo + Clone> CardEntry<T> {
    /// Describes this entry's card; fails with the first error that the card
    /// source reports, asking no further.
    pub fn get_custom_deck_state(&self) -> (r: Result<CustomDeckState, CardError>)
        ensures
            descriptor_result(r, self.card),
    {
        let face_url = match self.card.get_front_image() {
            Ok(u) => u,
            Err(e) => return Err(e),
        };
        let back_url = match self.card.get_back_image() {
            Ok(u) => u,
            Err(e) => return Err(e),
        };
        let shape = match self.card.get_card_shape() {
            Ok(s) => s,
            Err(e) => return Err(e),
        };
        Ok(CustomDeckState {
            name: self.card.get_name().to_owned(),
            face_url,
            back_url,
            num_width: Some(1),
            num_height: Some(1),
            back_is_hidden: true,
            unique_back: false,
            card_type: i64::from(shape),
        })
    }
}

} // verus!
