//! Shared definitions of the hatchling front end: the token taxonomy that the
//! scanner produces, together with its spec-level view, and the sample-data
//! records handed to the embedding demo.

use vstd::prelude::*;

verus! {

/// The primitive value kinds of the language.  Scaffolding for the parse
/// stage; the scanner does not inspect it.
#[derive(Clone, Debug, PartialEq, Eq, Hash)]
pub enum TypeKind {
    NumberType,
    StringType,
    BooleanType,
}

/// An arithmetic operator character.
#[derive(Clone, Debug, PartialEq)]
pub enum Operation {
    Plus,
    Minus,
    Multiply,
    Divide,
    Modulus,
}

/// Structural punctuation and control markers.
///
/// `Invalid` tags the two failure conditions of the scan: an unrecognized
/// character, and a string literal or block comment left unterminated at the
/// end of the buffer.
#[derive(Clone, Debug, PartialEq)]
pub enum Symbol {
    // Special
    ParensL,
    ParensR,
    SemiColon,
    // File
    Eos,
    Eof,
    // Error
    Invalid,
}

/// One lexeme, classified.
///
/// A `NumericLiteral` carries the matched run of decimal digits as text; its
/// numeric (64-bit float) value is left to the consumer, since the digits
/// determine it.  A `StringLiteral` carries the matched text including both
/// delimiting quotes.  `Identifier` is reserved for the parse stage: the
/// scanner never produces it.
#[derive(Clone, Debug, PartialEq)]
pub enum Token {
    Identifier(String),
    NumericLiteral(String),
    StringLiteral(String),
    Operator(Operation),
    Symbol(Symbol),
}

/// The mathematical value of a [`Token`]: the same classification with each
/// text payload abstracted to its sequence of characters.
pub enum TokenView {
    Identifier(Seq<char>),
    NumericLiteral(Seq<char>),
    StringLiteral(Seq<char>),
    Operator(Operation),
    Symbol(Symbol),
}

impl View for Token {
    type V = TokenView;

    open spec fn view(&self) -> TokenView {
        match self {
            Token::Identifier(name) => TokenView::Identifier(name@),
            Token::NumericLiteral(digits) => TokenView::NumericLiteral(digits@),
            Token::StringLiteral(text) => TokenView::StringLiteral(text@),
            Token::Operator(op) => TokenView::Operator(*op),
            Token::Symbol(sym) => TokenView::Symbol(*sym),
        }
    }
}

impl DeepView for Token {
    type V = TokenView;

    open spec fn deep_view(&self) -> TokenView {
        self.view()
    }
}

/// The keywords of the language.  Scaffolding for the parse stage; the
/// scanner does not produce keyword tokens.
pub enum Keyword {
    // Functional
    Function,
    Return,
    // BooleanType
    True,
    False,
    // Character
    Say,
    Move,
    Position,
    ID,
    Hair,
    Skin,
    Eyes,
    Outfit,
    Background,
    Left,
    Right,
    Up,
    Down,
    // Conditionals
    And,
    Or,
    Not,
    If,
    Elseif,
    Else,
    Isequal,
    Greaterthan,
    Lessthan,
    // Built-in functions
    Powerof,
}

/// A screen position of a character in the front-end demo.
pub struct Location {
    pub x: i32,
    pub y: i32,
    pub character_id: String,
    pub order: usize,
}

/// The mathematical value of a [`Location`].
pub struct LocationView {
    pub x: int,
    pub y: int,
    pub character_id: Seq<char>,
    pub order: int,
}

impl View for Location {
    type V = LocationView;

    open spec fn view(&self) -> LocationView {
        (LocationView {
            x: self.x as int,
            y: self.y as int,
            character_id: self.character_id@,
            order: self.order as int,
        })
    }
}

impl DeepView for Location {
    type V = LocationView;

    open spec fn deep_view(&self) -> LocationView {
        self.view()
    }
}

impl Location {
    /// Builds the record from its parts, unchanged.
    pub fn new(x: i32, y: i32, character_id: String, order: usize) -> (r: Self)
        ensures
            r@ == (LocationView {
                x: x as int,
                y: y as int,
                character_id: character_id@,
                order: order as int,
            }),
    {
        Self { x, y, character_id, order }
    }
}

/// A line spoken by a character in the front-end demo.
pub struct Message {
    pub message: String,
    pub character_id: String,
    pub order: usize,
}

/// The mathematical value of a [`Message`].
pub struct MessageView {
    pub message: Seq<char>,
    pub character_id: Seq<char>,
    pub order: int,
}

impl View for Message {
    type V = MessageView;

    open spec fn view(&self) -> MessageView {
        (MessageView {
            message: self.message@,
            character_id: self.character_id@,
            order: self.order as int,
        })
    }
}

impl DeepView for Message {
    type V = MessageView;

    open spec fn deep_view(&self) -> MessageView {
        self.view()
    }
}

impl Message {
    /// Builds the record from its parts, unchanged.
    pub fn new(message: String, character_id: String, order: usize) -> (r: Self)
        ensures
            r@ == (MessageView {
                message: message@,
                character_id: character_id@,
                order: order as int,
            }),
    {
        Self { message, character_id, order }
    }
}

/// A character of the front-end demo, identified by a freshly drawn UUID.
pub struct Character {
    pub hair_color: String,
    pub eye_color: String,
    pub skin_color: String,
    pub outfit: String,
    pub id: String,
}

/// The mathematical value of a [`Character`].
pub struct CharacterView {
    pub hair_color: Seq<char>,
    pub eye_color: Seq<char>,
    pub skin_color: Seq<char>,
    pub outfit: Seq<char>,
    pub id: Seq<char>,
}

impl View for Character {
    type V = CharacterView;

    open spec fn view(&self) -> CharacterView {
        (CharacterView {
            hair_color: self.hair_color@,
            eye_color: self.eye_color@,
            skin_color: self.skin_color@,
            outfit: self.outfit@,
            id: self.id@,
        })
    }
}

impl DeepView for Character {
    type V = CharacterView;

    open spec fn deep_view(&self) -> CharacterView {
        self.view()
    }
}

/// Relies on `uuid::Uuid::new_v4` and the `Display` impl of `uuid::Uuid`:
/// a fresh random version-4 UUID, rendered in the hyphenated form, which is
/// always 36 characters long.  Nothing further is promised of the value,
/// since it is drawn at random.
#[verifier::external_body]
fn fresh_id() -> (r: String)
    ensures
        r@.len() == 36,
{
    uuid::Uuid::new_v4().to_string()
}

impl Character {
    /// Builds the record from its visual traits, drawing a fresh random id.
    pub fn new(hair_color: String, eye_color: String, skin_color: String, outfit: String) -> (r:
        Self)
        ensures
            r@.hair_color == hair_color@,
            r@.eye_color == eye_color@,
            r@.skin_color == skin_color@,
            r@.outfit == outfit@,
            r@.id.len() == 36,
    {
        let id = fresh_id();
        Self { hair_color, eye_color, skin_color, outfit, id }
    }

    /// Hands out a copy of the character's id.
    pub fn get_id(&self) -> (r: String)
        ensures
            r@ == self@.id,
    {
        self.id.clone()
    }
}

/// The bundle of sample records that the embedding demo serializes.
pub struct Response {
    pub characters: Vec<Character>,
    pub messages: Vec<Message>,
    pub locations: Vec<Location>,
}

/// The mathematical value of a [`Response`].
pub struct ResponseView {
    pub characters: Seq<CharacterView>,
    pub messages: Seq<MessageView>,
    pub locations: Seq<LocationView>,
}

impl View for Response {
    type V = ResponseView;

    open spec fn view(&self) -> ResponseView {
        (ResponseView {
            characters: self.characters.deep_view(),
            messages: self.messages.deep_view(),
            locations: self.locations.deep_view(),
        })
    }
}

impl Response {
    /// Builds the bundle from its parts, unchanged.
    pub fn new(characters: Vec<Character>, messages: Vec<Message>, locations: Vec<Location>) -> (r:
        Self)
        ensures
            r@ == (ResponseView {
                characters: characters.deep_view(),
                messages: messages.deep_view(),
                locations: locations.deep_view(),
            }),
    {
        Self { characters, messages, locations }
    }
}

/// A node of the syntax tree that the parse stage will build.  Scaffolding:
/// nothing in the crate constructs it yet.
#[allow(dead_code)]
pub struct AST {
    node: Token,
    leaves: Vec<Box<AST>>,
}

/// The failures the parse stage will report.  Scaffolding: nothing in the
/// crate produces it yet.
pub enum ParseError {
    Unexpected(Token),
    DuplicateModifier(Token),
    Syntax(Token),
}

} // verus!
