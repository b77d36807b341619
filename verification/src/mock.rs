//! The sample-data generator behind the embedding demo: it draws a small
//! random number of characters and builds their messages and screen
//! locations, each message and location tied to its character's id and
//! stamped with a running order number.

use vstd::prelude::*;

use crate::definitions::{
    Character, CharacterView, Location, LocationView, Message, MessageView, Response,
};

verus! {

/// Relies on `rand::random`: a value drawn from the thread-local random
/// generator.  Nothing is promised of the value, since it is random.
pub assume_specification<T>[ rand::random::<T> ]() -> (r: T)
    where
        rand::distr::StandardUniform: rand::distr::Distribution<T>,
;

/// Draws the number of records for one sample bundle: random, under ten.
pub fn mock_count() -> (r: usize)
    ensures
        r < 10,
{
    let n: u64 = rand::random();
    (n % 10) as usize
}

/// The fixed traits that every sample character carries.
pub open spec fn sample_character(c: CharacterView) -> bool {
    c.hair_color == "hair"@ && c.eye_color == "eye"@ && c.skin_color == "skin"@ && c.outfit
        == "outfit"@ && c.id.len() == 36
}

/// Builds one sample bundle of `count` records.
///
/// Each of the `count` characters carries the fixed traits and a fresh
/// random id.  Message `i` quotes character `i` and is stamped with order
/// `i`; location `i` belongs to character `i` and is stamped with order
/// `count + i`.  The location walk starts at `(1, 1)` and multiplies each
/// coordinate by the running index, so every location after the first sits
/// at the origin.
pub fn mock_records(count: usize) -> (r: Response)
    requires
        count < 10,
    ensures
        r@.characters.len() == count as int,
        r@.messages.len() == count as int,
        r@.locations.len() == count as int,
        forall|i: int| 0 <= i < count ==> sample_character(#[trigger] r@.characters[i]),
        forall|i: int|
            0 <= i < count ==> #[trigger] r@.messages[i] == (MessageView {
                message: "message"@,
                character_id: r@.characters[i].id,
                order: i,
            }),
        forall|i: int|
            0 <= i < count ==> #[trigger] r@.locations[i] == (LocationView {
                x: if i == 0 { 1int } else { 0int },
                y: if i == 0 { 1int } else { 0int },
                character_id: r@.characters[i].id,
                order: count + i,
            }),
{
    let mut order: usize = 0;

    let mut characters: Vec<Character> = Vec::new();
    let mut messages: Vec<Message> = Vec::new();
    let mut locations: Vec<Location> = Vec::new();

    let mut i: usize = 0;
    while i < count
        invariant
            i <= count,
            characters.deep_view().len() == i as int,
            forall|k: int| 0 <= k < i ==> sample_character(#[trigger] characters.deep_view()[k]),
        decreases count - i,
    {
        let ghost prev = characters.deep_view();
        let c = Character::new(
            "hair".to_owned(),
            "eye".to_owned(),
            "skin".to_owned(),
            "outfit".to_owned(),
        );
        characters.push(c);
        proof {
            assert(characters.deep_view() =~= prev + seq![c@]);
        }
        i = i + 1;
    }

    let mut i: usize = 0;
    while i < count
        invariant
            i <= count,
            count < 10,
            order == i,
            characters.deep_view().len() == count as int,
            messages.deep_view().len() == i as int,
            forall|k: int|
                0 <= k < i ==> #[trigger] messages.deep_view()[k] == (MessageView {
                    message: "message"@,
                    character_id: characters.deep_view()[k].id,
                    order: k,
                }),
        decreases count - i,
    {
        let ghost prev = messages.deep_view();
        let m = Message::new("message".to_owned(), characters[i].get_id(), order);
        messages.push(m);
        proof {
            assert(messages.deep_view() =~= prev + seq![m@]);
        }
        order = order + 1;
        i = i + 1;
    }

    let mut x: i32 = 1;
    let mut y: i32 = 1;
    let mut i: usize = 0;
    while i < count
        invariant
            i <= count,
            count < 10,
            order == count + i,
            i == 0 ==> x == 1 && y == 1,
            i >= 1 ==> x == 0 && y == 0,
            characters.deep_view().len() == count as int,
            locations.deep_view().len() == i as int,
            forall|k: int|
                0 <= k < i ==> #[trigger] locations.deep_view()[k] == (LocationView {
                    x: if k == 0 { 1int } else { 0int },
                    y: if k == 0 { 1int } else { 0int },
                    character_id: characters.deep_view()[k].id,
                    order: count + k,
                }),
        decreases count - i,
    {
        let ghost prev = locations.deep_view();
        let l = Location::new(x, y, characters[i].get_id(), order);
        locations.push(l);
        proof {
            assert(locations.deep_view() =~= prev + seq![l@]);
        }
        proof {
            assert(0 <= i as i32 <= 9);
            if i == 0 {
                assert(i as i32 == 0);
                assert(x * (i as i32) == 0);
                assert(-1 * (i as i32) == 0);
                assert(y * (-1 * (i as i32)) == 0);
                assert(x * (-1 * (i as i32)) == 0);
                assert(y * (i as i32) == 0);
            } else {
                assert(x == 0 && y == 0);
                assert(x * (i as i32) == 0);
                assert(y * (-1 * (i as i32)) == 0);
                assert(x * (-1 * (i as i32)) == 0);
                assert(y * (i as i32) == 0);
            }
        }
        if i % 2 == 0 {
            x = x * (i as i32);
            y = y * (-1 * (i as i32));
        } else {
            x = x * (-1 * (i as i32));
            y = y * (i as i32);
        }
        order = order + 1;
        i = i + 1;
    }

    Response::new(characters, messages, locations)
}

} // verus!
