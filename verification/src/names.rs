//! Display names for new players.

use crate::random::pick_one;
use vstd::prelude::*;

verus! {

/// The names that new players are given.
pub const USERNAMES: [&'static str; 141] = [
    "Hiphopopotamus",
    "Rhymenocerous",
    "Steve",
    "Peter Potamus",
    "Mr. Wiggles",
    "Mr. Bubbles",
    "Seargent Snout",
    "General Hipper",
    "Calamity Hippopatamy",
    "Hippaul Potamus",
    "Ringo Potamus",
    "Mrs. Basil E. Frankenhippo",
    "Harry Pottamus",
    "Hermoine Potamus",
    "Ron Potamus",
    "Buckbeak",
    "Hippendor",
    "Hippopuff",
    "Hippoclaw",
    "Hipperin",
    "Marie Hippolonium",
    "Hippope Francis",
    "Danerys Mother of Hippos",
    "Darth Potamus",
    "Hippo the Hutt",
    "Ann Perkopotamins!",
    "Hippopotahut",
    "Hippopotabell",
    "Combination Hippopotahut and Hippopotabell",
    "Hippchat",
    "Slackapotamus",
    "Skyppo",
    "Zippo",
    "Let 'er Rippo",
    "Have a Nice Trippo",
    "Tortilla Chippo",
    "Lastey",
    "Jean-Baptiste Emanuel Hippo",
    "Hippo Hipposon",
    "Son of Potamus",
    "Hippo V. Debs",
    "Hippolyta",
    "Wonder Potamus",
    "Bat-hippo",
    "Hippobrine",
    "H-1000",
    "H-1PO",
    "Hippo of Time",
    "Hippo of Winds",
    "Hippo of Hyrule",
    "Hippo Waker",
    "Breath of the Hippo",
    "Twilight Hippo",
    "Hippo Lippa Lub Dub",
    "Annoying Hippo",
    "Raging Hippo",
    "Raging Rhymenocerous",
    "OMG! Hippopotamus",
    "Hippo Chief 2",
    "Hippo Ex Potamus",
    "Hippo Vodello",
    "Hippo Not Stirred",
    "Hippo the Grey",
    "Hippo the White",
    "The One Hippo",
    "Frippo Hippans",
    "Hippolas",
    "Aragorpotamus",
    "Hippli",
    "Samwise Hippo",
    "Jean-Luc Hippicard",
    "Padmé Potamus",
    "Hippo Skywalker",
    "Rogue Hippo",
    "Revenge of the Hippo",
    "A New Hippo",
    "Attack of the Hippo",
    "Return of the Hippo",
    "Obi-Wan Potamus",
    "Qui-Gon Hippo",
    "The Last Hippo",
    "BB-Hippo",
    "C-3IPPO",
    "R2-HIPPO",
    "Hippo Fett",
    "Hippo Solo",
    "Leia Hipgana",
    "Captain James T. Hippo",
    "Wrath of Hippo",
    "Deep Space Hippo",
    "Leonard McHippo",
    "🦏",
    "The Incredible Hippo",
    "The Amazing Spider-Hippo",
    "Captain Amerihippo",
    "The Winter Hippo",
    "Notorius Hippo G",
    "The More You Hippo",
    "Hippuna Matatamus",
    "Rev. Potomus",
    "Hippocratic",
    "River Horse",
    "Metal Hippo?!",
    "Tactical Hippo Action",
    "Phantom Hippo",
    "Shiny and Hippo",
    "Chekhov's Hippo",
    "The Dude",
    "El Dudedrino",
    "El Hipperino",
    "His Dudeness",
    "His Potamus",
    "Mr. Lebowski",
    "Egopotamus",
    "Markihippo",
    "Mr. Hippo was my father's name",
    "Stardew Hippo",
    "Ninja Hippo",
    "Pirate Hippo",
    "Space Hippo",
    "Space Pirate Ninja Hippo",
    "Hip Hippo",
    "Flavio Hippo",
    "Marita Hippo",
    "Hippocrates",
    "Hippodrome",
    "Hippolytus",
    "Hipposter",
    "Hippias",
    "Hipparchus",
    "Hipparch",
    "Hippasus",
    "Hippo-Packard",
    "Hippovangelist",
    "Charles Hippo",
    "Hugo",
    "Herald",
    "Hippasaurus Rex",
    "Hippius Maximus",
    "Hippo California",
    "Chi-town Potamus",
];

/// Whether `name` is one of `USERNAMES`.
pub open spec fn is_username(name: Seq<char>) -> bool {
    exists|i: int| 0 <= i < USERNAMES@.len() && (#[trigger] USERNAMES@[i])@ == name
}

/// A name for a new player, picked at random from `USERNAMES`.
///
/// Two players may get the same name: names are for display, and players are
/// told apart by their identifiers.
pub fn generate_username() -> (name: String)
    ensures
        is_username(name@),
{
    match pick_one(USERNAMES.as_slice()) {
        Some(picked) => {
            let name = (*picked).to_owned();
            proof {
                let i = choose|i: int| 0 <= i < USERNAMES@.len() && USERNAMES@[i] == *picked;
                assert(USERNAMES@[i]@ == name@);
            }
            name
        },
        None => {
            assert(false);
            vstd::pervasive::unreached()
        },
    }
}

} // verus!
