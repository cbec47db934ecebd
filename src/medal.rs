//! The medal catalog as read from the game's web page.
use vstd::prelude::*;

use crate::badge::{chars_to_string, copy_range, find_last, last_at};
use crate::text::chars_of;

verus! {

/// A medal of the catalog.
pub struct ScrapedMedal {
    pub icon_url: String,
    pub id: u16,
    pub name: String,
    pub grouping: String,
    pub ordering: u8,
    pub description: String,
    pub mode: Option<String>,
    pub instructions: Option<String>,
}

/// The part of a profile page that holds the medal catalog.
pub struct ScrapedUser {
    pub medals: Vec<ScrapedMedal>,
}

/// A medal as it is handed to storage.
pub struct Medal {
    pub medal_id: u32,
    pub name: String,
    pub url: String,
    pub description: String,
    pub restriction: String,
    pub grouping: String,
    pub instructions: String,
    pub ordering: u8,
}

/// The file name of an icon reference: what follows its last `/`, or all of
/// it where there is none.
pub open spec fn icon_link(url: Seq<char>) -> Seq<char> {
    if exists|i: int| last_at(url, '/', i) {
        url.skip((choose|i: int| last_at(url, '/', i)) + 1)
    } else {
        url
    }
}

/// The link under which a medal's icon is stored.
pub fn medal_link(icon_url: &str) -> (r: String)
    ensures
        r@ == icon_link(icon_url@),
{
    let cs = chars_of(icon_url);
    let n = cs.len();
    match find_last(&cs, '/') {
        Some(i) => {
            proof {
                crate::badge::lemma_last_unique(cs@, '/', i as int);
            }
            let tail = copy_range(&cs, i + 1, n);
            proof {
                assert(tail@ =~= cs@.skip(i + 1));
            }
            chars_to_string(&tail)
        },
        None => chars_to_string(&cs),
    }
}

} // verus!
