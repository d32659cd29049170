//! Finding the account a message goes to: a UUID names it directly; other
//! text must occur, ignoring case, in the name of exactly one contact.

use vstd::prelude::*;
use crate::thread_id::{parse_uuid, uuid_parse};

verus! {

/// A contact of the address book.
#[derive(Debug, Clone, PartialEq, Eq)]
pub struct Contact {
    pub uuid: u128,
    pub name: String,
    pub phone: Option<String>,
}

/// Why no single recipient was found.
#[derive(Debug, Clone, PartialEq, Eq)]
pub enum RecipientError {
    /// No contact name holds the text.
    NoMatch(String),
    /// Several contact names hold the text; `matches` are their positions in
    /// the contact list, in order.
    Ambiguous { query: String, matches: Vec<usize> },
}

/// `needle` occurs in `hay` starting at position `i`.
pub open spec fn occurs_at(hay: Seq<char>, needle: Seq<char>, i: int) -> bool {
    0 <= i && i + needle.len() <= hay.len() && hay.subrange(i, i + needle.len()) == needle
}

pub open spec fn has_substring(hay: Seq<char>, needle: Seq<char>) -> bool {
    exists|i: int| occurs_at(hay, needle, i)
}

/// The lower-case form of a text.
pub uninterp spec fn lower_of(s: Seq<char>) -> Seq<char>;

/// Relies on str::to_lowercase: the lower-case mapping of every character, a
/// function of the text alone.
#[verifier::external_body]
fn lowercase(s: &str) -> (r: String)
    ensures
        r@ == lower_of(s@),
{
    s.to_lowercase()
}

fn occurs_here(hay: &str, needle: &str, hl: usize, nl: usize, i: usize) -> (r: bool)
    requires
        hl == hay@.len(),
        nl == needle@.len(),
        i + nl <= hl,
    ensures
        r == (hay@.subrange(i as int, i + nl) == needle@),
{
    let mut j: usize = 0;
    while j < nl
        invariant
            j <= nl,
            hl == hay@.len(),
            nl == needle@.len(),
            i + nl <= hl,
            forall|k: int| 0 <= k < j ==> hay@[i + k] == needle@[k],
        decreases nl - j,
    {
        if hay.get_char(i + j) != needle.get_char(j) {
            assert(hay@.subrange(i as int, i + nl)[j as int] != needle@[j as int]);
            return false;
        }
        j = j + 1;
    }
    assert(hay@.subrange(i as int, i + nl) =~= needle@);
    true
}

/// Whether `needle` occurs in `hay`; the empty text occurs in every text.
pub fn contains_text(hay: &str, needle: &str) -> (r: bool)
    ensures
        r == has_substring(hay@, needle@),
{
    let hl = hay.unicode_len();
    let nl = needle.unicode_len();
    if nl > hl {
        return false;
    }
    if nl == 0 {
        assert(hay@.subrange(0, 0) =~= needle@);
        assert(occurs_at(hay@, needle@, 0));
        return true;
    }
    let mut i: usize = 0;
    while i <= hl - nl
        invariant
            hl == hay@.len(),
            nl == needle@.len(),
            0 < nl <= hl,
            i <= hl - nl + 1,
            forall|k: int| 0 <= k < i ==> !occurs_at(hay@, needle@, k),
        decreases hl - nl + 1 - i,
    {
        if occurs_here(hay, needle, hl, nl, i) {
            assert(occurs_at(hay@, needle@, i as int));
            return true;
        }
        i = i + 1;
    }
    false
}

/// Positions of the names that hold `query`, in order.
pub open spec fn matching_indices(names: Seq<Seq<char>>, query: Seq<char>) -> Seq<usize>
    decreases names.len(),
{
    if names.len() == 0 {
        Seq::empty()
    } else {
        let prev = matching_indices(names.drop_last(), query);
        if has_substring(names.last(), query) {
            prev.push((names.len() - 1) as usize)
        } else {
            prev
        }
    }
}

/// The outcome for `recipient` when the contacts at positions `found` match it.
pub open spec fn recipient_outcome(
    recipient: Seq<char>,
    found: Seq<usize>,
    contacts: Seq<Contact>,
    r: Result<u128, RecipientError>,
) -> bool {
    if found.len() == 0 {
        r matches Err(RecipientError::NoMatch(s)) && s@ == recipient
    } else if found.len() == 1 {
        r == Ok::<u128, RecipientError>(contacts[found[0] as int].uuid)
    } else {
        r matches Err(RecipientError::Ambiguous { query, matches }) && query@ == recipient
            && matches@ == found
    }
}

/// Picks the one contact whose lower-cased name (`names_lower`, one per
/// contact) holds the lower-cased query.
pub fn pick_recipient(
    recipient: &str,
    query_lower: &str,
    contacts: &[Contact],
    names_lower: &[String],
) -> (r: Result<u128, RecipientError>)
    requires
        names_lower@.len() == contacts@.len(),
    ensures
        recipient_outcome(
            recipient@,
            matching_indices(names_lower@.map_values(|s: String| s@), query_lower@),
            contacts@,
            r,
        ),
{
    let ghost names = names_lower@.map_values(|s: String| s@);
    let mut found: Vec<usize> = Vec::new();
    let mut i: usize = 0;
    while i < names_lower.len()
        invariant
            i <= names_lower@.len(),
            names_lower@.len() == contacts@.len(),
            names == names_lower@.map_values(|s: String| s@),
            found@ == matching_indices(names.take(i as int), query_lower@),
            forall|j: int| 0 <= j < found@.len() ==> #[trigger] found@[j] < i,
        decreases names_lower@.len() - i,
    {
        proof {
            assert(names.take(i + 1).drop_last() =~= names.take(i as int));
        }
        if contains_text(names_lower[i].as_str(), query_lower) {
            found.push(i);
        }
        i = i + 1;
    }
    proof {
        assert(names.take(i as int) =~= names);
    }
    if found.len() == 0 {
        Err(RecipientError::NoMatch(String::from_str(recipient)))
    } else if found.len() == 1 {
        Ok(contacts[found[0]].uuid)
    } else {
        Err(RecipientError::Ambiguous { query: String::from_str(recipient), matches: found })
    }
}

/// Resolves the recipient of a message: a UUID stands for itself; otherwise
/// the one contact whose name holds the text, ignoring case.
pub fn resolve_recipient(recipient: &str, contacts: &[Contact]) -> (r: Result<u128, RecipientError>)
    ensures
        uuid_parse(recipient@) matches Some(id) ==> r == Ok::<u128, RecipientError>(id),
        uuid_parse(recipient@) is None ==> recipient_outcome(
            recipient@,
            matching_indices(
                contacts@.map_values(|c: Contact| lower_of(c.name@)),
                lower_of(recipient@),
            ),
            contacts@,
            r,
        ),
{
    if let Some(id) = parse_uuid(recipient) {
        return Ok(id);
    }
    let query = lowercase(recipient);
    let mut names: Vec<String> = Vec::new();
    let mut i: usize = 0;
    while i < contacts.len()
        invariant
            i <= contacts@.len(),
            names@.map_values(|s: String| s@) =~= contacts@.take(i as int).map_values(
                |c: Contact| lower_of(c.name@),
            ),
        decreases contacts@.len() - i,
    {
        let lowered = lowercase(contacts[i].name.as_str());
        let ghost before = names@;
        names.push(lowered);
        proof {
            assert(names@ =~= before.push(lowered));
            assert(before.push(lowered).map_values(|s: String| s@) =~= before.map_values(
                |s: String| s@,
            ).push(lowered@));
            assert(contacts@.take(i + 1).map_values(|c: Contact| lower_of(c.name@)) =~= contacts@.take(
                i as int,
            ).map_values(|c: Contact| lower_of(c.name@)).push(lower_of(contacts@[i as int].name@)));
        }
        i = i + 1;
    }
    proof {
        assert(contacts@.take(i as int) =~= contacts@);
    }
    pick_recipient(recipient, query.as_str(), contacts, &names)
}

} // verus!
