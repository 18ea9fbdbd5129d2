//! What the host is and which package helper it has.
//!
//! Nothing here looks at the host. The caller reads the OS description and looks
//! the helpers up in the search path, one at a time, and hands over what it saw.

use vstd::prelude::*;

use crate::text::{characters, contains, occurs_in};

verus! {

/// The class of operating system that the program runs on.
#[derive(Clone, Copy, Debug, PartialEq, Eq)]
pub enum Platform {
    /// Linux: the OS description is read and helpers are looked for.
    Linux,
    /// Anything else: not an Arch system, and it has no helper.
    Other,
}

/// What looking one helper up in the search path gave.
#[derive(Clone, Copy, Debug, PartialEq, Eq)]
pub enum Probe {
    /// The helper is there.
    Found,
    /// The helper is not there.
    Missing,
    /// The lookup itself could not be made.
    Unavailable,
}

/// The OS description names Arch Linux or a system derived from it.
pub open spec fn names_arch(description: Seq<char>) -> bool {
    ||| occurs_in(description, "ID=arch"@)
    ||| occurs_in(description, "ID_LIKE=arch"@)
    ||| occurs_in(description, "ID=archlinux"@)
}

/// Whether the host is an Arch Linux system.
///
/// `os_release` is the text of the OS description file, `None` where the file is
/// absent or cannot be read.
pub fn is_arch_linux(platform: Platform, os_release: Option<&str>) -> (arch: bool)
    ensures
        arch == match os_release {
            Some(description) => platform is Linux && names_arch(description@),
            None => false,
        },
{
    match platform {
        Platform::Linux => {},
        Platform::Other => {
            return false;
        },
    }
    match os_release {
        Some(description) => {
            let text: Vec<char> = characters(description);
            let id: Vec<char> = characters("ID=arch");
            let id_like: Vec<char> = characters("ID_LIKE=arch");
            let id_long: Vec<char> = characters("ID=archlinux");
            contains(text.as_slice(), id.as_slice()) || contains(
                text.as_slice(),
                id_like.as_slice(),
            ) || contains(text.as_slice(), id_long.as_slice())
        },
        None => false,
    }
}

/// How many helpers are known.
pub const HELPER_COUNT: usize = 5;

/// The helpers that are looked for, the preferred ones first.
pub open spec fn helper_names() -> Seq<Seq<char>> {
    seq!["yay"@, "paru"@, "pamac"@, "trizen"@, "pacaur"@]
}

/// The name of the helper at position `i` of the list.
fn helper_name(i: usize) -> (name: &'static str)
    requires
        i < HELPER_COUNT,
    ensures
        name@ == helper_names()[i as int],
{
    if i == 0 {
        "yay"
    } else if i == 1 {
        "paru"
    } else if i == 2 {
        "pamac"
    } else if i == 3 {
        "trizen"
    } else {
        "pacaur"
    }
}

/// The first `count` lookups all came back with `Missing`.
pub open spec fn all_missing(outcomes: Seq<Probe>, count: int) -> bool {
    forall|j: int| 0 <= j < count ==> #[trigger] outcomes[j] is Missing
}

/// The search goes on: every helper looked up so far is missing, and the list
/// holds one more.
pub open spec fn search_open(platform: Platform, outcomes: Seq<Probe>) -> bool {
    &&& platform is Linux
    &&& outcomes.len() < HELPER_COUNT
    &&& all_missing(outcomes, outcomes.len() as int)
}

/// The helper at position `i` is the one to use: it was found, and every helper
/// before it is missing.
pub open spec fn chosen_at(platform: Platform, outcomes: Seq<Probe>, i: int) -> bool {
    &&& platform is Linux
    &&& 0 <= i < outcomes.len()
    &&& i < HELPER_COUNT
    &&& outcomes[i] is Found
    &&& all_missing(outcomes, i)
}

/// The number of lookups at the front of `outcomes` that came back with
/// `Missing`, of the first `HELPER_COUNT` at most.
fn missing_prefix(outcomes: &[Probe]) -> (count: usize)
    ensures
        count <= outcomes.len(),
        count <= HELPER_COUNT,
        all_missing(outcomes@, count as int),
        count < outcomes.len() && count < HELPER_COUNT ==> !(outcomes@[count as int] is Missing),
{
    let mut count: usize = 0;
    while count < outcomes.len() && count < HELPER_COUNT
        invariant
            count <= outcomes.len(),
            count <= HELPER_COUNT,
            all_missing(outcomes@, count as int),
        decreases outcomes.len() - count,
    {
        match outcomes[count] {
            Probe::Missing => {},
            _ => {
                return count;
            },
        }
        count += 1;
    }
    count
}

/// The helper to look up next, given what the lookups so far gave in the order
/// of the list; `None` once the search is over.
///
/// The search is over with the first helper found, with the first lookup that
/// could not be made, and at the end of the list. It never starts on a platform
/// other than Linux.
pub fn next_probe(platform: Platform, outcomes: &[Probe]) -> (next: Option<&'static str>)
    ensures
        match next {
            Some(name) => {
                &&& search_open(platform, outcomes@)
                &&& name@ == helper_names()[outcomes@.len() as int]
            },
            None => !search_open(platform, outcomes@),
        },
{
    match platform {
        Platform::Linux => {},
        Platform::Other => {
            return None;
        },
    }
    let count: usize = missing_prefix(outcomes);
    if count == outcomes.len() && count < HELPER_COUNT {
        Some(helper_name(count))
    } else {
        None
    }
}

/// The helper to use: the first of the list that was found, provided that every
/// helper before it is missing. `None` where no helper was found, where a lookup
/// could not be made before one was found, and on a platform other than Linux.
///
/// `outcomes` holds what the lookups gave, in the order of the list.
pub fn get_aur_helper(platform: Platform, outcomes: &[Probe]) -> (helper: Option<String>)
    ensures
        match helper {
            Some(name) => exists|i: int|
                chosen_at(platform, outcomes@, i) && name@ == helper_names()[i],
            None => forall|i: int| !chosen_at(platform, outcomes@, i),
        },
{
    match platform {
        Platform::Linux => {},
        Platform::Other => {
            return None;
        },
    }
    let count: usize = missing_prefix(outcomes);
    if count < outcomes.len() && count < HELPER_COUNT {
        match outcomes[count] {
            Probe::Found => {
                assert(chosen_at(platform, outcomes@, count as int));
                return Some(helper_name(count).to_string());
            },
            _ => {},
        }
    }
    assert forall|i: int| !chosen_at(platform, outcomes@, i) by {
        if chosen_at(platform, outcomes@, i) {
            if i < count {
                assert(outcomes@[i] is Missing);
            } else if i > count {
                assert(outcomes@[count as int] is Missing);
            }
        }
    }
    None
}

} // verus!
