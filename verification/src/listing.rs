//! Which entries of a directory are listed.

use vstd::prelude::*;
use crate::texts;

verus! {

/// A hidden name begins with a dot. The empty name is not hidden.
pub open spec fn is_hidden(name: Seq<char>) -> bool {
    name.len() > 0 && name[0] == '.'
}

/// Whether an entry of this name is listed: every entry when `show_all` is
/// set, otherwise the entries that are not hidden.
pub open spec fn is_listed(name: Seq<char>, show_all: bool) -> bool {
    show_all || !is_hidden(name)
}

/// What a listing of `names` holds: the listed names, in the order in which
/// the directory gave them.
pub open spec fn listing(names: Seq<Seq<char>>, show_all: bool) -> Seq<Seq<char>> {
    names.filter(|name: Seq<char>| is_listed(name, show_all))
}

/// Tells whether `name` is hidden.
pub fn hidden(name: &str) -> (r: bool)
    ensures
        r == is_hidden(name@),
{
    !name.is_empty() && name.get_char(0) == '.'
}

/// Decides for one entry whether it is listed.
pub fn listed(name: &str, show_all: bool) -> (r: bool)
    ensures
        r == is_listed(name@, show_all),
{
    show_all || !hidden(name)
}

/// Lists a directory whose entries are `names`: keeps the listed names in
/// the order given, and nothing else.
pub fn list(names: &Vec<String>, show_all: bool) -> (out: Vec<String>)
    ensures
        texts(out@) == listing(texts(names@), show_all),
{
    let mut out: Vec<String> = Vec::new();
    let mut i: usize = 0;
    assert(texts(names@).take(0) =~= Seq::<Seq<char>>::empty());
    assert(texts(out@) =~= listing(texts(names@).take(0), show_all));
    while i < names.len()
        invariant
            0 <= i <= names.len(),
            texts(out@) == listing(texts(names@).take(i as int), show_all),
        decreases names.len() - i,
    {
        let ghost before = texts(out@);
        let ghost seen = texts(names@).take(i as int);
        proof {
            assert(texts(names@).take(i + 1) =~= seen.push(names@[i as int]@));
            seen.lemma_filter_push(names@[i as int]@, |name: Seq<char>| is_listed(name, show_all));
        }
        if listed(names[i].as_str(), show_all) {
            out.push(names[i].clone());
            assert(texts(out@) =~= before.push(names@[i as int]@));
        }
        i += 1;
    }
    assert(texts(names@).take(i as int) =~= texts(names@));
    out
}

/// What walking a directory gives for one entry.
#[derive(Debug, PartialEq, Eq)]
pub enum Entry {
    /// An entry, by its name.
    Named(String),
    /// An entry that could not be read, or whose name is no text.
    Unreadable,
}

/// What is done with one entry. The walk goes on after each of them.
#[derive(Clone, Copy, Debug, PartialEq, Eq, Structural)]
pub enum Action {
    /// Print the name on a line of its own.
    Print,
    /// Print nothing.
    Skip,
    /// Report the entry on the error stream.
    Report,
}

/// The action that an entry calls for.
pub open spec fn action_for(entry: Entry, show_all: bool) -> Action {
    match entry {
        Entry::Named(name) => if is_listed(name@, show_all) {
            Action::Print
        } else {
            Action::Skip
        },
        Entry::Unreadable => Action::Report,
    }
}

/// Decides what is done with one entry of the directory.
pub fn decide(entry: &Entry, show_all: bool) -> (action: Action)
    ensures
        action == action_for(*entry, show_all),
{
    match entry {
        Entry::Named(name) => if listed(name.as_str(), show_all) {
            Action::Print
        } else {
            Action::Skip
        },
        Entry::Unreadable => Action::Report,
    }
}

/// A name is in the listing exactly when the directory holds it and it is
/// listed: without `show_all` the names that do not begin with a dot, with
/// it every name, and then in the very order given.
pub proof fn lemma_listing_members(names: Seq<Seq<char>>, show_all: bool)
    ensures
        forall|name: Seq<char>| #[trigger]
            listing(names, show_all).contains(name) <==> names.contains(name) && is_listed(
                name,
                show_all,
            ),
        listing(names, show_all).to_set() == names.to_set().filter(
            |name: Seq<char>| is_listed(name, show_all),
        ),
        listing(names, true) == names,
        forall|name: Seq<char>| #[trigger]
            listing(names, false).contains(name) <==> names.contains(name) && !is_hidden(name),
{
    lemma_members(names, show_all);
    lemma_members(names, false);
    lemma_all_kept(names);
    assert(listing(names, show_all).to_set() =~= names.to_set().filter(
        |name: Seq<char>| is_listed(name, show_all),
    ));
}

/// Two walks of a directory that holds the same names give listings of the
/// same names, whatever the order of either walk.
pub proof fn lemma_listing_of_same_names(
    first: Seq<Seq<char>>,
    second: Seq<Seq<char>>,
    show_all: bool,
)
    requires
        first.to_set() == second.to_set(),
    ensures
        listing(first, show_all).to_set() == listing(second, show_all).to_set(),
        first == second ==> listing(first, show_all) == listing(second, show_all),
{
    lemma_members(first, show_all);
    lemma_members(second, show_all);
    assert forall|name: Seq<char>| #[trigger]
        first.contains(name) <==> second.contains(name) by {
        assert(first.to_set().contains(name) == first.contains(name));
        assert(second.to_set().contains(name) == second.contains(name));
    }
    assert(listing(first, show_all).to_set() =~= listing(second, show_all).to_set());
}

proof fn lemma_members(names: Seq<Seq<char>>, show_all: bool)
    ensures
        forall|name: Seq<char>| #[trigger]
            listing(names, show_all).contains(name) <==> names.contains(name) && is_listed(
                name,
                show_all,
            ),
{
    let keep = |name: Seq<char>| is_listed(name, show_all);
    let kept = names.filter(keep);
    assert forall|name: Seq<char>| #[trigger] kept.contains(name) implies names.contains(name)
        && is_listed(name, show_all) by {
        names.lemma_filter_contains_rev(keep, name);
        let i = choose|i: int| 0 <= i < kept.len() && kept[i] == name;
        names.lemma_filter_pred(keep, i);
    }
    assert forall|name: Seq<char>| names.contains(name) && is_listed(name, show_all) implies
        #[trigger] kept.contains(name) by {
        let i = choose|i: int| 0 <= i < names.len() && names[i] == name;
        names.lemma_filter_contains(keep, i);
    }
}

proof fn lemma_all_kept(names: Seq<Seq<char>>)
    ensures
        listing(names, true) == names,
    decreases names.len(),
{
    let keep = |name: Seq<char>| is_listed(name, true);
    if names.len() == 0 {
        assert(names.filter(keep).len() == 0) by {
            names.lemma_filter_len(keep);
        }
        assert(names.filter(keep) =~= names);
    } else {
        let rest = names.drop_last();
        lemma_all_kept(rest);
        rest.lemma_filter_push(names.last(), keep);
        assert(rest.push(names.last()) =~= names);
    }
}

} // verus!
