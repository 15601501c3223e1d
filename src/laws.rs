//! Laws that relate the store's operations to one another.

use vstd::prelude::*;
use crate::store::{
    add_result, delete_result, section_listing, section_of, store_map_valid, table_decoded,
    CommandStore, StoreError, StoreMap,
};

verus! {

/// The table that a store is written from reads back into the same store.
pub proof fn lemma_table_round_trip(s: CommandStore)
    requires
        s.wf(),
    ensures
        table_decoded(s.table()) == Ok::<StoreMap, StoreError>(s@),
{
    s.lemma_table_facts();
}

/// After a command is added, listing its section gives the command's text
/// under its name.
pub proof fn lemma_add_then_list(m: StoreMap, s: Seq<char>, n: Seq<char>, c: Seq<char>)
    requires
        !(m.contains_key(s) && m[s].contains_key(n)),
    ensures
        add_result(m, s, n, c) matches Ok(m2) && section_listing(m2, s) matches Ok(l)
            && l.contains_key(n) && l[n] == c,
{
}

/// Adding a name that its section already has is refused as a duplicate
/// (and the store stays as it was: see `CommandStore::add_comando`).
pub proof fn lemma_add_duplicate(m: StoreMap, s: Seq<char>, n: Seq<char>, c: Seq<char>)
    requires
        m.contains_key(s),
        m[s].contains_key(n),
    ensures
        add_result(m, s, n, c) == Err::<StoreMap, StoreError>(StoreError::DuplicateName),
{
}

/// Adding and deleting keep a store free of empty sections.
pub proof fn lemma_ops_keep_valid(m: StoreMap, s: Seq<char>, n: Seq<char>, c: Seq<char>)
    requires
        store_map_valid(m),
    ensures
        add_result(m, s, n, c) matches Ok(m2) ==> store_map_valid(m2),
        delete_result(m, s, n) matches Ok(m2) ==> store_map_valid(m2),
{
    if add_result(m, s, n, c) is Ok {
        let m2 = add_result(m, s, n, c)->Ok_0;
        assert forall|k: Seq<char>| #[trigger] m2.contains_key(k) implies m2[k].dom()
            != Set::<Seq<char>>::empty() by {
            if k == s {
                assert(section_of(m, s).insert(n, c).dom().contains(n));
            }
        }
    }
}

/// Deleting the last command of a section takes the section away.
pub proof fn lemma_delete_last_removes_section(m: StoreMap, s: Seq<char>, n: Seq<char>)
    requires
        m.contains_key(s),
        m[s].dom() == set![n],
    ensures
        delete_result(m, s, n) matches Ok(m2) && !m2.contains_key(s),
{
    assert(m[s].dom().contains(n));
    assert(m[s].remove(n).dom() =~= Set::<Seq<char>>::empty());
}

/// Deleting from a section that is not there reports the section missing;
/// deleting a name that an existing section lacks reports the name missing.
pub proof fn lemma_delete_missing(m: StoreMap, s: Seq<char>, n: Seq<char>)
    ensures
        !m.contains_key(s) ==> delete_result(m, s, n) == Err::<StoreMap, StoreError>(
            StoreError::SectionNotFound,
        ),
        m.contains_key(s) && !m[s].contains_key(n) ==> delete_result(m, s, n) == Err::<
            StoreMap,
            StoreError,
        >(StoreError::NameNotFound),
{
}

} // verus!
