//! The command store: sections of named shell commands.

use vstd::prelude::*;
use crate::pairs::{
    keys_unique, lemma_pairs_map_dom, lemma_pairs_map_index, lemma_pairs_map_push,
    lemma_pairs_map_remove, lemma_pairs_map_update, pairs_map,
};

verus! {

/// What a store holds: section name to (command name to command text).
pub type StoreMap = Map<Seq<char>, Map<Seq<char>, Seq<char>>>;

/// The ways an operation on the store, or on its file, can fail.
#[derive(Debug, Clone, Copy, PartialEq, Eq, Structural)]
pub enum StoreError {
    FileNotFound,
    ParseError,
    DuplicateName,
    SectionNotFound,
    NameNotFound,
    WriteFailure,
}

/// One command of a section.
#[derive(Debug)]
pub struct Entry {
    pub name: String,
    pub command: String,
}

impl View for Entry {
    type V = (Seq<char>, Seq<char>);

    open spec fn view(&self) -> (Seq<char>, Seq<char>) {
        (self.name@, self.command@)
    }
}

/// A section and its commands, in the order they are kept.
#[derive(Debug)]
pub struct Section {
    pub name: String,
    pub entries: Vec<Entry>,
}

pub open spec fn entry_views(es: Seq<Entry>) -> Seq<(Seq<char>, Seq<char>)> {
    es.map_values(|e: Entry| e@)
}

impl View for Section {
    type V = (Seq<char>, Seq<(Seq<char>, Seq<char>)>);

    open spec fn view(&self) -> (Seq<char>, Seq<(Seq<char>, Seq<char>)>) {
        (self.name@, entry_views(self.entries@))
    }
}

impl Section {
    /// The section's commands as a map from name to text.
    pub open spec fn entry_map(self) -> Map<Seq<char>, Seq<char>> {
        pairs_map(entry_views(self.entries@))
    }
}

pub open spec fn section_pairs(ss: Seq<Section>) -> Seq<(Seq<char>, Map<Seq<char>, Seq<char>>)> {
    ss.map_values(|s: Section| (s.name@, s.entry_map()))
}

/// A store is well formed when it has no empty section, no section name
/// twice, and no command name twice within a section.
pub open spec fn store_map_valid(m: StoreMap) -> bool {
    forall|s: Seq<char>| #[trigger] m.contains_key(s) ==> m[s].dom() != Set::<Seq<char>>::empty()
}

/// The commands of `s`, or none when the store has no such section.
pub open spec fn section_of(m: StoreMap, s: Seq<char>) -> Map<Seq<char>, Seq<char>> {
    if m.contains_key(s) {
        m[s]
    } else {
        Map::empty()
    }
}

/// What adding command `n` with text `c` to section `s` of `m` gives.
pub open spec fn add_result(m: StoreMap, s: Seq<char>, n: Seq<char>, c: Seq<char>) -> Result<StoreMap, StoreError> {
    if m.contains_key(s) && m[s].contains_key(n) {
        Err(StoreError::DuplicateName)
    } else {
        Ok(m.insert(s, section_of(m, s).insert(n, c)))
    }
}

/// What deleting command `n` from section `s` of `m` gives; a section that
/// is left empty goes too.
pub open spec fn delete_result(m: StoreMap, s: Seq<char>, n: Seq<char>) -> Result<StoreMap, StoreError> {
    if !m.contains_key(s) {
        Err(StoreError::SectionNotFound)
    } else if !m[s].contains_key(n) {
        Err(StoreError::NameNotFound)
    } else if m[s].remove(n).dom() == Set::<Seq<char>>::empty() {
        Ok(m.remove(s))
    } else {
        Ok(m.insert(s, m[s].remove(n)))
    }
}

/// What listing section `s` of `m` gives.
pub open spec fn section_listing(m: StoreMap, s: Seq<char>) -> Result<Map<Seq<char>, Seq<char>>, StoreError> {
    if m.contains_key(s) {
        Ok(m[s])
    } else {
        Err(StoreError::SectionNotFound)
    }
}

/// Every (section, name, command) triple that `m` holds.
pub open spec fn store_triples(m: StoreMap) -> Set<(Seq<char>, Seq<char>, Seq<char>)> {
    Set::new(
        |t: (Seq<char>, Seq<char>, Seq<char>)|
            m.contains_key(t.0) && m[t.0].contains_key(t.1) && m[t.0][t.1] == t.2,
    )
}

pub open spec fn string_views(v: Seq<String>) -> Seq<Seq<char>> {
    v.map_values(|s: String| s@)
}

pub open spec fn pair_views(v: Seq<(String, String)>) -> Seq<(Seq<char>, Seq<char>)> {
    v.map_values(|p: (String, String)| (p.0@, p.1@))
}

pub open spec fn triple_views(v: Seq<(String, String, String)>) -> Seq<(Seq<char>, Seq<char>, Seq<char>)> {
    v.map_values(|t: (String, String, String)| (t.0@, t.1@, t.2@))
}

/// All commands, by section.
pub struct CommandStore {
    sections: Vec<Section>,
}

impl View for CommandStore {
    type V = StoreMap;

    closed spec fn view(&self) -> StoreMap {
        pairs_map(section_pairs(self.sections@))
    }
}

impl CommandStore {
    /// The store's internal invariant.
    pub closed spec fn wf(self) -> bool {
        &&& keys_unique(section_pairs(self.sections@))
        &&& forall|i: int|
            0 <= i < self.sections@.len() ==> {
                &&& #[trigger] self.sections@[i].entries@.len() > 0
                &&& keys_unique(entry_views(self.sections@[i].entries@))
            }
    }

    /// An empty store.
    pub fn new() -> (r: CommandStore)
        ensures
            r.wf(),
            r@ == StoreMap::empty(),
    {
        CommandStore { sections: Vec::new() }
    }
}


fn find_entry(es: &Vec<Entry>, name: &String) -> (r: Option<usize>)
    ensures
        match r {
            Some(j) => j < es@.len() && es@[j as int].name@ == name@,
            None => forall|j: int| 0 <= j < es@.len() ==> #[trigger] es@[j].name@ != name@,
        },
{
    let mut j: usize = 0;
    while j < es.len()
        invariant
            j <= es@.len(),
            forall|k: int| 0 <= k < j ==> #[trigger] es@[k].name@ != name@,
        decreases es@.len() - j,
    {
        if es[j].name == *name {
            return Some(j);
        }
        j += 1;
    }
    None
}

proof fn lemma_entry_absent(es: Seq<Entry>, n: Seq<char>)
    requires
        forall|j: int| 0 <= j < es.len() ==> #[trigger] es[j].name@ != n,
    ensures
        !pairs_map(entry_views(es)).contains_key(n),
{
    lemma_pairs_map_dom(entry_views(es), n);
}

proof fn lemma_entries_nonempty(es: Seq<Entry>)
    requires
        es.len() > 0,
    ensures
        pairs_map(entry_views(es)).contains_key(es[0].name@),
        pairs_map(entry_views(es)).dom() != Set::<Seq<char>>::empty(),
{
    lemma_pairs_map_dom(entry_views(es), es[0].name@);
    assert(entry_views(es)[0].0 == es[0].name@);
    assert(!Set::<Seq<char>>::empty().contains(es[0].name@));
}

impl CommandStore {
    /// A well-formed store has no empty section.
    pub proof fn lemma_view_valid(self)
        requires
            self.wf(),
        ensures
            store_map_valid(self@),
    {
        let sp = section_pairs(self.sections@);
        assert forall|s: Seq<char>| #[trigger] self@.contains_key(s) implies self@[s].dom()
            != Set::<Seq<char>>::empty() by {
            lemma_pairs_map_dom(sp, s);
            let i = choose|i: int| 0 <= i < sp.len() && sp[i].0 == s;
            lemma_pairs_map_index(sp, i);
            lemma_entries_nonempty(self.sections@[i].entries@);
        }
    }

    fn find_section(&self, name: &String) -> (r: Option<usize>)
        requires
            self.wf(),
        ensures
            match r {
                Some(i) => {
                    &&& i < self.sections@.len()
                    &&& self.sections@[i as int].name@ == name@
                    &&& self@.contains_key(name@)
                    &&& self@[name@] == self.sections@[i as int].entry_map()
                },
                None => {
                    &&& !self@.contains_key(name@)
                    &&& forall|i: int|
                        0 <= i < self.sections@.len() ==> #[trigger] self.sections@[i].name@
                            != name@
                },
            },
    {
        let mut i: usize = 0;
        while i < self.sections.len()
            invariant
                self.wf(),
                i <= self.sections@.len(),
                forall|k: int| 0 <= k < i ==> #[trigger] self.sections@[k].name@ != name@,
            decreases self.sections@.len() - i,
        {
            if self.sections[i].name == *name {
                proof {
                    lemma_pairs_map_index(section_pairs(self.sections@), i as int);
                }
                return Some(i);
            }
            i += 1;
        }
        proof {
            lemma_pairs_map_dom(section_pairs(self.sections@), name@);
        }
        None
    }

    /// Adds command `nombre` with text `comando` to section `seccion`, making
    /// the section if it is new. A name already in the section is refused
    /// and the store left as it was.
    pub fn add_comando(&mut self, seccion: &str, nombre: &str, comando: &str) -> (r: Result<(), StoreError>)
        requires
            old(self).wf(),
        ensures
            final(self).wf(),
            match add_result(old(self)@, seccion@, nombre@, comando@) {
                Ok(m) => r is Ok && final(self)@ == m,
                Err(e) => r == Err::<(), StoreError>(e) && final(self)@ == old(self)@,
            },
    {
        let sec = seccion.to_owned();
        let name = nombre.to_owned();
        let cmd = comando.to_owned();
        match self.find_section(&sec) {
            Some(i) => {
                match find_entry(&self.sections[i].entries, &name) {
                    Some(j) => {
                        proof {
                            let es = self.sections@[i as int].entries@;
                            lemma_pairs_map_index(entry_views(es), j as int);
                        }
                        Err(StoreError::DuplicateName)
                    },
                    None => {
                        let ghost old_ss = self.sections@;
                        let ghost old_es = old_ss[i as int].entries@;
                        proof {
                            lemma_entry_absent(old_es, name@);
                        }
                        let mut section = self.sections.remove(i);
                        let ghost e = Entry { name, command: cmd };
                        section.entries.push(Entry { name, command: cmd });
                        self.sections.insert(i, section);
                        proof {
                            assert(self.sections@ =~= old_ss.update(i as int, section));
                            assert(entry_views(section.entries@) =~= entry_views(old_es).push(e@));
                            lemma_pairs_map_push(entry_views(old_es), e@);
                            assert(keys_unique(entry_views(section.entries@)));
                            assert(section_pairs(self.sections@) =~= section_pairs(old_ss).update(
                                i as int,
                                (sec@, section.entry_map()),
                            ));
                            lemma_pairs_map_update(
                                section_pairs(old_ss),
                                i as int,
                                section.entry_map(),
                            );
                        }
                        Ok(())
                    },
                }
            },
            None => {
                let ghost old_ss = self.sections@;
                let mut entries: Vec<Entry> = Vec::new();
                entries.push(Entry { name, command: cmd });
                let section = Section { name: sec, entries };
                proof {
                    assert(entry_views(entries@) =~= Seq::<(Seq<char>, Seq<char>)>::empty().push(
                        (nombre@, comando@),
                    ));
                    lemma_pairs_map_push(Seq::<(Seq<char>, Seq<char>)>::empty(), (nombre@, comando@));
                    assert(pairs_map(Seq::<(Seq<char>, Seq<char>)>::empty()) =~= Map::empty());
                }
                self.sections.push(section);
                proof {
                    assert(section_pairs(self.sections@) =~= section_pairs(old_ss).push(
                        (sec@, section.entry_map()),
                    ));
                    lemma_pairs_map_push(section_pairs(old_ss), (sec@, section.entry_map()));
                    assert(section.entry_map() =~= section_of(old(self)@, seccion@).insert(nombre@, comando@));
                }
                Ok(())
            },
        }
    }

    /// Deletes command `nombre` from section `seccion`; a section left with
    /// no command goes too. On an error the store is left as it was.
    pub fn delete_comando(&mut self, seccion: &str, nombre: &str) -> (r: Result<(), StoreError>)
        requires
            old(self).wf(),
        ensures
            final(self).wf(),
            match delete_result(old(self)@, seccion@, nombre@) {
                Ok(m) => r is Ok && final(self)@ == m,
                Err(e) => r == Err::<(), StoreError>(e) && final(self)@ == old(self)@,
            },
    {
        let sec = seccion.to_owned();
        let name = nombre.to_owned();
        match self.find_section(&sec) {
            None => Err(StoreError::SectionNotFound),
            Some(i) => {
                match find_entry(&self.sections[i].entries, &name) {
                    None => {
                        proof {
                            lemma_entry_absent(self.sections@[i as int].entries@, name@);
                        }
                        Err(StoreError::NameNotFound)
                    },
                    Some(j) => {
                        let ghost old_ss = self.sections@;
                        let ghost old_es = old_ss[i as int].entries@;
                        proof {
                            lemma_pairs_map_index(entry_views(old_es), j as int);
                            lemma_pairs_map_remove(entry_views(old_es), j as int);
                            lemma_pairs_map_remove(section_pairs(old_ss), i as int);
                        }
                        let mut section = self.sections.remove(i);
                        section.entries.remove(j);
                        proof {
                            assert(entry_views(section.entries@) =~= entry_views(old_es).remove(j as int));
                            assert(section_pairs(self.sections@) =~= section_pairs(old_ss).remove(i as int));
                        }
                        if section.entries.len() == 0 {
                            proof {
                                assert(section.entry_map() =~= Map::empty());
                                assert(section.entry_map().dom() =~= Set::empty());
                                assert forall|k: int| 0 <= k < self.sections@.len() implies
                                    #[trigger] self.sections@[k].entries@.len() > 0 && keys_unique(entry_views(self.sections@[k].entries@)) by {
                                    if k < i { assert(self.sections@[k] == old_ss[k]); }
                                    else { assert(self.sections@[k] == old_ss[k + 1]); }
                                }
                            }
                        } else {
                            self.sections.insert(i, section);
                            proof {
                                lemma_entries_nonempty(section.entries@);
                                assert(self.sections@ =~= old_ss.update(i as int, section));
                                assert(section_pairs(self.sections@) =~= section_pairs(old_ss).update(
                                    i as int,
                                    (sec@, section.entry_map()),
                                ));
                                lemma_pairs_map_update(
                                    section_pairs(old_ss),
                                    i as int,
                                    section.entry_map(),
                                );
                            }
                        }
                        Ok(())
                    },
                }
            },
        }
    }
}


/// The triples of one section, in its order.
pub open spec fn section_triples(s: Section) -> Seq<(Seq<char>, Seq<char>, Seq<char>)> {
    s.entries@.map_values(|e: Entry| (s.name@, e.name@, e.command@))
}

/// The triples of all sections, section by section.
pub open spec fn all_triples(ss: Seq<Section>) -> Seq<(Seq<char>, Seq<char>, Seq<char>)>
    decreases ss.len(),
{
    if ss.len() == 0 {
        Seq::empty()
    } else {
        all_triples(ss.drop_last()) + section_triples(ss.last())
    }
}

proof fn lemma_all_triples_contains(ss: Seq<Section>, t: (Seq<char>, Seq<char>, Seq<char>))
    ensures
        all_triples(ss).contains(t) <==> exists|i: int, j: int|
            0 <= i < ss.len() && 0 <= j < ss[i].entries@.len() && #[trigger] section_triples(ss[i])[j] == t,
    decreases ss.len(),
{
    if ss.len() > 0 {
        let d = ss.drop_last();
        lemma_all_triples_contains(d, t);
        let a = all_triples(d);
        let b = section_triples(ss.last());
        if all_triples(ss).contains(t) {
            let k = choose|k: int| 0 <= k < all_triples(ss).len() && all_triples(ss)[k] == t;
            if k < a.len() {
                assert(a[k] == t);
                let (i, j) = choose|i: int, j: int|
                    0 <= i < d.len() && 0 <= j < d[i].entries@.len() && #[trigger] section_triples(d[i])[j] == t;
                assert(ss[i] == d[i]);
            } else {
                assert(b[k - a.len()] == t);
                assert(section_triples(ss[ss.len() - 1])[k - a.len()] == t);
            }
        }
        if exists|i: int, j: int|
            0 <= i < ss.len() && 0 <= j < ss[i].entries@.len() && #[trigger] section_triples(ss[i])[j] == t {
            let (i, j) = choose|i: int, j: int|
                0 <= i < ss.len() && 0 <= j < ss[i].entries@.len() && #[trigger] section_triples(ss[i])[j] == t;
            if i < ss.len() - 1 {
                assert(ss[i] == d[i]);
                assert(a.contains(t));
                let k = choose|k: int| 0 <= k < a.len() && a[k] == t;
                assert(all_triples(ss)[k] == t);
            } else {
                assert(all_triples(ss)[a.len() + j] == t);
            }
        }
    }
}

proof fn lemma_all_triples_distinct(ss: Seq<Section>)
    requires
        keys_unique(section_pairs(ss)),
        forall|i: int| 0 <= i < ss.len() ==> keys_unique(entry_views(#[trigger] ss[i].entries@)),
    ensures
        all_triples(ss).no_duplicates(),
        forall|k: int| 0 <= k < all_triples(ss).len() ==> exists|i: int|
            0 <= i < ss.len() && #[trigger] all_triples(ss)[k].0 == ss[i].name@,
    decreases ss.len(),
{
    if ss.len() > 0 {
        let d = ss.drop_last();
        let l = ss.last();
        assert(keys_unique(section_pairs(d))) by {
            assert forall|i: int, j: int| 0 <= i < d.len() && 0 <= j < d.len() && i != j implies
                section_pairs(d)[i].0 != section_pairs(d)[j].0 by {
                assert(section_pairs(ss)[i].0 != section_pairs(ss)[j].0);
            }
        }
        assert forall|i: int| 0 <= i < d.len() implies keys_unique(entry_views(#[trigger] d[i].entries@)) by {
            assert(d[i] == ss[i]);
        }
        lemma_all_triples_distinct(d);
        let a = all_triples(d);
        let b = section_triples(l);
        assert(keys_unique(entry_views(ss[ss.len() - 1].entries@)));
        assert forall|k: int| 0 <= k < all_triples(ss).len() implies exists|i: int|
            0 <= i < ss.len() && #[trigger] all_triples(ss)[k].0 == ss[i].name@ by {
            if k < a.len() {
                assert(all_triples(ss)[k] == a[k]);
                let i = choose|i: int| 0 <= i < d.len() && #[trigger] a[k].0 == d[i].name@;
                assert(ss[i] == d[i]);
            } else {
                assert(all_triples(ss)[k] == b[k - a.len()]);
                assert(all_triples(ss)[k].0 == ss[ss.len() - 1].name@);
            }
        }
        assert forall|x: int, y: int| 0 <= x < all_triples(ss).len() && 0 <= y < all_triples(ss).len() && x != y implies
            all_triples(ss)[x] != all_triples(ss)[y] by {
            let t = all_triples(ss);
            if x < a.len() && y < a.len() {
                assert(t[x] == a[x] && t[y] == a[y]);
            } else if x >= a.len() && y >= a.len() {
                assert(t[x] == b[x - a.len()] && t[y] == b[y - a.len()]);
                assert(entry_views(l.entries@)[x - a.len()].0 != entry_views(l.entries@)[y - a.len()].0);
            } else {
                let (p, q) = if x < a.len() { (x, y) } else { (y, x) };
                assert(t[p] == a[p] && t[q] == b[q - a.len()]);
                let i = choose|i: int| 0 <= i < d.len() && #[trigger] a[p].0 == d[i].name@;
                assert(section_pairs(ss)[i].0 != section_pairs(ss)[ss.len() - 1].0);
            }
        }
    }
}

impl CommandStore {
    /// The names of all sections, each once, in no particular order.
    pub fn list_secciones(&self) -> (r: Vec<String>)
        requires
            self.wf(),
        ensures
            string_views(r@).to_set() == self@.dom(),
            string_views(r@).no_duplicates(),
    {
        let mut r: Vec<String> = Vec::new();
        let mut i: usize = 0;
        while i < self.sections.len()
            invariant
                i <= self.sections@.len(),
                string_views(r@) =~= section_pairs(self.sections@).take(i as int).map_values(
                    |p: (Seq<char>, Map<Seq<char>, Seq<char>>)| p.0,
                ),
            decreases self.sections@.len() - i,
        {
            let ghost prev = r@;
            let name = self.sections[i].name.clone();
            r.push(name);
            proof {
                assert(r@ =~= prev.push(name));
                assert(string_views(r@) =~= string_views(prev).push(name@));
                assert(section_pairs(self.sections@).take(i + 1) =~= section_pairs(self.sections@).take(
                    i as int,
                ).push(section_pairs(self.sections@)[i as int]));
            }
            i += 1;
        }
        proof {
            let sp = section_pairs(self.sections@);
            assert(sp.take(sp.len() as int) =~= sp);
            assert forall|k: Seq<char>| string_views(r@).to_set().contains(k) <==> self@.dom().contains(k) by {
                lemma_pairs_map_dom(sp, k);
                if self@.dom().contains(k) {
                    let i = choose|i: int| 0 <= i < sp.len() && sp[i].0 == k;
                    assert(string_views(r@)[i] == k);
                }
            }
            assert(string_views(r@).to_set() =~= self@.dom());
        }
        r
    }

    /// The commands of section `seccion` as (name, text) pairs, each name
    /// once, in no particular order.
    pub fn list_comandos_seccion(&self, seccion: &str) -> (r: Result<Vec<(String, String)>, StoreError>)
        requires
            self.wf(),
        ensures
            match section_listing(self@, seccion@) {
                Ok(l) => r matches Ok(v) && pairs_map(pair_views(v@)) == l && keys_unique(pair_views(v@)),
                Err(e) => r == Err::<Vec<(String, String)>, StoreError>(e),
            },
    {
        let sec = seccion.to_owned();
        match self.find_section(&sec) {
            None => Err(StoreError::SectionNotFound),
            Some(i) => {
                let es = &self.sections[i].entries;
                let mut v: Vec<(String, String)> = Vec::new();
                let mut j: usize = 0;
                while j < es.len()
                    invariant
                        j <= es@.len(),
                        pair_views(v@) =~= entry_views(es@).take(j as int),
                    decreases es@.len() - j,
                {
                    let ghost prev = v@;
                    let p = (es[j].name.clone(), es[j].command.clone());
                    v.push(p);
                    proof {
                        assert(v@ =~= prev.push(p));
                        assert(pair_views(v@) =~= pair_views(prev).push((p.0@, p.1@)));
                        assert(entry_views(es@).take(j + 1) =~= entry_views(es@).take(j as int).push(
                            entry_views(es@)[j as int],
                        ));
                    }
                    j += 1;
                }
                proof {
                    assert(entry_views(es@).take(es@.len() as int) =~= entry_views(es@));
                }
                Ok(v)
            },
        }
    }

    /// Every (section, name, text) triple of the store, each once, in no
    /// particular order.
    pub fn list_comandos(&self) -> (r: Vec<(String, String, String)>)
        requires
            self.wf(),
        ensures
            triple_views(r@).to_set() == store_triples(self@),
            triple_views(r@).no_duplicates(),
    {
        let mut r: Vec<(String, String, String)> = Vec::new();
        let mut i: usize = 0;
        while i < self.sections.len()
            invariant
                i <= self.sections@.len(),
                triple_views(r@) =~= all_triples(self.sections@.take(i as int)),
            decreases self.sections@.len() - i,
        {
            let section = &self.sections[i];
            let ghost before = triple_views(r@);
            let mut j: usize = 0;
            while j < section.entries.len()
                invariant
                    j <= section.entries@.len(),
                    triple_views(r@) =~= before + section_triples(*section).take(j as int),
                decreases section.entries@.len() - j,
            {
                let e = &section.entries[j];
                let ghost prev = r@;
                let t = (section.name.clone(), e.name.clone(), e.command.clone());
                r.push(t);
                proof {
                    assert(r@ =~= prev.push(t));
                    assert(triple_views(r@) =~= triple_views(prev).push((t.0@, t.1@, t.2@)));
                    assert(section_triples(*section).take(j + 1) =~= section_triples(*section).take(
                        j as int,
                    ).push(section_triples(*section)[j as int]));
                }
                j += 1;
            }
            proof {
                assert(self.sections@.take(i + 1).drop_last() =~= self.sections@.take(i as int));
                assert(section_triples(*section).take(section.entries@.len() as int) =~= section_triples(*section));
            }
            i += 1;
        }
        proof {
            let ss = self.sections@;
            assert(ss.take(ss.len() as int) =~= ss);
            lemma_all_triples_distinct(ss);
            let sp = section_pairs(ss);
            assert forall|t: (Seq<char>, Seq<char>, Seq<char>)|
                triple_views(r@).to_set().contains(t) <==> store_triples(self@).contains(t) by {
                lemma_all_triples_contains(ss, t);
                lemma_pairs_map_dom(sp, t.0);
                if triple_views(r@).contains(t) {
                    let (i, j) = choose|i: int, j: int|
                        0 <= i < ss.len() && 0 <= j < ss[i].entries@.len() && #[trigger] section_triples(ss[i])[j] == t;
                    lemma_pairs_map_index(sp, i);
                    lemma_pairs_map_index(entry_views(ss[i].entries@), j);
                }
                if store_triples(self@).contains(t) {
                    let i = choose|i: int| 0 <= i < sp.len() && sp[i].0 == t.0;
                    lemma_pairs_map_index(sp, i);
                    let ev = entry_views(ss[i].entries@);
                    lemma_pairs_map_dom(ev, t.1);
                    let j = choose|j: int| 0 <= j < ev.len() && ev[j].0 == t.1;
                    lemma_pairs_map_index(ev, j);
                    assert(section_triples(ss[i])[j] == t);
                }
            }
            assert(triple_views(r@).to_set() =~= store_triples(self@));
        }
        r
    }
}


/// A table as the file holds it: sections in order, each with its
/// (name, text) pairs in order.
pub type TableView = Seq<(Seq<char>, Seq<(Seq<char>, Seq<char>)>)>;

pub open spec fn table_view(t: Seq<Section>) -> TableView {
    t.map_values(|s: Section| s@)
}

/// No section name occurs twice in the table, nor a command name twice
/// within a section.
pub open spec fn table_valid(t: TableView) -> bool {
    &&& keys_unique(t)
    &&& forall|i: int| 0 <= i < t.len() ==> keys_unique(#[trigger] t[i].1)
}

/// The store that a table describes; a section with no command is left out.
pub open spec fn table_map(t: TableView) -> StoreMap
    decreases t.len(),
{
    if t.len() == 0 {
        Map::empty()
    } else if t.last().1.len() == 0 {
        table_map(t.drop_last())
    } else {
        table_map(t.drop_last()).insert(t.last().0, pairs_map(t.last().1))
    }
}

/// What reading a table into a store gives.
pub open spec fn table_decoded(t: TableView) -> Result<StoreMap, StoreError> {
    if table_valid(t) {
        Ok(table_map(t))
    } else {
        Err(StoreError::ParseError)
    }
}

fn copy_section(s: &Section) -> (r: Section)
    ensures
        r@ == s@,
{
    let mut entries: Vec<Entry> = Vec::new();
    let mut j: usize = 0;
    while j < s.entries.len()
        invariant
            j <= s.entries@.len(),
            entry_views(entries@) =~= entry_views(s.entries@).take(j as int),
        decreases s.entries@.len() - j,
    {
        let ghost prev = entries@;
        let e = Entry { name: s.entries[j].name.clone(), command: s.entries[j].command.clone() };
        entries.push(e);
        proof {
            assert(entries@ =~= prev.push(e));
            assert(entry_views(entries@) =~= entry_views(prev).push(e@));
            assert(entry_views(s.entries@).take(j + 1) =~= entry_views(s.entries@).take(j as int).push(
                entry_views(s.entries@)[j as int],
            ));
        }
        j += 1;
    }
    proof {
        assert(entry_views(s.entries@).take(s.entries@.len() as int) =~= entry_views(s.entries@));
    }
    Section { name: s.name.clone(), entries }
}

proof fn lemma_table_of_sections(ss: Seq<Section>)
    requires
        forall|i: int| 0 <= i < ss.len() ==> #[trigger] ss[i].entries@.len() > 0,
    ensures
        table_map(table_view(ss)) == pairs_map(section_pairs(ss)),
    decreases ss.len(),
{
    if ss.len() > 0 {
        let d = ss.drop_last();
        assert(table_view(ss).drop_last() =~= table_view(d));
        assert(section_pairs(ss).drop_last() =~= section_pairs(d));
        assert(ss[ss.len() - 1].entries@.len() > 0);
        lemma_table_of_sections(d);
    }
}

impl CommandStore {
    /// The store's sections as a table, in the order they are kept.
    pub closed spec fn table(self) -> TableView {
        table_view(self.sections@)
    }

    /// A well-formed store's table is valid and describes the store.
    pub proof fn lemma_table_facts(self)
        requires
            self.wf(),
        ensures
            table_valid(self.table()),
            table_map(self.table()) == self@,
    {
        let ss = self.sections@;
        lemma_table_of_sections(ss);
        assert forall|a: int, b: int|
            0 <= a < ss.len() && 0 <= b < ss.len() && a != b implies table_view(ss)[a].0
            != table_view(ss)[b].0 by {
            assert(section_pairs(ss)[a].0 != section_pairs(ss)[b].0);
        }
    }

    /// The store as a table in which every section has a command.
    pub fn to_table(&self) -> (r: Vec<Section>)
        requires
            self.wf(),
        ensures
            table_view(r@) == self.table(),
            table_valid(self.table()),
            table_map(self.table()) == self@,
            forall|i: int| 0 <= i < r@.len() ==> #[trigger] r@[i].entries@.len() > 0,
    {
        let mut r: Vec<Section> = Vec::new();
        let mut i: usize = 0;
        while i < self.sections.len()
            invariant
                i <= self.sections@.len(),
                table_view(r@) =~= table_view(self.sections@).take(i as int),
            decreases self.sections@.len() - i,
        {
            let ghost prev = r@;
            let s = copy_section(&self.sections[i]);
            r.push(s);
            proof {
                assert(r@ =~= prev.push(s));
                assert(table_view(r@) =~= table_view(prev).push(s@));
                assert(table_view(self.sections@).take(i + 1) =~= table_view(self.sections@).take(
                    i as int,
                ).push(table_view(self.sections@)[i as int]));
            }
            i += 1;
        }
        proof {
            let ss = self.sections@;
            assert(table_view(ss).take(ss.len() as int) =~= table_view(ss));
            self.lemma_table_facts();
            assert forall|a: int| 0 <= a < r@.len() implies #[trigger] r@[a].entries@.len() > 0 by {
                assert(table_view(r@)[a] == table_view(ss)[a]);
                assert(entry_views(r@[a].entries@).len() == entry_views(ss[a].entries@).len());
            }
        }
        r
    }

    /// Reads a table into a store. A section name given twice, or a command
    /// name given twice within a section, is a parse error; a section with no
    /// command is left out.
    pub fn from_table(t: Vec<Section>) -> (r: Result<CommandStore, StoreError>)
        ensures
            match table_decoded(table_view(t@)) {
                Ok(m) => r matches Ok(s) && s.wf() && s@ == m,
                Err(e) => r matches Err(x) && x == e,
            },
    {
        let ghost orig = table_view(t@);
        let ghost t0 = t@;
        if !table_is_valid(&t) {
            return Err(StoreError::ParseError);
        }
        let mut t = t;
        let mut store = CommandStore { sections: Vec::new() };
        let ghost k: int = 0;
        while t.len() > 0
            invariant
                table_valid(orig),
                orig == table_view(t0),
                0 <= k <= t0.len(),
                t@ == t0.subrange(k, t0.len() as int),
                store.wf(),
                store@ == table_map(orig.take(k)),
                forall|a: int| 0 <= a < store.sections@.len() ==> exists|b: int|
                    0 <= b < k && #[trigger] store.sections@[a].name@ == orig[b].0,
            decreases t@.len(),
        {
            let s = t.remove(0);
            proof {
                assert(s == t0[k]);
                assert(orig[k] == s@);
                assert(orig.take(k + 1).drop_last() =~= orig.take(k));
                assert(orig.take(k + 1).last() == s@);
            }
            if s.entries.len() > 0 {
                let ghost old_ss = store.sections@;
                store.sections.push(s);
                proof {
                    assert(keys_unique(orig[k].1));
                    assert(entry_views(s.entries@) == orig[k].1);
                    assert(section_pairs(store.sections@) =~= section_pairs(old_ss).push((s.name@, s.entry_map())));
                    lemma_pairs_map_push(section_pairs(old_ss), (s.name@, s.entry_map()));
                    assert forall|a: int, b: int|
                        0 <= a < store.sections@.len() && 0 <= b < store.sections@.len() && a != b
                        implies section_pairs(store.sections@)[a].0 != section_pairs(store.sections@)[b].0 by {
                        if a < old_ss.len() && b < old_ss.len() {
                            assert(section_pairs(old_ss)[a].0 != section_pairs(old_ss)[b].0);
                        } else {
                            let c = if a < old_ss.len() { a } else { b };
                            let w = choose|w: int| 0 <= w < k && #[trigger] old_ss[c].name@ == orig[w].0;
                            assert(orig[w].0 != orig[k].0);
                        }
                    }
                    assert forall|a: int| 0 <= a < store.sections@.len() implies exists|b: int|
                        0 <= b < k + 1 && #[trigger] store.sections@[a].name@ == orig[b].0 by {
                        if a < old_ss.len() {
                            let w = choose|w: int| 0 <= w < k && #[trigger] old_ss[a].name@ == orig[w].0;
                            assert(store.sections@[a].name@ == orig[w].0);
                        } else {
                            assert(store.sections@[a].name@ == orig[k].0);
                        }
                    }
                    assert forall|a: int| 0 <= a < store.sections@.len() implies {
                        &&& #[trigger] store.sections@[a].entries@.len() > 0
                        &&& keys_unique(entry_views(store.sections@[a].entries@))
                    } by {
                        if a < old_ss.len() {
                            assert(store.sections@[a] == old_ss[a]);
                        }
                    }
                }
            } else {
                proof {
                    assert(orig[k].1.len() == 0);
                }
            }
            proof {
                k = k + 1;
                assert(t@ =~= t0.subrange(k, t0.len() as int));
            }
        }
        proof {
            assert(orig.take(k) =~= orig);
        }
        Ok(store)
    }
}

fn table_is_valid(t: &Vec<Section>) -> (r: bool)
    ensures
        r == table_valid(table_view(t@)),
{
    let ghost tv = table_view(t@);
    let mut i: usize = 0;
    while i < t.len()
        invariant
            i <= t@.len(),
            tv == table_view(t@),
            forall|a: int, b: int| 0 <= a < i && 0 <= b < i && a != b ==> tv[a].0 != tv[b].0,
            forall|a: int| 0 <= a < i ==> keys_unique(#[trigger] tv[a].1),
        decreases t@.len() - i,
    {
        let mut j: usize = 0;
        while j < i
            invariant
                i < t@.len(),
                j <= i,
                tv == table_view(t@),
                forall|b: int| 0 <= b < j ==> tv[b].0 != tv[i as int].0,
            decreases i - j,
        {
            if t[j].name == t[i].name {
                proof {
                    assert(tv[j as int].0 == tv[i as int].0);
                    assert(!keys_unique(tv));
                }
                return false;
            }
            j += 1;
        }
        let es = &t[i].entries;
        let ghost ev = entry_views(es@);
        let mut a: usize = 0;
        while a < es.len()
            invariant
                i < t@.len(),
                tv == table_view(t@),
                ev == entry_views(es@),
                ev == tv[i as int].1,
                a <= es@.len(),
                forall|x: int, y: int| 0 <= x < a && 0 <= y < es@.len() && x != y ==> ev[x].0 != ev[y].0,
            decreases es@.len() - a,
        {
            let mut b: usize = 0;
            while b < es.len()
                invariant
                    i < t@.len(),
                    tv == table_view(t@),
                    ev == entry_views(es@),
                    ev == tv[i as int].1,
                    a < es@.len(),
                    b <= es@.len(),
                    forall|y: int| 0 <= y < b && y != a ==> ev[a as int].0 != ev[y].0,
                decreases es@.len() - b,
            {
                if b != a && es[a].name == es[b].name {
                    proof {
                        assert(ev[a as int].0 == ev[b as int].0);
                        assert(!keys_unique(tv[i as int].1));
                    }
                    return false;
                }
                b += 1;
            }
            a += 1;
        }
        i += 1;
    }
    true
}

} // verus!
