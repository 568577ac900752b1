//! The definitions of one run, found by name.

use vstd::prelude::*;

use crate::location::{DefinitionView, MethodDefinitionLocationAndName};

verus! {

/// The first entry that carries `name`, if there is one.
pub open spec fn find_entry(entries: Seq<DefinitionView>, name: Seq<char>) -> Option<
    DefinitionView,
>
    decreases entries.len(),
{
    if entries.len() == 0 {
        None
    } else if entries[0].method_name == name {
        Some(entries[0])
    } else {
        find_entry(entries.drop_first(), name)
    }
}

/// The entries after `definition` has entered: it takes the place of the
/// first entry of its name, or the last place if no entry has its name.
pub open spec fn with_entry(entries: Seq<DefinitionView>, definition: DefinitionView) -> Seq<
    DefinitionView,
>
    decreases entries.len(),
{
    if entries.len() == 0 {
        seq![definition]
    } else if entries[0].method_name == definition.method_name {
        seq![definition] + entries.drop_first()
    } else {
        seq![entries[0]] + with_entry(entries.drop_first(), definition)
    }
}

/// The entries after each of `definitions` has entered, first to last.
pub open spec fn with_entries(
    entries: Seq<DefinitionView>,
    definitions: Seq<DefinitionView>,
) -> Seq<DefinitionView>
    decreases definitions.len(),
{
    if definitions.len() == 0 {
        entries
    } else {
        with_entries(with_entry(entries, definitions[0]), definitions.drop_first())
    }
}

/// Whether no two entries carry the same name.
pub open spec fn names_distinct(entries: Seq<DefinitionView>) -> bool {
    forall|i: int, j: int|
        0 <= i < j < entries.len() ==> entries[i].method_name != entries[j].method_name
}

/// The views of a list of definitions, in order.
pub open spec fn definition_views(definitions: Seq<MethodDefinitionLocationAndName>) -> Seq<
    DefinitionView,
> {
    definitions.map_values(|definition: MethodDefinitionLocationAndName| definition@)
}

/// Where the entries stand after an insertion, told by the first place that
/// carries the name.
pub proof fn lemma_with_entry_at(
    entries: Seq<DefinitionView>,
    definition: DefinitionView,
    upto: int,
)
    requires
        0 <= upto <= entries.len(),
        forall|i: int| 0 <= i < upto ==> entries[i].method_name != definition.method_name,
    ensures
        upto < entries.len() && entries[upto].method_name == definition.method_name
            ==> with_entry(entries, definition) == entries.update(upto, definition),
        upto == entries.len() ==> with_entry(entries, definition) == entries.push(definition),
    decreases entries.len(),
{
    if entries.len() == 0 {
        assert(seq![definition] =~= entries.push(definition));
    } else if upto == 0 {
        if entries[0].method_name == definition.method_name {
            assert(seq![definition] + entries.drop_first() =~= entries.update(0, definition));
        }
    } else {
        let rest = entries.drop_first();
        assert forall|i: int| 0 <= i < upto - 1 implies rest[i].method_name
            != definition.method_name by {
            assert(rest[i] == entries[i + 1]);
        }
        lemma_with_entry_at(rest, definition, upto - 1);
        if upto < entries.len() && entries[upto].method_name == definition.method_name {
            assert(rest[upto - 1] == entries[upto]);
            assert(seq![entries[0]] + rest.update(upto - 1, definition) =~= entries.update(
                upto,
                definition,
            ));
        }
        if upto == entries.len() {
            assert(seq![entries[0]] + rest.push(definition) =~= entries.push(definition));
        }
    }
}

/// What a search finds, told by the first place that carries the name.
pub proof fn lemma_find_entry_at(entries: Seq<DefinitionView>, name: Seq<char>, upto: int)
    requires
        0 <= upto <= entries.len(),
        forall|i: int| 0 <= i < upto ==> entries[i].method_name != name,
    ensures
        upto < entries.len() && entries[upto].method_name == name ==> find_entry(entries, name)
            == Some(entries[upto]),
        upto == entries.len() ==> find_entry(entries, name) is None,
    decreases entries.len(),
{
    if entries.len() == 0 || upto == 0 {
    } else {
        let rest = entries.drop_first();
        assert forall|i: int| 0 <= i < upto - 1 implies rest[i].method_name != name by {
            assert(rest[i] == entries[i + 1]);
        }
        lemma_find_entry_at(rest, name, upto - 1);
        if upto < entries.len() {
            assert(rest[upto - 1] == entries[upto]);
        }
    }
}

/// What a name finds carries that name.
pub proof fn lemma_found_entry_has_name(index: Seq<DefinitionView>, name: Seq<char>)
    ensures
        find_entry(index, name) matches Some(definition) ==> definition.method_name == name,
    decreases index.len(),
{
    if index.len() > 0 && index[0].method_name != name {
        lemma_found_entry_has_name(index.drop_first(), name);
    }
}

/// The last definition to enter under a name is the one that the name finds;
/// every other name finds what it found before.
pub proof fn lemma_last_entry_wins(
    entries: Seq<DefinitionView>,
    definition: DefinitionView,
    name: Seq<char>,
)
    ensures
        find_entry(with_entry(entries, definition), name) == if name == definition.method_name {
            Some(definition)
        } else {
            find_entry(entries, name)
        },
    decreases entries.len(),
{
    let after = with_entry(entries, definition);
    if entries.len() == 0 {
        assert(after[0] == definition);
        assert(after.drop_first() =~= Seq::<DefinitionView>::empty());
        assert(find_entry(after.drop_first(), name) is None);
    } else if entries[0].method_name == definition.method_name {
        assert(after[0] == definition);
        assert(after.drop_first() =~= entries.drop_first());
    } else {
        assert(after[0] == entries[0]);
        assert(after.drop_first() =~= with_entry(entries.drop_first(), definition));
        lemma_last_entry_wins(entries.drop_first(), definition, name);
    }
}

/// The first place at or after `from` that carries `name`, or the number of
/// entries if none does.
pub open spec fn first_place(entries: Seq<DefinitionView>, name: Seq<char>, from: int) -> int
    decreases entries.len() - from,
{
    if from < 0 || from >= entries.len() {
        entries.len() as int
    } else if entries[from].method_name == name {
        from
    } else {
        first_place(entries, name, from + 1)
    }
}

/// No place before the first place carries the name.
pub proof fn lemma_first_place(entries: Seq<DefinitionView>, name: Seq<char>, from: int)
    requires
        0 <= from <= entries.len(),
    ensures
        from <= first_place(entries, name, from) <= entries.len(),
        forall|i: int|
            from <= i < first_place(entries, name, from) ==> entries[i].method_name != name,
        first_place(entries, name, from) < entries.len() ==> entries[first_place(
            entries,
            name,
            from,
        )].method_name == name,
    decreases entries.len() - from,
{
    if from < entries.len() && entries[from].method_name != name {
        lemma_first_place(entries, name, from + 1);
    }
}

/// An insertion keeps the names distinct.
pub proof fn lemma_with_entry_keeps_distinct(
    entries: Seq<DefinitionView>,
    definition: DefinitionView,
)
    requires
        names_distinct(entries),
    ensures
        names_distinct(with_entry(entries, definition)),
{
    let place = first_place(entries, definition.method_name, 0);
    lemma_first_place(entries, definition.method_name, 0);
    lemma_with_entry_at(entries, definition, place);
}

/// The definitions of one run, each found by its name. A name is held once:
/// a definition that enters under a name already held takes the place of the
/// one that was there.
pub struct NameIndex {
    entries: Vec<MethodDefinitionLocationAndName>,
}

impl View for NameIndex {
    type V = Seq<DefinitionView>;

    closed spec fn view(&self) -> Seq<DefinitionView> {
        definition_views(self.entries@)
    }
}

impl NameIndex {
    #[verifier::type_invariant]
    spec fn held_once(&self) -> bool {
        names_distinct(definition_views(self.entries@))
    }

    /// An index that holds nothing.
    pub fn new() -> (index: NameIndex)
        ensures
            index@ == Seq::<DefinitionView>::empty(),
    {
        let index = NameIndex { entries: Vec::new() };
        assert(index@ =~= Seq::<DefinitionView>::empty());
        index
    }

    /// The number of names held. No two entries carry the same name.
    pub fn len(&self) -> (len: usize)
        ensures
            len == self@.len(),
            names_distinct(self@),
    {
        proof {
            use_type_invariant(self);
        }
        self.entries.len()
    }

    /// The name of the entry at `place`, counting from zero in the order in
    /// which the names first entered.
    pub fn name(&self, place: usize) -> (name: &str)
        requires
            place < self@.len(),
        ensures
            name@ == self@[place as int].method_name,
    {
        self.entries[place].method_name.as_str()
    }

    /// The index of `definitions`, each entered in turn, so that of two
    /// definitions of one name the later is held.
    pub fn from_definitions(definitions: &[MethodDefinitionLocationAndName]) -> (index: NameIndex)
        ensures
            index@ == with_entries(Seq::empty(), definition_views(definitions@)),
    {
        let ghost all = definition_views(definitions@);
        let mut index = NameIndex::new();
        let mut place: usize = 0;
        assert(all.skip(0) =~= all);
        while place < definitions.len()
            invariant
                place <= definitions.len(),
                all == definition_views(definitions@),
                with_entries(index@, all.skip(place as int)) == with_entries(Seq::empty(), all),
            decreases definitions.len() - place,
        {
            let ghost rest = all.skip(place as int);
            proof {
                assert(rest[0] == definitions@[place as int]@);
                assert(rest.drop_first() =~= all.skip(place as int + 1));
            }
            index.insert(definitions[place].duplicate());
            place = place + 1;
        }
        assert(all.skip(place as int).len() == 0);
        index
    }

    /// Enters `definition` under its name.
    pub fn insert(&mut self, definition: MethodDefinitionLocationAndName)
        ensures
            final(self)@ == with_entry(old(self)@, definition@),
    {
        proof {
            use_type_invariant(&*self);
            lemma_with_entry_keeps_distinct(self@, definition@);
        }
        let mut place: usize = 0;
        while place < self.entries.len() && self.entries[place].method_name
            != definition.method_name
            invariant
                place <= self.entries.len(),
                self.entries == old(self).entries,
                forall|i: int|
                    0 <= i < place ==> (#[trigger] self@[i]).method_name
                        != definition@.method_name,
            decreases self.entries.len() - place,
        {
            place = place + 1;
        }
        proof {
            lemma_with_entry_at(self@, definition@, place as int);
        }
        if place < self.entries.len() {
            assert(self@[place as int].method_name == definition@.method_name);
            let mut entries = Vec::new();
            std::mem::swap(&mut entries, &mut self.entries);
            entries.set(place, definition);
            assert(definition_views(entries@) =~= old(self)@.update(place as int, definition@));
            *self = NameIndex { entries };
        } else {
            let mut entries = Vec::new();
            std::mem::swap(&mut entries, &mut self.entries);
            entries.push(definition);
            assert(definition_views(entries@) =~= old(self)@.push(definition@));
            *self = NameIndex { entries };
        }
    }

    /// The definition held under `name`, if the name is held.
    pub fn get(&self, name: &str) -> (found: Option<&MethodDefinitionLocationAndName>)
        ensures
            found is Some <==> find_entry(self@, name@) is Some,
            found is Some ==> Some(found->Some_0@) == find_entry(self@, name@),
    {
        let wanted = name.to_owned();
        let mut place: usize = 0;
        while place < self.entries.len()
            invariant
                place <= self.entries.len(),
                wanted@ == name@,
                forall|i: int| 0 <= i < place ==> (#[trigger] self@[i]).method_name != name@,
            decreases self.entries.len() - place,
        {
            if self.entries[place].method_name == wanted {
                proof {
                    lemma_find_entry_at(self@, name@, place as int);
                }
                return Some(&self.entries[place]);
            }
            place = place + 1;
        }
        proof {
            lemma_find_entry_at(self@, name@, place as int);
        }
        None
    }
}

} // verus!
