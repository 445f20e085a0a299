//! The mapping table: for each substitution macro, its attributes and its
//! patterns in the order in which they were registered.

use crate::fragment::{fragments_spec, Fragment, FragmentSpec};
use crate::piece::{mashed, mashup_pieces, pieces_spec, IdentPiece, PieceSpec};
use vstd::prelude::*;

verus! {

/// One pattern of a substitution macro: the key tokens to look for and the
/// pieces of the identifier that takes their place.
#[derive(Clone, Debug, PartialEq, Eq)]
pub struct Concat {
    pub tag: Fragment,
    pub pieces: Vec<IdentPiece>,
}

/// Mathematical model of a [`Concat`].
pub struct ConcatSpec {
    pub tag: FragmentSpec,
    pub pieces: Seq<PieceSpec>,
}

impl View for Concat {
    type V = ConcatSpec;

    open spec fn view(&self) -> ConcatSpec {
        ConcatSpec { tag: self.tag@, pieces: pieces_spec(self.pieces@) }
    }
}

impl Concat {
    /// The concatenated identifier of this pattern.
    pub fn mashup(&self) -> (r: String)
        ensures
            r@ == mashed(self@.pieces),
    {
        mashup_pieces(&self.pieces)
    }
}

/// The models of a sequence of patterns.
pub open spec fn concats_spec(cs: Seq<Concat>) -> Seq<ConcatSpec> {
    cs.map_values(|c: Concat| c@)
}

/// The definition of one substitution macro.
#[derive(Clone, Debug, PartialEq, Eq)]
pub struct SubstitutionMacro {
    /// The attributes that decorate the generated macro.
    pub attrs: Vec<Fragment>,
    /// The patterns, first registered first.
    pub patterns: Vec<Concat>,
}

/// Mathematical model of a [`SubstitutionMacro`].
pub struct MacroSpec {
    pub attrs: Seq<FragmentSpec>,
    pub patterns: Seq<ConcatSpec>,
}

impl View for SubstitutionMacro {
    type V = MacroSpec;

    open spec fn view(&self) -> MacroSpec {
        MacroSpec { attrs: fragments_spec(self.attrs@), patterns: concats_spec(self.patterns@) }
    }
}

/// One statement of a mapping: the attributes written before it, the name of
/// the macro it belongs to, its key tokens and its pieces.
pub struct RecordSpec {
    pub attrs: Seq<FragmentSpec>,
    pub name: Seq<char>,
    pub tag: FragmentSpec,
    pub pieces: Seq<PieceSpec>,
}

/// Mathematical model of one entry of the table.
pub struct EntrySpec {
    pub name: Seq<char>,
    pub body: MacroSpec,
}

/// The index of the entry called `name`, if the table has one.
pub open spec fn position(table: Seq<EntrySpec>, name: Seq<char>) -> Option<int>
    decreases table.len(),
{
    if table.len() == 0 {
        None
    } else if table.last().name == name {
        Some(table.len() - 1)
    } else {
        position(table.drop_last(), name)
    }
}

/// The macro called `name`, if the table has one.
pub open spec fn lookup(table: Seq<EntrySpec>, name: Seq<char>) -> Option<MacroSpec> {
    match position(table, name) {
        Some(k) => Some(table[k].body),
        None => None,
    }
}

/// No two entries have the same name.
pub open spec fn distinct_names(table: Seq<EntrySpec>) -> bool {
    forall|i: int, j: int|
        0 <= i < j < table.len() ==> (#[trigger] table[i]).name != (#[trigger] table[j]).name
}

/// The table after one more record.
///
/// A record for a name that the table has goes to that entry: its attributes
/// after those that are there, its pattern after the patterns that are there.
/// A record for a new name makes a new entry at the end.
pub open spec fn recorded(table: Seq<EntrySpec>, r: RecordSpec) -> Seq<EntrySpec> {
    let pattern = ConcatSpec { tag: r.tag, pieces: r.pieces };
    match position(table, r.name) {
        Some(k) => table.update(
            k,
            EntrySpec {
                name: r.name,
                body: MacroSpec {
                    attrs: table[k].body.attrs + r.attrs,
                    patterns: table[k].body.patterns.push(pattern),
                },
            },
        ),
        None => table.push(
            EntrySpec { name: r.name, body: MacroSpec { attrs: r.attrs, patterns: seq![pattern] } },
        ),
    }
}

/// The table that a sequence of records builds, taken in order.
pub open spec fn table_of(records: Seq<RecordSpec>) -> Seq<EntrySpec>
    decreases records.len(),
{
    if records.len() == 0 {
        Seq::empty()
    } else {
        recorded(table_of(records.drop_last()), records.last())
    }
}

/// `position` finds the entry: where it answers `Some(k)`, entry `k` has the
/// name; where it answers `None`, no entry has it.
pub proof fn lemma_position(table: Seq<EntrySpec>, name: Seq<char>)
    ensures
        match position(table, name) {
            Some(k) => 0 <= k < table.len() && table[k].name == name,
            None => forall|i: int| 0 <= i < table.len() ==> (#[trigger] table[i]).name != name,
        },
    decreases table.len(),
{
    if table.len() > 0 && table.last().name != name {
        lemma_position(table.drop_last(), name);
        match position(table.drop_last(), name) {
            Some(k) => {},
            None => {
                assert forall|i: int| 0 <= i < table.len() implies (#[trigger] table[i]).name
                    != name by {
                    if i < table.len() - 1 {
                        assert(table.drop_last()[i].name != name);
                    }
                }
            },
        }
    }
}

/// Recording keeps the names distinct.
pub proof fn lemma_recorded_distinct(table: Seq<EntrySpec>, r: RecordSpec)
    requires
        distinct_names(table),
    ensures
        distinct_names(recorded(table, r)),
{
    lemma_position(table, r.name);
}

/// A table built from records has distinct names.
pub proof fn lemma_table_distinct(records: Seq<RecordSpec>)
    ensures
        distinct_names(table_of(records)),
    decreases records.len(),
{
    if records.len() > 0 {
        lemma_table_distinct(records.drop_last());
        lemma_recorded_distinct(table_of(records.drop_last()), records.last());
    }
}

/// The records that bear a given name, in their order.
pub open spec fn records_named(records: Seq<RecordSpec>, name: Seq<char>) -> Seq<RecordSpec>
    decreases records.len(),
{
    if records.len() == 0 {
        Seq::empty()
    } else {
        let front = records_named(records.drop_last(), name);
        if records.last().name == name {
            front.push(records.last())
        } else {
            front
        }
    }
}

/// The macro that the records of one name make: their attributes one after
/// the other, and their patterns in order.
pub open spec fn macro_of(records: Seq<RecordSpec>) -> MacroSpec
    decreases records.len(),
{
    if records.len() == 0 {
        MacroSpec { attrs: Seq::empty(), patterns: Seq::empty() }
    } else {
        let front = macro_of(records.drop_last());
        MacroSpec {
            attrs: front.attrs + records.last().attrs,
            patterns: front.patterns.push(
                ConcatSpec { tag: records.last().tag, pieces: records.last().pieces },
            ),
        }
    }
}

/// Replacing an entry by one of the same name moves no name.
pub proof fn lemma_position_update(table: Seq<EntrySpec>, k: int, e: EntrySpec, name: Seq<char>)
    requires
        0 <= k < table.len(),
        table[k].name == e.name,
    ensures
        position(table.update(k, e), name) == position(table, name),
    decreases table.len(),
{
    let changed = table.update(k, e);
    if k == table.len() - 1 {
        assert(changed.drop_last() =~= table.drop_last());
    } else {
        assert(changed.drop_last() =~= table.drop_last().update(k, e));
        assert(changed.last() == table.last());
        lemma_position_update(table.drop_last(), k, e, name);
    }
}

/// A record leaves the macros of all other names as they are.
pub proof fn lemma_recorded_other(table: Seq<EntrySpec>, r: RecordSpec, name: Seq<char>)
    requires
        r.name != name,
    ensures
        lookup(recorded(table, r), name) == lookup(table, name),
{
    lemma_position(table, r.name);
    lemma_position(table, name);
    match position(table, r.name) {
        Some(k) => {
            lemma_position_update(table, k, recorded(table, r)[k], name);
        },
        None => {
            assert(recorded(table, r).drop_last() =~= table);
        },
    }
}

/// The macro that a table holds under a name is made of the records of that
/// name alone, in their order; the table holds none where there is no such
/// record.
pub proof fn lemma_lookup_is_by_name(records: Seq<RecordSpec>, name: Seq<char>)
    ensures
        lookup(table_of(records), name) == if records_named(records, name).len() == 0 {
            None
        } else {
            Some(macro_of(records_named(records, name)))
        },
    decreases records.len(),
{
    if records.len() > 0 {
        let front = records.drop_last();
        let r = records.last();
        let table = table_of(front);
        lemma_lookup_is_by_name(front, name);
        if r.name == name {
            lemma_position(table, name);
            let named = records_named(records, name);
            assert(named.drop_last() =~= records_named(front, name));
            assert(named.last() == r);
            let pattern = ConcatSpec { tag: r.tag, pieces: r.pieces };
            match position(table, name) {
                Some(k) => {
                    let e = recorded(table, r)[k];
                    lemma_position_update(table, k, e, name);
                    assert(lookup(recorded(table, r), name) == Some(e.body));
                    assert(table[k].body == macro_of(records_named(front, name)));
                    assert(e.body == macro_of(named));
                },
                None => {
                    let e = EntrySpec {
                        name: r.name,
                        body: MacroSpec { attrs: r.attrs, patterns: seq![pattern] },
                    };
                    assert(recorded(table, r) == table.push(e));
                    assert(table.push(e).drop_last() =~= table);
                    assert(position(table.push(e), name) == Some(table.len() as int));
                    assert(records_named(front, name).len() == 0);
                    assert(Seq::<FragmentSpec>::empty() + r.attrs =~= r.attrs);
                    assert(Seq::<ConcatSpec>::empty().push(pattern) =~= seq![pattern]);
                    assert(macro_of(named) == e.body);
                },
            }
        } else {
            lemma_recorded_other(table, r, name);
        }
    }
}

/// The macros of one mapping do not touch each other: two mappings with the
/// same records of a name hold the same macro under that name, whatever
/// records of other names stand between and around them.
pub proof fn lemma_names_are_independent(
    a: Seq<RecordSpec>,
    b: Seq<RecordSpec>,
    name: Seq<char>,
)
    requires
        records_named(a, name) == records_named(b, name),
    ensures
        lookup(table_of(a), name) == lookup(table_of(b), name),
{
    lemma_lookup_is_by_name(a, name);
    lemma_lookup_is_by_name(b, name);
}

/// Two records of one name make one macro with two patterns, the first
/// record's first.
pub proof fn lemma_two_records_of_one_name(first: RecordSpec, second: RecordSpec)
    requires
        first.name == second.name,
    ensures
        table_of(seq![first, second]) == seq![
            EntrySpec {
                name: first.name,
                body: MacroSpec {
                    attrs: first.attrs + second.attrs,
                    patterns: seq![
                        ConcatSpec { tag: first.tag, pieces: first.pieces },
                        ConcatSpec { tag: second.tag, pieces: second.pieces },
                    ],
                },
            },
        ],
{
    let both = seq![first, second];
    let one = both.drop_last();
    assert(one =~= seq![first]);
    assert(one.drop_last() =~= Seq::<RecordSpec>::empty());
    assert(table_of(one.drop_last()) =~= Seq::<EntrySpec>::empty());
    let pattern = ConcatSpec { tag: first.tag, pieces: first.pieces };
    let single = seq![
        EntrySpec {
            name: first.name,
            body: MacroSpec { attrs: first.attrs, patterns: seq![pattern] },
        },
    ];
    assert(table_of(one) =~= single);
    assert(single.drop_last() =~= Seq::<EntrySpec>::empty());
    assert(position(single, second.name) == Some(0int));
    assert(table_of(both) == recorded(single, second));
    assert(seq![pattern].push(ConcatSpec { tag: second.tag, pieces: second.pieces }) =~= seq![
        pattern,
        ConcatSpec { tag: second.tag, pieces: second.pieces },
    ]);
    assert(recorded(single, second) =~= seq![
        EntrySpec {
            name: first.name,
            body: MacroSpec {
                attrs: first.attrs + second.attrs,
                patterns: seq![
                    pattern,
                    ConcatSpec { tag: second.tag, pieces: second.pieces },
                ],
            },
        },
    ]);
}

/// One entry of the table.
#[derive(Clone, Debug, PartialEq, Eq)]
pub struct Entry {
    pub name: String,
    pub body: SubstitutionMacro,
}

impl View for Entry {
    type V = EntrySpec;

    open spec fn view(&self) -> EntrySpec {
        EntrySpec { name: self.name@, body: self.body@ }
    }
}

/// The mapping table: the substitution macros by name, each name once, in the
/// order in which the names first occurred.
#[derive(Clone, Debug, PartialEq, Eq)]
pub struct Input {
    entries: Vec<Entry>,
}

impl View for Input {
    type V = Seq<EntrySpec>;

    closed spec fn view(&self) -> Seq<EntrySpec> {
        self.entries@.map_values(|e: Entry| e@)
    }
}

impl Input {
    /// Every name occurs once.
    pub open spec fn wf(&self) -> bool {
        distinct_names(self@)
    }

    /// The empty table.
    pub fn new() -> (r: Input)
        ensures
            r@ == Seq::<EntrySpec>::empty(),
            r.wf(),
    {
        let r = Input { entries: Vec::new() };
        assert(r@ =~= Seq::<EntrySpec>::empty());
        r
    }

    /// The number of macros.
    pub fn len(&self) -> (n: usize)
        ensures
            n == self@.len(),
    {
        self.entries.len()
    }

    /// The entry at an index, in the table's order; `None` behind the last.
    pub fn entry(&self, i: usize) -> (r: Option<&Entry>)
        ensures
            match r {
                Some(e) => i < self@.len() && e@ == self@[i as int],
                None => i >= self@.len(),
            },
    {
        if i < self.entries.len() {
            Some(&self.entries[i])
        } else {
            None
        }
    }

    /// Where the macro called `name` stands.
    pub fn find(&self, name: &str) -> (r: Option<usize>)
        ensures
            match r {
                Some(k) => position(self@, name@) == Some(k as int) && k < self@.len(),
                None => position(self@, name@) is None,
            },
    {
        let wanted = String::from_str(name);
        let mut i: usize = self.entries.len();
        assert(self@.take(i as int) =~= self@);
        while i > 0
            invariant
                i <= self.entries.len(),
                wanted@ == name@,
                position(self@, name@) == position(self@.take(i as int), name@),
            decreases i,
        {
            let ghost front = self@.take(i as int);
            proof {
                assert(front.last() == self.entries@[i - 1]@);
                assert(front.drop_last() =~= self@.take(i - 1));
            }
            if self.entries[i - 1].name == wanted {
                return Some(i - 1);
            }
            i -= 1;
        }
        None
    }

    /// The macro called `name`, if the table has one.
    pub fn get(&self, name: &str) -> (r: Option<&SubstitutionMacro>)
        ensures
            match r {
                Some(m) => lookup(self@, name@) == Some(m@),
                None => lookup(self@, name@) is None,
            },
    {
        match self.find(name) {
            Some(k) => Some(&self.entries[k].body),
            None => None,
        }
    }

    /// Takes one more record into the table.
    pub fn record(&mut self, name: String, attrs: Vec<Fragment>, pattern: Concat)
        requires
            old(self).wf(),
        ensures
            final(self).wf(),
            final(self)@ == recorded(
                old(self)@,
                RecordSpec {
                    attrs: fragments_spec(attrs@),
                    name: name@,
                    tag: pattern@.tag,
                    pieces: pattern@.pieces,
                },
            ),
    {
        let ghost record = RecordSpec {
            attrs: fragments_spec(attrs@),
            name: name@,
            tag: pattern@.tag,
            pieces: pattern@.pieces,
        };
        proof {
            lemma_recorded_distinct(self@, record);
        }
        match self.find(name.as_str()) {
            Some(k) => {
                proof {
                    lemma_position(self@, name@);
                }
                let ghost before = self.entries@;
                let mut entry = self.entries.remove(k);
                let mut attrs = attrs;
                let ghost old_entry = entry@;
                assert(old_entry == old(self)@[k as int]);
                entry.body.attrs.append(&mut attrs);
                entry.body.patterns.push(pattern);
                proof {
                    assert(fragments_spec(entry.body.attrs@) =~= old_entry.body.attrs
                        + record.attrs);
                    assert(concats_spec(entry.body.patterns@) =~= old_entry.body.patterns.push(
                        pattern@,
                    ));
                }
                let ghost new_entry = entry@;
                self.entries.insert(k, entry);
                proof {
                    let target = recorded(old(self)@, record);
                    assert(self@.len() == target.len());
                    assert forall|i: int| 0 <= i < self@.len() implies self@[i] == target[i] by {
                        if i < k {
                            assert(self.entries@[i] == before[i]);
                        } else if i > k {
                            assert(self.entries@[i] == before[i]);
                        }
                    }
                }
                assert(self@ =~= recorded(old(self)@, record));
            },
            None => {
                let mut patterns: Vec<Concat> = Vec::new();
                patterns.push(pattern);
                assert(concats_spec(patterns@) =~= seq![pattern@]);
                self.entries.push(Entry { name, body: SubstitutionMacro { attrs, patterns } });
                assert(self@ =~= recorded(old(self)@, record));
            },
        }
    }
}

} // verus!
