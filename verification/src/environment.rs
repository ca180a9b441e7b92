//! Environments and the store of cells behind them.
//!
//! An environment maps names to cells and is persistent: every operation
//! yields a new environment and leaves the old one as it was. The cells live
//! in a `Store` that all environments share. A cell is reserved empty and
//! filled once; a closure that captured the environment while the cell was
//! empty sees the value as soon as the cell is filled, which is how a
//! definition can refer to itself.
//!
//! A cell is known by its number in the store. An environment is meant to be
//! used with the store that its cells were allocated in; with any other
//! store, a name whose cell the store lacks counts as not bound.

use crate::expressions::{optional_model, texts, RuntimeExpression, Value};
use crate::standard_library::atom::{atom_models, Atom, AtomModel};
use crate::persistent::{
    slots, table_clone, table_entries, table_eq, table_get, table_new, table_update, Slots,
};
use vstd::prelude::*;

verus! {

/// A persistent map from names to cells of the store.
#[derive(PartialEq, Debug)]
pub struct Environment {
    table: im::HashMap<String, usize>,
}

impl View for Environment {
    type V = Slots;

    closed spec fn view(&self) -> Slots {
        slots(self.table)
    }
}

impl Clone for Environment {
    /// A copy of the environment. Both refer to the same cells.
    fn clone(&self) -> (copy: Environment)
        ensures
            copy@ == self@,
    {
        Environment { table: table_clone(&self.table) }
    }
}

/// The cells that environments refer to, and the lines that the program has
/// logged.
#[derive(PartialEq, Debug)]
pub struct Store {
    cells: Vec<Option<RuntimeExpression>>,
    atoms: Vec<Atom>,
    output: Vec<String>,
    clock: u128,
}

/// The model of a `Store`.
pub struct StoreModel {
    pub cells: Seq<Option<Value>>,
    pub atoms: Seq<AtomModel>,
    pub output: Seq<Seq<char>>,
    /// The time as the host last told it, in milliseconds since the start of
    /// 1970.
    pub clock: u128,
}

/// The models of a sequence of cells.
pub open spec fn cell_models(cells: Seq<Option<RuntimeExpression>>) -> Seq<Option<Value>> {
    Seq::new(cells.len(), |i: int| optional_model(cells[i]))
}

impl View for Store {
    type V = StoreModel;

    closed spec fn view(&self) -> StoreModel {
        StoreModel {
            cells: cell_models(self.cells@),
            atoms: atom_models(self.atoms@),
            output: texts(self.output@),
            clock: self.clock,
        }
    }
}

impl StoreModel {
    /// The store with one more cell, holding `content`.
    pub open spec fn allocate(self, content: Option<Value>) -> StoreModel {
        StoreModel { cells: self.cells.push(content), ..self }
    }

    /// The store with `value` written to `cell`.
    pub open spec fn fill(self, cell: int, value: Value) -> StoreModel {
        StoreModel { cells: self.cells.update(cell, Some(value)), ..self }
    }

    /// Whether `cell` exists and is still empty.
    pub open spec fn vacant(self, cell: int) -> bool {
        0 <= cell < self.cells.len() && self.cells[cell] is None
    }

    /// The store with one more line logged.
    pub open spec fn log(self, line: Seq<char>) -> StoreModel {
        StoreModel { output: self.output.push(line), ..self }
    }

    /// The store with one more atom.
    pub open spec fn with_atom(self, atom: AtomModel) -> StoreModel {
        StoreModel { atoms: self.atoms.push(atom), ..self }
    }

    /// Whether the store is what `earlier` has grown into: it has every cell
    /// of `earlier`, and every cell that was filled holds what it held. Cells
    /// are added and empty cells are filled; nothing else happens to cells.
    pub open spec fn extends(self, earlier: StoreModel) -> bool {
        &&& earlier.cells.len() <= self.cells.len()
        &&& forall|i: int|
            0 <= i < earlier.cells.len() && (#[trigger] earlier.cells[i]) is Some
                ==> self.cells[i] == earlier.cells[i]
    }

    /// Whether the store is `earlier` with cells added and nothing else done
    /// to its cells: every cell of `earlier` is as it was, the empty ones too.
    pub open spec fn keeps(self, earlier: StoreModel) -> bool {
        &&& earlier.cells.len() <= self.cells.len()
        &&& forall|i: int|
            0 <= i < earlier.cells.len() ==> self.cells[i] == #[trigger] earlier.cells[i]
    }

    /// The store with the clock set.
    pub open spec fn at(self, now: u128) -> StoreModel {
        StoreModel { clock: now, ..self }
    }

    /// The store without cells, atoms or output, and with the clock at 0.
    pub open spec fn empty() -> StoreModel {
        StoreModel { cells: Seq::empty(), atoms: Seq::empty(), output: Seq::empty(), clock: 0 }
    }
}

/// Whether the environment belongs to the store: every cell that it binds a
/// name to lies in the store. An environment that is built from `new` by the
/// operations of this module, always with the same store, belongs to it, and
/// goes on to belong to it whatever the evaluator does with the store.
pub open spec fn fits(environment: Slots, store: StoreModel) -> bool {
    forall|name: Seq<char>| #[trigger]
        environment.contains_key(name) ==> environment[name] < store.cells.len()
}

/// An environment that belongs to a store belongs to every store that the
/// store grows into.
pub proof fn lemma_fits_the_grown_store(environment: Slots, earlier: StoreModel, later: StoreModel)
    requires
        fits(environment, earlier),
        later.extends(earlier),
    ensures
        fits(environment, later),
{
}

/// Keeping is transitive.
pub proof fn lemma_keeps_in_two(first: StoreModel, second: StoreModel, third: StoreModel)
    requires
        second.keeps(first),
        third.keeps(second),
    ensures
        third.keeps(first),
{
    assert forall|i: int| 0 <= i < first.cells.len() implies third.cells[i]
        == #[trigger] first.cells[i] by {
        assert(second.cells[i] == first.cells[i]);
    }
}

/// Growing is transitive.
pub proof fn lemma_extends_in_two(first: StoreModel, second: StoreModel, third: StoreModel)
    requires
        second.extends(first),
        third.extends(second),
    ensures
        third.extends(first),
{
    assert forall|i: int| 0 <= i < first.cells.len() && (
    #[trigger] first.cells[i]) is Some implies third.cells[i] == first.cells[i] by {
        assert(second.cells[i] == first.cells[i]);
    }
}

/// The value that `name` has in `environment`: that of its cell, if the name
/// is bound and the cell is filled.
pub open spec fn lookup(environment: Slots, name: Seq<char>, store: StoreModel) -> Option<Value> {
    if environment.contains_key(name) && environment[name] < store.cells.len() {
        store.cells[environment[name] as int]
    } else {
        None
    }
}

/// What `provide` does: the store afterwards, and whether the cell was
/// filled. Nothing changes unless `name` is bound to a vacant cell.
pub open spec fn provided(environment: Slots, name: Seq<char>, value: Value, store: StoreModel) -> (
    Option<()>,
    StoreModel,
) {
    if environment.contains_key(name) && store.vacant(environment[name] as int) {
        (Some(()), store.fill(environment[name] as int, value))
    } else {
        (None, store)
    }
}

/// The models of a sequence of bindings.
pub open spec fn binding_models(bindings: Seq<(String, RuntimeExpression)>) -> Seq<
    (Seq<char>, Value),
> {
    Seq::new(bindings.len(), |i: int| (bindings[i].0@, bindings[i].1@))
}

/// What binding the first `count` of `bindings` does, one after the other:
/// each name gets a fresh cell that holds its value, so that a later binding
/// of a name hides an earlier one.
pub open spec fn extended(
    environment: Slots,
    bindings: Seq<(Seq<char>, Value)>,
    count: nat,
    store: StoreModel,
) -> (Slots, StoreModel)
    decreases count,
{
    if count == 0 {
        (environment, store)
    } else {
        let (before, cells) = extended(environment, bindings, (count - 1) as nat, store);
        (
            before.insert(bindings[count - 1].0, cells.cells.len() as usize),
            cells.allocate(Some(bindings[count - 1].1)),
        )
    }
}

/// The names paired with the values, position by position, as far as both
/// go.
pub open spec fn paired(names: Seq<Seq<char>>, values: Seq<Value>) -> Seq<(Seq<char>, Value)> {
    Seq::new(
        if names.len() <= values.len() {
            names.len()
        } else {
            values.len()
        },
        |i: int| (names[i], values[i]),
    )
}

/// A cell is written once. Whatever the store holds, a second `provide` on
/// a name reports failure and changes nothing. Where the name was prepared
/// and its cell is still empty, the first `provide` succeeds, and the name
/// has the first value afterwards, also after the second call.
pub proof fn lemma_provide_writes_once(
    environment: Slots,
    name: Seq<char>,
    first: Value,
    second: Value,
    store: StoreModel,
)
    ensures
        provided(environment, name, second, provided(environment, name, first, store).1) == (
            None::<()>,
            provided(environment, name, first, store).1,
        ),
        environment.contains_key(name) && store.vacant(environment[name] as int) ==> {
            &&& provided(environment, name, first, store).0 == Some(())
            &&& lookup(environment, name, provided(environment, name, first, store).1) == Some(
                first,
            )
        },
{
}

/// What is provided through one environment is seen through every
/// environment that binds a name to the same cell, whenever it was made:
/// this is what lets a function that closed over a prepared name find its own
/// definition there.
pub proof fn lemma_provided_value_is_shared(
    environment: Slots,
    name: Seq<char>,
    value: Value,
    store: StoreModel,
    holder: Slots,
    known_as: Seq<char>,
)
    requires
        environment.contains_key(name),
        store.vacant(environment[name] as int),
        holder.contains_key(known_as),
        holder[known_as] == environment[name],
    ensures
        lookup(holder, known_as, provided(environment, name, value, store).1) == Some(value),
{
}

/// `provide` changes no name but those of the cell that it fills.
pub proof fn lemma_provide_leaves_other_cells(
    environment: Slots,
    name: Seq<char>,
    value: Value,
    store: StoreModel,
    holder: Slots,
    other: Seq<char>,
)
    requires
        environment.contains_key(name),
        holder.contains_key(other),
        holder[other] != environment[name],
    ensures
        lookup(holder, other, provided(environment, name, value, store).1) == lookup(
            holder,
            other,
            store,
        ),
{
}

/// A value that has been added is found under its name, and in an
/// environment that belongs to the store every other name keeps what it had.
pub proof fn lemma_add_binds(
    environment: Slots,
    name: Seq<char>,
    value: Value,
    store: StoreModel,
    other: Seq<char>,
)
    requires
        store.cells.len() <= usize::MAX,
        fits(environment, store),
    ensures
        lookup(
            environment.insert(name, store.cells.len() as usize),
            name,
            store.allocate(Some(value)),
        ) == Some(value),
        other != name ==> lookup(
            environment.insert(name, store.cells.len() as usize),
            other,
            store.allocate(Some(value)),
        ) == lookup(environment, other, store),
        fits(environment.insert(name, store.cells.len() as usize), store.allocate(Some(value))),
{
    assert(environment.contains_key(other) ==> environment[other] < store.cells.len());
}

/// Preparing a name leaves every other name of an environment that belongs
/// to the store as it was, and the name itself without a value.
pub proof fn lemma_prepare_binds(
    environment: Slots,
    name: Seq<char>,
    store: StoreModel,
    other: Seq<char>,
)
    requires
        store.cells.len() <= usize::MAX,
        fits(environment, store),
    ensures
        lookup(
            environment.insert(name, store.cells.len() as usize),
            name,
            store.allocate(None),
        ) is None,
        other != name ==> lookup(
            environment.insert(name, store.cells.len() as usize),
            other,
            store.allocate(None),
        ) == lookup(environment, other, store),
        fits(environment.insert(name, store.cells.len() as usize), store.allocate(None)),
{
    assert(environment.contains_key(other) ==> environment[other] < store.cells.len());
}

impl Store {
    /// A store without cells, atoms or output.
    pub fn new() -> (store: Store)
        ensures
            store@ == StoreModel::empty(),
    {
        let store = Store { cells: Vec::new(), atoms: Vec::new(), output: Vec::new(), clock: 0 };
        proof {
            assert(store@.cells =~= Seq::empty());
            assert(store@.atoms =~= Seq::empty());
            assert(store@.output =~= Seq::empty());
        }
        store
    }

    /// The number of cells allocated so far.
    pub fn size(&self) -> (size: usize)
        ensures
            size == self@.cells.len(),
    {
        self.cells.len()
    }

    /// Adds a cell with the given content and returns its number.
    pub fn allocate(&mut self, content: Option<RuntimeExpression>) -> (cell: usize)
        ensures
            cell == old(self)@.cells.len(),
            final(self)@ == old(self)@.allocate(optional_model(content)),
    {
        let cell = self.cells.len();
        self.cells.push(content);
        proof {
            assert(cell_models(self.cells@) =~= cell_models(old(self).cells@).push(
                optional_model(content),
            ));
        }
        cell
    }

    /// The content of a cell: `None` for an empty cell and for a number that
    /// no cell has.
    pub fn read(&self, cell: usize) -> (content: Option<RuntimeExpression>)
        ensures
            optional_model(content) == (if cell < self@.cells.len() {
                self@.cells[cell as int]
            } else {
                None
            }),
    {
        if cell < self.cells.len() {
            match &self.cells[cell] {
                Some(value) => Some(value.duplicate()),
                None => None,
            }
        } else {
            None
        }
    }

    /// Fills a cell if it exists and is empty, and says whether it did.
    pub fn fill(&mut self, cell: usize, value: RuntimeExpression) -> (filled: bool)
        ensures
            filled == old(self)@.vacant(cell as int),
            final(self)@ == (if filled {
                old(self)@.fill(cell as int, value@)
            } else {
                old(self)@
            }),
    {
        if cell < self.cells.len() {
            if self.cells[cell].is_none() {
                self.cells[cell] = Some(value);
                proof {
                    assert(cell_models(self.cells@) =~= cell_models(old(self).cells@).update(
                        cell as int,
                        Some(value@),
                    ));
                }
                return true;
            }
        }
        false
    }

    /// Adds an atom and returns its number.
    pub fn new_atom(&mut self, atom: Atom) -> (cell: usize)
        ensures
            cell == old(self)@.atoms.len(),
            final(self)@ == old(self)@.with_atom(atom@),
    {
        let cell = self.atoms.len();
        self.atoms.push(atom);
        proof {
            assert(atom_models(self.atoms@) =~= atom_models(old(self).atoms@).push(atom@));
        }
        cell
    }

    /// The atom of the given number, if there is one.
    pub fn atom(&self, cell: usize) -> (atom: Option<Atom>)
        ensures
            match atom {
                Some(atom) => cell < self@.atoms.len() && atom@ == self@.atoms[cell as int],
                None => cell >= self@.atoms.len(),
            },
    {
        if cell < self.atoms.len() {
            Some(self.atoms[cell].clone())
        } else {
            None
        }
    }

    /// Sets the clock that the native function `time` reads. The host tells
    /// the time; the evaluator does not look at a clock of its own, so that a
    /// step is a function of the process and the store.
    pub fn set_clock(&mut self, now: u128)
        ensures
            final(self)@ == old(self)@.at(now),
    {
        self.clock = now;
    }

    /// The time as the host last told it.
    pub fn clock(&self) -> (now: u128)
        ensures
            now == self@.clock,
    {
        self.clock
    }

    /// Appends a line to the output.
    pub fn log(&mut self, line: String)
        ensures
            final(self)@ == old(self)@.log(line@),
    {
        self.output.push(line);
        proof {
            crate::expressions::lemma_texts_push(old(self).output@, line);
        }
    }

    /// The lines logged so far.
    pub fn output(&self) -> (lines: &Vec<String>)
        ensures
            texts(lines@) == self@.output,
    {
        &self.output
    }
}

impl Environment {
    /// The environment that binds nothing.
    pub fn new() -> (environment: Environment)
        ensures
            environment@ == Slots::empty(),
            forall|store: StoreModel| fits(environment@, store),
    {
        Environment { table: table_new() }
    }

    /// Whether two environments bind the same names to the same cells.
    pub fn same(&self, other: &Environment) -> (same: bool)
        ensures
            same == (self@ == other@),
    {
        table_eq(&self.table, &other.table)
    }

    /// Binds `key` to a fresh empty cell, to be filled later by `provide`.
    pub fn prepare(self, key: String, store: &mut Store) -> (environment: Environment)
        ensures
            environment@ == self@.insert(key@, old(store)@.cells.len() as usize),
            final(store)@ == old(store)@.allocate(None),
            fits(self@, old(store)@) ==> fits(environment@, final(store)@),
            final(store)@.extends(old(store)@),
    {
        let cell = store.allocate(None);
        Environment { table: table_update(&self.table, key, cell) }
    }

    /// Fills the cell of `key`, once. Returns `None` and changes nothing where
    /// `key` is not bound or its cell has been filled already.
    pub fn provide(&self, key: &str, value: RuntimeExpression, store: &mut Store) -> (filled:
        Option<()>)
        ensures
            (filled, final(store)@) == provided(self@, key@, value@, old(store)@),
            fits(self@, old(store)@) ==> fits(self@, final(store)@),
            final(store)@.extends(old(store)@),
    {
        match table_get(&self.table, key) {
            Some(cell) => {
                if store.fill(cell, value) {
                    Some(())
                } else {
                    None
                }
            },
            None => None,
        }
    }

    /// Binds `key` to a fresh cell that holds `value`.
    pub fn add(self, key: String, value: RuntimeExpression, store: &mut Store) -> (environment:
        Environment)
        ensures
            environment@ == self@.insert(key@, old(store)@.cells.len() as usize),
            final(store)@ == old(store)@.allocate(Some(value@)),
            fits(self@, old(store)@) ==> fits(environment@, final(store)@),
            final(store)@.extends(old(store)@),
    {
        let cell = store.allocate(Some(value));
        Environment { table: table_update(&self.table, key, cell) }
    }

    /// The value of `key`: `None` where the name is not bound or its cell is
    /// still empty.
    pub fn get(&self, key: &str, store: &Store) -> (value: Option<RuntimeExpression>)
        ensures
            optional_model(value) == lookup(self@, key@, store@),
    {
        match table_get(&self.table, key) {
            Some(cell) => store.read(cell),
            None => None,
        }
    }

    /// Binds each name of `bindings` to a fresh cell that holds its value, in
    /// order.
    pub fn extend(
        self,
        bindings: &Vec<(String, RuntimeExpression)>,
        store: &mut Store,
    ) -> (environment: Environment)
        ensures
            (environment@, final(store)@) == extended(
                self@,
                binding_models(bindings@),
                bindings.len() as nat,
                old(store)@,
            ),
            fits(self@, old(store)@) ==> fits(environment@, final(store)@),
            final(store)@.extends(old(store)@),
    {
        let mut environment = self;
        let mut i: usize = 0;
        while i < bindings.len()
            invariant
                i <= bindings.len(),
                (environment@, store@) == extended(
                    self@,
                    binding_models(bindings@),
                    i as nat,
                    old(store)@,
                ),
                fits(self@, old(store)@) ==> fits(environment@, store@),
                store@.extends(old(store)@),
            decreases bindings.len() - i,
        {
            environment = environment.add(bindings[i].0.clone(), bindings[i].1.clone(), store);
            i += 1;
        }
        environment
    }

    /// The environment that holds the given bindings and nothing else.
    pub fn from(bindings: &Vec<(String, RuntimeExpression)>, store: &mut Store) -> (environment:
        Environment)
        ensures
            (environment@, final(store)@) == extended(
                Slots::empty(),
                binding_models(bindings@),
                bindings.len() as nat,
                old(store)@,
            ),
            fits(environment@, final(store)@),
            final(store)@.extends(old(store)@),
    {
        Environment::new().extend(bindings, store)
    }

    /// The environment that binds what `self` or `other` binds; where both
    /// bind a name, the binding of `other` counts.
    pub fn union(self, other: Environment) -> (environment: Environment)
        ensures
            environment@ == self@.union_prefer_right(other@),
            forall|store: StoreModel|
                fits(self@, store) && fits(other@, store) ==> #[trigger] fits(environment@, store),
    {
        let entries = table_entries(&other.table);
        let mut table = self.table;
        let mut i: usize = 0;
        let ghost mut seen: Set<Seq<char>> = Set::empty();
        proof {
            assert(slots(table) =~= self@.union_prefer_right(other@.restrict(seen)));
        }
        while i < entries.len()
            invariant
                i <= entries.len(),
                forall|k: int|
                    0 <= k < entries.len() ==> other@.contains_pair(
                        (#[trigger] entries[k]).0@,
                        entries[k].1,
                    ),
                forall|k: int| 0 <= k < i ==> seen.contains((#[trigger] entries[k]).0@),
                slots(table) == self@.union_prefer_right(other@.restrict(seen)),
            decreases entries.len() - i,
        {
            let ghost before = slots(table);
            let ghost name = entries[i as int].0@;
            table = table_update(&table, entries[i].0.clone(), entries[i].1);
            proof {
                assert(other@.contains_pair(entries[i as int].0@, entries[i as int].1));
                assert(before.insert(name, entries[i as int].1) =~= self@.union_prefer_right(
                    other@.restrict(seen.insert(name)),
                ));
                seen = seen.insert(name);
            }
            i += 1;
        }
        proof {
            assert forall|name: Seq<char>| other@.contains_key(name) implies seen.contains(
                name,
            ) by {
                let k = choose|k: int| 0 <= k < entries.len() && (#[trigger] entries[k]).0@ == name;
                assert(seen.contains(entries[k].0@));
            }
            assert(other@.restrict(seen) =~= other@);
        }
        Environment { table }
    }

    /// The names that have a value, each once and with its value, in no
    /// particular order.
    pub fn iter(&self, store: &Store) -> (bindings: Vec<(String, RuntimeExpression)>)
        ensures
            forall|i: int|
                0 <= i < bindings.len() ==> lookup(self@, (#[trigger] bindings[i]).0@, store@)
                    == Some(bindings[i].1@),
            forall|i: int, j: int|
                0 <= i < j < bindings.len() ==> (#[trigger] bindings[i]).0@ != (
                #[trigger] bindings[j]).0@,
            forall|name: Seq<char>| #[trigger]
                lookup(self@, name, store@) is Some ==> exists|i: int|
                    0 <= i < bindings.len() && (#[trigger] bindings[i]).0@ == name,
    {
        let entries = table_entries(&self.table);
        let mut bindings: Vec<(String, RuntimeExpression)> = Vec::new();
        let ghost mut origin: Seq<int> = Seq::empty();
        let mut i: usize = 0;
        while i < entries.len()
            invariant
                i <= entries.len(),
                forall|k: int|
                    0 <= k < entries.len() ==> self@.contains_pair(
                        (#[trigger] entries[k]).0@,
                        entries[k].1,
                    ),
                origin.len() == bindings.len(),
                forall|k: int| 0 <= k < origin.len() ==> 0 <= #[trigger] origin[k] < i,
                forall|k: int|
                    0 <= k < bindings.len() ==> (#[trigger] bindings[k]).0@
                        == entries[origin[k]].0@,
                forall|k: int|
                    0 <= k < bindings.len() ==> lookup(
                        self@,
                        (#[trigger] bindings[k]).0@,
                        store@,
                    ) == Some(bindings[k].1@),
                forall|k: int, l: int|
                    0 <= k < l < origin.len() ==> #[trigger] origin[k] < #[trigger] origin[l],
                forall|k: int|
                    0 <= k < i && lookup(self@, (#[trigger] entries[k]).0@, store@) is Some
                        ==> exists|l: int| 0 <= l < origin.len() && #[trigger] origin[l] == k,
            decreases entries.len() - i,
        {
            proof {
                assert(self@.contains_pair(entries[i as int].0@, entries[i as int].1));
            }
            match store.read(entries[i].1) {
                Some(value) => {
                    let ghost held = bindings@;
                    let ghost from = origin;
                    let name = entries[i].0.clone();
                    proof {
                        assert(lookup(self@, name@, store@) == Some(value@));
                    }
                    bindings.push((name, value));
                    proof {
                        origin = origin.push(i as int);
                        assert forall|k: int| 0 <= k < bindings.len() implies (
                        #[trigger] bindings[k]).0@ == entries[origin[k]].0@ by {
                            if k < held.len() {
                                assert(bindings[k] == held[k]);
                                assert(origin[k] == from[k]);
                            }
                        }
                        assert forall|k: int| 0 <= k < bindings.len() implies lookup(
                            self@,
                            (#[trigger] bindings[k]).0@,
                            store@,
                        ) == Some(bindings[k].1@) by {
                            if k < held.len() {
                                assert(bindings[k] == held[k]);
                            }
                        }
                        assert forall|k: int|
                            0 <= k < i + 1 && lookup(
                                self@,
                                (#[trigger] entries[k]).0@,
                                store@,
                            ) is Some implies exists|l: int|
                            0 <= l < origin.len() && #[trigger] origin[l] == k by {
                            if k < i {
                                let l = choose|l: int|
                                    0 <= l < from.len() && #[trigger] from[l] == k;
                                assert(origin[l] == k);
                            } else {
                                assert(origin[held.len() as int] == k);
                            }
                        }
                    }
                },
                None => {
                    proof {
                        assert(lookup(self@, entries[i as int].0@, store@) is None);
                    }
                },
            }
            i += 1;
        }
        proof {
            assert forall|k: int, l: int| 0 <= k < l < bindings.len() implies (
            #[trigger] bindings[k]).0@ != (#[trigger] bindings[l]).0@ by {
                assert(origin[k] < origin[l]);
                assert(entries[origin[k]].0@ != entries[origin[l]].0@);
            }
            assert forall|name: Seq<char>| #[trigger]
                lookup(self@, name, store@) is Some implies exists|k: int|
                0 <= k < bindings.len() && (#[trigger] bindings[k]).0@ == name by {
                let e = choose|e: int| 0 <= e < entries.len() && (#[trigger] entries[e]).0@ == name;
                let l = choose|l: int| 0 <= l < origin.len() && #[trigger] origin[l] == e;
                assert(bindings[l].0@ == name);
            }
        }
        bindings
    }

    /// Whether `key` is bound, to a filled cell or an empty one.
    pub fn binds(&self, key: &str) -> (bound: bool)
        ensures
            bound == self@.contains_key(key@),
    {
        table_get(&self.table, key).is_some()
    }
}

/// Binding names only adds cells to the store.
pub proof fn lemma_extended_extends(
    environment: Slots,
    bindings: Seq<(Seq<char>, Value)>,
    count: nat,
    store: StoreModel,
)
    ensures
        extended(environment, bindings, count, store).1.extends(store),
        extended(environment, bindings, count, store).1.keeps(store),
    decreases count,
{
    if count > 0 {
        lemma_extended_extends(environment, bindings, (count - 1) as nat, store);
    }
}

} // verus!
