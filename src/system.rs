//! Filters compiled from Lua scripts, and the system that applies them.

use std::marker::PhantomData;
use vstd::prelude::*;

use crate::lua::{as_boolean, call_registered, module_functions};
use crate::select::{
    any_kept, any_true, callables, kept, lemma_kept_none, lemma_tables_len, retain_kept,
    total_functions,
};

verus! {

/// Why loading scripts or filtering a record failed.
#[derive(Debug)]
pub enum FilterError {
    /// A script could not be read, could not be run, or did not return a
    /// table of filters.
    Load(mlua::Error),
    /// A record could not be turned into a Lua value.
    Conversion(mlua::Error),
    /// A filter raised an error while it ran.
    Runtime(mlua::Error),
    /// A filter returned something other than exactly one boolean.
    NotBoolean,
}

/// A named filter: a Lua function that decides whether a record is kept,
/// held by its key in the registry of the interpreter that it lives in.
pub struct Filter<'lua, T> {
    pub name: String,
    key: mlua::RegistryKey,
    lua: &'lua mlua::Lua,
    _marker: PhantomData<T>,
}

impl<'lua, T: serde::Serialize> Filter<'lua, T> {
    /// The name of the filter and the registry key of its Lua function.
    pub closed spec fn entry(&self) -> (String, mlua::RegistryKey) {
        (self.name, self.key)
    }

    /// The interpreter that the filter's function was taken from, and in
    /// which the filter runs.
    pub closed spec fn interpreter(&self) -> mlua::Lua {
        *self.lua
    }

    /// Creates a filter from its name and the key of a Lua function stored in
    /// `lua`'s registry.
    pub(crate) fn new(lua: &'lua mlua::Lua, name: String, key: mlua::RegistryKey) -> (r: Self)
        ensures
            r.entry() == (name, key),
            r.interpreter() == *lua,
    {
        Filter { name, key, lua, _marker: PhantomData }
    }

    /// Runs the filter on a record, in the filter's own interpreter, and reads
    /// its answer. The record is handed to Lua as a value of the same shape;
    /// the filter must return exactly one boolean.
    pub fn filter(&self, value: T) -> (r: Result<bool, FilterError>)
        ensures
            !(r matches Err(FilterError::Load(_))),
    {
        let called = match call_registered(self.lua, &self.key, &value) {
            Ok(called) => called,
            Err(e) => return Err(FilterError::Conversion(e)),
        };
        match called {
            Ok(results) => {
                let mut answers: Vec<Option<bool>> = Vec::new();
                let mut i: usize = 0;
                while i < results.len()
                    invariant
                        i <= results.len(),
                    decreases results.len() - i,
                {
                    answers.push(as_boolean(&results[i]));
                    i = i + 1;
                }
                read_decision(&answers)
            },
            Err(e) => Err(FilterError::Runtime(e)),
        }
    }
}

/// The filters that a script's table exports, on the interpreter `lua` that
/// ran the script: one for each entry that holds a function, named after the
/// entry's key, in the order of the entries.
pub(crate) fn exported_filters<'lua, T: serde::Serialize>(
    lua: &'lua mlua::Lua,
    entries: Vec<(String, Option<mlua::RegistryKey>)>,
) -> (r: Vec<Filter<'lua, T>>)
    ensures
        r@.map_values(|f: Filter<'lua, T>| f.entry()) == callables(entries@),
        forall|j: int| 0 <= j < r@.len() ==> (#[trigger] r@[j]).interpreter() == *lua,
{
    let ghost all = entries@;
    let mut r: Vec<Filter<'lua, T>> = Vec::new();
    for entry in it: entries.into_iter()
        invariant
            it.seq() == all,
            r@.map_values(|f: Filter<'lua, T>| f.entry()) == callables(all.take(it.index())),
            forall|j: int| 0 <= j < r@.len() ==> (#[trigger] r@[j]).interpreter() == *lua,
    {
        let ghost k = it.index();
        proof {
            assert(all.take(k + 1).take(k) =~= all.take(k));
        }
        let ghost prev = r@;
        let (name, function) = entry;
        match function {
            Some(f) => {
                r.push(Filter::new(lua, name, f));
                proof {
                    assert(r@.map_values(|f: Filter<'lua, T>| f.entry()) =~= prev.map_values(
                        |f: Filter<'lua, T>| f.entry(),
                    ).push((all[k].0, f)));
                }
            },
            None => {},
        }
    }
    proof {
        assert(all.take(all.len() as int) =~= all);
    }
    r
}

/// Reads a filter's answers, each as the boolean it holds if it is one: a
/// single boolean is the decision; anything else (no answer, several, or
/// one that is not a boolean) is an error.
pub fn read_decision(answers: &Vec<Option<bool>>) -> (r: Result<bool, FilterError>)
    ensures
        r == if answers@.len() == 1 && answers@[0] is Some {
            Ok::<bool, FilterError>(answers@[0]->Some_0)
        } else {
            Err(FilterError::NotBoolean)
        },
{
    if answers.len() == 1 {
        match answers[0] {
            Some(b) => Ok(b),
            None => Err(FilterError::NotBoolean),
        }
    } else {
        Err(FilterError::NotBoolean)
    }
}

/// An interpreter together with the filters that will be compiled in it.
pub struct FilterRuntime<T> {
    runtime: mlua::Lua,
    _marker: PhantomData<T>,
}

impl<T: serde::Serialize + Clone> FilterRuntime<T> {
    /// The runtime's interpreter.
    pub closed spec fn interpreter(&self) -> mlua::Lua {
        self.runtime
    }

    /// Creates a runtime with a fresh interpreter.
    pub fn new() -> (r: Self) {
        FilterRuntime { runtime: mlua::Lua::new(), _marker: PhantomData }
    }

    /// Compiles the given script sources into a new filter system on this
    /// runtime's interpreter. Nothing is returned if any script fails.
    pub fn load(&self, sources: Vec<String>) -> (r: Result<FilterSystem<'_, T>, FilterError>)
        ensures
            match r {
                Ok(system) => {
                    &&& system.runtime() == self.interpreter()
                    &&& system.filters_on_runtime()
                    &&& system.loaded_from(Seq::empty(), sources@)
                },
                Err(_) => true,
            },
            sources@.len() == 0 ==> r is Ok,
    {
        let mut system = FilterSystem::new(&self.runtime);
        system.load(sources)?;
        Ok(system)
    }
}

/// The filters loaded on one interpreter, applied together to records.
pub struct FilterSystem<'lua, T> {
    runtime: &'lua mlua::Lua,
    filters: Vec<Filter<'lua, T>>,
}

impl<'lua, T: serde::Serialize + Clone> FilterSystem<'lua, T> {
    /// The filters of the system, as name and registry key, in the order in
    /// which they were loaded.
    pub closed spec fn entries(&self) -> Seq<(String, mlua::RegistryKey)> {
        self.filters@.map_values(|f: Filter<'lua, T>| f.entry())
    }

    /// The interpreter that the system compiles its scripts in.
    pub closed spec fn runtime(&self) -> mlua::Lua {
        *self.runtime
    }

    /// Every filter of the system runs in the system's interpreter.
    pub closed spec fn filters_on_runtime(&self) -> bool {
        forall|j: int|
            0 <= j < self.filters@.len() ==> (#[trigger] self.filters@[j]).interpreter()
                == *self.runtime
    }

    /// The system holds the filters it held before (`before`), followed by the
    /// callable entries of the tables that the scripts `sources` returned, script
    /// by script, each in the order in which Lua listed it.
    pub open spec fn loaded_from(
        &self,
        before: Seq<(String, mlua::RegistryKey)>,
        sources: Seq<String>,
    ) -> bool {
        exists|tables: Seq<Seq<(String, Option<mlua::RegistryKey>)>>|
            tables.len() == sources.len() && self.entries() == before + tables.map_values(
                |t: Seq<(String, Option<mlua::RegistryKey>)>| callables(t),
            ).flatten()
    }

    /// After a successful load the system holds as many filters as it held
    /// before, plus, for each script, the number of entries of its table that
    /// hold a function; chain and declared names play no part.
    pub proof fn lemma_load_count(
        &self,
        before: Seq<(String, mlua::RegistryKey)>,
        sources: Seq<String>,
    )
        requires
            self.loaded_from(before, sources),
        ensures
            exists|tables: Seq<Seq<(String, Option<mlua::RegistryKey>)>>|
                tables.len() == sources.len() && self.entries().len() == before.len()
                    + total_functions(tables),
    {
        let tables = choose|tables: Seq<Seq<(String, Option<mlua::RegistryKey>)>>|
            tables.len() == sources.len() && self.entries() == before + tables.map_values(
                |t: Seq<(String, Option<mlua::RegistryKey>)>| callables(t),
            ).flatten();
        lemma_tables_len(tables);
        assert(self.entries().len() == before.len() + total_functions(tables));
    }

    /// Creates a system without filters on the given interpreter.
    pub fn new(runtime: &'lua mlua::Lua) -> (r: Self)
        ensures
            r.entries() == Seq::<(String, mlua::RegistryKey)>::empty(),
            r.runtime() == *runtime,
            r.filters_on_runtime(),
    {
        let r = FilterSystem { runtime, filters: Vec::new() };
        proof {
            assert(r.entries() =~= Seq::<(String, mlua::RegistryKey)>::empty());
        }
        r
    }

    /// Compiles each script source in turn and appends, for every entry of
    /// the table it returns whose value is a function, a filter named after
    /// the entry's key. Entries that hold no function are skipped. If any
    /// script fails, no filter is added.
    pub fn load(&mut self, sources: Vec<String>) -> (r: Result<(), FilterError>)
        requires
            old(self).filters_on_runtime(),
        ensures
            final(self).runtime() == old(self).runtime(),
            final(self).filters_on_runtime(),
            match r {
                Ok(()) => final(self).loaded_from(old(self).entries(), sources@),
                Err(_) => final(self).entries() == old(self).entries(),
            },
            sources@.len() == 0 ==> r is Ok,
    {
        let mut added: Vec<Filter<'lua, T>> = Vec::new();
        let ghost mut tables: Seq<Seq<(String, Option<mlua::RegistryKey>)>> = Seq::empty();
        let mut i: usize = 0;
        while i < sources.len()
            invariant
                i <= sources.len(),
                tables.len() == i,
                *self == *old(self),
                self.filters_on_runtime(),
                forall|j: int| 0 <= j < added@.len() ==> (#[trigger] added@[j]).interpreter()
                    == *self.runtime,
                added@.map_values(|f: Filter<'lua, T>| f.entry()) == tables.map_values(
                    |t: Seq<(String, Option<mlua::RegistryKey>)>| callables(t),
                ).flatten(),
            decreases sources.len() - i,
        {
            let classified = match module_functions(self.runtime, sources[i].as_str()) {
                Ok(entries) => entries,
                Err(e) => return Err(FilterError::Load(e)),
            };
            let ghost seen = classified@;
            let ghost old_added = added@;
            let mut found = exported_filters(self.runtime, classified);
            added.append(&mut found);
            proof {
                assert(added@.map_values(|f: Filter<'lua, T>| f.entry()) =~= old_added.map_values(
                    |f: Filter<'lua, T>| f.entry(),
                ) + callables(seen));
                let c = |t: Seq<(String, Option<mlua::RegistryKey>)>| callables(t);
                assert(tables.push(seen).map_values(c) =~= tables.map_values(c).push(callables(seen)));
                tables.map_values(c).lemma_flatten_push(callables(seen));
                tables = tables.push(seen);
            }
            i = i + 1;
        }
        let ghost old_filters = self.filters@;
        let ghost old_added = added@;
        self.filters.append(&mut added);
        proof {
            assert(self.filters@ == old_filters + old_added);
            assert(self.entries() =~= old(self).entries() + old_added.map_values(
                |f: Filter<'lua, T>| f.entry(),
            ));
            assert(self.loaded_from(old(self).entries(), sources@));
        }
        Ok(())
    }

    /// Runs every filter, in order, on one record, and keeps the record when
    /// at least one of them keeps it. Every filter runs, whatever the others
    /// answered; the first error ends the evaluation and is returned.
    pub fn filter_one(&self, value: T) -> (r: Result<bool, FilterError>)
        ensures
            match r {
                Ok(b) => exists|decisions: Seq<bool>|
                    decisions.len() == self.entries().len() && b == any_true(decisions),
                Err(_) => true,
            },
            self.entries().len() == 0 ==> r == Ok::<bool, FilterError>(false),
    {
        let mut decisions: Vec<bool> = Vec::new();
        let mut i: usize = 0;
        while i < self.filters.len()
            invariant
                i <= self.filters.len(),
                decisions@.len() == i,
            decreases self.filters.len() - i,
        {
            let d = self.filters[i].filter(value.clone())?;
            decisions.push(d);
            i = i + 1;
        }
        let r = any_kept(&decisions);
        proof {
            assert(self.entries().len() == self.filters@.len());
            if self.filters@.len() == 0 {
                assert(!any_true(decisions@));
            }
        }
        Ok(r)
    }

    /// Keeps the records that the system keeps, in their original order. The
    /// first error ends the batch and is returned, with no partial result.
    pub fn filter(&self, values: Vec<T>) -> (r: Result<Vec<T>, FilterError>)
        ensures
            match r {
                Ok(out) => exists|keep: Seq<bool>|
                    keep.len() == values@.len() && out@ == kept(values@, keep),
                Err(_) => true,
            },
            self.entries().len() == 0 ==> (r matches Ok(out) && out@.len() == 0),
            values@.len() == 0 ==> (r matches Ok(out) && out@.len() == 0),
    {
        let mut keep: Vec<bool> = Vec::new();
        let mut i: usize = 0;
        while i < values.len()
            invariant
                i <= values.len(),
                keep@.len() == i,
                self.entries().len() == 0 ==> forall|j: int| 0 <= j < i ==> !#[trigger] keep@[j],
            decreases values.len() - i,
        {
            let k = self.filter_one(values[i].clone())?;
            keep.push(k);
            i = i + 1;
        }
        let ghost all = values@;
        let out = retain_kept(values, &keep);
        proof {
            if self.entries().len() == 0 || all.len() == 0 {
                lemma_kept_none(all, keep@);
            }
        }
        Ok(out)
    }

    /// The filters of the system, in the order in which they were loaded.
    pub fn filters(&self) -> (r: &Vec<Filter<'lua, T>>)
        ensures
            r@.map_values(|f: Filter<'lua, T>| f.entry()) == self.entries(),
            self.filters_on_runtime() ==> forall|j: int|
                0 <= j < r@.len() ==> (#[trigger] r@[j]).interpreter() == self.runtime(),
    {
        &self.filters
    }
}

} // verus!
