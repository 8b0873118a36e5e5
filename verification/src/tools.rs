//! Tools that an agent may call, and the registry that holds them.

use crate::completion::{definition_models, ToolDefinition, ToolDefinitionModel};
use crate::text::{same_text, texts};
use serde_json::Value;
use vstd::prelude::*;

verus! {

/// A capability that an agent may invoke in the middle of a conversation.
///
/// The library makes no assumption about what an implementation returns.
pub trait Tool {
    /// The name by which the backend asks for the tool.
    fn name(&self) -> String;

    /// What the tool does.
    fn description(&self) -> String;

    /// The definition that is advertised to the backend.
    fn definition(&self) -> ToolDefinition;

    /// Runs the tool. An error is given as its cause in words.
    fn call(&self, args: Value) -> Result<Value, String>;
}

/// A registered tool, under the name and with the definition that it was
/// registered with.
pub struct ToolEntry<T> {
    pub name: String,
    pub definition: ToolDefinition,
    pub tool: T,
}

/// What the registry knows of an entry without asking the tool.
pub struct EntryModel {
    pub name: Seq<char>,
    pub definition: ToolDefinitionModel,
}

/// An ordered collection of tools, looked up by name.
pub struct ToolRegistry<T> {
    entries: Vec<ToolEntry<T>>,
}

/// Whether an allow-list lets a name through: every name passes where there is
/// no list.
pub open spec fn permits(allowed: Option<Seq<Seq<char>>>, name: Seq<char>) -> bool {
    match allowed {
        Some(list) => list.contains(name),
        None => true,
    }
}

/// The allow-list as plain values.
pub open spec fn allow_list(allowed: Option<Vec<String>>) -> Option<Seq<Seq<char>>> {
    match allowed {
        Some(list) => Some(texts(list@)),
        None => None,
    }
}

/// The names of the entries, in order.
pub open spec fn names_of(entries: Seq<EntryModel>) -> Seq<Seq<char>> {
    Seq::new(entries.len(), |i: int| entries[i].name)
}

/// Whether `i` is the first entry of the given name.
pub open spec fn first_of_name(entries: Seq<EntryModel>, name: Seq<char>, i: int) -> bool {
    &&& 0 <= i < entries.len()
    &&& entries[i].name == name
    &&& forall|j: int| 0 <= j < i ==> entries[j].name != name
}

/// Whether a call of the given name can be served: the allow-list permits the
/// name and an entry has it.
pub open spec fn offers(
    entries: Seq<EntryModel>,
    allowed: Option<Seq<Seq<char>>>,
    name: Seq<char>,
) -> bool {
    permits(allowed, name) && names_of(entries).contains(name)
}

/// The definitions that are advertised to the backend: those of the entries
/// whose name the allow-list permits, in registry order.
pub open spec fn advertised(
    entries: Seq<EntryModel>,
    allowed: Option<Seq<Seq<char>>>,
) -> Seq<ToolDefinitionModel>
    decreases entries.len(),
{
    if entries.len() == 0 {
        Seq::empty()
    } else if permits(allowed, entries.last().name) {
        advertised(entries.drop_last(), allowed).push(entries.last().definition)
    } else {
        advertised(entries.drop_last(), allowed)
    }
}

/// Whether the allow-list lets the name through.
pub fn permitted(allowed: &Option<Vec<String>>, name: &str) -> (r: bool)
    ensures
        r == permits(allow_list(*allowed), name@),
{
    match allowed {
        None => true,
        Some(list) => {
            let mut i: usize = 0;
            while i < list.len()
                invariant
                    i <= list.len(),
                    allow_list(*allowed) == Some(texts(list@)),
                    forall|j: int| 0 <= j < i ==> texts(list@)[j] != name@,
                decreases list.len() - i,
            {
                if same_text(list[i].as_str(), name) {
                    proof {
                        assert(texts(list@)[i as int] == name@);
                    }
                    return true;
                }
                i += 1;
            }
            false
        },
    }
}

impl<T> ToolRegistry<T> {
    /// The entries of the registry, in the order of registration.
    pub closed spec fn model(&self) -> Seq<EntryModel> {
        Seq::new(
            self.entries@.len(),
            |i: int|
                EntryModel { name: self.entries@[i].name@, definition: self.entries@[i].definition@ },
        )
    }

    /// The tools of the registry, in the order of registration.
    pub closed spec fn tools(&self) -> Seq<T> {
        Seq::new(self.entries@.len(), |i: int| self.entries@[i].tool)
    }

    /// A registry without tools.
    pub fn new() -> (r: Self)
        ensures
            r.model() == Seq::<EntryModel>::empty(),
    {
        let r = ToolRegistry { entries: Vec::new() };
        proof {
            assert(r.model() =~= Seq::<EntryModel>::empty());
        }
        r
    }

    /// Adds a tool at the end, under the given name and definition.
    pub fn register_as(&mut self, name: String, definition: ToolDefinition, tool: T)
        ensures
            final(self).model() == old(self).model().push(
                EntryModel { name: name@, definition: definition@ },
            ),
            final(self).tools() == old(self).tools().push(tool),
    {
        self.entries.push(ToolEntry { name, definition, tool });
        proof {
            assert(final(self).model() =~= old(self).model().push(
                EntryModel { name: name@, definition: definition@ },
            ));
            assert(final(self).tools() =~= old(self).tools().push(tool));
        }
    }

    /// The number of tools.
    pub fn len(&self) -> (n: usize)
        ensures
            n == self.model().len(),
    {
        self.entries.len()
    }

    /// The entry at the given position.
    pub fn entry(&self, i: usize) -> (e: &ToolEntry<T>)
        requires
            i < self.model().len(),
        ensures
            e.name@ == self.model()[i as int].name,
            e.definition@ == self.model()[i as int].definition,
            e.tool == self.tools()[i as int],
    {
        &self.entries[i]
    }

    /// Looks a tool up by its exact name among those that the allow-list
    /// permits. Where several entries have the name, the first one is found.
    pub fn find(&self, name: &str, allowed: &Option<Vec<String>>) -> (r: Option<usize>)
        ensures
            match r {
                Some(i) => permits(allow_list(*allowed), name@) && first_of_name(
                    self.model(),
                    name@,
                    i as int,
                ),
                None => !offers(self.model(), allow_list(*allowed), name@),
            },
    {
        if !permitted(allowed, name) {
            return None;
        }
        let mut i: usize = 0;
        while i < self.entries.len()
            invariant
                i <= self.entries.len(),
                permits(allow_list(*allowed), name@),
                forall|j: int| 0 <= j < i ==> self.model()[j].name != name@,
            decreases self.entries.len() - i,
        {
            if same_text(self.entries[i].name.as_str(), name) {
                proof {
                    assert(self.model()[i as int].name == name@);
                }
                return Some(i);
            }
            i += 1;
        }
        proof {
            assert forall|j: int| 0 <= j < names_of(self.model()).len() implies names_of(
                self.model(),
            )[j] != name@ by {
                assert(names_of(self.model())[j] == self.model()[j].name);
            }
        }
        None
    }

    /// The definitions to advertise to the backend under the given allow-list.
    pub fn definitions(&self, allowed: &Option<Vec<String>>) -> (r: Vec<ToolDefinition>)
        ensures
            definition_models(r@) == advertised(self.model(), allow_list(*allowed)),
    {
        let mut r: Vec<ToolDefinition> = Vec::new();
        let mut i: usize = 0;
        proof {
            assert(self.model().take(0) =~= Seq::<EntryModel>::empty());
            assert(definition_models(r@) =~= Seq::<ToolDefinitionModel>::empty());
        }
        while i < self.entries.len()
            invariant
                i <= self.entries.len(),
                definition_models(r@) == advertised(
                    self.model().take(i as int),
                    allow_list(*allowed),
                ),
            decreases self.entries.len() - i,
        {
            let ghost before = definition_models(r@);
            proof {
                assert(self.model().take(i + 1).drop_last() =~= self.model().take(i as int));
                assert(self.model().take(i + 1).last() == self.model()[i as int]);
            }
            if permitted(allowed, self.entries[i].name.as_str()) {
                let d = self.entries[i].definition.clone();
                r.push(d);
                proof {
                    assert(definition_models(r@) =~= before.push(d@));
                }
            }
            i += 1;
        }
        proof {
            assert(self.model().take(self.entries.len() as int) =~= self.model());
        }
        r
    }

    /// Whether no two tools have the same name. Names that collide are a
    /// configuration error: the later tool can never be found.
    pub fn has_unique_names(&self) -> (r: bool)
        ensures
            r == names_of(self.model()).no_duplicates(),
    {
        let mut i: usize = 0;
        while i < self.entries.len()
            invariant
                i <= self.entries.len(),
                forall|a: int, b: int|
                    0 <= a < b < i ==> names_of(self.model())[a] != names_of(self.model())[b],
            decreases self.entries.len() - i,
        {
            let mut j: usize = 0;
            while j < i
                invariant
                    j <= i < self.entries.len(),
                    forall|a: int|
                        0 <= a < j ==> names_of(self.model())[a] != names_of(self.model())[i as int],
                decreases i - j,
            {
                if same_text(self.entries[j].name.as_str(), self.entries[i].name.as_str()) {
                    proof {
                        assert(names_of(self.model())[j as int] == names_of(
                            self.model(),
                        )[i as int]);
                    }
                    return false;
                }
                j += 1;
            }
            i += 1;
        }
        true
    }
}

impl<T: Tool> ToolRegistry<T> {
    /// Adds a tool at the end, under the name and the definition that it gives
    /// of itself when it is registered.
    pub fn register(&mut self, tool: T)
        ensures
            final(self).model().len() == old(self).model().len() + 1,
            final(self).model().drop_last() == old(self).model(),
            final(self).tools() == old(self).tools().push(tool),
    {
        let name = tool.name();
        let definition = tool.definition();
        self.register_as(name, definition, tool);
        proof {
            assert(final(self).model().drop_last() =~= old(self).model());
        }
    }
}

} // verus!
