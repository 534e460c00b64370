//! The heap: an arena of objects under handles that are issued once.

use std::collections::HashMap;
use vstd::prelude::*;
use vstd::std_specs::hash::*;
use crate::chunk::{Chunk, ChunkView};

verus! {

broadcast use vstd::std_specs::hash::group_hash_axioms;

/// What a function object holds.
pub struct FunctionView {
    pub arity: usize,
    pub chunk: ChunkView,
    pub name: Seq<char>,
}

/// A function object: a chunk with a name and a number of parameters.
#[derive(Debug)]
pub struct ObjFunction {
    pub arity: usize,
    pub chunk: Chunk,
    pub name: String,
}

impl View for ObjFunction {
    type V = FunctionView;

    open spec fn view(&self) -> FunctionView {
        FunctionView { arity: self.arity, chunk: self.chunk@, name: self.name@ }
    }
}

impl ObjFunction {
    /// A function without a name, parameters or code.
    pub fn new() -> (f: ObjFunction)
        ensures
            f@.arity == 0,
            f@.name == Seq::<char>::empty(),
            f@.chunk.code.len() == 0,
            f@.chunk.constants.len() == 0,
    {
        ObjFunction { arity: 0, chunk: Chunk::new(), name: String::new() }
    }

    /// A function with the given name and neither parameters nor code.
    pub fn with_name(name: String) -> (f: ObjFunction)
        ensures
            f@.arity == 0,
            f@.name == name@,
            f@.chunk.code.len() == 0,
            f@.chunk.constants.len() == 0,
    {
        ObjFunction { arity: 0, chunk: Chunk::new(), name }
    }

    /// The code of the function.
    pub fn chunk(&self) -> (c: &Chunk)
        ensures
            *c == self.chunk,
    {
        &self.chunk
    }

    /// The code of the function, to change it.
    pub fn chunk_mut(&mut self) -> (c: &mut Chunk)
        ensures
            *c == old(self).chunk,
            final(self).chunk == *final(c),
            final(self).arity == old(self).arity,
            final(self).name == old(self).name,
    {
        &mut self.chunk
    }

    /// Replaces the code of the function.
    pub fn set_chunk(&mut self, chunk: Chunk)
        ensures
            final(self).chunk == chunk,
            final(self).arity == old(self).arity,
            final(self).name == old(self).name,
    {
        self.chunk = chunk;
    }

    /// The name of the function.
    pub fn name(&self) -> (n: &String)
        ensures
            *n == self.name,
    {
        &self.name
    }

    /// Renames the function.
    pub fn set_name(&mut self, name: String)
        ensures
            final(self).name == name,
            final(self).arity == old(self).arity,
            final(self).chunk == old(self).chunk,
    {
        self.name = name;
    }
}

/// What an object on the heap is: a string's text, or a function.
pub enum Object {
    Text(Seq<char>),
    Function(FunctionView),
}

impl Object {
    /// The text that stands for the object: a string's characters, a
    /// function's name.
    pub open spec fn label(self) -> Seq<char> {
        match self {
            Object::Text(s) => s,
            Object::Function(f) => f.name,
        }
    }
}

/// The payload of an object on the heap.
#[derive(Debug)]
pub enum HeapData {
    String(String),
    ObjFunction(ObjFunction),
}

impl View for HeapData {
    type V = Object;

    open spec fn view(&self) -> Object {
        match self {
            HeapData::String(s) => Object::Text(s@),
            HeapData::ObjFunction(f) => Object::Function(f@),
        }
    }
}

impl HeapData {
    /// The text that stands for the object.
    pub fn as_string(&self) -> (s: &String)
        ensures
            s@ == self@.label(),
    {
        match self {
            HeapData::String(s) => s,
            HeapData::ObjFunction(f) => &f.name,
        }
    }
}

/// What the heap keeps for one handle.
pub struct Entry {
    pub marked: bool,
    pub data: Object,
}

/// An object on the heap with its mark bit.
#[derive(Debug)]
pub struct HeapVal {
    marked: bool,
    data: HeapData,
}

impl View for HeapVal {
    type V = Entry;

    closed spec fn view(&self) -> Entry {
        Entry { marked: self.marked, data: self.data@ }
    }
}

impl HeapVal {
    /// Wraps a payload, unmarked.
    pub fn new(data: HeapData) -> (val: HeapVal)
        ensures
            val@ == (Entry { marked: false, data: data@ }),
    {
        HeapVal { marked: false, data }
    }

    /// Whether the mark bit is set.
    pub fn is_marked(&self) -> (m: bool)
        ensures
            m == self@.marked,
    {
        self.marked
    }

    /// The payload.
    pub fn data(&self) -> (d: &HeapData)
        ensures
            d@ == self@.data,
    {
        &self.data
    }
}

/// What the heap holds: an entry for each live handle, and the handle that
/// the next allocation will issue.
pub struct HeapView {
    pub entries: Map<usize, Entry>,
    pub next_id: usize,
}

impl HeapView {
    /// Every live handle lies below the next one to issue, so that no handle
    /// is issued twice. Every heap that `Heap::new` made has this.
    pub open spec fn well_formed(self) -> bool {
        forall|id: usize| #[trigger] self.entries.contains_key(id) ==> id < self.next_id
    }

    /// Whether the handle is live.
    pub open spec fn resolves(self, id: usize) -> bool {
        self.entries.contains_key(id)
    }

    /// Whether the handle is live and names a string.
    pub open spec fn is_text(self, id: usize) -> bool {
        self.entries.contains_key(id) && self.entries[id].data is Text
    }

    /// The heap after an allocation of `data`.
    pub open spec fn allocate(self, data: Object) -> HeapView {
        HeapView {
            entries: self.entries.insert(self.next_id, Entry { marked: false, data }),
            next_id: (self.next_id + 1) as usize,
        }
    }

    /// The heap without the handle `id`.
    pub open spec fn free(self, id: usize) -> HeapView {
        HeapView { entries: self.entries.remove(id), next_id: self.next_id }
    }

    /// The heap with the object at `id`, if there is one, marked.
    pub open spec fn mark(self, id: usize) -> HeapView {
        if self.entries.contains_key(id) {
            HeapView {
                entries: self.entries.insert(
                    id,
                    Entry { marked: true, data: self.entries[id].data },
                ),
                next_id: self.next_id,
            }
        } else {
            self
        }
    }

    /// Whether every live handle of this heap is live in `other` and names the
    /// same object there, and `other` issues no handle that this heap issued.
    pub open spec fn extended_by(self, other: HeapView) -> bool {
        &&& self.next_id <= other.next_id
        &&& forall|id: usize| #[trigger]
            self.entries.contains_key(id) ==> other.entries.contains_key(id) && other.entries[id]
                == self.entries[id]
    }
}

/// An arena of objects, each under a handle that is issued once. Handles
/// count up from zero.
pub struct Heap {
    bytes_allocated: usize,
    next_gc: usize,
    id_counter: usize,
    values: HashMap<usize, HeapVal>,
}

impl View for Heap {
    type V = HeapView;

    closed spec fn view(&self) -> HeapView {
        HeapView {
            entries: Map::new(
                |id: usize| self.values@.contains_key(id),
                |id: usize| self.values@[id]@,
            ),
            next_id: self.id_counter,
        }
    }
}

impl Heap {
    /// An empty heap, whose first handle will be 0.
    pub fn new() -> (heap: Heap)
        ensures
            heap@.entries == Map::<usize, Entry>::empty(),
            heap@.next_id == 0,
            heap@.well_formed(),
    {
        let heap = Heap {
            bytes_allocated: 0,
            next_gc: 1024 * 1024,
            id_counter: 0,
            values: HashMap::new(),
        };
        assert(heap@.entries =~= Map::<usize, Entry>::empty());
        heap
    }

    /// Whether every handle has been issued.
    pub fn is_full(&self) -> (full: bool)
        ensures
            full == (self@.next_id == usize::MAX),
    {
        self.id_counter == usize::MAX
    }

    /// Stores `data` under a handle that was never issued before.
    pub fn allocate(&mut self, data: HeapData) -> (id: usize)
        requires
            old(self)@.next_id < usize::MAX,
        ensures
            id == old(self)@.next_id,
            final(self)@ == old(self)@.allocate(data@),
            old(self)@.well_formed() ==> !old(self)@.resolves(id) && final(self)@.well_formed(),
    {
        let id = self.id_counter;
        let val = HeapVal { marked: false, data };
        let ghost entry = val@;
        self.values.insert(id, val);
        self.id_counter = id + 1;
        assert(self@.entries =~= old(self)@.entries.insert(id, entry));
        id
    }

    /// Removes the object under `id`, if there is one.
    pub fn free(&mut self, id: usize)
        ensures
            final(self)@ == old(self)@.free(id),
            old(self)@.well_formed() ==> final(self)@.well_formed(),
    {
        self.values.remove(&id);
        assert(self@.entries =~= old(self)@.entries.remove(id));
    }

    /// The object under `id`, if the handle is live.
    pub fn get(&self, id: &usize) -> (data: Option<&HeapData>)
        ensures
            data is Some <==> self@.resolves(*id),
            data is Some ==> data->0@ == self@.entries[*id].data,
    {
        if let Some(val) = self.values.get(id) {
            Some(&val.data)
        } else {
            None
        }
    }

    /// All live objects by handle.
    pub fn get_all(&self) -> (all: &HashMap<usize, HeapVal>)
        ensures
            forall|id: usize| all@.contains_key(id) <==> self@.resolves(id),
            forall|id: usize| #[trigger] all@.contains_key(id) ==> all@[id]@ == self@.entries[id],
    {
        &self.values
    }

    /// Sets the mark bit of the object under `id`, if there is one.
    pub fn mark(&mut self, id: usize)
        ensures
            final(self)@ == old(self)@.mark(id),
            old(self)@.well_formed() ==> final(self)@.well_formed(),
    {
        if let Some(val) = self.values.remove(&id) {
            let marked = HeapVal { marked: true, data: val.data };
            let ghost entry = marked@;
            self.values.insert(id, marked);
            assert(self@.entries =~= old(self)@.entries.insert(id, entry));
        } else {
            assert(self@.entries =~= old(self)@.entries);
        }
    }
}

} // verus!
