use vstd::prelude::*;

verus! {

/// Bytes of a pointer-sized word in the layouts below.
pub const WORD: u32 = 8;

/// Bytes of a table definition: base pointer and element count, padded.
pub const TABLE_DEFINITION_SIZE: u32 = 16;

/// Bytes of a global's storage.
pub const GLOBAL_DEFINITION_SIZE: u32 = 16;

/// Bytes of a memory definition: address space id, base pointer, length.
pub const MEMORY_DEFINITION_SIZE: u32 = 24;

/// Bytes of a function import, which holds nothing yet.
pub const FUNCTION_IMPORT_SIZE: u32 = 0;

/// Bytes of a table import: definition pointer and context pointer.
pub const TABLE_IMPORT_SIZE: u32 = 16;

/// Bytes of a memory import: two pointers and the memory's index, padded.
pub const MEMORY_IMPORT_SIZE: u32 = 24;

/// Bytes of a global import: the definition pointer.
pub const GLOBAL_IMPORT_SIZE: u32 = 8;

/// How many entities of each kind a module imports and defines.
#[derive(Debug, Clone, Copy, PartialEq, Eq, Structural)]
pub struct ModuleCounts {
    pub num_imported_funcs: u32,
    pub num_imported_tables: u32,
    pub num_imported_memories: u32,
    pub num_imported_globals: u32,
    pub num_defined_tables: u32,
    pub num_defined_memories: u32,
    pub num_owned_memories: u32,
    pub num_defined_globals: u32,
}

/// Offsets of the areas of an instance's context, laid out one after another:
/// magic word, builtins pointer, defined tables, defined globals, pointers to
/// defined memories, owned memories, then imported functions, tables, memories
/// and globals.
#[derive(Debug, Clone, Copy, PartialEq, Eq, Structural)]
pub struct VMContextOffsets {
    pub counts: ModuleCounts,
    pub ptr_size: u32,
    pub magic: u32,
    pub builtins_begin: u32,
    pub tables_begin: u32,
    pub globals_begin: u32,
    pub memories_begin: u32,
    pub owned_memories_begin: u32,
    pub imported_functions_begin: u32,
    pub imported_tables_begin: u32,
    pub imported_memories_begin: u32,
    pub imported_globals_begin: u32,
    pub size: u32,
}

/// Offset of each area, and the total size, as integers.
pub open spec fn layout(c: ModuleCounts, ptr: int) -> Seq<int> {
    let tables = WORD + ptr;
    let globals = tables + TABLE_DEFINITION_SIZE * c.num_defined_tables;
    let memories = globals + GLOBAL_DEFINITION_SIZE * c.num_defined_globals;
    let owned = memories + ptr * c.num_defined_memories;
    let funcs = owned + MEMORY_DEFINITION_SIZE * c.num_owned_memories;
    let itables = funcs + FUNCTION_IMPORT_SIZE * c.num_imported_funcs;
    let imems = itables + TABLE_IMPORT_SIZE * c.num_imported_tables;
    let iglobals = imems + MEMORY_IMPORT_SIZE * c.num_imported_memories;
    let size = iglobals + GLOBAL_IMPORT_SIZE * c.num_imported_globals;
    seq![0, WORD as int, tables, globals, memories, owned, funcs, itables, imems, iglobals, size]
}

impl VMContextOffsets {
    /// The offsets are those of `layout` for the counts and pointer size held.
    pub open spec fn wf(&self) -> bool {
        let l = layout(self.counts, self.ptr_size as int);
        &&& self.magic == l[0]
        &&& self.builtins_begin == l[1]
        &&& self.tables_begin == l[2]
        &&& self.globals_begin == l[3]
        &&& self.memories_begin == l[4]
        &&& self.owned_memories_begin == l[5]
        &&& self.imported_functions_begin == l[6]
        &&& self.imported_tables_begin == l[7]
        &&& self.imported_memories_begin == l[8]
        &&& self.imported_globals_begin == l[9]
        &&& self.size == l[10]
    }

    /// Lays out the context of an instance of a module with `counts`, for
    /// pointers of `ptr_size` bytes.
    pub fn new(counts: &ModuleCounts, ptr_size: u32) -> (r: Self)
        requires
            layout(*counts, ptr_size as int)[10] <= u32::MAX,
        ensures
            r.counts == *counts,
            r.ptr_size == ptr_size,
            r.wf(),
    {
        let c = *counts;
        proof {
            assert(ptr_size * c.num_defined_memories >= 0) by (nonlinear_arith)
                requires
                    ptr_size >= 0,
                    c.num_defined_memories >= 0,
            ;
        }
        let magic: u32 = 0;
        let builtins_begin: u32 = WORD;
        let tables_begin = builtins_begin + ptr_size;
        let globals_begin = tables_begin + TABLE_DEFINITION_SIZE * c.num_defined_tables;
        let memories_begin = globals_begin + GLOBAL_DEFINITION_SIZE * c.num_defined_globals;
        let owned_memories_begin = memories_begin + ptr_size * c.num_defined_memories;
        let imported_functions_begin = owned_memories_begin + MEMORY_DEFINITION_SIZE * c.num_owned_memories;
        let imported_tables_begin = imported_functions_begin + FUNCTION_IMPORT_SIZE * c.num_imported_funcs;
        let imported_memories_begin = imported_tables_begin + TABLE_IMPORT_SIZE * c.num_imported_tables;
        let imported_globals_begin = imported_memories_begin + MEMORY_IMPORT_SIZE * c.num_imported_memories;
        let size = imported_globals_begin + GLOBAL_IMPORT_SIZE * c.num_imported_globals;
        VMContextOffsets {
            counts: c,
            ptr_size,
            magic,
            builtins_begin,
            tables_begin,
            globals_begin,
            memories_begin,
            owned_memories_begin,
            imported_functions_begin,
            imported_tables_begin,
            imported_memories_begin,
            imported_globals_begin,
            size,
        }
    }

    /// Bytes of the whole context.
    pub fn size(&self) -> (r: u32)
        ensures
            r == self.size,
    {
        self.size
    }

    /// Offset of defined table `index`.
    pub fn vmtable_definition(&self, index: u32) -> (r: u32)
        requires
            index < self.counts.num_defined_tables,
            self.wf(),
        ensures
            r == self.tables_begin + index * TABLE_DEFINITION_SIZE,
    {
        self.tables_begin + index * TABLE_DEFINITION_SIZE
    }

    /// Offset of the pointer to defined memory `index`.
    pub fn vmmemory_pointer(&self, index: u32) -> (r: u32)
        requires
            index < self.counts.num_defined_memories,
            self.wf(),
        ensures
            r == self.memories_begin + index * self.ptr_size,
    {
        proof {
            assert(index * self.ptr_size <= self.ptr_size * self.counts.num_defined_memories) by (nonlinear_arith)
                requires
                    index < self.counts.num_defined_memories,
            ;
        }
        self.memories_begin + index * self.ptr_size
    }

    /// Offset of owned memory `index`.
    pub fn vmmemory_definition(&self, index: u32) -> (r: u32)
        requires
            index < self.counts.num_owned_memories,
            self.wf(),
        ensures
            r == self.owned_memories_begin + index * MEMORY_DEFINITION_SIZE,
    {
        self.owned_memories_begin + index * MEMORY_DEFINITION_SIZE
    }

    /// Offset of defined global `index`.
    pub fn vmglobal_definition(&self, index: u32) -> (r: u32)
        requires
            index < self.counts.num_defined_globals,
            self.wf(),
        ensures
            r == self.globals_begin + index * GLOBAL_DEFINITION_SIZE,
    {
        self.globals_begin + index * GLOBAL_DEFINITION_SIZE
    }

    /// Offset of imported table `index`.
    pub fn vmtable_import(&self, index: u32) -> (r: u32)
        requires
            index < self.counts.num_imported_tables,
            self.wf(),
        ensures
            r == self.imported_tables_begin + index * TABLE_IMPORT_SIZE,
    {
        self.imported_tables_begin + index * TABLE_IMPORT_SIZE
    }

    /// Offset of imported memory `index`.
    pub fn vmmemory_import(&self, index: u32) -> (r: u32)
        requires
            index < self.counts.num_imported_memories,
            self.wf(),
        ensures
            r == self.imported_memories_begin + index * MEMORY_IMPORT_SIZE,
    {
        self.imported_memories_begin + index * MEMORY_IMPORT_SIZE
    }

    /// Offset of imported global `index`.
    pub fn vmglobal_import(&self, index: u32) -> (r: u32)
        requires
            index < self.counts.num_imported_globals,
            self.wf(),
        ensures
            r == self.imported_globals_begin + index * GLOBAL_IMPORT_SIZE,
    {
        self.imported_globals_begin + index * GLOBAL_IMPORT_SIZE
    }
}

} // verus!
