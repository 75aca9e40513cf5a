use vstd::prelude::*;

verus! {

/// The fixed catalogue of logical tables.
#[derive(Clone, Copy, Debug, PartialEq, Eq, Structural)]
pub enum Table {
    Schemata,
    Bundles,
    Genesis,
    Transitions,
    Anchors,
    Extensions,
    AttachmentChunks,
    AttachmentIndex,
    AluLibraries,
}

/// Number of logical tables in the catalogue.
pub const TABLE_COUNT: usize = 9;

/// Position of a table in the catalogue.
pub open spec fn table_index(t: Table) -> nat {
    match t {
        Table::Schemata => 0,
        Table::Bundles => 1,
        Table::Genesis => 2,
        Table::Transitions => 3,
        Table::Anchors => 4,
        Table::Extensions => 5,
        Table::AttachmentChunks => 6,
        Table::AttachmentIndex => 7,
        Table::AluLibraries => 8,
    }
}

/// Name under which a table is registered with the storage backend.
pub open spec fn table_name(t: Table) -> Seq<char> {
    match t {
        Table::Schemata => "schemata"@,
        Table::Bundles => "bundles"@,
        Table::Genesis => "genesis"@,
        Table::Transitions => "transitions"@,
        Table::Anchors => "anchors"@,
        Table::Extensions => "extensions"@,
        Table::AttachmentChunks => "chunks"@,
        Table::AttachmentIndex => "attachments"@,
        Table::AluLibraries => "alu"@,
    }
}

/// The catalogue in registration order.
pub open spec fn catalogue() -> Seq<Table> {
    seq![
        Table::Schemata,
        Table::Bundles,
        Table::Genesis,
        Table::Transitions,
        Table::Anchors,
        Table::Extensions,
        Table::AttachmentChunks,
        Table::AttachmentIndex,
        Table::AluLibraries,
    ]
}

impl Table {
    /// The backend name of this table.
    pub fn name(&self) -> (r: &'static str)
        ensures
            r@ == table_name(*self),
    {
        match self {
            Table::Schemata => "schemata",
            Table::Bundles => "bundles",
            Table::Genesis => "genesis",
            Table::Transitions => "transitions",
            Table::Anchors => "anchors",
            Table::Extensions => "extensions",
            Table::AttachmentChunks => "chunks",
            Table::AttachmentIndex => "attachments",
            Table::AluLibraries => "alu",
        }
    }

    /// Every table of the catalogue, each once, in registration order.
    pub fn all() -> (r: Vec<Table>)
        ensures
            r@ == catalogue(),
            r@.len() == TABLE_COUNT,
            forall|t: Table| r@[table_index(t) as int] == t,
    {
        let r = vec![
            Table::Schemata,
            Table::Bundles,
            Table::Genesis,
            Table::Transitions,
            Table::Anchors,
            Table::Extensions,
            Table::AttachmentChunks,
            Table::AttachmentIndex,
            Table::AluLibraries,
        ];
        assert(r@ =~= catalogue());
        r
    }
}

/// Every table appears in the catalogue, at its own index.
pub proof fn lemma_catalogue_complete(t: Table)
    ensures
        catalogue().contains(t),
        (table_index(t) as int) < catalogue().len(),
        catalogue()[table_index(t) as int] == t,
{
    assert(catalogue()[table_index(t) as int] == t);
}

/// No two distinct tables share a backend name.
pub proof fn lemma_names_distinct(a: Table, b: Table)
    ensures
        a != b ==> table_name(a) != table_name(b),
{
    reveal_strlit("schemata");
    reveal_strlit("bundles");
    reveal_strlit("genesis");
    reveal_strlit("transitions");
    reveal_strlit("anchors");
    reveal_strlit("extensions");
    reveal_strlit("chunks");
    reveal_strlit("attachments");
    reveal_strlit("alu");
    if a != b {
        assert(table_name(a).len() != table_name(b).len() || table_name(a)[0] != table_name(b)[0]
            || table_name(a)[1] != table_name(b)[1]);
    }
}

} // verus!
