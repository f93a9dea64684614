//! The schema registry: which dotted paths of a dataset hold arrays, objects
//! or plain values.

use vstd::prelude::*;
use crate::text::same_text;

verus! {

/// What a schema says a path holds.
#[derive(Clone, Copy, Debug, PartialEq, Eq, Structural)]
pub enum FieldType {
    Array,
    Object,
    Value,
}

/// One row of a schema: a dotted path and what it holds.
pub struct SchemaEntry {
    pub path: String,
    pub kind: FieldType,
}

/// A read-only table from dotted path to kind.
pub struct Schema {
    entries: Vec<SchemaEntry>,
}

/// The kind that `rows` gives `path`: that of the last row for it, `None`
/// where no row names it.
pub open spec fn kind_in(rows: Seq<(Seq<char>, FieldType)>, path: Seq<char>) -> Option<FieldType>
    decreases rows.len(),
{
    if rows.len() == 0 {
        None
    } else if rows.last().0 == path {
        Some(rows.last().1)
    } else {
        kind_in(rows.drop_last(), path)
    }
}

/// Whether `rows` declares `path` an array.
pub open spec fn array_in(rows: Seq<(Seq<char>, FieldType)>, path: Seq<char>) -> bool {
    kind_in(rows, path) == Some(FieldType::Array)
}

impl View for Schema {
    type V = Seq<(Seq<char>, FieldType)>;

    closed spec fn view(&self) -> Seq<(Seq<char>, FieldType)> {
        Seq::new(self.entries@.len(), |i: int| (self.entries@[i].path@, self.entries@[i].kind))
    }
}

impl Schema {
    /// The schema without rows.
    pub fn new() -> (s: Schema)
        ensures
            s@ == Seq::<(Seq<char>, FieldType)>::empty(),
    {
        let s = Schema { entries: Vec::new() };
        assert(s@ =~= Seq::empty());
        s
    }

    /// Adds the row `path -> kind`; it overrides earlier rows for `path`.
    pub fn declare(&mut self, path: &str, kind: FieldType)
        ensures
            final(self)@ == old(self)@.push((path@, kind)),
    {
        self.entries.push(SchemaEntry { path: path.to_owned(), kind });
        assert(self@ =~= old(self)@.push((path@, kind)));
    }

    /// Number of rows.
    pub fn len(&self) -> (n: usize)
        ensures
            n == self@.len(),
    {
        self.entries.len()
    }

    /// The kind of `path`, `None` where the schema does not name it.
    pub fn kind_of(&self, path: &str) -> (r: Option<FieldType>)
        ensures
            r == kind_in(self@, path@),
    {
        let mut i: usize = self.entries.len();
        assert(self@.take(i as int) =~= self@);
        while i > 0
            invariant
                i <= self.entries.len(),
                kind_in(self@, path@) == kind_in(self@.take(i as int), path@),
            decreases i,
        {
            i -= 1;
            proof {
                assert(self@.take(i + 1).drop_last() =~= self@.take(i as int));
                assert(self@.take(i + 1).last() == self@[i as int]);
            }
            if same_text(self.entries[i].path.as_str(), path) {
                return Some(self.entries[i].kind);
            }
        }
        assert(self@.take(0).len() == 0);
        None
    }

    /// Whether the schema declares `path` an array; a path that it does not
    /// name is none.
    pub fn is_array(&self, path: &str) -> (r: bool)
        ensures
            r == array_in(self@, path@),
    {
        match self.kind_of(path) {
            Some(FieldType::Array) => true,
            _ => false,
        }
    }
}

} // verus!
