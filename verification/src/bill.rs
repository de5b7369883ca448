//! Bills and the categories that a bill can be filed under.
//!
//! The set of category names is fixed at start-up and handed to whoever needs
//! it as a `CategoryNames` table. A `Category` is a position in that table.

use crate::text::str_eq;
use vstd::prelude::*;
use vstd::string::*;

verus! {

/// The outcome of one job: what was bought, for how much, and in which category.
#[derive(Debug, PartialEq, Eq)]
pub struct Bill {
    pub notes: String,
    /// The amount as the bit pattern of an IEEE 754 single-precision number.
    pub amount_bits: u32,
    pub category: Option<Category>,
}

impl Clone for Bill {
    fn clone(&self) -> (out: Self)
        ensures
            out == *self,
    {
        Bill {
            notes: self.notes.clone(),
            amount_bits: self.amount_bits,
            category: match self.category {
                Some(c) => Some(c),
                None => None,
            },
        }
    }
}

/// A position in the table of category names.
#[derive(Debug, Clone, Copy, PartialEq, Eq, Structural)]
pub struct Category(usize);

/// The category names of this run, in the order in which they were given.
#[derive(Debug)]
pub struct CategoryNames {
    names: Vec<String>,
}

impl View for CategoryNames {
    type V = Seq<Seq<char>>;

    closed spec fn view(&self) -> Seq<Seq<char>> {
        Seq::new(self.names@.len(), |i: int| self.names@[i]@)
    }
}

/// The names in a row, each with `prefix` in front of it, and `separator`
/// between one and the next.
pub open spec fn joined(names: Seq<Seq<char>>, prefix: Seq<char>, separator: Seq<char>) -> Seq<char>
    decreases names.len(),
{
    if names.len() == 0 {
        Seq::empty()
    } else if names.len() == 1 {
        prefix + names[0]
    } else {
        joined(names.drop_last(), prefix, separator) + separator + prefix + names.last()
    }
}

impl CategoryNames {
    /// The names in a row, each with `prefix` in front of it, and
    /// `separator` between one and the next.
    pub fn join(&self, prefix: &str, separator: &str) -> (out: String)
        ensures
            out@ == joined(self@, prefix@, separator@),
    {
        let n = self.names.len();
        let mut out = String::new();
        let mut i: usize = 0;
        while i < n
            invariant
                n == self.names@.len(),
                n == self@.len(),
                i <= n,
                out@ == joined(self@.take(i as int), prefix@, separator@),
            decreases n - i,
        {
            let ghost before = self@.take(i as int);
            let ghost now = self@.take(i as int + 1);
            assert(now.drop_last() =~= before);
            assert(now.last() == self.names@[i as int]@);
            if i > 0 {
                out.append(separator);
            }
            out.append(prefix);
            out.append(self.names[i].as_str());
            assert(out@ =~= joined(now, prefix@, separator@));
            i += 1;
        }
        assert(self@.take(n as int) =~= self@);
        out
    }

    /// The names as a bulleted list, one line for each: `- name`.
    pub fn bullets(&self) -> (out: String)
        ensures
            out@ == joined(self@, "- "@, "\n"@),
    {
        self.join("- ", "\n")
    }

    /// The names as alternatives of a grammar: `name|name|name`.
    pub fn alternatives(&self) -> (out: String)
        ensures
            out@ == joined(self@, ""@, "|"@),
    {
        self.join("", "|")
    }

    /// How many names the table holds.
    pub fn len(&self) -> (n: usize)
        ensures
            n == self@.len(),
    {
        self.names.len()
    }
}

impl Category {
    /// The position of this category in its table.
    pub closed spec fn index(&self) -> nat {
        self.0 as nat
    }

    /// Whether this category is a position of `table`.
    pub open spec fn belongs_to(&self, table: &CategoryNames) -> bool {
        self.index() < table@.len()
    }

    /// Two categories at the same position are the same category.
    pub proof fn lemma_index_decides(a: Category, b: Category)
        ensures
            a.index() == b.index() <==> a == b,
    {
    }

    /// The position of this category in its table.
    pub fn position(&self) -> (i: usize)
        ensures
            i == self.index(),
    {
        self.0
    }

    /// Builds the table of category names; the names keep their order.
    pub fn load_from_names(names: Vec<String>) -> (table: CategoryNames)
        ensures
            table@.len() == names@.len(),
            forall|i: int| 0 <= i < names@.len() ==> table@[i] == (#[trigger] names@[i])@,
    {
        CategoryNames { names }
    }

    /// The name under which this category was registered.
    pub fn name(&self, table: &CategoryNames) -> (out: String)
        requires
            self.belongs_to(table),
        ensures
            out@ == table@[self.index() as int],
    {
        table.names[self.0].clone()
    }

    /// Every category of the table, in table order.
    pub fn all_cases(table: &CategoryNames) -> (all: Vec<Category>)
        ensures
            all@.len() == table@.len(),
            forall|i: int| 0 <= i < all@.len() ==> (#[trigger] all@[i]).index() == i,
    {
        let n = table.names.len();
        let mut all: Vec<Category> = Vec::with_capacity(n);
        let mut i: usize = 0;
        while i < n
            invariant
                n == table.names@.len(),
                i <= n,
                all@.len() == i,
                forall|k: int| 0 <= k < i ==> (#[trigger] all@[k]).index() == k,
            decreases n - i,
        {
            all.push(Category(i));
            i += 1;
        }
        all
    }

    /// The category registered under `name`: the first position of the table
    /// that holds it, or `None` if no position does.
    pub fn from_name(table: &CategoryNames, name: &str) -> (found: Option<Category>)
        ensures
            match found {
                Some(c) => {
                    &&& c.belongs_to(table)
                    &&& table@[c.index() as int] == name@
                    &&& forall|j: int| 0 <= j < c.index() ==> table@[j] != name@
                },
                None => forall|i: int| 0 <= i < table@.len() ==> table@[i] != name@,
            },
    {
        let n = table.names.len();
        let mut i: usize = 0;
        while i < n
            invariant
                n == table.names@.len(),
                n == table@.len(),
                i <= n,
                forall|k: int| 0 <= k < i ==> table@[k] != name@,
            decreases n - i,
        {
            if str_eq(table.names[i].as_str(), name) {
                assert(table@[i as int] == name@);
                return Some(Category(i));
            }
            i += 1;
        }
        None
    }
}

} // verus!
