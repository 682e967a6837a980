//! The result mapping: class definitions keyed by their upper-cased name.
//!
//! The table is a vector of class definitions in insertion order; a name
//! occurs at most once (see `distinct_names`, which the parser's table
//! always satisfies).  The spec functions `table_put`, `table_remove` and
//! `table_inject` say what each operation does to the model, always acting
//! on the first occurrence of a name.

use vstd::prelude::*;

use crate::model::AttributeDef;
use crate::model::AttributeModel;
use crate::model::ClassDef;
use crate::model::ClassModel;

verus! {

/// The first index at or after `i` whose class is named `name`, or
/// `s.len()` when there is none.
pub open spec fn first_with_name(s: Seq<ClassModel>, name: Seq<char>, i: int) -> int
    decreases s.len() - i,
    when 0 <= i <= s.len()
{
    if i >= s.len() {
        s.len() as int
    } else if s[i].name == name {
        i
    } else {
        first_with_name(s, name, i + 1)
    }
}

/// The index of the first class named `name`, or `s.len()` when absent.
pub open spec fn name_index(s: Seq<ClassModel>, name: Seq<char>) -> int {
    first_with_name(s, name, 0)
}

/// Whether some class in `s` is named `name`.
pub open spec fn has_name(s: Seq<ClassModel>, name: Seq<char>) -> bool {
    name_index(s, name) < s.len()
}

/// The first class named `name`; meaningful only when `has_name` holds.
pub open spec fn table_at(s: Seq<ClassModel>, name: Seq<char>) -> ClassModel {
    s[name_index(s, name)]
}

/// Insert-or-replace keyed by `c.name`: replaces the first class of that
/// name in place, or appends `c` when the name is new.
pub open spec fn table_put(s: Seq<ClassModel>, c: ClassModel) -> Seq<ClassModel> {
    if has_name(s, c.name) {
        s.update(name_index(s, c.name), c)
    } else {
        s.push(c)
    }
}

/// Removes the first class named `name`; unchanged when absent.
pub open spec fn table_remove(s: Seq<ClassModel>, name: Seq<char>) -> Seq<ClassModel> {
    if has_name(s, name) {
        s.remove(name_index(s, name))
    } else {
        s
    }
}

/// `c` with one more attribute appended.
pub open spec fn with_attribute(c: ClassModel, a: AttributeModel) -> ClassModel {
    ClassModel { name: c.name, attributes: c.attributes.push(a), functions: c.functions }
}

/// Appends an attribute to the first class named `name`; unchanged when
/// absent.
pub open spec fn table_inject(s: Seq<ClassModel>, name: Seq<char>, a: AttributeModel) -> Seq<
    ClassModel,
> {
    if has_name(s, name) {
        s.update(name_index(s, name), with_attribute(table_at(s, name), a))
    } else {
        s
    }
}

/// No two classes share a name: the table really is a mapping.
pub open spec fn distinct_names(s: Seq<ClassModel>) -> bool {
    forall|i: int, j: int| 0 <= i < j < s.len() ==> s[i].name != s[j].name
}

/// What `first_with_name` finds: an index in range bearing the name, with
/// no earlier occurrence.
pub proof fn lemma_first_with_name(s: Seq<ClassModel>, name: Seq<char>, i: int)
    requires
        0 <= i <= s.len(),
    ensures
        i <= first_with_name(s, name, i) <= s.len(),
        first_with_name(s, name, i) < s.len() ==> s[first_with_name(s, name, i)].name == name,
        forall|j: int| i <= j < first_with_name(s, name, i) ==> s[j].name != name,
    decreases s.len() - i,
{
    if i < s.len() && s[i].name != name {
        lemma_first_with_name(s, name, i + 1);
    }
}

/// The result mapping from upper-cased class name to class definition.
#[derive(Debug, Clone, PartialEq, Eq)]
pub struct ClassTable {
    classes: Vec<ClassDef>,
}

impl View for ClassTable {
    type V = Seq<ClassModel>;

    closed spec fn view(&self) -> Seq<ClassModel> {
        self.classes.deep_view()
    }
}

impl ClassTable {
    /// An empty table.
    pub fn new() -> (r: ClassTable)
        ensures
            r@ == Seq::<ClassModel>::empty(),
    {
        let r = ClassTable { classes: Vec::new() };
        proof {
            assert(r@ =~= Seq::<ClassModel>::empty());
        }
        r
    }

    pub fn len(&self) -> (r: usize)
        ensures
            r == self@.len(),
    {
        self.classes.len()
    }

    /// The class definitions in insertion order.
    pub fn classes(&self) -> (r: &Vec<ClassDef>)
        ensures
            r.deep_view() == self@,
    {
        &self.classes
    }

    /// The index of the first class of the given name.
    fn find_index(&self, name: &String) -> (r: usize)
        ensures
            r == name_index(self@, name@),
    {
        let n = self.classes.len();
        let mut k: usize = 0;
        proof {
            assert(self@.len() == n);
        }
        while k < n
            invariant
                n == self@.len(),
                k <= n,
                name_index(self@, name@) == first_with_name(self@, name@, k as int),
            decreases n - k,
        {
            proof {
                assert(self@[k as int] == self.classes@[k as int].deep_view());
            }
            if self.classes[k].name == *name {
                proof {
                    assert(self@[k as int].name == name@);
                    assert(first_with_name(self@, name@, k as int) == k as int);
                }
                return k;
            }
            proof {
                assert(self@[k as int].name != name@);
                assert(first_with_name(self@, name@, k as int) == first_with_name(
                    self@,
                    name@,
                    k as int + 1,
                ));
            }
            k += 1;
        }
        proof {
            assert(first_with_name(self@, name@, n as int) == n as int);
        }
        n
    }

    /// Whether the table holds a class of the given name.
    pub fn contains_name(&self, name: &String) -> (r: bool)
        ensures
            r == has_name(self@, name@),
    {
        self.find_index(name) < self.classes.len()
    }

    /// A borrow of the class of the given name, when present.
    pub fn get(&self, name: &String) -> (r: Option<&ClassDef>)
        ensures
            match r {
                Some(c) => has_name(self@, name@) && c@ == table_at(self@, name@),
                None => !has_name(self@, name@),
            },
    {
        let i = self.find_index(name);
        if i < self.classes.len() {
            proof {
                assert(self@[i as int] == self.classes@[i as int].deep_view());
            }
            Some(&self.classes[i])
        } else {
            None
        }
    }

    /// Insert-or-replace keyed by the class's own name.
    pub fn put(&mut self, c: ClassDef)
        ensures
            final(self)@ == table_put(old(self)@, c@),
    {
        let i = self.find_index(&c.name);
        if i < self.classes.len() {
            self.classes.remove(i);
            self.classes.insert(i, c);
            proof {
                assert(final(self)@ =~= table_put(old(self)@, c@));
            }
        } else {
            self.classes.push(c);
            proof {
                assert(final(self)@ =~= table_put(old(self)@, c@));
            }
        }
    }

    /// Removes and returns the class of the given name, when present.
    pub fn remove_named(&mut self, name: &String) -> (r: Option<ClassDef>)
        ensures
            match r {
                Some(c) => {
                    &&& has_name(old(self)@, name@)
                    &&& c@ == table_at(old(self)@, name@)
                    &&& final(self)@ == table_remove(old(self)@, name@)
                },
                None => !has_name(old(self)@, name@) && final(self)@ == old(self)@,
            },
    {
        let i = self.find_index(name);
        if i < self.classes.len() {
            proof {
                assert(self@[i as int] == self.classes@[i as int].deep_view());
            }
            let c = self.classes.remove(i);
            proof {
                assert(final(self)@ =~= table_remove(old(self)@, name@));
            }
            Some(c)
        } else {
            None
        }
    }

    /// Appends an attribute to the class of the given name; reports whether
    /// the class was present.
    pub fn push_attribute(&mut self, name: &String, attr: AttributeDef) -> (r: bool)
        ensures
            final(self)@ == table_inject(old(self)@, name@, attr@),
            r == has_name(old(self)@, name@),
    {
        let i = self.find_index(name);
        if i < self.classes.len() {
            let mut c = self.classes.remove(i);
            c.attributes.push(attr);
            proof {
                assert(c@ =~~= with_attribute(table_at(old(self)@, name@), attr@));
            }
            self.classes.insert(i, c);
            proof {
                assert(final(self)@ =~= table_inject(old(self)@, name@, attr@));
            }
            true
        } else {
            false
        }
    }
}

} // verus!
