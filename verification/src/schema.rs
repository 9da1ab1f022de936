//! The schema as generation sees it: four tables of named types, one for each
//! category that has a structure of its own.
//!
//! A name that no table holds is a scalar, built in or custom, or was never
//! declared; generation treats both alike. Where a name stands in more than
//! one table, the tables are asked in the order enums, objects, interfaces,
//! unions, and the first that holds the name decides.

use crate::registry::{with_required, Entry, Registry};
use vstd::prelude::*;

verus! {

/// The category of a named type.
#[derive(Clone, Copy, Debug, PartialEq, Eq, Structural)]
pub enum TypeCategory {
    Enum,
    Object,
    Interface,
    Union,
    /// A scalar, or a name that the schema does not declare.
    Scalar,
}

/// The types of a schema, by category. Each type carries the flag that says
/// whether the query under generation reaches it.
pub struct Schema {
    pub enums: Registry<()>,
    pub objects: Registry<()>,
    pub interfaces: Registry<()>,
    pub unions: Registry<()>,
}

/// The mathematical value of a [`Schema`]: one map from names to flags for each category.
pub struct SchemaView {
    pub enums: Map<Seq<char>, Entry<()>>,
    pub objects: Map<Seq<char>, Entry<()>>,
    pub interfaces: Map<Seq<char>, Entry<()>>,
    pub unions: Map<Seq<char>, Entry<()>>,
}

impl SchemaView {
    /// The category of `name`: that of the first table that holds it.
    pub open spec fn category_of(self, name: Seq<char>) -> TypeCategory {
        if self.enums.contains_key(name) {
            TypeCategory::Enum
        } else if self.objects.contains_key(name) {
            TypeCategory::Object
        } else if self.interfaces.contains_key(name) {
            TypeCategory::Interface
        } else if self.unions.contains_key(name) {
            TypeCategory::Union
        } else {
            TypeCategory::Scalar
        }
    }

    /// The number of tables that hold `name`.
    pub open spec fn tables_holding(self, name: Seq<char>) -> nat {
        let e: nat = if self.enums.contains_key(name) { 1 } else { 0 };
        let o: nat = if self.objects.contains_key(name) { 1 } else { 0 };
        let i: nat = if self.interfaces.contains_key(name) { 1 } else { 0 };
        let u: nat = if self.unions.contains_key(name) { 1 } else { 0 };
        e + o + i + u
    }

    /// Whether no name stands in two tables.
    pub open spec fn disjoint(self) -> bool {
        forall|name: Seq<char>| #[trigger] self.tables_holding(name) <= 1
    }

    /// Whether the type named `name` is marked as reached.
    pub open spec fn is_required(self, name: Seq<char>) -> bool {
        match self.category_of(name) {
            TypeCategory::Enum => self.enums[name].required,
            TypeCategory::Object => self.objects[name].required,
            TypeCategory::Interface => self.interfaces[name].required,
            TypeCategory::Union => self.unions[name].required,
            TypeCategory::Scalar => false,
        }
    }

    /// The schema with the type named `name` marked as reached. A scalar has
    /// no flag: for its name the schema stays as it is.
    pub open spec fn marked(self, name: Seq<char>) -> SchemaView {
        match self.category_of(name) {
            TypeCategory::Enum => SchemaView { enums: with_required(self.enums, name), ..self },
            TypeCategory::Object => SchemaView {
                objects: with_required(self.objects, name),
                ..self
            },
            TypeCategory::Interface => SchemaView {
                interfaces: with_required(self.interfaces, name),
                ..self
            },
            TypeCategory::Union => SchemaView { unions: with_required(self.unions, name), ..self },
            TypeCategory::Scalar => self,
        }
    }
}

impl View for Schema {
    type V = SchemaView;

    open spec fn view(&self) -> SchemaView {
        SchemaView {
            enums: self.enums@,
            objects: self.objects@,
            interfaces: self.interfaces@,
            unions: self.unions@,
        }
    }
}

/// Marking a type sets its flag and nothing else: the names of every table,
/// the category of every name and every other flag stay. A name that no
/// table holds is a scalar, and marking it changes nothing. Marking twice is
/// marking once.
pub proof fn lemma_marked(s: SchemaView, name: Seq<char>)
    ensures
        s.tables_holding(name) == 0 <==> s.category_of(name) == TypeCategory::Scalar,
        s.category_of(name) == TypeCategory::Scalar ==> s.marked(name) == s,
        s.category_of(name) != TypeCategory::Scalar ==> s.marked(name).is_required(name),
        s.marked(name).marked(name) == s.marked(name),
        forall|other: Seq<char>| #[trigger]
            s.marked(name).category_of(other) == s.category_of(other),
        forall|other: Seq<char>|
            other != name ==> #[trigger] s.marked(name).is_required(other) == s.is_required(other),
        forall|other: Seq<char>|
            s.is_required(other) ==> #[trigger] s.marked(name).is_required(other),
{
    crate::registry::lemma_with_required_idempotent(s.enums, name);
    crate::registry::lemma_with_required_idempotent(s.objects, name);
    crate::registry::lemma_with_required_idempotent(s.interfaces, name);
    crate::registry::lemma_with_required_idempotent(s.unions, name);
    let m = s.marked(name);
    assert(m.enums.dom() == s.enums.dom());
    assert(m.objects.dom() == s.objects.dom());
    assert(m.interfaces.dom() == s.interfaces.dom());
    assert(m.unions.dom() == s.unions.dom());
    assert forall|other: Seq<char>| #[trigger] m.category_of(other) == s.category_of(other) by {
        assert(m.enums.contains_key(other) == s.enums.contains_key(other));
        assert(m.objects.contains_key(other) == s.objects.contains_key(other));
        assert(m.interfaces.contains_key(other) == s.interfaces.contains_key(other));
        assert(m.unions.contains_key(other) == s.unions.contains_key(other));
    }
}

/// In a schema where a name stands in one table only, marking it sets the
/// flag in that table and leaves the three other tables as they are.
pub proof fn lemma_marked_in_one_table(s: SchemaView, name: Seq<char>)
    requires
        s.tables_holding(name) == 1,
    ensures
        s.enums.contains_key(name) ==> s.category_of(name) == TypeCategory::Enum && s.marked(name)
            == (SchemaView { enums: with_required(s.enums, name), ..s }),
        s.objects.contains_key(name) ==> s.category_of(name) == TypeCategory::Object && s.marked(
            name,
        ) == (SchemaView { objects: with_required(s.objects, name), ..s }),
        s.interfaces.contains_key(name) ==> s.category_of(name) == TypeCategory::Interface
            && s.marked(name) == (SchemaView {
            interfaces: with_required(s.interfaces, name),
            ..s
        }),
        s.unions.contains_key(name) ==> s.category_of(name) == TypeCategory::Union && s.marked(name)
            == (SchemaView { unions: with_required(s.unions, name), ..s }),
{
}

impl Schema {
    /// Whether the four tables are well formed.
    pub open spec fn wf(&self) -> bool {
        &&& self.enums.wf()
        &&& self.objects.wf()
        &&& self.interfaces.wf()
        &&& self.unions.wf()
    }

    /// A schema without types.
    pub fn new() -> (schema: Schema)
        ensures
            schema.wf(),
            schema@.enums == Map::<Seq<char>, Entry<()>>::empty(),
            schema@.objects == Map::<Seq<char>, Entry<()>>::empty(),
            schema@.interfaces == Map::<Seq<char>, Entry<()>>::empty(),
            schema@.unions == Map::<Seq<char>, Entry<()>>::empty(),
    {
        Schema {
            enums: Registry::new(),
            objects: Registry::new(),
            interfaces: Registry::new(),
            unions: Registry::new(),
        }
    }

    /// The category of the type named `name`.
    pub fn classify(&self, name: &str) -> (category: TypeCategory)
        requires
            self.wf(),
        ensures
            category == self@.category_of(name@),
    {
        if self.enums.contains(name) {
            TypeCategory::Enum
        } else if self.objects.contains(name) {
            TypeCategory::Object
        } else if self.interfaces.contains(name) {
            TypeCategory::Interface
        } else if self.unions.contains(name) {
            TypeCategory::Union
        } else {
            TypeCategory::Scalar
        }
    }

    /// Tells whether the type named `name` is marked as reached.
    pub fn is_required(&self, name: &str) -> (b: bool)
        requires
            self.wf(),
        ensures
            b == self@.is_required(name@),
    {
        match self.classify(name) {
            TypeCategory::Enum => self.enums.is_required(name),
            TypeCategory::Object => self.objects.is_required(name),
            TypeCategory::Interface => self.interfaces.is_required(name),
            TypeCategory::Union => self.unions.is_required(name),
            TypeCategory::Scalar => false,
        }
    }

    /// Marks the type named `name` as reached and tells its category. For a
    /// scalar nothing changes.
    pub fn require(&mut self, name: &str) -> (category: TypeCategory)
        requires
            old(self).wf(),
        ensures
            final(self).wf(),
            category == old(self)@.category_of(name@),
            final(self)@ == old(self)@.marked(name@),
    {
        if self.enums.require(name) {
            TypeCategory::Enum
        } else if self.objects.require(name) {
            TypeCategory::Object
        } else if self.interfaces.require(name) {
            TypeCategory::Interface
        } else if self.unions.require(name) {
            TypeCategory::Union
        } else {
            TypeCategory::Scalar
        }
    }
}

} // verus!
