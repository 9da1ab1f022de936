//! The context of one generation run: the schema, the fragments of the query
//! document, the deprecation strategy and the derive lists of the generated
//! models.
//!
//! While a query is generated the context records which schema types and
//! fragments the query reaches. A flag is set the first time its entity is
//! reached and stays set. The derive lists start with one default name each
//! and take further names once.

use crate::deprecation::DeprecationStrategy;
use crate::derives::{DeriveLists, DeriveSet};
use crate::directive::{enum_directive_view, model_names, Directive, DirectiveView};
use crate::error::ContextError;
use crate::registry::{with_required, Entry, Registry};
use crate::schema::{Schema, TypeCategory};
use vstd::prelude::*;

verus! {

/// What is to be done for a field once its type has been looked up.
pub enum Expansion<'a, S> {
    /// Nothing is generated for the field here: its type is an enum, which is
    /// generated apart, or a scalar. The fragment of the field is empty.
    Empty,
    /// The type has a structure of its own and must expand the selection
    /// itself, with this context, this selection and this prefix.
    Delegate {
        /// The category of the type: object, interface or union.
        category: TypeCategory,
        /// The name of the type.
        ty: &'a str,
        /// The selection made on the field.
        selection: &'a S,
        /// The prefix for the names of the types generated for the field.
        prefix: &'a str,
    },
}

/// What the dispatcher decides for a field of a type of category `category`.
pub open spec fn expansion_for<'a, S>(
    category: TypeCategory,
    ty: &'a str,
    selection: &'a S,
    prefix: &'a str,
) -> Expansion<'a, S> {
    match category {
        TypeCategory::Enum | TypeCategory::Scalar => Expansion::Empty,
        _ => Expansion::Delegate { category, ty, selection, prefix },
    }
}

/// The dispatcher delegates for an object, an interface and a union, and for
/// nothing else; what it hands to the type is what it was given.
pub proof fn lemma_expansion_for<S>(category: TypeCategory, ty: &str, selection: &S, prefix: &str)
    ensures
        expansion_for(category, ty, selection, prefix) is Delegate <==> (category
            == TypeCategory::Object || category == TypeCategory::Interface || category
            == TypeCategory::Union),
        expansion_for(category, ty, selection, prefix) is Delegate ==> expansion_for(
            category,
            ty,
            selection,
            prefix,
        ) == (Expansion::Delegate { category, ty, selection, prefix }),
{
}

impl<'a, S> Expansion<'a, S> {
    /// The result of expanding the field. `delegated` is what the type's own
    /// expansion returned, and `None` where nothing was delegated: the
    /// fragment is then empty, which `Ok(None)` stands for. A fragment or an
    /// error that the type's own expansion returned is handed on as it is.
    pub fn resolve<G, E>(&self, delegated: Option<Result<G, E>>) -> (result: Result<Option<G>, E>)
        requires
            (*self is Delegate) == (delegated is Some),
        ensures
            result == match delegated {
                None => Ok::<Option<G>, E>(None),
                Some(Ok(fragment)) => Ok(Some(fragment)),
                Some(Err(error)) => Err(error),
            },
            (*self is Empty) ==> result == Ok::<Option<G>, E>(None),
    {
        match delegated {
            None => Ok(None),
            Some(Ok(fragment)) => Ok(Some(fragment)),
            Some(Err(error)) => Err(error),
        }
    }
}

/// All that generation needs to know while it generates the code of a query.
/// `S` is the type of a selection, which the context hands on and never reads.
pub struct QueryContext<S> {
    /// The fragments of the query document, by name.
    pub fragments: Registry<S>,
    /// The schema that the query is made against.
    pub schema: Schema,
    /// What to do with deprecated fields.
    pub deprecation_strategy: DeprecationStrategy,
    /// The derive lists of the generated models.
    pub derives: DeriveSet,
}

impl<S> QueryContext<S> {
    /// A context for the schema `schema`: no fragment yet, and the default
    /// name in each derive list.
    pub fn new(schema: Schema, deprecation_strategy: DeprecationStrategy) -> (context: Self)
        ensures
            context.schema == schema,
            context.deprecation_strategy == deprecation_strategy,
            context.fragments.wf(),
            context.fragments@ == Map::<Seq<char>, Entry<S>>::empty(),
            context.derives@ == DeriveLists::seeded(),
    {
        QueryContext {
            fragments: Registry::new(),
            schema,
            deprecation_strategy,
            derives: DeriveSet::new(),
        }
    }

    /// A context for a schema without types, which allows deprecated fields.
    pub fn new_empty() -> (context: Self)
        ensures
            context.fragments.wf(),
            context.schema.wf(),
            context.schema@.enums == Map::<Seq<char>, Entry<()>>::empty(),
            context.schema@.objects == Map::<Seq<char>, Entry<()>>::empty(),
            context.schema@.interfaces == Map::<Seq<char>, Entry<()>>::empty(),
            context.schema@.unions == Map::<Seq<char>, Entry<()>>::empty(),
            context.deprecation_strategy == DeprecationStrategy::Allow,
            context.fragments@ == Map::<Seq<char>, Entry<S>>::empty(),
            context.derives@ == DeriveLists::seeded(),
    {
        QueryContext::new(Schema::new(), DeprecationStrategy::Allow)
    }

    /// Marks the fragment named `typename_` as reached. Where the document
    /// has no fragment of that name, nothing changes.
    pub fn require(&mut self, typename_: &str)
        requires
            old(self).fragments.wf(),
        ensures
            final(self).fragments.wf(),
            final(self).fragments@ == with_required(old(self).fragments@, typename_@),
            final(self).schema == old(self).schema,
            final(self).deprecation_strategy == old(self).deprecation_strategy,
            final(self).derives == old(self).derives,
    {
        self.fragments.require(typename_);
    }

    /// Looks up the type `ty` of a field, marks it as reached, and decides
    /// what is to be done for the field. Exactly the flag of that type is set;
    /// for a scalar, or a name that the schema does not declare, nothing
    /// changes. An enum or a scalar needs no expansion; an object, an
    /// interface or a union is asked, once, to expand `selection` under `prefix`.
    pub fn maybe_expand_field<'a>(&mut self, ty: &'a str, selection: &'a S, prefix: &'a str) -> (expansion:
        Expansion<'a, S>)
        requires
            old(self).schema.wf(),
        ensures
            final(self).schema.wf(),
            final(self).schema@ == old(self).schema@.marked(ty@),
            expansion == expansion_for(old(self).schema@.category_of(ty@), ty, selection, prefix),
            final(self).fragments == old(self).fragments,
            final(self).deprecation_strategy == old(self).deprecation_strategy,
            final(self).derives == old(self).derives,
    {
        match self.schema.require(ty) {
            TypeCategory::Enum => Expansion::Empty,
            TypeCategory::Object => Expansion::Delegate {
                category: TypeCategory::Object,
                ty,
                selection,
                prefix,
            },
            TypeCategory::Interface => Expansion::Delegate {
                category: TypeCategory::Interface,
                ty,
                selection,
                prefix,
            },
            TypeCategory::Union => Expansion::Delegate {
                category: TypeCategory::Union,
                ty,
                selection,
                prefix,
            },
            TypeCategory::Scalar => Expansion::Empty,
        }
    }

    /// Takes the additional derives of the comma-separated list
    /// `attribute_value`: each entry, trimmed, is appended to both derive
    /// lists, in the order of the list. This is granted once for a context; a
    /// further request is refused and changes nothing.
    pub fn ingest_additional_derives(&mut self, attribute_value: &str) -> (result: Result<
        (),
        ContextError,
    >)
        ensures
            match old(self).derives@.ingest(attribute_value@) {
                Ok(lists) => result is Ok && final(self).derives@ == lists,
                Err(error) => result == Err::<(), ContextError>(error)
                    && final(self).derives@ == old(self).derives@,
            },
            final(self).derives@ == old(self).derives@.after_ingest(attribute_value@),
            old(self).derives@.wf(),
            final(self).derives@.wf(),
            final(self).fragments == old(self).fragments,
            final(self).schema == old(self).schema,
            final(self).deprecation_strategy == old(self).deprecation_strategy,
    {
        self.derives.ingest_additional(attribute_value)
    }

    /// The directive of the model of a query's variables: the names of the
    /// list, each one once, where it first occurs.
    pub fn variables_derives(&self) -> (directive: Directive)
        ensures
            directive@ == DirectiveView::Derive(model_names(self.derives@.variables)),
            self.derives@.wf(),
    {
        self.derives.render_variables_derives()
    }

    /// The directive of the models of a query's response: the names of the
    /// list, each one once, where it first occurs.
    pub fn response_derives(&self) -> (directive: Directive)
        ensures
            directive@ == DirectiveView::Derive(model_names(self.derives@.response)),
            self.derives@.wf(),
    {
        self.derives.render_response_derives()
    }

    /// The directive of the enums of a query's response: the names of the
    /// response list, each one once, without those that name a serialization
    /// capability; the empty directive where no name is left.
    pub fn response_enum_derives(&self) -> (directive: Directive)
        ensures
            directive@ == enum_directive_view(self.derives@.response),
            self.derives@.wf(),
    {
        self.derives.render_enum_derives()
    }
}

} // verus!
