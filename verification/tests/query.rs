use graphql_client_codegen::deprecation::DeprecationStrategy;
use graphql_client_codegen::error::ContextError;
use graphql_client_codegen::query::{Expansion, QueryContext};
use graphql_client_codegen::schema::{Schema, TypeCategory};

#[test]
fn response_derives_ingestion_works() {
    let mut context = QueryContext::<()>::new_empty();

    context
        .ingest_additional_derives("PartialEq, PartialOrd, Serialize")
        .unwrap();

    assert_eq!(
        context.response_derives().to_string(),
        "# [ derive ( Deserialize , PartialEq , PartialOrd , Serialize ) ]"
    );
}

#[test]
fn response_enum_derives_does_not_produce_empty_list() {
    let context = QueryContext::<()>::new_empty();
    assert_eq!(context.response_enum_derives().to_string(), "");
}

#[test]
fn response_enum_derives_works() {
    let mut context = QueryContext::<()>::new_empty();

    context
        .ingest_additional_derives("PartialEq, PartialOrd, Serialize")
        .unwrap();

    assert_eq!(
        context.response_enum_derives().to_string(),
        "# [ derive ( PartialEq , PartialOrd ) ]"
    );
}

#[test]
fn response_derives_fails_when_called_twice() {
    let mut context = QueryContext::<()>::new_empty();

    assert!(context
        .ingest_additional_derives("PartialEq, PartialOrd")
        .is_ok());
    assert!(context.ingest_additional_derives("Serialize").is_err());
}

#[test]
fn second_ingestion_is_a_configuration_error_and_changes_nothing() {
    let mut context = QueryContext::<()>::new_empty();
    assert_eq!(context.ingest_additional_derives("PartialEq, PartialOrd"), Ok(()));
    let variables = context.variables_derives().to_string();
    let response = context.response_derives().to_string();
    let enums = context.response_enum_derives().to_string();

    let error = context.ingest_additional_derives("Serialize, Debug");
    assert_eq!(error, Err(ContextError::DerivesAlreadyIngested));
    assert_eq!(
        error.unwrap_err().message(),
        "derives may only be ingested once"
    );
    assert_eq!(context.variables_derives().to_string(), variables);
    assert_eq!(context.response_derives().to_string(), response);
    assert_eq!(context.response_enum_derives().to_string(), enums);
    assert_eq!(
        variables,
        "# [ derive ( Serialize , PartialEq , PartialOrd ) ]"
    );
    assert_eq!(
        response,
        "# [ derive ( Deserialize , PartialEq , PartialOrd ) ]"
    );

    assert!(context.ingest_additional_derives("").is_err());
    assert_eq!(context.response_derives().to_string(), response);
}

#[test]
fn new_context_has_the_defaults() {
    let context = QueryContext::<()>::new_empty();
    assert_eq!(
        context.variables_derives().to_string(),
        "# [ derive ( Serialize ) ]"
    );
    assert_eq!(
        context.response_derives().to_string(),
        "# [ derive ( Deserialize ) ]"
    );
    assert!(context.response_enum_derives().is_empty());
    assert_eq!(context.deprecation_strategy, DeprecationStrategy::Allow);
    assert_eq!(context.fragments.len(), 0);
    assert_eq!(context.schema.enums.len(), 0);
    assert_eq!(context.schema.objects.len(), 0);
    assert_eq!(context.schema.interfaces.len(), 0);
    assert_eq!(context.schema.unions.len(), 0);
}

#[test]
fn new_keeps_schema_and_strategy() {
    let mut schema = Schema::new();
    assert!(schema.objects.insert("Droid", ()));
    let context = QueryContext::<u8>::new(schema, DeprecationStrategy::Deny);
    assert_eq!(context.deprecation_strategy, DeprecationStrategy::Deny);
    assert!(context.schema.objects.contains("Droid"));
    assert!(!context.schema.is_required("Droid"));
    assert_eq!(context.fragments.len(), 0);
    assert_eq!(
        context.response_derives().to_string(),
        "# [ derive ( Deserialize ) ]"
    );
    let warn = QueryContext::<u8>::new(Schema::new(), DeprecationStrategy::Warn);
    assert_eq!(warn.deprecation_strategy, DeprecationStrategy::Warn);
}

#[test]
fn ingested_derives_go_to_both_lists() {
    let mut context = QueryContext::<()>::new_empty();
    context
        .ingest_additional_derives("PartialEq, PartialOrd, Serialize")
        .unwrap();
    assert_eq!(
        context.variables_derives().to_string(),
        "# [ derive ( Serialize , PartialEq , PartialOrd ) ]"
    );
    assert_eq!(
        context.response_derives().to_string(),
        "# [ derive ( Deserialize , PartialEq , PartialOrd , Serialize ) ]"
    );
}

#[test]
fn rendered_derives_hold_each_name_once_where_it_first_occurs() {
    let mut context = QueryContext::<()>::new_empty();
    context
        .ingest_additional_derives("Debug,Clone , Debug,Deserialize,  Clone,Hash")
        .unwrap();
    assert_eq!(
        context.response_derives().to_string(),
        "# [ derive ( Deserialize , Debug , Clone , Hash ) ]"
    );
    assert_eq!(
        context.variables_derives().to_string(),
        "# [ derive ( Serialize , Debug , Clone , Deserialize , Hash ) ]"
    );
    assert_eq!(
        context.response_enum_derives().to_string(),
        "# [ derive ( Debug , Clone , Hash ) ]"
    );
}

#[test]
fn enum_derives_are_empty_when_every_name_is_filtered() {
    let mut context = QueryContext::<()>::new_empty();
    context
        .ingest_additional_derives("Serialize, MySerializer, Deserialize")
        .unwrap_or(());
    assert!(context.response_enum_derives().is_empty());
    assert_eq!(context.response_enum_derives().to_string(), "");
}

#[test]
fn enum_derives_filter_is_case_sensitive() {
    let mut context = QueryContext::<()>::new_empty();
    context
        .ingest_additional_derives("serialize, Serial, SERIALIZE, Deserializer")
        .unwrap();
    assert_eq!(
        context.response_enum_derives().to_string(),
        "# [ derive ( Serial , SERIALIZE ) ]"
    );
}

#[test]
fn require_marks_a_fragment_once() {
    let mut context = QueryContext::<u32>::new_empty();
    assert!(context.fragments.insert("Hero", 1));
    assert!(context.fragments.insert("Villain", 2));
    assert!(!context.fragments.is_required("Hero"));

    context.require("Hero");
    assert!(context.fragments.is_required("Hero"));
    assert!(!context.fragments.is_required("Villain"));

    context.require("Hero");
    assert!(context.fragments.is_required("Hero"));
    assert!(!context.fragments.is_required("Villain"));
    assert_eq!(context.fragments.get("Hero"), Some(&1));
    assert_eq!(context.fragments.get("Villain"), Some(&2));
    assert_eq!(context.fragments.len(), 2);
}

#[test]
fn require_of_an_unknown_fragment_changes_nothing() {
    let mut context = QueryContext::<u32>::new_empty();
    assert!(context.fragments.insert("Hero", 1));
    context.require("Nobody");
    assert!(!context.fragments.contains("Nobody"));
    assert!(!context.fragments.is_required("Hero"));
    assert_eq!(context.fragments.len(), 1);

    let mut empty = QueryContext::<u32>::new_empty();
    empty.require("Hero");
    assert_eq!(empty.fragments.len(), 0);
}

fn star_wars() -> Schema {
    let mut schema = Schema::new();
    assert!(schema.enums.insert("Episode", ()));
    assert!(schema.objects.insert("Droid", ()));
    assert!(schema.interfaces.insert("Character", ()));
    assert!(schema.unions.insert("SearchResult", ()));
    schema
}

#[test]
fn expanding_an_enum_marks_it_and_gives_an_empty_fragment() {
    let mut context = QueryContext::<u32>::new(star_wars(), DeprecationStrategy::Allow);
    let selection = 7;
    let expansion = context.maybe_expand_field("Episode", &selection, "Hero");
    assert!(matches!(expansion, Expansion::Empty));
    let result: Result<Option<String>, String> = expansion.resolve(None);
    assert_eq!(result, Ok(None));
    assert!(context.schema.enums.is_required("Episode"));
    assert!(context.schema.is_required("Episode"));
    assert!(!context.schema.is_required("Droid"));
    assert!(!context.schema.is_required("Character"));
    assert!(!context.schema.is_required("SearchResult"));
}

#[test]
fn expanding_an_object_marks_it_and_delegates() {
    let mut context = QueryContext::<u32>::new(star_wars(), DeprecationStrategy::Allow);
    let selection = 7;
    let expansion = context.maybe_expand_field("Droid", &selection, "Hero");
    match &expansion {
        Expansion::Delegate {
            category,
            ty,
            selection,
            prefix,
        } => {
            assert_eq!(*category, TypeCategory::Object);
            assert_eq!(*ty, "Droid");
            assert_eq!(**selection, 7);
            assert_eq!(*prefix, "Hero");
        }
        Expansion::Empty => panic!("an object expands its selection"),
    }
    let fragment: Result<Option<String>, String> =
        expansion.resolve(Some(Ok("struct HeroDroid ;".to_string())));
    assert_eq!(fragment, Ok(Some("struct HeroDroid ;".to_string())));
    let error: Result<Option<String>, String> =
        expansion.resolve(Some(Err("no field `name` on Droid".to_string())));
    assert_eq!(error, Err("no field `name` on Droid".to_string()));
    assert!(context.schema.objects.is_required("Droid"));
    assert!(!context.schema.is_required("Episode"));
    assert!(!context.schema.is_required("Character"));
    assert!(!context.schema.is_required("SearchResult"));
}

#[test]
fn expanding_an_interface_or_a_union_delegates_with_its_category() {
    let mut context = QueryContext::<u32>::new(star_wars(), DeprecationStrategy::Allow);
    let selection = 1;
    match context.maybe_expand_field("Character", &selection, "A") {
        Expansion::Delegate { category, ty, .. } => {
            assert_eq!(category, TypeCategory::Interface);
            assert_eq!(ty, "Character");
        }
        Expansion::Empty => panic!("an interface expands its selection"),
    }
    match context.maybe_expand_field("SearchResult", &selection, "B") {
        Expansion::Delegate {
            category, prefix, ..
        } => {
            assert_eq!(category, TypeCategory::Union);
            assert_eq!(prefix, "B");
        }
        Expansion::Empty => panic!("a union expands its selection"),
    }
    assert!(context.schema.interfaces.is_required("Character"));
    assert!(context.schema.unions.is_required("SearchResult"));
    assert!(!context.schema.is_required("Droid"));
    assert!(!context.schema.is_required("Episode"));
}

#[test]
fn expanding_a_scalar_or_an_unknown_name_marks_nothing() {
    let mut context = QueryContext::<u32>::new(star_wars(), DeprecationStrategy::Allow);
    let selection = 0;
    for name in ["String", "Int", "DateTime", "", "droid"] {
        let expansion = context.maybe_expand_field(name, &selection, "Hero");
        assert!(matches!(expansion, Expansion::Empty));
        assert!(!context.schema.is_required(name));
    }
    for name in ["Episode", "Droid", "Character", "SearchResult"] {
        assert!(!context.schema.is_required(name));
    }
    assert_eq!(context.schema.enums.len(), 1);
    assert_eq!(context.schema.objects.len(), 1);
    assert_eq!(context.schema.interfaces.len(), 1);
    assert_eq!(context.schema.unions.len(), 1);
}

#[test]
fn expanding_twice_keeps_the_flag() {
    let mut context = QueryContext::<u32>::new(star_wars(), DeprecationStrategy::Allow);
    let selection = 0;
    context.maybe_expand_field("Droid", &selection, "A");
    context.maybe_expand_field("Droid", &selection, "B");
    assert!(context.schema.is_required("Droid"));
    assert!(!context.schema.is_required("Character"));
}

#[test]
fn a_name_in_two_tables_is_an_enum_before_an_object() {
    let mut schema = star_wars();
    assert!(schema.objects.insert("Episode", ()));
    assert!(schema.unions.insert("Character", ()));
    let mut context = QueryContext::<u32>::new(schema, DeprecationStrategy::Allow);
    let selection = 0;
    assert!(matches!(
        context.maybe_expand_field("Episode", &selection, "A"),
        Expansion::Empty
    ));
    assert!(context.schema.enums.is_required("Episode"));
    assert!(!context.schema.objects.is_required("Episode"));
    match context.maybe_expand_field("Character", &selection, "A") {
        Expansion::Delegate { category, .. } => assert_eq!(category, TypeCategory::Interface),
        Expansion::Empty => panic!("an interface expands its selection"),
    }
    assert!(context.schema.interfaces.is_required("Character"));
    assert!(!context.schema.unions.is_required("Character"));
}

#[test]
fn expansion_leaves_fragments_and_derives_alone() {
    let mut context = QueryContext::<u32>::new(star_wars(), DeprecationStrategy::Warn);
    assert!(context.fragments.insert("Hero", 1));
    context.ingest_additional_derives("Debug").unwrap();
    let selection = 0;
    context.maybe_expand_field("Droid", &selection, "A");
    context.require("Hero");
    assert!(context.fragments.is_required("Hero"));
    assert!(context.schema.is_required("Droid"));
    assert_eq!(context.deprecation_strategy, DeprecationStrategy::Warn);
    assert_eq!(
        context.response_derives().to_string(),
        "# [ derive ( Deserialize , Debug ) ]"
    );
    assert!(context.ingest_additional_derives("Clone").is_err());
}
