use graphql_client_codegen::derives::DeriveSet;
use graphql_client_codegen::directive::{
    drop_serialization, enum_directive, model_directive, names_serialization, Directive,
};
use graphql_client_codegen::error::ContextError;

fn names(list: &[&str]) -> Vec<String> {
    list.iter().map(|s| s.to_string()).collect()
}

fn listed(directive: &Directive) -> Option<Vec<String>> {
    match directive {
        Directive::Empty => None,
        Directive::Derive(names) => Some(names.clone()),
    }
}

#[test]
fn model_directive_drops_repetitions() {
    let list = names(&["A", "B", "A", "C", "B", "A"]);
    assert_eq!(listed(&model_directive(&list)), Some(names(&["A", "B", "C"])));
    assert_eq!(
        model_directive(&list).to_string(),
        "# [ derive ( A , B , C ) ]"
    );
}

#[test]
fn model_directive_keeps_a_list_without_repetitions() {
    let list = names(&["C", "A", "B"]);
    assert_eq!(listed(&model_directive(&list)), Some(names(&["C", "A", "B"])));
}

#[test]
fn model_directive_of_no_names_is_still_a_derive() {
    let directive = model_directive(&Vec::new());
    assert!(!directive.is_empty());
    assert_eq!(listed(&directive), Some(Vec::new()));
    assert_eq!(directive.to_string(), "# [ derive (  ) ]");
}

#[test]
fn names_differ_by_case_and_by_white_space() {
    let list = names(&["a", "A", "a ", "a"]);
    assert_eq!(listed(&model_directive(&list)), Some(names(&["a", "A", "a "])));
}

#[test]
fn serialization_names_hold_erialize() {
    assert!(names_serialization("Serialize"));
    assert!(names_serialization("Deserialize"));
    assert!(names_serialization("serde::Serialize"));
    assert!(names_serialization("MySerializer"));
    assert!(names_serialization("erialize"));
    assert!(!names_serialization("Serial"));
    assert!(!names_serialization("serial"));
    assert!(!names_serialization("SERIALIZE"));
    assert!(!names_serialization("Erialize"));
    assert!(!names_serialization(""));
    assert!(!names_serialization("PartialEq"));
}

#[test]
fn drop_serialization_keeps_the_order() {
    let list = names(&["Debug", "Serialize", "Clone", "Deserialize", "Debug"]);
    assert_eq!(drop_serialization(list), names(&["Debug", "Clone", "Debug"]));
    assert_eq!(drop_serialization(Vec::new()), Vec::<String>::new());
}

#[test]
fn enum_directive_filters_and_drops_repetitions() {
    let list = names(&["Deserialize", "PartialEq", "PartialOrd", "Serialize", "PartialEq"]);
    assert_eq!(
        listed(&enum_directive(&list)),
        Some(names(&["PartialEq", "PartialOrd"]))
    );
    assert_eq!(
        enum_directive(&list).to_string(),
        "# [ derive ( PartialEq , PartialOrd ) ]"
    );
}

#[test]
fn enum_directive_is_empty_when_nothing_is_left() {
    assert!(enum_directive(&names(&["Deserialize"])).is_empty());
    assert!(enum_directive(&names(&["Deserialize", "Serialize", "Serialize"])).is_empty());
    assert!(enum_directive(&Vec::new()).is_empty());
    assert_eq!(enum_directive(&names(&["Deserialize"])).to_string(), "");
}

#[test]
fn directive_text_has_one_space_between_tokens() {
    assert_eq!(Directive::Empty.to_string(), "");
    assert_eq!(
        Directive::Derive(names(&["Debug"])).to_string(),
        "# [ derive ( Debug ) ]"
    );
    assert_eq!(
        Directive::Derive(names(&["Debug", "Clone"])).to_string(),
        "# [ derive ( Debug , Clone ) ]"
    );
    assert!(Directive::Empty.is_empty());
    assert!(!Directive::Derive(Vec::new()).is_empty());
}

#[test]
fn derive_set_starts_with_the_defaults() {
    let set = DeriveSet::new();
    assert_eq!(
        listed(&set.render_variables_derives()),
        Some(names(&["Serialize"]))
    );
    assert_eq!(
        listed(&set.render_response_derives()),
        Some(names(&["Deserialize"]))
    );
    assert!(set.render_enum_derives().is_empty());
}

#[test]
fn derive_set_takes_additional_names_once() {
    let mut set = DeriveSet::new();
    assert_eq!(set.ingest_additional(" Debug ,Clone"), Ok(()));
    assert_eq!(
        listed(&set.render_variables_derives()),
        Some(names(&["Serialize", "Debug", "Clone"]))
    );
    assert_eq!(
        listed(&set.render_response_derives()),
        Some(names(&["Deserialize", "Debug", "Clone"]))
    );
    assert_eq!(
        listed(&set.render_enum_derives()),
        Some(names(&["Debug", "Clone"]))
    );
    assert_eq!(
        set.ingest_additional("Hash"),
        Err(ContextError::DerivesAlreadyIngested)
    );
    assert_eq!(
        listed(&set.render_response_derives()),
        Some(names(&["Deserialize", "Debug", "Clone"]))
    );
    assert_eq!(
        listed(&set.render_variables_derives()),
        Some(names(&["Serialize", "Debug", "Clone"]))
    );
}

#[test]
fn an_empty_list_is_one_empty_name_and_counts_as_ingestion() {
    let mut set = DeriveSet::new();
    assert_eq!(set.ingest_additional(""), Ok(()));
    assert_eq!(
        listed(&set.render_response_derives()),
        Some(names(&["Deserialize", ""]))
    );
    assert_eq!(
        set.ingest_additional("Debug"),
        Err(ContextError::DerivesAlreadyIngested)
    );
}

#[test]
fn the_default_ingested_again_is_rendered_once() {
    let mut set = DeriveSet::new();
    set.ingest_additional("Serialize, Deserialize, Serialize")
        .unwrap();
    assert_eq!(
        listed(&set.render_variables_derives()),
        Some(names(&["Serialize", "Deserialize"]))
    );
    assert_eq!(
        listed(&set.render_response_derives()),
        Some(names(&["Deserialize", "Serialize"]))
    );
    assert!(set.render_enum_derives().is_empty());
}
