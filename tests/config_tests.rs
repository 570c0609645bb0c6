use react_props_replacer::{parse_value_to_string, Action, ConfigBuilder};

const FILE_HTML_DATATESTID: &str = "./tests/assets/html_datatestid.jsx";
const FILE_HTML_DATATESTID_UPDATED: &str = "./tests/assets/html_datatestid.updated.jsx";

#[test]
fn create_config_from_args_with_valid_data() {
    let result = ConfigBuilder::new()
        .parse_args(&[FILE_HTML_DATATESTID, "--remove-prop"].map(|v| v.to_string()))
        .build();
    assert!(result.is_ok());

    let config = result.unwrap();
    assert_eq!(config.output, FILE_HTML_DATATESTID_UPDATED.to_string());

    let result = ConfigBuilder::new()
        .parse_args(
            &[
                FILE_HTML_DATATESTID,
                "--remove-prop",
                "--output",
                FILE_HTML_DATATESTID_UPDATED,
            ]
            .map(|v| v.to_string()),
        )
        .build();
    assert!(result.is_ok());

    let config = result.unwrap();
    assert_eq!(config.output, FILE_HTML_DATATESTID_UPDATED.to_string());
    assert_eq!(
        config.actions.first().unwrap(),
        &Action::RemoveProp("data-testid".to_string())
    );
}

#[test]
fn create_config_from_empty_args() {
    let result = ConfigBuilder::new().parse_args(&[]).build();
    assert!(result.is_err());
}

#[test]
fn create_config_from_args_without_actions() {
    let result = ConfigBuilder::new()
        .parse_args(&[FILE_HTML_DATATESTID].map(|v| v.to_string()))
        .build();
    assert!(result.is_err());
}

#[test]
fn build_reports_each_missing_part() {
    assert_eq!(ConfigBuilder::new().build().err(), Some("Input file is not present."));
    assert_eq!(
        ConfigBuilder::new().input("a.jsx".to_string()).build().err(),
        Some("Actions are not present.")
    );
}

#[test]
fn named_prop_and_explicit_output() {
    let config = ConfigBuilder::new()
        .parse_args(
            &["src/App.jsx", "--output", "out.jsx", "--remove-prop", "data-cy"]
                .map(|v| v.to_string()),
        )
        .build()
        .unwrap();
    assert_eq!(config.input, "src/App.jsx");
    assert_eq!(config.output, "out.jsx");
    assert_eq!(config.actions, vec![Action::RemoveProp("data-cy".to_string())]);
}

#[test]
fn builder_setters() {
    let config = ConfigBuilder::new()
        .input("in.tsx".to_string())
        .output("o.tsx".to_string())
        .add_action(Action::RemoveProp("id".to_string()))
        .add_action(Action::RemoveProp("key".to_string()))
        .build()
        .unwrap();
    assert_eq!(config.input, "in.tsx");
    assert_eq!(config.output, "o.tsx");
    assert_eq!(config.actions.len(), 2);
}

#[test]
fn default_output_inserts_updated_before_extension() {
    let out = |p: &str| {
        ConfigBuilder::new()
            .input(p.to_string())
            .add_action(Action::RemoveProp("id".to_string()))
            .build()
            .unwrap()
            .output
    };
    assert_eq!(out("sample.jsx"), "sample.updated.jsx");
    assert_eq!(out("a/b.c.jsx"), "a/b.c.updated.jsx");
    assert_eq!(out("sample"), "sample");
    assert_eq!(out(".bashrc"), ".bashrc");
    assert_eq!(out("dir.v/file"), "dir.v/file");
}

#[test]
fn value_after_option_name() {
    assert_eq!(parse_value_to_string("remove-prop data-cy", "data-testid"), "data-cy");
    assert_eq!(parse_value_to_string("remove-prop", "data-testid"), "data-testid");
}

#[test]
fn unknown_options_are_ignored() {
    let b = ConfigBuilder::new()
        .parse_args(&["f.jsx", "--verbose", "--remove-prop"].map(|v| v.to_string()));
    assert_eq!(b.input, Some("f.jsx".to_string()));
    assert_eq!(b.output, None);
    assert_eq!(b.actions, vec![Action::RemoveProp("data-testid".to_string())]);
}
