use react_props_replacer::{apply_content_actions, Action, ReactContent};

fn remove(name: &str) -> Vec<Action> {
    vec![Action::RemoveProp(name.to_string())]
}

#[test]
fn update_with_remove_action_one_line_content_wo_effect() {
    let content: ReactContent = "import styles from './styles.scss';";
    let content_result =
        apply_content_actions(content, &[Action::RemoveProp("data-testid".to_string())]);
    assert_eq!(content, content_result);
}

#[test]
fn update_with_remove_action_one_line_content() {
    let content: ReactContent = "import styles from './styles.scss'; function MyComponent { return (<div><span/><h1 data-testid='test_id' >Main title</h1></div>);}";
    let content_result =
        apply_content_actions(content, &[Action::RemoveProp("data-testid".to_string())]);
    assert_ne!(content, content_result);
    assert_eq!(content_result.matches("data-testid").count(), 0);
}

#[test]
fn update_with_remove_action_multi_line_content() {
    let content: ReactContent = "import styles from './styles.scss';\n\n function MyComponent {\n  return (\n    <div>      <span/>\n      <h1 data-testid='test_id' >Main title</h1>\n    </div>);}\n";
    let content_result =
        apply_content_actions(content, &[Action::RemoveProp("data-testid".to_string())]);
    assert_ne!(content, content_result);
    assert_eq!(content_result.matches("data-testid").count(), 0);
}

#[test]
fn update_with_remove_action_multi_line_and_multi_prop_content() {
    let content: ReactContent = "import styles from './styles.scss';\n\n function MyComponent {\n  return (\n    <div>      <span id='span_id' data-testid='span_test_id'/>\n      <h1 data-testid='h1_test_id' >Main title</h1>\n    </div>);}\n";
    let content_result =
        apply_content_actions(content, &[Action::RemoveProp("data-testid".to_string())]);
    assert_ne!(content, content_result);
    assert_eq!(content_result.matches("data-testid").count(), 0);
    assert_eq!(content_result.contains("<span id='span_id' />"), true);
    assert_eq!(content_result.contains("<h1  >Main title</h1>"), true);
}

#[test]
fn update_with_remove_action_multi_line_and_react_component_content_wo_effect() {
    let content: ReactContent = "import styles from './styles.scss';\n\n function MyComponent {\n  return (\n    <div>      <span id='span_id'/>\n      <h1>Main title</h1>\n      <MyOtherComponent data-testid='other_test_id' />\n    </div>);}\n";
    let content_result =
        apply_content_actions(content, &[Action::RemoveProp("data-testid".to_string())]);
    assert_eq!(content, content_result);
}

#[test]
fn text_without_tags_is_unchanged() {
    let content = "const x = a > b && c; // data-testid='x'";
    assert_eq!(apply_content_actions(content, &remove("data-testid")), content);
    assert_eq!(apply_content_actions("", &remove("data-testid")), "");
    assert_eq!(apply_content_actions(content, &[]), content);
}

#[test]
fn absent_attribute_leaves_text_unchanged() {
    let content = "<div id='a'>\n  <span class='b'/>\n</div>";
    assert_eq!(apply_content_actions(content, &remove("data-testid")), content);
}

#[test]
fn second_run_changes_nothing() {
    let content = "<div data-testid='a'><p id='p' data-testid='b'>x</p></div>";
    let once = apply_content_actions(content, &remove("data-testid"));
    assert_eq!(once, "<div ><p id='p' >x</p></div>");
    let twice = apply_content_actions(&once, &remove("data-testid"));
    assert_eq!(twice, once);
}

#[test]
fn component_attribute_is_kept() {
    let content = "<div data-testid='a'><Button data-testid='b'/></div>";
    assert_eq!(
        apply_content_actions(content, &remove("data-testid")),
        "<div ><Button data-testid='b'/></div>"
    );
}

#[test]
fn boolean_attribute_is_removed_bare() {
    assert_eq!(apply_content_actions("<input disabled />", &remove("disabled")), "<input  />");
    assert_eq!(
        apply_content_actions("<button disabled>Go</button>", &remove("disabled")),
        "<button >Go</button>"
    );
}

#[test]
fn template_literal_attribute_is_removed_whole() {
    let content = "<div data-testid={`\n  ${id}-arrow\n  `} id='x'>";
    assert_eq!(apply_content_actions(content, &remove("data-testid")), "<div  id='x'>");
}

#[test]
fn self_closed_attribute_is_removed() {
    assert_eq!(
        apply_content_actions("<div id='x' data-testid='y'/>", &remove("data-testid")),
        "<div id='x' />"
    );
}

#[test]
fn bare_element_is_unchanged() {
    assert_eq!(apply_content_actions("<h1>", &remove("data-testid")), "<h1>");
}

#[test]
fn component_element_is_unchanged() {
    let content = "<MyComponent data-testid='z' />";
    assert_eq!(apply_content_actions(content, &remove("data-testid")), content);
}

#[test]
fn closing_tag_is_unchanged() {
    let content = "<p>a</p data-testid='x'> < /b data-testid='y'>";
    assert_eq!(apply_content_actions(content, &remove("data-testid")), content);
}

#[test]
fn only_first_occurrence_is_removed() {
    let content = "<div data-testid='a' title=\"data-testid='a'\">";
    assert_eq!(
        apply_content_actions(content, &remove("data-testid")),
        "<div  title=\"data-testid='a'\">"
    );
}

#[test]
fn actions_apply_in_order() {
    let actions = vec![
        Action::RemoveProp("id".to_string()),
        Action::RemoveProp("data-testid".to_string()),
    ];
    assert_eq!(apply_content_actions("<p id='x' data-testid='y'>", &actions), "<p  >");
}

#[test]
fn trailing_and_repeated_lt_are_kept() {
    assert_eq!(apply_content_actions("a<", &remove("x")), "a<");
    assert_eq!(apply_content_actions("<<", &remove("x")), "<<");
    assert_eq!(apply_content_actions("a < b", &remove("b")), "a < b");
}
