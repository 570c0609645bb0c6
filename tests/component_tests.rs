use react_props_replacer::{Component, ComponentType, Content, ReactContent};

#[test]
fn apply_content_trait() {
    let react_content: ReactContent = "const i = 'test';";
    assert_eq!(react_content, react_content.get_source());
}

#[test]
fn clean_content_with_several_symbols() {
    let component: ReactContent = " \n<span> \n";
    let component_cleaned = component.clean_symbols();
    assert_eq!(component_cleaned, "span");
}

#[test]
fn clean_no_applies_to_cleaned_str() {
    let component: ReactContent = "span";
    let component_cleaned = component.clean_symbols();
    assert_eq!(component_cleaned, component);
}

#[test]
fn clean_no_applies_to_cleaned_str_with_intermediate_symbols() {
    let component: ReactContent = "spa<>n";
    let component_cleaned = component.clean_symbols();
    assert_eq!(component_cleaned, component);
}

#[test]
fn creation_from_an_empty_prop_component_str() {
    let component_str: ReactContent = "<h1>";
    let component = Component::from(component_str);

    assert_eq!(component.name, "h1");
    assert_eq!(component.typo, ComponentType::HtmlElement);
    assert_eq!(component.props.len(), 0);
    assert_eq!(component.content, component_str);
}

#[test]
fn creation_from_an_empty_prop_react_component_str() {
    let component_str: ReactContent = "<MyComponent>";
    let component = Component::from(component_str);

    assert_eq!(component.name, "MyComponent");
    assert_eq!(component.typo, ComponentType::ReactComponent);
    assert_eq!(component.props.len(), 0);
    assert_eq!(component.content, component_str);
}

#[test]
fn creation_from_an_empty_prop_selfclosed_component_str() {
    let component_str: ReactContent = "<h1/>";
    let component = Component::from(component_str);

    assert_eq!(component.name, "h1");
    assert_eq!(component.typo, ComponentType::HtmlElement);
    assert_eq!(component.props.len(), 0);
    assert_eq!(component.content, component_str);
}

#[test]
fn creation_from_an_empty_prop_selfclosed_component_str_with_some_trash_text() {
    let component_str: ReactContent = "<h1 />{trash} trash text";
    let component = Component::from(component_str);

    assert_eq!(component.name, "h1");
    assert_eq!(component.typo, ComponentType::HtmlElement);
    assert_eq!(component.props.len(), 0);
    assert_eq!(component.content, component_str);
}

#[test]
fn creation_from_a_one_prop_component_str() {
    let component_str: ReactContent = "<span aria-checked=\"true\">";
    let component = Component::from(component_str);

    assert_eq!(component.name, "span");
    assert_eq!(component.typo, ComponentType::HtmlElement);
    assert_eq!(component.props.len(), 1);
    assert_eq!(component.get_prop("aria-checked").is_some(), true);
    assert_eq!(
        component
            .get_prop("aria-checked")
            .map(|(_, value)| value)
            .and_then(|value| value.as_ref()),
        Some(&"\"true\"".to_string())
    );
    assert_eq!(component.content, component_str);
}

#[test]
fn creation_from_a_multi_prop_component_str() {
    let component_str: ReactContent = "<div id=\"myDiv\" className={myVariable} href=\"#string\">";
    let component = Component::from(component_str);

    assert_eq!(component.name, "div");
    assert_eq!(component.typo, ComponentType::HtmlElement);
    assert_eq!(component.props.len(), 3);
    assert_eq!(component.get_prop("id").is_some(), true);
    assert_eq!(component.get_prop("className").is_some(), true);
    assert_eq!(component.get_prop("href").is_some(), true);
    assert_eq!(
        component
            .get_prop("className")
            .map(|(_, value)| value)
            .and_then(|value| value.as_ref()),
        Some(&"{myVariable}".to_string())
    );
    assert_eq!(component.content, component_str);
}

#[test]
fn creation_from_a_multi_prop_component_str_splitted_in_several_lines() {
    let component_str: ReactContent = "<div id=\"myDiv\"\n    href=\"#string\"\n    >";
    let component = Component::from(component_str);

    assert_eq!(component.name, "div");
    assert_eq!(component.typo, ComponentType::HtmlElement);
    assert_eq!(component.props.len(), 2);
    assert_eq!(component.get_prop("id").is_some(), true);
    assert_eq!(component.get_prop("href").is_some(), true);
    assert_eq!(
        component
            .get_prop("href")
            .map(|(_, value)| value)
            .and_then(|value| value.as_ref()),
        Some(&"\"#string\"".to_string())
    );
    assert_eq!(component.content, component_str);
}

#[test]
fn creation_from_a_multi_prop_component_str_splitted_in_several_lines_with_template_prop() {
    let component_str: ReactContent =
        "<div data-testid={`\n    ${dataTestId}-arrow\n   `}\n id=\"myDiv\"\n   >";
    let component = Component::from(component_str);

    assert_eq!(component.name, "div");
    assert_eq!(component.typo, ComponentType::HtmlElement);
    assert_eq!(component.props.len(), 2);
    assert_eq!(component.get_prop("data-testid").is_some(), true);
    assert_eq!(component.get_prop("id").is_some(), true);
    assert_eq!(
        component
            .get_prop("data-testid")
            .map(|(_, value)| value)
            .and_then(|value| value.as_ref()),
        Some(&"{`\n    ${dataTestId}-arrow\n   `}".to_string())
    );
    assert_eq!(component.content, component_str);
}

#[test]
fn creation_from_an_empty_prop_with_children_component_str() {
    let component_str: ReactContent = "<span>{myChildren}";
    let component = Component::from(component_str);

    assert_eq!(component.name, "span");
    assert_eq!(component.typo, ComponentType::HtmlElement);
    assert_eq!(component.props.len(), 0);
    assert_eq!(component.content, component_str);
}

#[test]
fn creation_from_a_truthy_boolean_prop_component_str() {
    let component_str: ReactContent = "<span disabled>";
    let component = Component::from(component_str);

    assert_eq!(component.name, "span");
    assert_eq!(component.typo, ComponentType::HtmlElement);
    assert_eq!(component.props.len(), 1);
    assert_eq!(component.get_prop("disabled").is_some(), true);
    assert_eq!(
        component
            .get_prop("disabled")
            .map(|(_, value)| value)
            .and_then(|value| value.as_ref()),
        None
    );
    assert_eq!(component.content, component_str);
}

#[test]
fn duplicate_attribute_keeps_last_value() {
    let component = Component::from("<a href='1' href='2'>");
    assert_eq!(component.props.len(), 1);
    assert_eq!(component.get_raw_prop("href"), Some("href='2'".to_string()));
}

#[test]
fn raw_prop_of_boolean_attribute_is_bare_name() {
    let component = Component::from("<input disabled />");
    assert_eq!(component.get_raw_prop("disabled"), Some("disabled".to_string()));
    assert_eq!(component.get_raw_prop("checked"), None);
}

#[test]
fn empty_fragment_gives_unnamed_element() {
    let component = Component::from("");
    assert_eq!(component.name, "");
    assert_eq!(component.typo, ComponentType::Unknown);
    assert_eq!(component.props.len(), 0);
}

#[test]
fn category_follows_first_letter_case() {
    assert_eq!(ComponentType::from("Élan"), ComponentType::ReactComponent);
    assert_eq!(ComponentType::from("élan"), ComponentType::HtmlElement);
    assert_eq!(ComponentType::from("1abc"), ComponentType::HtmlElement);
    assert_eq!(ComponentType::from(""), ComponentType::Unknown);
}

#[test]
fn add_prop_replaces_same_name() {
    let mut component = Component::new("div".to_string(), "div id='a'>");
    component.add_prop(("id".to_string(), Some("'a'".to_string())));
    component.add_prop(("hidden".to_string(), None));
    component.add_prop(("id".to_string(), Some("'b'".to_string())));
    assert_eq!(component.props.len(), 2);
    assert_eq!(component.get_raw_prop("id"), Some("id='b'".to_string()));
    assert_eq!(component.get_raw_prop("hidden"), Some("hidden".to_string()));
}

#[test]
fn split_by_props_keeps_delimiters() {
    let content: ReactContent = "div id='a'\n>x";
    assert_eq!(
        content.split_by_props(),
        vec!["div ".to_string(), "id='a'\n".to_string(), ">".to_string(), "x".to_string()]
    );
}

#[test]
fn split_by_components_cuts_at_each_lt() {
    let content: ReactContent = "a<b><</c";
    assert_eq!(
        content.split_by_components(),
        vec!["a".to_string(), "b>".to_string(), "".to_string(), "/c".to_string()]
    );
}
