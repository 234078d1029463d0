use appium_client::find::By;
use mobile_steps::selector::{android_query, get_android_element_by, QueryKind, SelectorError};
use mobile_steps::steps::AndroidElementSelector;

fn ui(q: &str) -> By {
    By::UiAutomator(q.to_string())
}

#[test]
fn class_name_is_quoted() {
    let sel = AndroidElementSelector::ClassName {
        class_name: "android.widget.Button".to_string(),
        instance: None,
    };
    assert_eq!(
        get_android_element_by(sel).unwrap(),
        ui("new UiSelector().className(\"android.widget.Button\")")
    );
}

#[test]
fn class_name_with_instance_is_quoted() {
    let sel = AndroidElementSelector::ClassName {
        class_name: "android.widget.EditText".to_string(),
        instance: Some(12),
    };
    assert_eq!(
        get_android_element_by(sel).unwrap(),
        ui("new UiSelector().className(\"android.widget.EditText\").instance(12)")
    );
}

#[test]
fn text_quotes_and_backslashes_are_escaped() {
    let sel = AndroidElementSelector::Text { text: "say \"hi\" \\o/".to_string() };
    assert_eq!(
        get_android_element_by(sel).unwrap(),
        ui("new UiSelector().textMatches(\"say \\\"hi\\\" \\\\o/\");")
    );
}

#[test]
fn description_query() {
    let sel = AndroidElementSelector::Description { description: "Open menu".to_string() };
    assert_eq!(
        get_android_element_by(sel).unwrap(),
        ui("new UiSelector().descriptionMatches(\"Open menu\");")
    );
}

#[test]
fn id_queries() {
    let sel = AndroidElementSelector::Id { id: "com.app:id/login".to_string() };
    assert_eq!(
        get_android_element_by(sel).unwrap(),
        ui("new UiSelector().resourceIdMatches(\"com.app:id/login\");")
    );
    let sel = AndroidElementSelector::IdWithIndex { id: "row".to_string(), index: 0 };
    assert_eq!(
        get_android_element_by(sel).unwrap(),
        ui("new UiSelector().resourceIdMatches(\"row\").index(0);")
    );
    let sel = AndroidElementSelector::IdWithIndex { id: "row".to_string(), index: 4294967295 };
    assert_eq!(
        get_android_element_by(sel).unwrap(),
        ui("new UiSelector().resourceIdMatches(\"row\").index(4294967295);")
    );
}

#[test]
fn xpath_passes_through_verbatim() {
    let x = "//android.widget.TextView[@text=\"Go\"]";
    let sel = AndroidElementSelector::Xpath { xpath: x.to_string() };
    assert_eq!(get_android_element_by(sel).unwrap(), By::Xpath(x.to_string()));
    let q = android_query(&AndroidElementSelector::Xpath { xpath: x.to_string() }).unwrap();
    assert_eq!(q.kind, QueryKind::Xpath);
    assert_eq!(q.text, x);
}

#[test]
fn empty_values_are_rejected() {
    let cases = vec![
        AndroidElementSelector::Text { text: String::new() },
        AndroidElementSelector::Xpath { xpath: String::new() },
        AndroidElementSelector::ClassName { class_name: String::new(), instance: Some(1) },
        AndroidElementSelector::Id { id: String::new() },
        AndroidElementSelector::IdWithIndex { id: String::new(), index: 3 },
        AndroidElementSelector::Description { description: String::new() },
    ];
    for sel in cases {
        assert_eq!(get_android_element_by(sel).unwrap_err(), SelectorError::EmptyValue);
    }
}

#[test]
fn negative_instance_is_rejected() {
    let sel = AndroidElementSelector::ClassName {
        class_name: "android.widget.Button".to_string(),
        instance: Some(-1),
    };
    assert_eq!(get_android_element_by(sel).unwrap_err(), SelectorError::NegativeInstance);
}
