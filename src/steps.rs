use vstd::prelude::*;

verus! {

/// How an element of the screen under test is located.
pub enum AndroidElementSelector {
    Text { text: String },
    Xpath { xpath: String },
    ClassName { class_name: String, instance: Option<i32> },
    Id { id: String },
    IdWithIndex { id: String, index: u32 },
    Description { description: String },
}

/// One action applied to the element that a step located.
pub enum AndroidAction {
    AssertVisible,
    TapOn,
    ScrollUntilVisible,
    InsertData { data: String },
    Pause(u64),
}

/// A step that runs on its own, without reading another script file.
pub enum AndroidNormalStep {
    AndroidElementStep { selector: AndroidElementSelector, actions: Vec<AndroidAction> },
    ScreenshotStep { take_screenshot: String },
    LogStep { log: String },
    Pause { pause: u64 },
}

/// A step of a script file: a step of its own, or the steps of another file.
pub enum AndroidStep {
    AndroidNormalStep(AndroidNormalStep),
    AndroidStepFile { step_file: String },
}

pub fn copy_selector(s: &AndroidElementSelector) -> (r: AndroidElementSelector)
    ensures
        r == *s,
{
    match s {
        AndroidElementSelector::Text { text } => AndroidElementSelector::Text { text: text.clone() },
        AndroidElementSelector::Xpath { xpath } => AndroidElementSelector::Xpath {
            xpath: xpath.clone(),
        },
        AndroidElementSelector::ClassName { class_name, instance } =>
            AndroidElementSelector::ClassName { class_name: class_name.clone(), instance: *instance },
        AndroidElementSelector::Id { id } => AndroidElementSelector::Id { id: id.clone() },
        AndroidElementSelector::IdWithIndex { id, index } => AndroidElementSelector::IdWithIndex {
            id: id.clone(),
            index: *index,
        },
        AndroidElementSelector::Description { description } =>
            AndroidElementSelector::Description { description: description.clone() },
    }
}

pub fn copy_action(a: &AndroidAction) -> (r: AndroidAction)
    ensures
        r == *a,
{
    match a {
        AndroidAction::AssertVisible => AndroidAction::AssertVisible,
        AndroidAction::TapOn => AndroidAction::TapOn,
        AndroidAction::ScrollUntilVisible => AndroidAction::ScrollUntilVisible,
        AndroidAction::InsertData { data } => AndroidAction::InsertData { data: data.clone() },
        AndroidAction::Pause(ms) => AndroidAction::Pause(*ms),
    }
}

pub fn copy_actions(v: &Vec<AndroidAction>) -> (r: Vec<AndroidAction>)
    ensures
        r@ == v@,
{
    let mut r: Vec<AndroidAction> = Vec::new();
    let mut i: usize = 0;
    while i < v.len()
        invariant
            i <= v@.len(),
            r@ == v@.subrange(0, i as int),
        decreases v@.len() - i,
    {
        r.push(copy_action(&v[i]));
        i = i + 1;
    }
    assert(r@ == v@);
    r
}

/// Two steps hold the same selector, actions and values.
pub open spec fn same_normal_step(a: AndroidNormalStep, b: AndroidNormalStep) -> bool {
    match (a, b) {
        (
            AndroidNormalStep::AndroidElementStep { selector: s1, actions: a1 },
            AndroidNormalStep::AndroidElementStep { selector: s2, actions: a2 },
        ) => s1 == s2 && a1@ == a2@,
        _ => a == b,
    }
}

pub fn copy_normal_step(s: &AndroidNormalStep) -> (r: AndroidNormalStep)
    ensures
        same_normal_step(r, *s),
{
    match s {
        AndroidNormalStep::AndroidElementStep { selector, actions } =>
            AndroidNormalStep::AndroidElementStep {
                selector: copy_selector(selector),
                actions: copy_actions(actions),
            },
        AndroidNormalStep::ScreenshotStep { take_screenshot } => AndroidNormalStep::ScreenshotStep {
            take_screenshot: take_screenshot.clone(),
        },
        AndroidNormalStep::LogStep { log } => AndroidNormalStep::LogStep { log: log.clone() },
        AndroidNormalStep::Pause { pause } => AndroidNormalStep::Pause { pause: *pause },
    }
}

} // verus!
