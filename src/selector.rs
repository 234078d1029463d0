use vstd::prelude::*;

use appium_client::find::By;

use crate::steps::AndroidElementSelector;

verus! {

#[verifier::external_type_specification]
pub struct ExBy(By);

/// Relies on appium_client's `By::xpath`: it wraps a copy of the query in `By::Xpath`.
pub assume_specification[ By::xpath ](query: &str) -> (r: By)
    ensures
        match r {
            By::Xpath(v) => v@ == query@,
            _ => false,
        },
;

/// Relies on appium_client's `By::uiautomator`: it wraps a copy of the query in
/// `By::UiAutomator`.
pub assume_specification[ By::uiautomator ](query: &str) -> (r: By)
    ensures
        match r {
            By::UiAutomator(v) => v@ == query@,
            _ => false,
        },
;

/// Why a selector cannot be turned into a driver query.
#[derive(PartialEq, Eq, Structural, Clone, Copy, Debug)]
pub enum SelectorError {
    /// The text, path, class, id or description is empty.
    EmptyValue,
    /// A class selector names a negative instance.
    NegativeInstance,
}

/// The query strategy that the driver is asked to use.
#[derive(PartialEq, Eq, Structural, Clone, Copy, Debug)]
pub enum QueryKind {
    Xpath,
    UiAutomator,
}

/// `s` with a backslash put before each `"` and each `\`, so that it can stand
/// inside a quoted Java string literal.
pub open spec fn escaped(s: Seq<char>) -> Seq<char>
    decreases s.len(),
{
    if s.len() == 0 {
        seq![]
    } else {
        let c = s.last();
        let tail = if c == '"' || c == '\\' { seq!['\\', c] } else { seq![c] };
        escaped(s.drop_last()) + tail
    }
}

pub open spec fn digit_char(d: nat) -> char {
    if d == 0 { '0' }
    else if d == 1 { '1' }
    else if d == 2 { '2' }
    else if d == 3 { '3' }
    else if d == 4 { '4' }
    else if d == 5 { '5' }
    else if d == 6 { '6' }
    else if d == 7 { '7' }
    else if d == 8 { '8' }
    else { '9' }
}

/// The decimal digits of `n`, most significant first, without leading zeros.
pub open spec fn decimal(n: nat) -> Seq<char>
    decreases n,
{
    if n < 10 {
        seq![digit_char(n)]
    } else {
        decimal(n / 10).push(digit_char(n % 10))
    }
}

/// A UiSelector call on a quoted, escaped literal: `new UiSelector().m("v")`.
pub open spec fn ui_call(method: Seq<char>, value: Seq<char>) -> Seq<char> {
    "new UiSelector()."@ + method + "(\""@ + escaped(value) + "\")"@
}

/// The selector's literal value, whose emptiness makes it malformed.
pub open spec fn selector_value(sel: AndroidElementSelector) -> Seq<char> {
    match sel {
        AndroidElementSelector::Text { text } => text@,
        AndroidElementSelector::Xpath { xpath } => xpath@,
        AndroidElementSelector::ClassName { class_name, .. } => class_name@,
        AndroidElementSelector::Id { id } => id@,
        AndroidElementSelector::IdWithIndex { id, .. } => id@,
        AndroidElementSelector::Description { description } => description@,
    }
}

/// The error that rejects `sel`, if any.
pub open spec fn selector_error(sel: AndroidElementSelector) -> Option<SelectorError> {
    if selector_value(sel).len() == 0 {
        Some(SelectorError::EmptyValue)
    } else {
        match sel {
            AndroidElementSelector::ClassName { instance: Some(i), .. } =>
                if i < 0 { Some(SelectorError::NegativeInstance) } else { None },
            _ => None,
        }
    }
}

/// The strategy and the query text that a well-formed selector maps to.
pub open spec fn selector_query(sel: AndroidElementSelector) -> (QueryKind, Seq<char>) {
    match sel {
        AndroidElementSelector::Xpath { xpath } => (QueryKind::Xpath, xpath@),
        AndroidElementSelector::Text { text } => (
            QueryKind::UiAutomator,
            ui_call("textMatches"@, text@) + ";"@,
        ),
        AndroidElementSelector::Description { description } => (
            QueryKind::UiAutomator,
            ui_call("descriptionMatches"@, description@) + ";"@,
        ),
        AndroidElementSelector::IdWithIndex { id, index } => (
            QueryKind::UiAutomator,
            ui_call("resourceIdMatches"@, id@) + ".index("@ + decimal(index as nat) + ");"@,
        ),
        AndroidElementSelector::Id { id } => (
            QueryKind::UiAutomator,
            ui_call("resourceIdMatches"@, id@) + ";"@,
        ),
        AndroidElementSelector::ClassName { class_name, instance } => match instance {
            Some(i) => (
                QueryKind::UiAutomator,
                ui_call("className"@, class_name@) + ".instance("@ + decimal(i as nat) + ")"@,
            ),
            None => (QueryKind::UiAutomator, ui_call("className"@, class_name@)),
        },
    }
}

/// A query for the driver's element lookup.
pub struct DriverQuery {
    pub kind: QueryKind,
    pub text: String,
}

fn digit_str(d: u64) -> (r: &'static str)
    requires
        d < 10,
    ensures
        r@ == seq![digit_char(d as nat)],
{
    let r = if d == 0 { "0" }
    else if d == 1 { "1" }
    else if d == 2 { "2" }
    else if d == 3 { "3" }
    else if d == 4 { "4" }
    else if d == 5 { "5" }
    else if d == 6 { "6" }
    else if d == 7 { "7" }
    else if d == 8 { "8" }
    else { "9" };
    proof {
        reveal_strlit("0");
        reveal_strlit("1");
        reveal_strlit("2");
        reveal_strlit("3");
        reveal_strlit("4");
        reveal_strlit("5");
        reveal_strlit("6");
        reveal_strlit("7");
        reveal_strlit("8");
        reveal_strlit("9");
    }
    r
}

/// Appends the decimal digits of `n` to `s`.
pub fn push_decimal(s: &mut String, n: u64)
    ensures
        final(s)@ == old(s)@ + decimal(n as nat),
    decreases n,
{
    if n < 10 {
        s.append(digit_str(n));
    } else {
        push_decimal(s, n / 10);
        s.append(digit_str(n % 10));
        assert(decimal(n as nat) == decimal((n / 10) as nat).push(digit_char((n % 10) as nat)));
        assert(final(s)@ =~= old(s)@ + decimal(n as nat));
    }
}

/// Appends `escaped(v)` to `s`.
pub fn push_escaped(s: &mut String, v: &str)
    ensures
        final(s)@ == old(s)@ + escaped(v@),
{
    let n = v.unicode_len();
    let mut i: usize = 0;
    while i < n
        invariant
            n == v@.len(),
            i <= n,
            s@ == old(s)@ + escaped(v@.subrange(0, i as int)),
        decreases n - i,
    {
        let c = v.get_char(i);
        let prev = Ghost(s@);
        if c == '"' || c == '\\' {
            s.append("\\");
        }
        s.append(v.substring_char(i, i + 1));
        proof {
            reveal_strlit("\\");
            let p = v@.subrange(0, i as int + 1);
            assert(p.drop_last() =~= v@.subrange(0, i as int));
            assert(p.last() == c);
            assert(v@.subrange(i as int, i as int + 1) =~= seq![c]);
            assert(s@ =~= old(s)@ + escaped(p));
        }
        i = i + 1;
    }
    assert(v@.subrange(0, n as int) =~= v@);
}

/// Appends `new UiSelector().method("value")` to `s`.
fn push_ui_call(s: &mut String, method: &str, value: &str)
    ensures
        final(s)@ == old(s)@ + ui_call(method@, value@),
{
    s.append("new UiSelector().");
    s.append(method);
    s.append("(\"");
    push_escaped(s, value);
    s.append("\")");
    assert(s@ =~= old(s)@ + ui_call(method@, value@));
}

/// Maps a selector to the driver query that locates its element, or to the
/// reason it is malformed.
pub fn android_query(sel: &AndroidElementSelector) -> (r: Result<DriverQuery, SelectorError>)
    ensures
        r is Err <==> selector_error(*sel) is Some,
        r is Err ==> Some(r->Err_0) == selector_error(*sel),
        r is Ok ==> (r->Ok_0.kind, r->Ok_0.text@) == selector_query(*sel),
{
    let value: &str = match sel {
        AndroidElementSelector::Text { text } => text.as_str(),
        AndroidElementSelector::Xpath { xpath } => xpath.as_str(),
        AndroidElementSelector::ClassName { class_name, .. } => class_name.as_str(),
        AndroidElementSelector::Id { id } => id.as_str(),
        AndroidElementSelector::IdWithIndex { id, .. } => id.as_str(),
        AndroidElementSelector::Description { description } => description.as_str(),
    };
    if value.unicode_len() == 0 {
        return Err(SelectorError::EmptyValue);
    }
    let mut q = String::new();
    let kind = match sel {
        AndroidElementSelector::Xpath { xpath } => {
            q.append(xpath.as_str());
            QueryKind::Xpath
        },
        AndroidElementSelector::Text { text } => {
            push_ui_call(&mut q, "textMatches", text.as_str());
            q.append(";");
            QueryKind::UiAutomator
        },
        AndroidElementSelector::Description { description } => {
            push_ui_call(&mut q, "descriptionMatches", description.as_str());
            q.append(";");
            QueryKind::UiAutomator
        },
        AndroidElementSelector::IdWithIndex { id, index } => {
            push_ui_call(&mut q, "resourceIdMatches", id.as_str());
            q.append(".index(");
            push_decimal(&mut q, *index as u64);
            q.append(");");
            QueryKind::UiAutomator
        },
        AndroidElementSelector::Id { id } => {
            push_ui_call(&mut q, "resourceIdMatches", id.as_str());
            q.append(";");
            QueryKind::UiAutomator
        },
        AndroidElementSelector::ClassName { class_name, instance } => {
            push_ui_call(&mut q, "className", class_name.as_str());
            match instance {
                Some(i) => {
                    if *i < 0 {
                        return Err(SelectorError::NegativeInstance);
                    }
                    q.append(".instance(");
                    push_decimal(&mut q, *i as u64);
                    q.append(")");
                },
                None => {},
            }
            QueryKind::UiAutomator
        },
    };
    proof {
        let sq = selector_query(*sel);
        assert(q@ =~= sq.1);
    }
    Ok(DriverQuery { kind, text: q })
}

/// Maps a selector to appium's locator for it, or to the reason it is
/// malformed; nothing is sent to the driver for a malformed one.
pub fn get_android_element_by(selector: AndroidElementSelector) -> (r: Result<By, SelectorError>)
    ensures
        r is Err <==> selector_error(selector) is Some,
        r is Err ==> Some(r->Err_0) == selector_error(selector),
        r is Ok ==> match selector_query(selector) {
            (QueryKind::Xpath, q) => match r->Ok_0 {
                By::Xpath(v) => v@ == q,
                _ => false,
            },
            (QueryKind::UiAutomator, q) => match r->Ok_0 {
                By::UiAutomator(v) => v@ == q,
                _ => false,
            },
        },
{
    match android_query(&selector) {
        Err(e) => Err(e),
        Ok(q) => Ok(query_locator(&q)),
    }
}

/// Appium's locator for a driver query.
pub fn query_locator(q: &DriverQuery) -> (r: By)
    ensures
        match q.kind {
            QueryKind::Xpath => match r {
                By::Xpath(v) => v@ == q.text@,
                _ => false,
            },
            QueryKind::UiAutomator => match r {
                By::UiAutomator(v) => v@ == q.text@,
                _ => false,
            },
        },
{
    match q.kind {
        QueryKind::Xpath => By::xpath(q.text.as_str()),
        QueryKind::UiAutomator => By::uiautomator(q.text.as_str()),
    }
}

/// How one character is written inside a quoted literal.
pub open spec fn escaped_char(c: char) -> Seq<char> {
    if c == '"' || c == '\\' { seq!['\\', c] } else { seq![c] }
}

/// Reads the body of a Java string literal from `s`, whose opening quote was
/// already read: the characters it stands for, and what follows its closing
/// quote; `None` if the literal is not closed.
pub open spec fn read_literal(s: Seq<char>) -> Option<(Seq<char>, Seq<char>)>
    decreases s.len(),
{
    if s.len() == 0 {
        None
    } else if s[0] == '"' {
        Some((seq![], s.subrange(1, s.len() as int)))
    } else if s[0] == '\\' && s.len() >= 2 {
        match read_literal(s.subrange(2, s.len() as int)) {
            Some((b, r)) => Some((seq![s[1]] + b, r)),
            None => None,
        }
    } else {
        match read_literal(s.subrange(1, s.len() as int)) {
            Some((b, r)) => Some((seq![s[0]] + b, r)),
            None => None,
        }
    }
}

proof fn lemma_escaped_front(c: char, t: Seq<char>)
    ensures
        escaped(seq![c] + t) == escaped_char(c) + escaped(t),
    decreases t.len(),
{
    let x = seq![c] + t;
    if t.len() == 0 {
        assert(x.drop_last() =~= Seq::<char>::empty());
        assert(escaped(x.drop_last()) == Seq::<char>::empty());
        assert(x.last() == c);
        assert(escaped(x) =~= escaped_char(c));
        assert(escaped(t) =~= seq![]);
    } else {
        assert(x.drop_last() =~= seq![c] + t.drop_last());
        lemma_escaped_front(c, t.drop_last());
        assert(x.last() == t.last());
        assert(escaped(x) =~= escaped_char(c) + escaped(t));
    }
}

/// The literal that a query writes for `v` gives back exactly `v` when read,
/// and ends at the closing quote that follows it: no character of `v` can
/// close the literal early or change what comes after it.
pub proof fn lemma_literal_round_trip(v: Seq<char>, rest: Seq<char>)
    ensures
        read_literal(escaped(v) + seq!['"'] + rest) == Some((v, rest)),
    decreases v.len(),
{
    if v.len() == 0 {
        let s = escaped(v) + seq!['"'] + rest;
        assert(s =~= seq!['"'] + rest);
        assert(s.subrange(1, s.len() as int) =~= rest);
    } else {
        let c = v[0];
        let t = v.subrange(1, v.len() as int);
        assert(v =~= seq![c] + t);
        lemma_escaped_front(c, t);
        lemma_literal_round_trip(t, rest);
        let s = escaped(v) + seq!['"'] + rest;
        let tail = escaped(t) + seq!['"'] + rest;
        if c == '"' || c == '\\' {
            assert(s =~= seq!['\\', c] + tail);
            assert(s.subrange(2, s.len() as int) =~= tail);
        } else {
            assert(s =~= seq![c] + tail);
            assert(s.subrange(1, s.len() as int) =~= tail);
        }
        assert(seq![c] + t =~= v);
    }
}

} // verus!
