//! JSON values as the probes read and write them.
use vstd::prelude::*;
use vstd::string::*;

use serde_json::Value;

use crate::session::{json_read, lemma_json_reads_one};
use crate::text::{chars_of, code_of, decimal, hex, push_u64, same_text};

verus! {

/// A JSON value.
#[derive(Debug)]
pub enum Json {
    Null,
    Bool(bool),
    /// A number: how it is written, and its value where it is an unsigned
    /// integer of 64 bits.
    Number(String, Option<u64>),
    Text(String),
    List(Vec<Json>),
    /// Fields in order, no key twice.
    Object(Vec<(String, Json)>),
}

/// The contents of a JSON value.
pub enum JsonView {
    Null,
    Bool(bool),
    Number(Seq<char>, Option<u64>),
    Text(Seq<char>),
    List(Seq<JsonView>),
    Object(Seq<(Seq<char>, JsonView)>),
}

/// The contents of a value.
pub open spec fn json_view(json: Json) -> JsonView
    decreases json,
{
    match json {
        Json::Null => JsonView::Null,
        Json::Bool(b) => JsonView::Bool(b),
        Json::Number(text, unsigned) => JsonView::Number(text@, unsigned),
        Json::Text(text) => JsonView::Text(text@),
        Json::List(items) => JsonView::List(list_view(items@)),
        Json::Object(fields) => JsonView::Object(fields_view(fields@)),
    }
}

/// The contents of a list of values.
pub open spec fn list_view(items: Seq<Json>) -> Seq<JsonView>
    decreases items,
{
    Seq::new(
        items.len(),
        |i: int|
            if 0 <= i < items.len() {
                json_view(items[i])
            } else {
                JsonView::Null
            },
    )
}

/// The contents of an object's fields.
pub open spec fn fields_view(fields: Seq<(String, Json)>) -> Seq<(Seq<char>, JsonView)>
    decreases fields,
{
    Seq::new(
        fields.len(),
        |i: int|
            if 0 <= i < fields.len() {
                (fields[i].0@, json_view(fields[i].1))
            } else {
                (Seq::empty(), JsonView::Null)
            },
    )
}

impl View for Json {
    type V = JsonView;

    open spec fn view(&self) -> JsonView {
        json_view(*self)
    }
}

/// Whether a text stands on one line: no control character below the space.
pub open spec fn flat(s: Seq<char>) -> bool {
    forall|i: int| 0 <= i < s.len() ==> ' ' <= #[trigger] s[i]
}

/// Whether every number in a value is written on one line.
pub open spec fn flat_numbers(json: JsonView) -> bool
    decreases json,
{
    match json {
        JsonView::Number(text, _) => flat(text),
        JsonView::List(items) => forall|i: int|
            0 <= i < items.len() ==> flat_numbers(#[trigger] items[i]),
        JsonView::Object(fields) => flat_fields(fields),
        _ => true,
    }
}

/// Whether every number in an object's fields is written on one line.
pub open spec fn flat_fields(fields: Seq<(Seq<char>, JsonView)>) -> bool
    decreases fields,
{
    forall|i: int| 0 <= i < fields.len() ==> flat_numbers((#[trigger] fields[i]).1)
}

/// What reading a text as JSON gives: the value, or what is wrong with it.
pub uninterp spec fn json_reading(text: Seq<char>) -> Result<JsonView, Seq<char>>;

/// `serde_json::Value`: a parsed JSON value of the crate `serde_json`.
#[verifier::external_type_specification]
#[verifier::external_body]
pub struct ExValue(Value);

/// What a `serde_json::Value` holds.
pub uninterp spec fn held(value: Value) -> JsonView;

/// `serde_json::from_str` into a `serde_json::Value`, with the error in its
/// displayed form.
#[verifier::external_body]
fn parse_value(text: &str) -> (r: Result<Value, String>)
    ensures
        match r {
            Ok(value) => json_reading(text@) == Ok::<JsonView, Seq<char>>(held(value)),
            Err(why) => json_reading(text@) == Err::<JsonView, Seq<char>>(why@),
        },
{
    serde_json::from_str(text).map_err(|err| err.to_string())
}

/// A JSON value whose inner values are still parsed values.
enum Opened<'a> {
    Null,
    Bool(bool),
    Number(String, Option<u64>),
    Text(String),
    List(Vec<&'a Value>),
    Object(Vec<(String, &'a Value)>),
}

/// Whether a value is opened: its parts are at hand, in order.
spec fn opens(json: JsonView, opened: Opened) -> bool {
    match (json, opened) {
        (JsonView::Null, Opened::Null) => true,
        (JsonView::Bool(b), Opened::Bool(c)) => b == c,
        (JsonView::Number(text, unsigned), Opened::Number(s, u)) => text == s@ && unsigned == u
            && flat(text),
        (JsonView::Text(text), Opened::Text(s)) => text == s@,
        (JsonView::List(items), Opened::List(inner)) => {
            &&& items.len() == inner@.len()
            &&& forall|i: int| 0 <= i < items.len() ==> held(*(#[trigger] inner@[i])) == items[i]
        },
        (JsonView::Object(fields), Opened::Object(inner)) => {
            &&& fields.len() == inner@.len()
            &&& forall|i: int|
                0 <= i < fields.len() ==> (#[trigger] inner@[i]).0@ == fields[i].0 && held(
                    *inner@[i].1,
                ) == fields[i].1
        },
        _ => false,
    }
}

/// The variants of `serde_json::Value`, taken apart one level deep. A number is
/// given as it is displayed, on one line, and by `serde_json::Number::as_u64`.
#[verifier::external_body]
fn open_value(value: &Value) -> (opened: Opened<'_>)
    ensures
        opens(held(*value), opened),
{
    match value {
        Value::Null => Opened::Null,
        Value::Bool(b) => Opened::Bool(*b),
        Value::Number(n) => Opened::Number(n.to_string(), n.as_u64()),
        Value::String(s) => Opened::Text(s.clone()),
        Value::Array(items) => Opened::List(items.iter().collect()),
        Value::Object(fields) => {
            Opened::Object(fields.iter().map(|(k, v)| (k.clone(), v)).collect())
        },
    }
}

/// A parsed value as the library holds it.
fn value_of(value: &Value) -> (json: Json)
    ensures
        json@ == held(*value),
        flat_numbers(json@),
    decreases held(*value),
{
    let ghost whole = held(*value);
    match open_value(value) {
        Opened::Null => Json::Null,
        Opened::Bool(b) => Json::Bool(b),
        Opened::Number(text, unsigned) => Json::Number(text, unsigned),
        Opened::Text(text) => Json::Text(text),
        Opened::List(inner) => {
            let mut items: Vec<Json> = Vec::new();
            let mut i: usize = 0;
            while i < inner.len()
                invariant
                    whole == held(*value),
                    opens(whole, Opened::List(inner)),
                    i <= inner@.len(),
                    items@.len() == i,
                    forall|j: int|
                        0 <= j < i ==> json_view(#[trigger] items@[j]) == whole->List_0[j]
                            && flat_numbers(json_view(items@[j])),
                decreases inner@.len() - i,
            {
                assert(held(*inner@[i as int]) == whole->List_0[i as int]);
                assert(decreases_to!(whole => whole->List_0[i as int]));
                items.push(value_of(inner[i]));
                i += 1;
            }
            let ghost all = whole->List_0;
            assert(list_view(items@) =~= all);
            assert forall|j: int| 0 <= j < all.len() implies flat_numbers(#[trigger] all[j]) by {
                assert(json_view(items@[j]) == all[j]);
            }
            let json = Json::List(items);
            assert(json@ == whole && flat_numbers(json@));
            json
        },
        Opened::Object(inner) => {
            let mut fields: Vec<(String, Json)> = Vec::new();
            let mut i: usize = 0;
            while i < inner.len()
                invariant
                    whole == held(*value),
                    opens(whole, Opened::Object(inner)),
                    i <= inner@.len(),
                    fields@.len() == i,
                    forall|j: int|
                        0 <= j < i ==> (#[trigger] fields@[j]).0@ == whole->Object_0[j].0
                            && json_view(fields@[j].1) == whole->Object_0[j].1 && flat_numbers(
                            json_view(fields@[j].1),
                        ),
                decreases inner@.len() - i,
            {
                assert(held(*inner@[i as int].1) == whole->Object_0[i as int].1);
                assert(decreases_to!(whole => whole->Object_0[i as int].1));
                let (key, item) = &inner[i];
                fields.push((key.clone(), value_of(item)));
                i += 1;
            }
            let ghost all = whole->Object_0;
            assert(fields_view(fields@) =~= all);
            assert forall|j: int| 0 <= j < all.len() implies flat_numbers(
                (#[trigger] all[j]).1,
            ) by {
                assert(json_view(fields@[j].1) == all[j].1);
            }
            assert(flat_fields(all));
            let json = Json::Object(fields);
            assert(json@ == whole && flat_numbers(json@));
            json
        },
    }
}

/// A parsed value as `serde_json::to_string_pretty` writes it.
pub uninterp spec fn pretty_text(json: JsonView) -> Seq<char>;

/// `serde_json::to_string_pretty` of a parsed value: its text over several lines.
/// It cannot fail on a value whose keys are texts.
#[verifier::external_body]
fn lay_out(value: &Value) -> (text: String)
    ensures
        text@ == pretty_text(held(*value)),
{
    serde_json::to_string_pretty(value).unwrap_or_default()
}

/// How a value is laid out for reading: its compact text, parsed and written over
/// several lines. A text that does not parse stays as it is.
pub open spec fn laid_out(json: JsonView) -> Seq<char> {
    match json_reading(compact(json)) {
        Ok(value) => pretty_text(value),
        Err(_) => compact(json),
    }
}

/// Read a text as JSON.
pub(crate) fn read_json(text: &str) -> (r: Result<Json, String>)
    ensures
        match r {
            Ok(json) => json_reading(text@) == Ok::<JsonView, Seq<char>>(json@) && flat_numbers(
                json@,
            ),
            Err(why) => json_reading(text@) == Err::<JsonView, Seq<char>>(why@),
        },
{
    match parse_value(text) {
        Ok(value) => Ok(value_of(&value)),
        Err(why) => Err(why),
    }
}

/// The value of the field of that name, where a value is an object that has it.
pub open spec fn field(json: JsonView, key: Seq<char>) -> Option<JsonView> {
    match json {
        JsonView::Object(fields) => field_in(fields, key),
        _ => None,
    }
}

/// The value of the first field of that name.
pub open spec fn field_in(fields: Seq<(Seq<char>, JsonView)>, key: Seq<char>) -> Option<JsonView>
    decreases fields.len(),
{
    if fields.len() == 0 {
        None
    } else if fields[0].0 == key {
        Some(fields[0].1)
    } else {
        field_in(fields.drop_first(), key)
    }
}

/// The text of a field that is a string.
pub open spec fn text_field(json: JsonView, key: Seq<char>) -> Option<Seq<char>> {
    match field(json, key) {
        Some(JsonView::Text(text)) => Some(text),
        _ => None,
    }
}

impl Json {
    /// The value of a field, where this is an object that has it.
    pub fn get(&self, key: &str) -> (found: Option<&Json>)
        ensures
            match found {
                Some(value) => field(self@, key@) == Some(value@),
                None => field(self@, key@) is None,
            },
    {
        match self {
            Json::Object(fields) => find_field(fields, key),
            _ => None,
        }
    }

    /// The text of a field, where this is an object that has it as a string.
    pub fn get_text(&self, key: &str) -> (found: Option<&str>)
        ensures
            match found {
                Some(text) => text_field(self@, key@) == Some(text@),
                None => text_field(self@, key@) is None,
            },
    {
        match self.get(key) {
            Some(Json::Text(text)) => Some(text.as_str()),
            _ => None,
        }
    }
}

/// The value of the first field of that name.
pub fn find_field<'a>(fields: &'a Vec<(String, Json)>, key: &str) -> (found: Option<&'a Json>)
    ensures
        match found {
            Some(value) => field_in(fields_view(fields@), key@) == Some(value@),
            None => field_in(fields_view(fields@), key@) is None,
        },
{
    let ghost all = fields_view(fields@);
    let mut i: usize = 0;
    assert(all.skip(0) =~= all);
    while i < fields.len()
        invariant
            all == fields_view(fields@),
            i <= fields@.len(),
            field_in(all, key@) == field_in(all.skip(i as int), key@),
        decreases fields@.len() - i,
    {
        assert(all.skip(i as int).drop_first() =~= all.skip(i + 1));
        let (name, value) = &fields[i];
        if same_text(name.as_str(), key) {
            return Some(value);
        }
        i += 1;
    }
    None
}

/// How a character stands inside a JSON string.
pub open spec fn escaped(c: char) -> Seq<char> {
    if c == '"' || c == '\\' {
        seq!['\\', c]
    } else if c == '\x08' {
        seq!['\\', 'b']
    } else if c == '\t' {
        seq!['\\', 't']
    } else if c == '\n' {
        seq!['\\', 'n']
    } else if c == '\x0c' {
        seq!['\\', 'f']
    } else if c == '\r' {
        seq!['\\', 'r']
    } else if (c as u32) < 0x20 {
        seq!['\\', 'u'] + hex(c as nat, 4, false)
    } else {
        seq![c]
    }
}

/// How a text stands inside a JSON string.
pub open spec fn escaped_text(s: Seq<char>) -> Seq<char>
    decreases s.len(),
{
    if s.len() == 0 {
        Seq::empty()
    } else {
        escaped_text(s.drop_last()) + escaped(s.last())
    }
}

/// A text as a JSON string.
pub open spec fn quoted(s: Seq<char>) -> Seq<char> {
    seq!['"'] + escaped_text(s) + seq!['"']
}

/// `serde_json::to_string` of a string: the text in quotes, with the quote, the
/// backslash and the control characters escaped. It cannot fail on a string.
#[verifier::external_body]
pub(crate) fn quote(text: &str) -> (literal: String)
    ensures
        literal@ == quoted(text@),
{
    serde_json::to_string(text).unwrap_or_default()
}

/// A value in compact form: no space between its parts.
pub open spec fn compact(json: JsonView) -> Seq<char>
    decreases json,
{
    match json {
        JsonView::Null => "null"@,
        JsonView::Bool(b) => if b {
            "true"@
        } else {
            "false"@
        },
        JsonView::Number(text, _) => text,
        JsonView::Text(text) => quoted(text),
        JsonView::List(items) => "["@ + compact_items(items, items.len()) + "]"@,
        JsonView::Object(fields) => "{"@ + compact_fields(fields, fields.len()) + "}"@,
    }
}

/// The first `n` items of a list in compact form, with commas between.
pub open spec fn compact_items(items: Seq<JsonView>, n: nat) -> Seq<char>
    decreases items, n,
{
    if n == 0 || n > items.len() {
        Seq::empty()
    } else {
        compact_items(items, (n - 1) as nat) + comma((n - 1) as nat) + compact(items[n - 1])
    }
}

/// The first `n` fields of an object in compact form, with commas between.
pub open spec fn compact_fields(fields: Seq<(Seq<char>, JsonView)>, n: nat) -> Seq<char>
    decreases fields, n,
{
    if n == 0 || n > fields.len() {
        Seq::empty()
    } else {
        compact_fields(fields, (n - 1) as nat) + comma((n - 1) as nat) + quoted(fields[n - 1].0)
            + ":"@ + compact(fields[n - 1].1)
    }
}

/// What stands before the `n`-th part, counted from zero.
pub open spec fn comma(n: nat) -> Seq<char> {
    if n == 0 {
        Seq::empty()
    } else {
        ","@
    }
}

impl Json {
    /// The value, laid out for reading.
    pub fn to_pretty(&self) -> (text: String)
        ensures
            text@ == laid_out(self@),
    {
        let text = self.to_text();
        match parse_value(text.as_str()) {
            Ok(value) => lay_out(&value),
            Err(_) => text,
        }
    }

    /// The value in compact form.
    pub fn to_text(&self) -> (text: String)
        ensures
            text@ == compact(self@),
        decreases *self,
    {
        match self {
            Json::Null => "null".to_owned(),
            Json::Bool(b) => if *b {
                "true".to_owned()
            } else {
                "false".to_owned()
            },
            Json::Number(text, _) => text.clone(),
            Json::Text(text) => quote(text.as_str()),
            Json::List(items) => {
                let ghost views = list_view(items@);
                let mut text = "[".to_owned();
                let mut i: usize = 0;
                assert(text@ =~= "["@ + compact_items(views, 0));
                while i < items.len()
                    invariant
                        *self == Json::List(*items),
                        views == list_view(items@),
                        i <= items@.len(),
                        text@ == "["@ + compact_items(views, i as nat),
                    decreases items@.len() - i,
                {
                    let ghost before = compact_items(views, i as nat);
                    if i > 0 {
                        text.append(",");
                    }
                    assert(text@ =~= "["@ + (before + comma(i as nat)));
                    assert(decreases_to!(*self => self->List_0@));
                    assert(decreases_to!(self->List_0@ => items@[i as int]));
                    let item = items[i].to_text();
                    text.append(item.as_str());
                    i += 1;
                    assert(text@ =~= "["@ + compact_items(views, i as nat));
                }
                text.append("]");
                text
            },
            Json::Object(fields) => {
                let ghost views = fields_view(fields@);
                let mut text = "{".to_owned();
                let mut i: usize = 0;
                assert(text@ =~= "{"@ + compact_fields(views, 0));
                while i < fields.len()
                    invariant
                        *self == Json::Object(*fields),
                        views == fields_view(fields@),
                        i <= fields@.len(),
                        text@ == "{"@ + compact_fields(views, i as nat),
                    decreases fields@.len() - i,
                {
                    let ghost before = compact_fields(views, i as nat);
                    if i > 0 {
                        text.append(",");
                    }
                    assert(text@ =~= "{"@ + (before + comma(i as nat)));
                    let (key, value) = &fields[i];
                    text.append(quote(key.as_str()).as_str());
                    text.append(":");
                    assert(decreases_to!(*self => self->Object_0@));
                    assert(decreases_to!(self->Object_0@ => fields@[i as int].1));
                    let item = value.to_text();
                    text.append(item.as_str());
                    i += 1;
                    assert(text@ =~= "{"@ + compact_fields(views, i as nat));
                }
                text.append("}");
                text
            },
        }
    }
}

impl Json {
    /// A copy of the value.
    pub fn duplicate(&self) -> (json: Json)
        ensures
            json@ == self@,
        decreases *self,
    {
        match self {
            Json::Null => Json::Null,
            Json::Bool(b) => Json::Bool(*b),
            Json::Number(text, unsigned) => Json::Number(text.clone(), *unsigned),
            Json::Text(text) => Json::Text(text.clone()),
            Json::List(items) => {
                let ghost views = list_view(items@);
                let mut copies: Vec<Json> = Vec::new();
                let mut i: usize = 0;
                assert(list_view(copies@) =~= views.take(0));
                while i < items.len()
                    invariant
                        *self == Json::List(*items),
                        views == list_view(items@),
                        i <= items@.len(),
                        list_view(copies@) == views.take(i as int),
                    decreases items@.len() - i,
                {
                    let ghost before = copies@;
                    assert(decreases_to!(*self => self->List_0@));
                    assert(decreases_to!(self->List_0@ => items@[i as int]));
                    copies.push(items[i].duplicate());
                    i += 1;
                    assert(list_view(copies@) =~= list_view(before).push(views[i - 1]));
                    assert(views.take(i as int) =~= views.take(i - 1).push(views[i - 1]));
                }
                assert(views.take(i as int) =~= views);
                Json::List(copies)
            },
            Json::Object(fields) => {
                let ghost views = fields_view(fields@);
                let mut copies: Vec<(String, Json)> = Vec::new();
                let mut i: usize = 0;
                assert(fields_view(copies@) =~= views.take(0));
                while i < fields.len()
                    invariant
                        *self == Json::Object(*fields),
                        views == fields_view(fields@),
                        i <= fields@.len(),
                        fields_view(copies@) == views.take(i as int),
                    decreases fields@.len() - i,
                {
                    let ghost before = copies@;
                    let (key, value) = &fields[i];
                    assert(decreases_to!(*self => self->Object_0@));
                    assert(decreases_to!(self->Object_0@ => fields@[i as int].1));
                    copies.push((key.clone(), value.duplicate()));
                    i += 1;
                    assert(fields_view(copies@) =~= fields_view(before).push(views[i - 1]));
                    assert(views.take(i as int) =~= views.take(i - 1).push(views[i - 1]));
                }
                assert(views.take(i as int) =~= views);
                Json::Object(copies)
            },
        }
    }
}

/// A number of 64 bits as a JSON value.
pub fn number(n: u64) -> (json: Json)
    ensures
        json@ == JsonView::Number(decimal(n as nat), Some(n)),
{
    let mut text = String::new();
    push_u64(&mut text, n);
    assert(text@ =~= decimal(n as nat));
    Json::Number(text, Some(n))
}

/// A text as a JSON value.
pub fn string(text: &str) -> (json: Json)
    ensures
        json@ == JsonView::Text(text@),
{
    Json::Text(text.to_owned())
}

/// Whether a key comes before another, character by character.
pub open spec fn key_before(a: Seq<char>, b: Seq<char>) -> bool
    decreases a.len(),
{
    if b.len() == 0 {
        false
    } else if a.len() == 0 {
        true
    } else if a[0] != b[0] {
        (a[0] as int) < (b[0] as int)
    } else {
        key_before(a.drop_first(), b.drop_first())
    }
}

/// Fields in key order, with one more: in the place of the field of that key,
/// or before the first that it comes before.
pub open spec fn placed(
    fields: Seq<(Seq<char>, JsonView)>,
    key: Seq<char>,
    value: JsonView,
) -> Seq<(Seq<char>, JsonView)>
    decreases fields.len(),
{
    if fields.len() == 0 {
        seq![(key, value)]
    } else if fields[0].0 == key {
        seq![(key, value)] + fields.drop_first()
    } else if key_before(key, fields[0].0) {
        seq![(key, value)] + fields
    } else {
        seq![fields[0]] + placed(fields.drop_first(), key, value)
    }
}

/// Whether a key comes before another.
fn comes_before(a: &str, b: &str) -> (yes: bool)
    ensures
        yes == key_before(a@, b@),
{
    let x = chars_of(a);
    let y = chars_of(b);
    let mut i: usize = 0;
    assert(x@.skip(0) =~= x@);
    assert(y@.skip(0) =~= y@);
    while i < x.len() && i < y.len()
        invariant
            x@ == a@,
            y@ == b@,
            i <= x@.len(),
            i <= y@.len(),
            key_before(x@, y@) == key_before(x@.skip(i as int), y@.skip(i as int)),
        decreases x@.len() - i,
    {
        assert(x@.skip(i as int).drop_first() =~= x@.skip(i + 1));
        assert(y@.skip(i as int).drop_first() =~= y@.skip(i + 1));
        if x[i] != y[i] {
            return code_of(x[i]) < code_of(y[i]);
        }
        i += 1;
    }
    i < y.len()
}

/// Put a field into its place.
pub fn place(fields: &mut Vec<(String, Json)>, key: &str, value: Json)
    requires
        old(fields)@.len() < usize::MAX,
    ensures
        fields_view(final(fields)@) == placed(fields_view(old(fields)@), key@, value@),
{
    let ghost all = fields_view(fields@);
    let ghost start = fields@;
    let mut i: usize = 0;
    assert(all.take(0) + placed(all.skip(0), key@, value@) =~= placed(all, key@, value@)) by {
        assert(all.skip(0) =~= all);
    }
    while i < fields.len()
        invariant
            fields@ == start,
            start == old(fields)@,
            all == fields_view(start),
            start.len() < usize::MAX,
            i <= fields@.len(),
            placed(all, key@, value@) == all.take(i as int) + placed(
                all.skip(i as int),
                key@,
                value@,
            ),
        decreases fields@.len() - i,
    {
        let ghost rest = all.skip(i as int);
        assert(rest.drop_first() =~= all.skip(i + 1));
        if same_text(fields[i].0.as_str(), key) {
            fields[i] = (key.to_owned(), value);
            assert(fields_view(fields@) =~= placed(all, key@, value@));
            return;
        }
        if comes_before(key, fields[i].0.as_str()) {
            fields.insert(i, (key.to_owned(), value));
            assert(fields_view(fields@) =~= placed(all, key@, value@));
            return;
        }
        assert(all.take(i as int) + (seq![rest[0]] + placed(rest.drop_first(), key@, value@))
            =~= all.take(i + 1) + placed(rest.drop_first(), key@, value@));
        i += 1;
    }
    fields.push((key.to_owned(), value));
    assert(fields_view(fields@) =~= placed(all, key@, value@));
}

/// Whether fields stand in key order, no key twice.
pub open spec fn in_key_order(fields: Seq<(Seq<char>, JsonView)>) -> bool {
    forall|i: int, j: int|
        0 <= i < j < fields.len() ==> key_before(#[trigger] fields[i].0, #[trigger] fields[j].0)
}

/// Putting a field into its place keeps the key order, gives that field that
/// value, and leaves every other field as it was.
pub proof fn law_a_placed_field_is_found(
    fields: Seq<(Seq<char>, JsonView)>,
    key: Seq<char>,
    value: JsonView,
    other: Seq<char>,
)
    requires
        in_key_order(fields),
    ensures
        in_key_order(placed(fields, key, value)),
        field_in(placed(fields, key, value), key) == Some(value),
        other != key ==> field_in(placed(fields, key, value), other) == field_in(fields, other),
    decreases fields.len(),
{
    let after = placed(fields, key, value);
    lemma_placed_keys(fields, key, value);
    if fields.len() == 0 {
        assert(after.drop_first() =~= fields);
    } else {
        let rest = fields.drop_first();
        assert(in_key_order(rest)) by {
            assert forall|i: int, j: int| 0 <= i < j < rest.len() implies key_before(
                #[trigger] rest[i].0,
                #[trigger] rest[j].0,
            ) by {
                assert(rest[i] == fields[i + 1] && rest[j] == fields[j + 1]);
            }
        }
        if fields[0].0 == key {
            assert(after.drop_first() =~= rest);
            assert forall|i: int, j: int| 0 <= i < j < after.len() implies key_before(
                #[trigger] after[i].0,
                #[trigger] after[j].0,
            ) by {
                assert(after[i].0 == fields[i].0 && after[j].0 == fields[j].0);
            }
        } else if key_before(key, fields[0].0) {
            assert(after.drop_first() =~= fields);
            assert forall|i: int, j: int| 0 <= i < j < after.len() implies key_before(
                #[trigger] after[i].0,
                #[trigger] after[j].0,
            ) by {
                assert(after[j] == fields[j - 1]);
                if i == 0 {
                    if j > 1 {
                        assert(key_before(fields[0].0, fields[j - 1].0));
                        lemma_key_before_chains(key, fields[0].0, fields[j - 1].0);
                    }
                } else {
                    assert(after[i] == fields[i - 1]);
                }
            }
        } else {
            law_a_placed_field_is_found(rest, key, value, other);
            let tail = placed(rest, key, value);
            assert(after.drop_first() =~= tail);
            lemma_keys_compare(key, fields[0].0);
            lemma_placed_keys(rest, key, value);
            assert forall|i: int, j: int| 0 <= i < j < after.len() implies key_before(
                #[trigger] after[i].0,
                #[trigger] after[j].0,
            ) by {
                assert(after[j] == tail[j - 1]);
                if i == 0 {
                    if tail[j - 1].0 != key {
                        let k = choose|k: int| 0 <= k < rest.len() && rest[k].0 == tail[j - 1].0;
                        assert(rest[k] == fields[k + 1]);
                    }
                } else {
                    assert(after[i] == tail[i - 1]);
                }
            }
        }
    }
}

/// Putting a field into its place adds no other key.
proof fn lemma_placed_keys(fields: Seq<(Seq<char>, JsonView)>, key: Seq<char>, value: JsonView)
    ensures
        forall|j: int|
            0 <= j < placed(fields, key, value).len() ==> (#[trigger] placed(
                fields,
                key,
                value,
            )[j]).0 == key || (exists|k: int|
                0 <= k < fields.len() && fields[k].0 == placed(fields, key, value)[j].0),
    decreases fields.len(),
{
    let after = placed(fields, key, value);
    if fields.len() > 0 {
        let rest = fields.drop_first();
        lemma_placed_keys(rest, key, value);
        assert forall|j: int| 0 <= j < after.len() implies (#[trigger] after[j]).0 == key || (
        exists|k: int| 0 <= k < fields.len() && fields[k].0 == after[j].0) by {
            if fields[0].0 == key {
                if j > 0 {
                    assert(after[j] == fields[j]);
                }
            } else if key_before(key, fields[0].0) {
                if j > 0 {
                    assert(after[j] == fields[j - 1]);
                }
            } else if j == 0 {
                assert(after[0] == fields[0]);
            } else {
                let tail = placed(rest, key, value);
                assert(after[j] == tail[j - 1]);
                if tail[j - 1].0 != key {
                    let k = choose|k: int| 0 <= k < rest.len() && rest[k].0 == tail[j - 1].0;
                    assert(fields[k + 1].0 == after[j].0);
                }
            }
        }
    }
}

/// Of two different keys one comes before the other.
proof fn lemma_keys_compare(a: Seq<char>, b: Seq<char>)
    ensures
        a == b || key_before(a, b) || key_before(b, a),
    decreases a.len(),
{
    if a.len() == 0 && b.len() == 0 {
        assert(a =~= b);
    } else if a.len() > 0 && b.len() > 0 && a[0] == b[0] {
        lemma_keys_compare(a.drop_first(), b.drop_first());
        if a.drop_first() == b.drop_first() {
            assert(a =~= seq![a[0]] + a.drop_first());
            assert(b =~= seq![b[0]] + b.drop_first());
        }
    }
}

proof fn lemma_key_before_chains(a: Seq<char>, b: Seq<char>, c: Seq<char>)
    requires
        key_before(a, b),
        key_before(b, c),
    ensures
        key_before(a, c),
    decreases a.len(),
{
    if a.len() > 0 && b.len() > 0 && c.len() > 0 && a[0] == b[0] && b[0] == c[0] {
        lemma_key_before_chains(a.drop_first(), b.drop_first(), c.drop_first());
    }
}

/// A quoted text reads back as the text it was made from, by the JSON grammar.
pub proof fn law_a_quoted_text_reads_back(s: Seq<char>)
    ensures
        quoted(s).len() >= 2,
        quoted(s)[0] == '"',
        quoted(s).last() == '"',
        json_read(quoted(s).subrange(1, quoted(s).len() - 1)) == Some(s),
{
    assert(quoted(s).subrange(1, quoted(s).len() - 1) =~= escaped_text(s));
    lemma_escaped_reads(s, Seq::empty(), Seq::empty());
    assert(escaped_text(s) + Seq::<char>::empty() =~= escaped_text(s));
    assert(s + Seq::<char>::empty() =~= s);
}

/// A value in compact form stands on one line, whatever its texts hold.
pub proof fn law_a_value_is_one_line(json: JsonView)
    requires
        flat_numbers(json),
    ensures
        flat(compact(json)),
    decreases json,
{
    reveal_strlit("null");
    reveal_strlit("true");
    reveal_strlit("false");
    reveal_strlit("[");
    reveal_strlit("]");
    reveal_strlit("{");
    reveal_strlit("}");
    match json {
        JsonView::Text(text) => {
            lemma_quoted_is_flat(text);
        },
        JsonView::List(items) => {
            lemma_items_are_flat(items, items.len());
        },
        JsonView::Object(fields) => {
            lemma_fields_are_flat(fields, fields.len());
        },
        _ => {},
    }
}

proof fn lemma_items_are_flat(items: Seq<JsonView>, n: nat)
    requires
        forall|i: int| 0 <= i < items.len() ==> flat_numbers(#[trigger] items[i]),
    ensures
        flat(compact_items(items, n)),
    decreases items, n,
{
    reveal_strlit(",");
    if 0 < n <= items.len() {
        lemma_items_are_flat(items, (n - 1) as nat);
        law_a_value_is_one_line(items[n - 1]);
    }
}

proof fn lemma_fields_are_flat(fields: Seq<(Seq<char>, JsonView)>, n: nat)
    requires
        flat_fields(fields),
    ensures
        flat(compact_fields(fields, n)),
    decreases fields, n,
{
    reveal_strlit(",");
    reveal_strlit(":");
    if 0 < n <= fields.len() {
        lemma_fields_are_flat(fields, (n - 1) as nat);
        lemma_quoted_is_flat(fields[n - 1].0);
        law_a_value_is_one_line(fields[n - 1].1);
    }
}

proof fn lemma_quoted_is_flat(s: Seq<char>)
    ensures
        flat(quoted(s)),
{
    lemma_escaped_is_flat(s);
}

proof fn lemma_escaped_is_flat(s: Seq<char>)
    ensures
        flat(escaped_text(s)),
    decreases s.len(),
{
    if s.len() > 0 {
        lemma_escaped_is_flat(s.drop_last());
        lemma_escaped_char_is_flat(s.last());
    }
}

proof fn lemma_escaped_char_is_flat(c: char)
    ensures
        flat(escaped(c)),
{
    lemma_hex_is_flat(c as nat, 4);
}

proof fn lemma_hex_is_flat(n: nat, width: nat)
    ensures
        flat(hex(n, width, false)),
    decreases width,
{
    if width > 0 {
        lemma_hex_is_flat(n / 16, (width - 1) as nat);
    }
}

/// Putting a field whose numbers are on one line into place keeps them all so.
pub proof fn lemma_placed_is_flat(
    fields: Seq<(Seq<char>, JsonView)>,
    key: Seq<char>,
    value: JsonView,
)
    requires
        flat_fields(fields),
        flat_numbers(value),
    ensures
        flat_fields(placed(fields, key, value)),
    decreases fields.len(),
{
    if fields.len() > 0 {
        assert(flat_fields(fields.drop_first())) by {
            assert forall|i: int| 0 <= i < fields.drop_first().len() implies flat_numbers(
                (#[trigger] fields.drop_first()[i]).1,
            ) by {
                assert(fields.drop_first()[i] == fields[i + 1]);
            }
        }
        lemma_placed_is_flat(fields.drop_first(), key, value);
    }
}

proof fn lemma_escaped_reads(s: Seq<char>, tail: Seq<char>, read: Seq<char>)
    requires
        json_read(tail) == Some(read),
    ensures
        json_read(escaped_text(s) + tail) == Some(s + read),
    decreases s.len(),
{
    if s.len() == 0 {
        assert(escaped_text(s) + tail =~= tail);
        assert(s + read =~= read);
    } else {
        let c = s.last();
        let more = escaped(c) + tail;
        if c == '\x08' || c == '\x0c' {
            assert(more[0] == '\\');
            assert(more.skip(2) =~= tail);
        } else {
            lemma_json_reads_one(c, tail, read);
        }
        lemma_escaped_reads(s.drop_last(), more, seq![c] + read);
        assert(escaped_text(s) + tail =~= escaped_text(s.drop_last()) + more);
        assert(s.drop_last() + (seq![c] + read) =~= s + read);
    }
}

/// The first field of a name is the one that is found, whatever stands before and
/// behind it, and no other.
pub proof fn law_the_first_field_of_a_name_is_found(
    fields: Seq<(Seq<char>, JsonView)>,
    key: Seq<char>,
    k: int,
)
    requires
        0 <= k <= fields.len(),
        forall|j: int| 0 <= j < k ==> (#[trigger] fields[j]).0 != key,
        k < fields.len() ==> fields[k].0 == key,
    ensures
        k < fields.len() ==> field_in(fields, key) == Some(fields[k].1) && field(
            JsonView::Object(fields),
            key,
        ) == Some(fields[k].1),
        k == fields.len() ==> field_in(fields, key) is None && field(
            JsonView::Object(fields),
            key,
        ) is None,
    decreases fields.len(),
{
    if k > 0 {
        assert(fields[0].0 != key);
        let rest = fields.drop_first();
        assert forall|j: int| 0 <= j < k - 1 implies (#[trigger] rest[j]).0 != key by {
            assert(rest[j] == fields[j + 1]);
        }
        law_the_first_field_of_a_name_is_found(rest, key, k - 1);
    }
}

/// A field is read as a text only where it is one.
pub proof fn law_only_a_text_is_read_as_one(json: JsonView, key: Seq<char>)
    ensures
        field(json, key) matches Some(JsonView::Text(text)) ==> text_field(json, key) == Some(text),
        !(field(json, key) matches Some(JsonView::Text(_))) ==> text_field(json, key) is None,
        !(json is Object) ==> field(json, key) is None,
{
}

/// A list in compact form is its items in compact form, between brackets and with
/// one comma between two.
pub proof fn law_a_list_is_written_item_by_item(front: Seq<JsonView>, last: JsonView)
    ensures
        compact(JsonView::List(Seq::empty())) == "[]"@,
        front.len() == 0 ==> compact(JsonView::List(front.push(last))) == "["@ + compact(last)
            + "]"@,
        front.len() > 0 ==> compact(JsonView::List(front.push(last))) == compact(
            JsonView::List(front),
        ).drop_last() + ","@ + compact(last) + "]"@,
{
    reveal_strlit("[]");
    reveal_strlit("[");
    reveal_strlit("]");
    let all = front.push(last);
    let none = Seq::<JsonView>::empty();
    assert(compact_items(none, 0) == Seq::<char>::empty());
    assert(compact(JsonView::List(none)) =~= "[]"@);
    lemma_items_front(all, front, front.len());
    let n = all.len();
    assert(all[n - 1] == last);
    assert(compact_items(all, n) == compact_items(all, front.len()) + comma(front.len()) + compact(
        last,
    ));
    if front.len() == 0 {
        assert(compact(JsonView::List(all)) =~= "["@ + compact(last) + "]"@);
    } else {
        assert(compact(JsonView::List(all)) =~= compact(JsonView::List(front)).drop_last() + ","@
            + compact(last) + "]"@);
    }
}

proof fn lemma_items_front(a: Seq<JsonView>, b: Seq<JsonView>, n: nat)
    requires
        n <= a.len(),
        n <= b.len(),
        forall|i: int| 0 <= i < n ==> a[i] == b[i],
    ensures
        compact_items(a, n) == compact_items(b, n),
    decreases n,
{
    if n > 0 {
        lemma_items_front(a, b, (n - 1) as nat);
    }
}

/// An object in compact form is its fields, each as its quoted key, a colon and its
/// value in compact form, between braces and with one comma between two.
pub proof fn law_an_object_is_written_field_by_field(
    front: Seq<(Seq<char>, JsonView)>,
    key: Seq<char>,
    value: JsonView,
)
    ensures
        compact(JsonView::Object(Seq::empty())) == "{}"@,
        front.len() == 0 ==> compact(JsonView::Object(front.push((key, value)))) == "{"@ + quoted(
            key,
        ) + ":"@ + compact(value) + "}"@,
        front.len() > 0 ==> compact(JsonView::Object(front.push((key, value)))) == compact(
            JsonView::Object(front),
        ).drop_last() + ","@ + quoted(key) + ":"@ + compact(value) + "}"@,
{
    reveal_strlit("{}");
    reveal_strlit("{");
    reveal_strlit("}");
    let all = front.push((key, value));
    let none = Seq::<(Seq<char>, JsonView)>::empty();
    assert(compact_fields(none, 0) == Seq::<char>::empty());
    assert(compact(JsonView::Object(none)) =~= "{}"@);
    lemma_fields_front(all, front, front.len());
    let n = all.len();
    assert(all[n - 1] == (key, value));
    assert(compact_fields(all, n) == compact_fields(all, front.len()) + comma(front.len()) + quoted(
        key,
    ) + ":"@ + compact(value));
    if front.len() == 0 {
        assert(compact(JsonView::Object(all)) =~= "{"@ + quoted(key) + ":"@ + compact(value)
            + "}"@);
    } else {
        assert(compact(JsonView::Object(all)) =~= compact(JsonView::Object(front)).drop_last()
            + ","@ + quoted(key) + ":"@ + compact(value) + "}"@);
    }
}

proof fn lemma_fields_front(
    a: Seq<(Seq<char>, JsonView)>,
    b: Seq<(Seq<char>, JsonView)>,
    n: nat,
)
    requires
        n <= a.len(),
        n <= b.len(),
        forall|i: int| 0 <= i < n ==> a[i] == b[i],
    ensures
        compact_fields(a, n) == compact_fields(b, n),
    decreases n,
{
    if n > 0 {
        lemma_fields_front(a, b, (n - 1) as nat);
    }
}

/// Keys are ordered by the first character in which they differ, and one that
/// another continues comes before it.
pub proof fn law_keys_are_ordered_by_their_first_difference(
    same: Seq<char>,
    a: char,
    b: char,
    x: Seq<char>,
    y: Seq<char>,
)
    ensures
        a != b ==> (key_before(same.push(a) + x, same.push(b) + y) <==> (a as int) < (b as int)),
        key_before(same, same.push(a) + x),
        !key_before(same.push(a) + x, same),
        !key_before(same, same),
    decreases same.len(),
{
    let left = same.push(a) + x;
    let right = same.push(b) + y;
    if same.len() > 0 {
        let tail = same.drop_first();
        law_keys_are_ordered_by_their_first_difference(tail, a, b, x, y);
        assert(left.drop_first() =~= tail.push(a) + x);
        assert(right.drop_first() =~= tail.push(b) + y);
        assert(left[0] == same[0] && right[0] == same[0]);
    } else {
        assert(left[0] == a && right[0] == b);
    }
}

} // verus!
