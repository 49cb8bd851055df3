//! JSON values: a model of them, the operations that the settings logic needs,
//! and the bridge to `serde_json`, which reads and writes their text.

use crate::text;
use crate::text::same_text;
use crate::text::text_precedes;
use serde_json::Value;
use vstd::prelude::*;

verus! {

/// A JSON value as mathematics sees it. A number is the text that it prints
/// as, an object the sequence of its entries.
pub enum JsonModel {
    Null,
    Bool(bool),
    Number(Seq<char>),
    Text(Seq<char>),
    Array(Seq<JsonModel>),
    Object(Seq<(Seq<char>, JsonModel)>),
}

/// The number type of `serde_json`, carried through unread.
#[verifier::external_type_specification]
#[verifier::external_body]
pub struct ExNumber(serde_json::Number);

/// The value type of `serde_json`; `value_model` names what a value holds.
#[verifier::external_type_specification]
#[verifier::external_body]
pub struct ExValue(serde_json::Value);

/// The error with which `serde_json` refuses a text.
#[verifier::external_type_specification]
#[verifier::external_body]
pub struct ExError(serde_json::Error);

/// The text that `serde_json::Number` displays as.
pub uninterp spec fn number_text(n: serde_json::Number) -> Seq<char>;

/// What a `serde_json::Value` holds, with the entries of each object in the
/// order in which its map is walked.
pub uninterp spec fn value_model(v: serde_json::Value) -> JsonModel;

/// The text that `serde_json::Error` displays as.
pub uninterp spec fn error_text(e: serde_json::Error) -> Seq<char>;

/// What `serde_json::from_str` reads from a text as a `Value`, or the text of
/// the error with which it refuses it.
pub uninterp spec fn parsed(text: Seq<char>) -> Result<JsonModel, Seq<char>>;

/// What `serde_json::to_string_pretty` writes for a value.
pub uninterp spec fn rendered(m: JsonModel) -> Seq<char>;

/// A JSON value.
#[derive(Debug, PartialEq)]
pub enum Json {
    Null,
    Bool(bool),
    Number(serde_json::Number),
    Text(String),
    Array(Vec<Json>),
    Object(Vec<(String, Json)>),
}

impl Json {
    /// The mathematical value.
    pub open spec fn model(self) -> JsonModel
        decreases self,
    {
        match self {
            Json::Null => JsonModel::Null,
            Json::Bool(b) => JsonModel::Bool(b),
            Json::Number(n) => JsonModel::Number(number_text(n)),
            Json::Text(s) => JsonModel::Text(s@),
            Json::Array(items) => JsonModel::Array(
                Seq::new(
                    items@.len(),
                    |i: int|
                        if 0 <= i < items@.len() {
                            items@[i].model()
                        } else {
                            JsonModel::Null
                        },
                ),
            ),
            Json::Object(entries) => JsonModel::Object(
                Seq::new(
                    entries@.len(),
                    |i: int|
                        if 0 <= i < entries@.len() {
                            (entries@[i].0@, entries@[i].1.model())
                        } else {
                            (Seq::empty(), JsonModel::Null)
                        },
                ),
            ),
        }
    }
}

impl View for Json {
    type V = JsonModel;

    open spec fn view(&self) -> JsonModel {
        self.model()
    }
}

/// The mathematical values of a list.
pub open spec fn models(items: Seq<Json>) -> Seq<JsonModel> {
    items.map_values(|j: Json| j@)
}

/// The mathematical values of a list of entries.
pub open spec fn entry_models(entries: Seq<(String, Json)>) -> Seq<(Seq<char>, JsonModel)> {
    entries.map_values(|e: (String, Json)| (e.0@, e.1@))
}

/// The model of an array holds the models of its items.
pub broadcast proof fn lemma_array_model(items: Vec<Json>)
    ensures
        (#[trigger] Json::Array(items).model()) == JsonModel::Array(models(items@)),
{
    assert(Json::Array(items).model()->Array_0 =~= models(items@));
}

/// The model of an object holds the models of its entries.
pub broadcast proof fn lemma_object_model(entries: Vec<(String, Json)>)
    ensures
        (#[trigger] Json::Object(entries).model()) == JsonModel::Object(entry_models(entries@)),
{
    assert(Json::Object(entries).model()->Object_0 =~= entry_models(entries@));
}

/// Whether the keys of the entries stand in ascending order, each once.
pub open spec fn sorted_keys(entries: Seq<(Seq<char>, JsonModel)>) -> bool {
    forall|i: int, j: int|
        0 <= i < j < entries.len() ==> text::precedes((#[trigger] entries[i]).0, (#[trigger] entries[j]).0)
}

/// Whether the keys of every object in the value are in ascending order.
pub open spec fn well_formed(m: JsonModel) -> bool
    decreases m,
{
    match m {
        JsonModel::Array(items) => forall|i: int|
            0 <= i < items.len() ==> well_formed(#[trigger] items[i]),
        JsonModel::Object(entries) => {
            &&& sorted_keys(entries)
            &&& forall|i: int| 0 <= i < entries.len() ==> well_formed((#[trigger] entries[i]).1)
        },
        _ => true,
    }
}

/// Whether arrays and objects are nested at most `depth` deep.
pub open spec fn nested(m: JsonModel, depth: nat) -> bool
    decreases m,
{
    match m {
        JsonModel::Array(items) => {
            &&& depth > 0
            &&& forall|i: int|
                0 <= i < items.len() ==> nested(#[trigger] items[i], (depth - 1) as nat)
        },
        JsonModel::Object(entries) => {
            &&& depth > 0
            &&& forall|i: int|
                0 <= i < entries.len() ==> nested((#[trigger] entries[i]).1, (depth - 1) as nat)
        },
        _ => true,
    }
}

/// How deep arrays and objects may be nested in a text that is read.
pub open spec fn depth_limit() -> nat {
    127
}

/// Whether a number that prints as `text` is an integer: it has neither a point
/// nor an exponent.
pub open spec fn integral(text: Seq<char>) -> bool {
    !text.contains('.') && !text.contains('e')
}

/// Whether two values agree in all but the digits of numbers that are no integers.
pub open spec fn alike(a: JsonModel, b: JsonModel) -> bool
    decreases a,
{
    match (a, b) {
        (JsonModel::Null, JsonModel::Null) => true,
        (JsonModel::Bool(x), JsonModel::Bool(y)) => x == y,
        (JsonModel::Number(x), JsonModel::Number(y)) => x == y || !integral(x) && !integral(y),
        (JsonModel::Text(x), JsonModel::Text(y)) => x == y,
        (JsonModel::Array(x), JsonModel::Array(y)) => {
            &&& x.len() == y.len()
            &&& forall|i: int| 0 <= i < x.len() ==> alike(#[trigger] x[i], y[i])
        },
        (JsonModel::Object(x), JsonModel::Object(y)) => {
            &&& x.len() == y.len()
            &&& forall|i: int|
                0 <= i < x.len() ==> (#[trigger] x[i]).0 == y[i].0 && alike(x[i].1, y[i].1)
        },
        _ => false,
    }
}

/// Whether a text is read as the value, up to the digits of fractions.
pub open spec fn reads_as(text: Seq<char>, m: JsonModel) -> bool {
    parsed(text) matches Ok(back) && alike(m, back)
}

/// Whether a string stands between its quotes as it is: it holds no quote, no
/// backslash and no control character.
pub open spec fn unescaped(s: Seq<char>) -> bool {
    forall|i: int|
        0 <= i < s.len() ==> {
            let c = #[trigger] s[i];
            c >= ' ' && c != '"' && c != '\\'
        }
}

/// Whether no string and no key in the value needs an escape.
pub open spec fn plain(m: JsonModel) -> bool
    decreases m,
{
    match m {
        JsonModel::Text(s) => unescaped(s),
        JsonModel::Array(items) => forall|i: int|
            0 <= i < items.len() ==> plain(#[trigger] items[i]),
        JsonModel::Object(entries) => forall|i: int|
            0 <= i < entries.len() ==> unescaped((#[trigger] entries[i]).0) && plain(entries[i].1),
        _ => true,
    }
}

/// Whether the value holds no number.
pub open spec fn numberless(m: JsonModel) -> bool
    decreases m,
{
    match m {
        JsonModel::Number(_) => false,
        JsonModel::Array(items) => forall|i: int|
            0 <= i < items.len() ==> numberless(#[trigger] items[i]),
        JsonModel::Object(entries) => forall|i: int|
            0 <= i < entries.len() ==> numberless((#[trigger] entries[i]).1),
        _ => true,
    }
}

/// The space before a line: two blanks for each level.
pub open spec fn margin(level: nat) -> Seq<char> {
    Seq::new(2 * level, |i: int| ' ')
}

/// The items of an array, each on a line of its own, with a comma behind each but
/// the last.
pub open spec fn item_lines(items: Seq<JsonModel>, level: nat) -> Seq<char>
    decreases items,
{
    if items.len() == 0 {
        Seq::empty()
    } else {
        let before = item_lines(items.subrange(0, items.len() - 1), level);
        let comma = if items.len() == 1 {
            Seq::empty()
        } else {
            ","@
        };
        before + comma + "\n"@ + margin(level) + indented(items[items.len() - 1], level)
    }
}

/// The entries of an object, each on a line of its own, with a comma behind each
/// but the last.
pub open spec fn entry_lines(entries: Seq<(Seq<char>, JsonModel)>, level: nat) -> Seq<char>
    decreases entries,
{
    if entries.len() == 0 {
        Seq::empty()
    } else {
        let before = entry_lines(entries.subrange(0, entries.len() - 1), level);
        let comma = if entries.len() == 1 {
            Seq::empty()
        } else {
            ","@
        };
        proof {
            assert(decreases_to!(entries => entries[entries.len() - 1]));
            assert(decreases_to!(entries[entries.len() - 1] => entries[entries.len() - 1].1));
        }
        before + comma + "\n"@ + margin(level) + "\""@ + entries[entries.len() - 1].0 + "\": "@
            + indented(entries[entries.len() - 1].1, level)
    }
}

/// A value as indented text, where no string needs an escape.
pub open spec fn indented(m: JsonModel, level: nat) -> Seq<char>
    decreases m,
{
    match m {
        JsonModel::Null => "null"@,
        JsonModel::Bool(b) => if b {
            "true"@
        } else {
            "false"@
        },
        JsonModel::Number(text) => text,
        JsonModel::Text(s) => "\""@ + s + "\""@,
        JsonModel::Array(items) => if items.len() == 0 {
            "[]"@
        } else {
            "["@ + item_lines(items, level + 1) + "\n"@ + margin(level) + "]"@
        },
        JsonModel::Object(entries) => if entries.len() == 0 {
            "{}"@
        } else {
            "{"@ + entry_lines(entries, level + 1) + "\n"@ + margin(level) + "}"@
        },
    }
}

/// The text of an object with one entry.
pub proof fn lemma_single_entry_text(key: Seq<char>, value: JsonModel, level: nat)
    ensures
        entry_lines(seq![(key, value)], level) == "\n"@ + margin(level) + "\""@ + key
            + "\": "@ + indented(value, level),
{
    let entries = seq![(key, value)];
    assert(entries.subrange(0, 0) =~= Seq::empty());
    assert(entry_lines(entries.subrange(0, 0), level) == Seq::<char>::empty());
    assert(Seq::<char>::empty() + Seq::<char>::empty() + "\n"@ =~= "\n"@);
    assert(entry_lines(entries, level) =~= "\n"@ + margin(level) + "\""@ + key + "\": "@
        + indented(value, level));
}

/// The text of the entries of an object with one entry more.
pub proof fn lemma_next_entry_text(
    entries: Seq<(Seq<char>, JsonModel)>,
    key: Seq<char>,
    value: JsonModel,
    level: nat,
)
    requires
        entries.len() > 0,
    ensures
        entry_lines(entries.push((key, value)), level) == entry_lines(entries, level)
            + ","@ + "\n"@ + margin(level) + "\""@ + key + "\": "@ + indented(
            value,
            level,
        ),
{
    let all = entries.push((key, value));
    assert(all.subrange(0, all.len() - 1) =~= entries);
}

/// The text of an array with one item.
pub proof fn lemma_single_item_text(item: JsonModel, level: nat)
    ensures
        indented(JsonModel::Array(seq![item]), level) == "["@ + ("\n"@ + margin(level + 1)
            + indented(item, level + 1)) + "\n"@ + margin(level) + "]"@,
{
    let items = seq![item];
    assert(JsonModel::Array(items)->Array_0 == items);
    assert(items.subrange(0, 0) =~= Seq::empty());
    assert(item_lines(items.subrange(0, 0), level + 1) == Seq::<char>::empty());
    assert(Seq::<char>::empty() + Seq::<char>::empty() + "\n"@ =~= "\n"@);
    assert(item_lines(items, level + 1) =~= "\n"@ + margin(level + 1) + indented(
        item,
        level + 1,
    ));
}

/// A value without numbers holds integers alone.
pub proof fn lemma_numberless_integral(m: JsonModel)
    requires
        numberless(m),
    ensures
        all_integral(m),
    decreases m,
{
    match m {
        JsonModel::Array(items) => {
            assert(m->Array_0 == items);
            assert forall|i: int| 0 <= i < items.len() implies all_integral(#[trigger] items[i]) by {
                assert(numberless(items[i]));
                lemma_numberless_integral(items[i]);
            }
        },
        JsonModel::Object(entries) => {
            assert(m->Object_0 == entries);
            assert forall|i: int| 0 <= i < entries.len() implies all_integral(
                (#[trigger] entries[i]).1,
            ) by {
                assert(numberless(entries[i].1));
                lemma_numberless_integral(entries[i].1);
            }
        },
        _ => {},
    }
}

/// Whether every number in the value is an integer.
pub open spec fn all_integral(m: JsonModel) -> bool
    decreases m,
{
    match m {
        JsonModel::Number(text) => integral(text),
        JsonModel::Array(items) => forall|i: int|
            0 <= i < items.len() ==> all_integral(#[trigger] items[i]),
        JsonModel::Object(entries) => forall|i: int|
            0 <= i < entries.len() ==> all_integral((#[trigger] entries[i]).1),
        _ => true,
    }
}

/// A value without fractions is alike to itself alone.
pub proof fn law_alike_integral(a: JsonModel, b: JsonModel)
    requires
        alike(a, b),
        all_integral(a),
    ensures
        a == b,
    decreases a,
{
    match (a, b) {
        (JsonModel::Array(x), JsonModel::Array(y)) => {
            assert(a->Array_0 == x && b->Array_0 == y);
            assert forall|i: int| 0 <= i < x.len() implies x[i] == y[i] by {
                law_alike_integral(x[i], y[i]);
            }
            assert(x =~= y);
        },
        (JsonModel::Object(x), JsonModel::Object(y)) => {
            assert(a->Object_0 == x && b->Object_0 == y);
            assert forall|i: int| 0 <= i < x.len() implies x[i] == y[i] by {
                law_alike_integral(x[i].1, y[i].1);
            }
            assert(x =~= y);
        },
        _ => {},
    }
}

proof fn lemma_well_formed_items(items: Seq<JsonModel>)
    requires
        well_formed(JsonModel::Array(items)),
    ensures
        forall|i: int| 0 <= i < items.len() ==> well_formed(#[trigger] items[i]),
{
    assert(JsonModel::Array(items)->Array_0 == items);
}

/// One level of a `serde_json::Value`.
enum Node {
    Null,
    Bool(bool),
    Number(serde_json::Number),
    Text(String),
    Array(Vec<serde_json::Value>),
    Object(Vec<(String, serde_json::Value)>),
}

/// The mathematical values of a list of `serde_json` values.
pub open spec fn value_models(items: Seq<serde_json::Value>) -> Seq<JsonModel> {
    items.map_values(|v: serde_json::Value| value_model(v))
}

/// The mathematical values of a list of `serde_json` entries.
pub open spec fn value_entry_models(entries: Seq<(String, serde_json::Value)>) -> Seq<
    (Seq<char>, JsonModel),
> {
    entries.map_values(|e: (String, serde_json::Value)| (e.0@, value_model(e.1)))
}

impl Node {
    spec fn model(self) -> JsonModel {
        match self {
            Node::Null => JsonModel::Null,
            Node::Bool(b) => JsonModel::Bool(b),
            Node::Number(n) => JsonModel::Number(number_text(n)),
            Node::Text(s) => JsonModel::Text(s@),
            Node::Array(items) => JsonModel::Array(value_models(items@)),
            Node::Object(entries) => JsonModel::Object(value_entry_models(entries@)),
        }
    }

    spec fn ordered(self) -> bool {
        self matches Node::Object(entries) ==> sorted_keys(value_entry_models(entries@))
    }
}

/// Takes one level of a `serde_json::Value` apart. The contract claims that the
/// parts hold what the value held, and that the map of an object, a `BTreeMap`,
/// is walked in ascending order of its keys.
#[verifier::external_body]
fn open_value(value: serde_json::Value) -> (node: Node)
    ensures
        node.model() == value_model(value),
        node.ordered(),
{
    match value {
        Value::Null => Node::Null,
        Value::Bool(b) => Node::Bool(b),
        Value::Number(n) => Node::Number(n),
        Value::String(s) => Node::Text(s),
        Value::Array(items) => Node::Array(items),
        Value::Object(entries) => Node::Object(entries.into_iter().collect()),
    }
}

/// Puts one level of a `serde_json::Value` together. The contract claims that
/// the value holds what the parts held; collecting entries in ascending order
/// of their keys into the map of an object, a `BTreeMap`, keeps them as they are.
#[verifier::external_body]
fn close_value(node: Node) -> (value: serde_json::Value)
    requires
        node.ordered(),
    ensures
        value_model(value) == node.model(),
{
    match node {
        Node::Null => Value::Null,
        Node::Bool(b) => Value::Bool(b),
        Node::Number(n) => Value::Number(n),
        Node::Text(s) => Value::String(s),
        Node::Array(items) => Value::Array(items),
        Node::Object(entries) => Value::Object(entries.into_iter().collect()),
    }
}

/// Converts a `serde_json` value.
fn from_value(value: serde_json::Value) -> (json: Json)
    ensures
        json@ == value_model(value),
        well_formed(json@),
    decreases value_model(value),
{
    broadcast use {lemma_array_model, lemma_object_model};

    let ghost m = value_model(value);
    match open_value(value) {
        Node::Null => Json::Null,
        Node::Bool(b) => Json::Bool(b),
        Node::Number(n) => Json::Number(n),
        Node::Text(s) => Json::Text(s),
        Node::Array(items) => {
            let mut out: Vec<Json> = Vec::new();
            let ghost all = items@;
            for item in iter: items.into_iter()
                invariant
                    iter.seq() == all,
                    m == value_model(value),
                    m == JsonModel::Array(value_models(all)),
                    out@.len() == iter.index(),
                    forall|i: int|
                        0 <= i < out@.len() ==> (#[trigger] out@[i])@ == value_model(all[i])
                            && well_formed(out@[i]@),
            {
                proof {
                    assert(decreases_to!(m => m->Array_0));
                    assert(m->Array_0[iter.index() as int] == value_model(item));
                    assert(decreases_to!(m->Array_0 => m->Array_0[iter.index() as int]));
                }
                out.push(from_value(item));
            }
            assert(models(out@) =~= value_models(all));
            Json::Array(out)
        },
        Node::Object(entries) => {
            let mut out: Vec<(String, Json)> = Vec::new();
            let ghost all = entries@;
            for entry in iter: entries.into_iter()
                invariant
                    iter.seq() == all,
                    m == value_model(value),
                    m == JsonModel::Object(value_entry_models(all)),
                    out@.len() == iter.index(),
                    forall|i: int|
                        0 <= i < out@.len() ==> (#[trigger] out@[i]).0@ == all[i].0@ && out@[i].1@
                            == value_model(all[i].1) && well_formed(out@[i].1@),
            {
                proof {
                    assert(decreases_to!(m => m->Object_0));
                    assert(m->Object_0[iter.index() as int].1 == value_model(entry.1));
                    assert(decreases_to!(m->Object_0 => m->Object_0[iter.index() as int]));
                    assert(decreases_to!(m->Object_0[iter.index() as int] => m->Object_0[iter.index() as int].1));
                }
                let (key, value) = entry;
                out.push((key, from_value(value)));
            }
            assert(entry_models(out@) =~= value_entry_models(all));
            Json::Object(out)
        },
    }
}

/// Converts to a `serde_json` value.
fn to_value(json: Json) -> (value: serde_json::Value)
    requires
        well_formed(json@),
    ensures
        value_model(value) == json@,
    decreases json,
{
    broadcast use {lemma_array_model, lemma_object_model};

    match json {
        Json::Null => close_value(Node::Null),
        Json::Bool(b) => close_value(Node::Bool(b)),
        Json::Number(n) => close_value(Node::Number(n)),
        Json::Text(s) => close_value(Node::Text(s)),
        Json::Array(items) => {
            let mut out: Vec<serde_json::Value> = Vec::new();
            let ghost all = items@;
            proof {
                lemma_well_formed_items(models(all));
            }
            for item in iter: items.into_iter()
                invariant
                    iter.seq() == all,
                    json == Json::Array(items),
                    items@ == all,
                    forall|i: int| 0 <= i < all.len() ==> well_formed((#[trigger] models(all)[i])),
                    out@.len() == iter.index(),
                    forall|i: int|
                        0 <= i < out@.len() ==> value_model(#[trigger] out@[i]) == all[i]@,
            {
                proof {
                    assert(models(all)[iter.index() as int] == item@);
                    assert(well_formed(item@));
                    assert(decreases_to!(json => json->Array_0));
                    assert(decreases_to!(items => items[iter.index() as int]));
                }
                out.push(to_value(item));
            }
            assert(value_models(out@) =~= models(all));
            close_value(Node::Array(out))
        },
        Json::Object(entries) => {
            let mut out: Vec<(String, serde_json::Value)> = Vec::new();
            let ghost all = entries@;
            for entry in iter: entries.into_iter()
                invariant
                    iter.seq() == all,
                    json == Json::Object(entries),
                    entries@ == all,
                    well_formed(JsonModel::Object(entry_models(all))),
                    out@.len() == iter.index(),
                    forall|i: int|
                        0 <= i < out@.len() ==> (#[trigger] out@[i]).0@ == all[i].0@ && value_model(
                            out@[i].1,
                        ) == all[i].1@,
            {
                proof {
                    assert(entry_models(all)[iter.index() as int].1 == entry.1@);
                    assert(well_formed(entry_models(all)[iter.index() as int].1));
                    assert(decreases_to!(json => json->Object_0));
                    assert(decreases_to!(entries => entries[iter.index() as int]));
                    assert(decreases_to!(entries[iter.index() as int] => entries[iter.index() as int].1));
                }
                let (key, value) = entry;
                out.push((key, to_value(value)));
            }
            assert(value_entry_models(out@) =~= entry_models(all));
            close_value(Node::Object(out))
        },
    }
}

/// When two numbers are equal: where they print alike, and where both are a
/// floating-point zero, with or without a sign.
pub open spec fn same_number(a: Seq<char>, b: Seq<char>) -> bool {
    ||| a == b
    ||| (a == "0.0"@ || a == "-0.0"@) && (b == "0.0"@ || b == "-0.0"@)
}

/// `==` of `serde_json::Number`. The contract claims that numbers are equal
/// where they print alike: an integer prints its digits, a float the shortest
/// text that only it reads back from, with a point or an exponent. The two
/// floating-point zeros print differently and are equal.
#[verifier::external_body]
fn number_equal(a: &serde_json::Number, b: &serde_json::Number) -> (same: bool)
    ensures
        same == same_number(number_text(*a), number_text(*b)),
{
    a == b
}

/// `serde_json::from_str` for a `Value`. The contract names what is read, or the
/// text of the error, which tells of this text alone what is wrong and where. It
/// claims that a text with deeper nesting than the limit is refused, and that
/// the indented text of a value within the limit, without numbers and without
/// strings that need an escape, is read as that value.
#[verifier::external_body]
fn read_value(text: &str) -> (result: Result<serde_json::Value, serde_json::Error>)
    ensures
        match result {
            Ok(value) => parsed(text@) == Ok::<_, Seq<char>>(value_model(value)) && nested(
                value_model(value),
                depth_limit(),
            ),
            Err(error) => parsed(text@) == Err::<JsonModel, _>(error_text(error)),
        },
        forall|m: JsonModel|
            text@ == #[trigger] indented(m, 0) && plain(m) && numberless(m) && well_formed(m)
                && nested(m, depth_limit()) ==> result is Ok && value_model(result->Ok_0) == m,
{
    serde_json::from_str(text)
}

/// `serde_json::to_string_pretty` for a `Value`. The contract names what is
/// written, and claims that writing succeeds, since the keys of a `Value` are
/// strings and memory takes every write. Where no string needs an escape, the
/// text is the indented one; how characters are escaped is left unsaid. It
/// claims also that the text, alone or with a line feed behind it, is read back
/// as the value where the reader's limit on nesting allows: strings and integers
/// as they were, a float as a float, which may differ in its last digits. A
/// float is read as its digits times a power of ten, and for no float that is
/// written, up to the largest, does that product overflow.
#[verifier::external_body]
fn write_value(value: &serde_json::Value) -> (result: Result<String, serde_json::Error>)
    ensures
        result is Ok,
        result->Ok_0@ == rendered(value_model(*value)),
        plain(value_model(*value)) ==> result->Ok_0@ == indented(value_model(*value), 0),
        nested(value_model(*value), depth_limit()) ==> {
            &&& reads_as(result->Ok_0@, value_model(*value))
            &&& reads_as(result->Ok_0@ + "\n"@, value_model(*value))
        },
{
    serde_json::to_string_pretty(value)
}

/// Reads a JSON text.
pub fn parse(text: &str) -> (result: Result<Json, serde_json::Error>)
    ensures
        match result {
            Ok(json) => parsed(text@) == Ok::<_, Seq<char>>(json@) && well_formed(json@) && nested(
                json@,
                depth_limit(),
            ),
            Err(error) => parsed(text@) == Err::<JsonModel, _>(error_text(error)),
        },
        forall|m: JsonModel|
            text@ == #[trigger] indented(m, 0) && plain(m) && numberless(m) && well_formed(m)
                && nested(m, depth_limit()) ==> result is Ok && result->Ok_0@ == m,
{
    match read_value(text) {
        Ok(value) => Ok(from_value(value)),
        Err(error) => Err(error),
    }
}

/// Writes a JSON value as indented text.
pub fn render(json: Json) -> (text: String)
    requires
        well_formed(json@),
    ensures
        text@ == rendered(json@),
        plain(json@) ==> text@ == indented(json@, 0),
        nested(json@, depth_limit()) ==> {
            &&& reads_as(text@, json@)
            &&& reads_as(text@ + "\n"@, json@)
        },
{
    write_value(&to_value(json)).unwrap()
}

/// Equality of JSON values: position by position, numbers as numbers.
pub open spec fn equal(a: JsonModel, b: JsonModel) -> bool
    decreases a,
{
    match (a, b) {
        (JsonModel::Null, JsonModel::Null) => true,
        (JsonModel::Bool(x), JsonModel::Bool(y)) => x == y,
        (JsonModel::Number(x), JsonModel::Number(y)) => same_number(x, y),
        (JsonModel::Text(x), JsonModel::Text(y)) => x == y,
        (JsonModel::Array(x), JsonModel::Array(y)) => {
            &&& x.len() == y.len()
            &&& forall|i: int| 0 <= i < x.len() ==> equal(#[trigger] x[i], y[i])
        },
        (JsonModel::Object(x), JsonModel::Object(y)) => {
            &&& x.len() == y.len()
            &&& forall|i: int|
                0 <= i < x.len() ==> (#[trigger] x[i]).0 == y[i].0 && equal(x[i].1, y[i].1)
        },
        _ => false,
    }
}

/// Every JSON value equals itself.
pub proof fn lemma_equal_reflexive(a: JsonModel)
    ensures
        equal(a, a),
    decreases a,
{
    match a {
        JsonModel::Array(x) => {
            assert forall|i: int| 0 <= i < x.len() implies equal(#[trigger] x[i], x[i]) by {
                lemma_equal_reflexive(x[i]);
            }
        },
        JsonModel::Object(x) => {
            assert forall|i: int| 0 <= i < x.len() implies (#[trigger] x[i]).0 == x[i].0 && equal(
                x[i].1,
                x[i].1,
            ) by {
                lemma_equal_reflexive(x[i].1);
            }
        },
        _ => {},
    }
}

/// Whether a list holds a value equal to `m`.
pub open spec fn holds_equal(items: Seq<JsonModel>, m: JsonModel) -> bool {
    exists|i: int| 0 <= i < items.len() && equal(#[trigger] items[i], m)
}

/// Whether the first entry with the key stands at `i`.
pub open spec fn key_at(entries: Seq<(Seq<char>, JsonModel)>, key: Seq<char>, i: int) -> bool {
    &&& 0 <= i < entries.len()
    &&& (#[trigger] entries[i]).0 == key
    &&& forall|j: int| 0 <= j < i ==> (#[trigger] entries[j]).0 != key
}

/// The value of the first entry with the key.
pub open spec fn lookup(entries: Seq<(Seq<char>, JsonModel)>, key: Seq<char>) -> Option<JsonModel> {
    if exists|i: int| key_at(entries, key, i) {
        Some(entries[choose|i: int| key_at(entries, key, i)].1)
    } else {
        None
    }
}

/// The value of a member of an object; nothing where `m` is no object.
pub open spec fn member(m: JsonModel, key: Seq<char>) -> Option<JsonModel> {
    match m {
        JsonModel::Object(entries) => lookup(entries, key),
        _ => None,
    }
}

/// Where the first entry with the key stands.
pub fn find_key(entries: &Vec<(String, Json)>, key: &str) -> (found: Option<usize>)
    ensures
        match found {
            Some(i) => key_at(entry_models(entries@), key@, i as int) && lookup(
                entry_models(entries@),
                key@,
            ) == Some(entries@[i as int].1@),
            None => lookup(entry_models(entries@), key@) is None && forall|i: int|
                0 <= i < entries@.len() ==> (#[trigger] entry_models(entries@)[i]).0 != key@,
        },
{
    let ghost all = entry_models(entries@);
    let mut i: usize = 0;
    while i < entries.len()
        invariant
            all == entry_models(entries@),
            i <= entries@.len(),
            forall|j: int| 0 <= j < i ==> (#[trigger] all[j]).0 != key@,
        decreases entries@.len() - i,
    {
        if same_text(entries[i].0.as_str(), key) {
            assert(all[i as int].0 == key@);
            assert(key_at(all, key@, i as int));
            return Some(i);
        }
        assert(all[i as int].0 != key@);
        i += 1;
    }
    None
}

impl Json {
    /// Whether two JSON values are equal.
    pub fn equals(&self, other: &Json) -> (same: bool)
        ensures
            same == equal(self@, other@),
        decreases self,
    {
        broadcast use {lemma_array_model, lemma_object_model};

        match (self, other) {
            (Json::Null, Json::Null) => true,
            (Json::Bool(x), Json::Bool(y)) => *x == *y,
            (Json::Number(x), Json::Number(y)) => number_equal(x, y),
            (Json::Text(x), Json::Text(y)) => same_text(x.as_str(), y.as_str()),
            (Json::Array(x), Json::Array(y)) => {
                let ghost xs = models(x@);
                let ghost ys = models(y@);
                if x.len() != y.len() {
                    return false;
                }
                let mut i: usize = 0;
                while i < x.len()
                    invariant
                        *self == Json::Array(*x),
                        self@ == JsonModel::Array(xs),
                        other@ == JsonModel::Array(ys),
                        xs == models(x@),
                        ys == models(y@),
                        x@.len() == y@.len(),
                        i <= x@.len(),
                        forall|j: int| 0 <= j < i ==> equal(#[trigger] xs[j], ys[j]),
                    decreases x@.len() - i,
                {
                    proof {
                        assert(decreases_to!(*self => *x));
                        assert(decreases_to!(*x => x[i as int]));
                        assert(xs[i as int] == x@[i as int]@ && ys[i as int] == y@[i as int]@);
                    }
                    if !x[i].equals(&y[i]) {
                        return false;
                    }
                    i += 1;
                }
                true
            },
            (Json::Object(x), Json::Object(y)) => {
                let ghost xs = entry_models(x@);
                let ghost ys = entry_models(y@);
                if x.len() != y.len() {
                    return false;
                }
                let mut i: usize = 0;
                while i < x.len()
                    invariant
                        *self == Json::Object(*x),
                        self@ == JsonModel::Object(xs),
                        other@ == JsonModel::Object(ys),
                        xs == entry_models(x@),
                        ys == entry_models(y@),
                        x@.len() == y@.len(),
                        i <= x@.len(),
                        forall|j: int|
                            0 <= j < i ==> (#[trigger] xs[j]).0 == ys[j].0 && equal(
                                xs[j].1,
                                ys[j].1,
                            ),
                    decreases x@.len() - i,
                {
                    proof {
                        assert(decreases_to!(*self => *x));
                        assert(decreases_to!(*x => x[i as int]));
                        assert(decreases_to!(x[i as int] => x[i as int].1));
                        assert(xs[i as int] == (x@[i as int].0@, x@[i as int].1@));
                        assert(ys[i as int] == (y@[i as int].0@, y@[i as int].1@));
                    }
                    if !same_text(x[i].0.as_str(), y[i].0.as_str()) || !x[i].1.equals(&y[i].1) {
                        return false;
                    }
                    i += 1;
                }
                true
            },
            _ => false,
        }
    }

    /// The member of an object with the key.
    pub fn get(&self, key: &str) -> (found: Option<&Json>)
        ensures
            match found {
                Some(value) => member(self@, key@) == Some(value@),
                None => member(self@, key@) is None,
            },
    {
        broadcast use lemma_object_model;

        match self {
            Json::Object(entries) => match find_key(entries, key) {
                Some(i) => Some(&entries[i].1),
                None => None,
            },
            _ => None,
        }
    }
}

/// How many entries stand before the place of the key: those up to the first
/// whose key does not precede it.
pub open spec fn slot(entries: Seq<(Seq<char>, JsonModel)>, key: Seq<char>) -> nat
    decreases entries.len(),
{
    if entries.len() == 0 || !text::precedes(entries[0].0, key) {
        0
    } else {
        1 + slot(entries.drop_first(), key)
    }
}

/// The entries with the key bound to the value: the first entry with the key
/// is rewritten, or a new one put in its place in the order of keys.
pub open spec fn put(
    entries: Seq<(Seq<char>, JsonModel)>,
    key: Seq<char>,
    value: JsonModel,
) -> Seq<(Seq<char>, JsonModel)> {
    if exists|i: int| key_at(entries, key, i) {
        entries.update(choose|i: int| key_at(entries, key, i), (key, value))
    } else {
        entries.insert(slot(entries, key) as int, (key, value))
    }
}

/// A key found at an index is looked up there.
pub proof fn lemma_lookup_at(entries: Seq<(Seq<char>, JsonModel)>, key: Seq<char>, i: int)
    requires
        key_at(entries, key, i),
    ensures
        lookup(entries, key) == Some(entries[i].1),
{
    let k = choose|k: int| key_at(entries, key, k);
    assert(key_at(entries, key, k));
    assert(k == i) by {
        if k < i {
            assert(entries[k].0 != key);
        } else if i < k {
            assert(entries[i].0 != key);
        }
    }
}

/// A key that occurs is found somewhere.
pub proof fn lemma_lookup_occurs(entries: Seq<(Seq<char>, JsonModel)>, i: int) -> (k: int)
    requires
        0 <= i < entries.len(),
    ensures
        key_at(entries, entries[i].0, k),
        k <= i,
        lookup(entries, entries[i].0) == Some(entries[k].1),
    decreases i,
{
    let key = entries[i].0;
    if forall|j: int| 0 <= j < i ==> (#[trigger] entries[j]).0 != key {
        lemma_lookup_at(entries, key, i);
        i
    } else {
        let j = choose|j: int| 0 <= j < i && (#[trigger] entries[j]).0 == key;
        lemma_lookup_occurs(entries, j)
    }
}

/// Putting a key that stands at an index rewrites the entry there.
pub proof fn lemma_put_at(
    entries: Seq<(Seq<char>, JsonModel)>,
    key: Seq<char>,
    i: int,
    value: JsonModel,
)
    requires
        key_at(entries, key, i),
    ensures
        put(entries, key, value) == entries.update(i, (key, value)),
{
    let k = choose|k: int| key_at(entries, key, k);
    assert(key_at(entries, key, k));
    assert(k == i) by {
        if k < i {
            assert(entries[k].0 != key);
        } else if i < k {
            assert(entries[i].0 != key);
        }
    }
}

/// The place of a key lies within the entries; all keys before it precede the key.
pub proof fn lemma_slot(entries: Seq<(Seq<char>, JsonModel)>, key: Seq<char>)
    ensures
        slot(entries, key) <= entries.len(),
        forall|i: int| 0 <= i < slot(entries, key) ==> text::precedes((#[trigger] entries[i]).0, key),
        slot(entries, key) < entries.len() ==> !text::precedes(
            entries[slot(entries, key) as int].0,
            key,
        ),
    decreases entries.len(),
{
    if entries.len() > 0 && text::precedes(entries[0].0, key) {
        let rest = entries.drop_first();
        lemma_slot(rest, key);
        assert forall|i: int| 0 <= i < slot(entries, key) implies text::precedes(
            (#[trigger] entries[i]).0,
            key,
        ) by {
            if i > 0 {
                assert(rest[i - 1] == entries[i]);
            }
        }
        if slot(entries, key) < entries.len() {
            assert(rest[slot(rest, key) as int] == entries[slot(entries, key) as int]);
        }
    }
}

/// What was put is found, and every other key is found as before.
pub proof fn lemma_lookup_put(
    entries: Seq<(Seq<char>, JsonModel)>,
    key: Seq<char>,
    value: JsonModel,
    other: Seq<char>,
)
    ensures
        lookup(put(entries, key, value), other) == if other == key {
            Some(value)
        } else {
            lookup(entries, other)
        },
{
    let after = put(entries, key, value);
    if exists|i: int| key_at(entries, key, i) {
        let k = choose|i: int| key_at(entries, key, i);
        assert(key_at(entries, key, k));
        assert forall|i: int| key_at(entries, other, i) == key_at(after, other, i) by {
            if key_at(entries, other, i) {
                assert(after[i].0 == other);
                assert forall|j: int| 0 <= j < i implies (#[trigger] after[j]).0 != other by {
                    assert(entries[j].0 != other);
                }
            }
            if key_at(after, other, i) {
                assert(entries[i].0 == other);
                assert forall|j: int| 0 <= j < i implies (#[trigger] entries[j]).0 != other by {
                    assert(after[j].0 != other);
                }
            }
        }
        if other == key {
            lemma_lookup_at(after, key, k);
        } else if exists|i: int| key_at(entries, other, i) {
            let i = choose|i: int| key_at(entries, other, i);
            lemma_lookup_at(entries, other, i);
            lemma_lookup_at(after, other, i);
        }
    } else {
        lemma_slot(entries, key);
        let at = slot(entries, key) as int;
        assert forall|j: int| 0 <= j < entries.len() implies (#[trigger] entries[j]).0 != key by {
            if entries[j].0 == key {
                let k = lemma_lookup_occurs(entries, j);
            }
        }
        assert(after[at] == (key, value));
        assert forall|j: int| 0 <= j < at implies (#[trigger] after[j]) == entries[j] by {}
        assert forall|j: int| at < j < after.len() implies (#[trigger] after[j]) == entries[
        j - 1] by {}
        if other == key {
            assert(key_at(after, key, at));
            lemma_lookup_at(after, key, at);
        } else if exists|i: int| key_at(entries, other, i) {
            let i = choose|i: int| key_at(entries, other, i);
            lemma_lookup_at(entries, other, i);
            let i2 = if i < at { i } else { i + 1 };
            assert(after[i2] == entries[i]);
            assert forall|j: int| 0 <= j < i2 implies (#[trigger] after[j]).0 != other by {
                if j < at {
                    assert(entries[j].0 != other);
                } else if j > at {
                    assert(entries[j - 1].0 != other);
                }
            }
            assert(key_at(after, other, i2));
            lemma_lookup_at(after, other, i2);
        } else {
            assert forall|i: int| !key_at(after, other, i) by {
                if key_at(after, other, i) {
                    let j = if i < at { i } else { i - 1 };
                    assert(entries[j].0 == other);
                    let k = lemma_lookup_occurs(entries, j);
                }
            }
        }
    }
}

/// Putting a well-formed value keeps an object well formed.
pub proof fn lemma_put_well_formed(
    entries: Seq<(Seq<char>, JsonModel)>,
    key: Seq<char>,
    value: JsonModel,
)
    requires
        well_formed(JsonModel::Object(entries)),
        well_formed(value),
    ensures
        well_formed(JsonModel::Object(put(entries, key, value))),
{
    let after = put(entries, key, value);
    assert(JsonModel::Object(entries)->Object_0 == entries);
    assert(JsonModel::Object(after)->Object_0 == after);
    if exists|i: int| key_at(entries, key, i) {
        let k = choose|i: int| key_at(entries, key, i);
        assert(key_at(entries, key, k));
        assert forall|i: int, j: int| 0 <= i < j < after.len() implies text::precedes(
            (#[trigger] after[i]).0,
            (#[trigger] after[j]).0,
        ) by {
            assert(after[i].0 == entries[i].0);
            assert(after[j].0 == entries[j].0);
        }
        assert forall|i: int| 0 <= i < after.len() implies well_formed((#[trigger] after[i]).1) by {
            if i != k {
                assert(after[i] == entries[i]);
            }
        }
    } else {
        lemma_slot(entries, key);
        let at = slot(entries, key) as int;
        assert forall|j: int| 0 <= j < entries.len() implies (#[trigger] entries[j]).0 != key by {
            if entries[j].0 == key {
                let k = lemma_lookup_occurs(entries, j);
            }
        }
        assert forall|j: int| at <= j < entries.len() implies text::precedes(
            key,
            (#[trigger] entries[j]).0,
        ) by {
            text::lemma_precedes_total(entries[at].0, key);
            assert(entries[at].0 != key);
            if at < j {
                text::lemma_precedes_transitive(key, entries[at].0, entries[j].0);
            }
        }
        assert forall|i: int, j: int| 0 <= i < j < after.len() implies text::precedes(
            (#[trigger] after[i]).0,
            (#[trigger] after[j]).0,
        ) by {
            let a = if i < at { i } else { i - 1 };
            let b = if j < at { j } else { j - 1 };
            if i != at {
                assert(after[i] == entries[a]);
            }
            if j != at {
                assert(after[j] == entries[b]);
            }
        }
        assert forall|i: int| 0 <= i < after.len() implies well_formed((#[trigger] after[i]).1) by {
            if i < at {
                assert(after[i] == entries[i]);
            } else if i > at {
                assert(after[i] == entries[i - 1]);
            }
        }
    }
}

/// Binds a key of an object to a value.
pub fn put_entry(entries: &mut Vec<(String, Json)>, key: String, value: Json)
    ensures
        entry_models(final(entries)@) == put(entry_models(old(entries)@), key@, value@),
{
    let ghost before = entry_models(entries@);
    match find_key(entries, key.as_str()) {
        Some(i) => {
            proof {
                lemma_put_at(before, key@, i as int, value@);
            }
            let ghost name = key@;
            let ghost bound = value@;
            entries.set(i, (key, value));
            assert(entry_models(entries@) =~= before.update(i as int, (name, bound)));
        },
        None => {
            let mut at: usize = 0;
            assert(before.skip(0) =~= before);
            while at < entries.len() && text_precedes(entries[at].0.as_str(), key.as_str())
                invariant
                    before == entry_models(entries@),
                    at <= entries@.len(),
                    slot(before, key@) == at + slot(before.skip(at as int), key@),
                decreases entries@.len() - at,
            {
                proof {
                    assert(before.skip(at as int)[0] == before[at as int]);
                    assert(before.skip(at as int).drop_first() =~= before.skip(at + 1));
                }
                at += 1;
            }
            proof {
                if at < entries@.len() {
                    assert(before.skip(at as int)[0] == before[at as int]);
                }
                assert(slot(before, key@) == at);
                assert(!exists|i: int| key_at(before, key@, i));
            }
            let ghost name = key@;
            let ghost bound = value@;
            entries.insert(at, (key, value));
            assert(entry_models(entries@) =~= before.insert(at as int, (name, bound)));
        },
    }
}

/// After a put every entry is the new one or one that was there.
pub proof fn lemma_put_entries(
    entries: Seq<(Seq<char>, JsonModel)>,
    key: Seq<char>,
    value: JsonModel,
    i: int,
)
    requires
        0 <= i < put(entries, key, value).len(),
    ensures
        put(entries, key, value)[i] == (key, value) || entries.contains(
            put(entries, key, value)[i],
        ),
{
    let after = put(entries, key, value);
    if exists|k: int| key_at(entries, key, k) {
        let k = choose|k: int| key_at(entries, key, k);
        assert(key_at(entries, key, k));
        if i != k {
            assert(after[i] == entries[i]);
        }
    } else {
        lemma_slot(entries, key);
        let at = slot(entries, key) as int;
        if i < at {
            assert(after[i] == entries[i]);
        } else if i > at {
            assert(after[i] == entries[i - 1]);
        }
    }
}

/// A value that is looked up is the value of an entry.
pub proof fn lemma_lookup_entry(entries: Seq<(Seq<char>, JsonModel)>, key: Seq<char>) -> (i: int)
    requires
        lookup(entries, key) is Some,
    ensures
        key_at(entries, key, i),
        lookup(entries, key) == Some(entries[i].1),
{
    let i = choose|i: int| key_at(entries, key, i);
    assert(key_at(entries, key, i));
    i
}

/// Putting a shallow value keeps an object shallow.
pub proof fn lemma_put_nested(
    entries: Seq<(Seq<char>, JsonModel)>,
    key: Seq<char>,
    value: JsonModel,
    depth: nat,
)
    requires
        nested(JsonModel::Object(entries), depth),
        nested(value, (depth - 1) as nat),
    ensures
        nested(JsonModel::Object(put(entries, key, value)), depth),
{
    let after = put(entries, key, value);
    assert(JsonModel::Object(entries)->Object_0 == entries);
    assert(JsonModel::Object(after)->Object_0 == after);
    assert forall|i: int| 0 <= i < after.len() implies nested(
        (#[trigger] after[i]).1,
        (depth - 1) as nat,
    ) by {
        lemma_put_entries(entries, key, value, i);
        if after[i] != (key, value) {
            let j = choose|j: int| 0 <= j < entries.len() && entries[j] == after[i];
            assert(nested(entries[j].1, (depth - 1) as nat));
        }
    }
}

/// What holds of an object holds of its members.
pub proof fn lemma_member_valid(m: JsonModel, key: Seq<char>, depth: nat)
    requires
        member(m, key) is Some,
    ensures
        well_formed(m) ==> well_formed(member(m, key)->0),
        nested(m, depth) ==> depth > 0 && nested(member(m, key)->0, (depth - 1) as nat),
{
    let entries = m->Object_0;
    let i = lemma_lookup_entry(entries, key);
    if well_formed(m) {
        assert(well_formed(entries[i].1));
    }
    if nested(m, depth) {
        assert(nested(entries[i].1, (depth - 1) as nat));
    }
}

/// Equal values have equal members.
pub proof fn lemma_equal_member(a: JsonModel, b: JsonModel, key: Seq<char>)
    requires
        equal(a, b),
    ensures
        member(a, key) is Some <==> member(b, key) is Some,
        member(a, key) is Some ==> equal(member(a, key)->0, member(b, key)->0),
{
    if let (JsonModel::Object(x), JsonModel::Object(y)) = (a, b) {
        assert(a->Object_0 == x && b->Object_0 == y);
        assert forall|i: int| key_at(x, key, i) == key_at(y, key, i) by {
            if key_at(x, key, i) {
                assert(y[i].0 == x[i].0);
                assert forall|j: int| 0 <= j < i implies (#[trigger] y[j]).0 != key by {
                    assert(x[j].0 == y[j].0);
                }
            }
            if key_at(y, key, i) {
                assert(x[i].0 == y[i].0);
                assert forall|j: int| 0 <= j < i implies (#[trigger] x[j]).0 != key by {
                    assert(y[j].0 == x[j].0);
                }
            }
        }
        if exists|i: int| key_at(x, key, i) {
            let i = choose|i: int| key_at(x, key, i);
            lemma_lookup_at(x, key, i);
            lemma_lookup_at(y, key, i);
            assert(equal(x[i].1, y[i].1));
        } else if exists|i: int| key_at(y, key, i) {
            let i = choose|i: int| key_at(y, key, i);
            assert(key_at(x, key, i));
        }
    }
}

/// Values that are alike have members that are alike.
pub proof fn lemma_alike_member(a: JsonModel, b: JsonModel, key: Seq<char>)
    requires
        alike(a, b),
    ensures
        member(a, key) is Some <==> member(b, key) is Some,
        member(a, key) is Some ==> alike(member(a, key)->0, member(b, key)->0),
{
    if let (JsonModel::Object(x), JsonModel::Object(y)) = (a, b) {
        assert(a->Object_0 == x && b->Object_0 == y);
        assert forall|i: int| key_at(x, key, i) == key_at(y, key, i) by {
            if key_at(x, key, i) {
                assert(y[i].0 == x[i].0);
                assert forall|j: int| 0 <= j < i implies (#[trigger] y[j]).0 != key by {
                    assert(x[j].0 == y[j].0);
                }
            }
            if key_at(y, key, i) {
                assert(x[i].0 == y[i].0);
                assert forall|j: int| 0 <= j < i implies (#[trigger] x[j]).0 != key by {
                    assert(y[j].0 == x[j].0);
                }
            }
        }
        if exists|i: int| key_at(x, key, i) {
            let i = choose|i: int| key_at(x, key, i);
            lemma_lookup_at(x, key, i);
            lemma_lookup_at(y, key, i);
            assert(alike(x[i].1, y[i].1));
        } else if exists|i: int| key_at(y, key, i) {
            let i = choose|i: int| key_at(y, key, i);
            assert(key_at(x, key, i));
        }
    }
}

/// A value equal to one without fractions stays equal to it in whatever is
/// alike to it.
pub proof fn lemma_equal_alike(a: JsonModel, b: JsonModel, m: JsonModel)
    requires
        alike(a, b),
        equal(a, m),
        all_integral(m),
    ensures
        equal(b, m),
    decreases a,
{
    match (a, b, m) {
        (JsonModel::Number(x), JsonModel::Number(y), JsonModel::Number(z)) => {
            reveal_strlit("0.0");
            reveal_strlit("-0.0");
            assert("0.0"@[1] == '.' && "-0.0"@[2] == '.');
            assert("0.0"@.contains('.') && "-0.0"@.contains('.'));
        },
        (JsonModel::Array(x), JsonModel::Array(y), JsonModel::Array(z)) => {
            assert(a->Array_0 == x && b->Array_0 == y && m->Array_0 == z);
            assert forall|i: int| 0 <= i < y.len() implies equal(#[trigger] y[i], z[i]) by {
                assert(alike(x[i], y[i]) && equal(x[i], z[i]) && all_integral(z[i]));
                lemma_equal_alike(x[i], y[i], z[i]);
            }
        },
        (JsonModel::Object(x), JsonModel::Object(y), JsonModel::Object(z)) => {
            assert(a->Object_0 == x && b->Object_0 == y && m->Object_0 == z);
            assert forall|i: int| 0 <= i < y.len() implies (#[trigger] y[i]).0 == z[i].0 && equal(
                y[i].1,
                z[i].1,
            ) by {
                assert(x[i].0 == y[i].0 && alike(x[i].1, y[i].1));
                assert(x[i].0 == z[i].0 && equal(x[i].1, z[i].1));
                assert(all_integral(z[i].1));
                lemma_equal_alike(x[i].1, y[i].1, z[i].1);
            }
        },
        _ => {},
    }
}

/// A key is looked up in the first entry that has it, and not found where none
/// has it.
pub proof fn law_lookup(entries: Seq<(Seq<char>, JsonModel)>, key: Seq<char>)
    ensures
        lookup(entries, key) is None <==> forall|i: int|
            0 <= i < entries.len() ==> (#[trigger] entries[i]).0 != key,
        forall|i: int|
            0 <= i < entries.len() && (#[trigger] entries[i]).0 == key && (forall|j: int|
                0 <= j < i ==> (#[trigger] entries[j]).0 != key) ==> lookup(entries, key) == Some(
                entries[i].1,
            ),
{
    if lookup(entries, key) is None {
        assert forall|i: int| 0 <= i < entries.len() implies (#[trigger] entries[i]).0 != key by {
            if entries[i].0 == key {
                let k = lemma_lookup_occurs(entries, i);
            }
        }
    } else {
        let i = lemma_lookup_entry(entries, key);
        assert(entries[i].0 == key);
    }
    assert forall|i: int|
        0 <= i < entries.len() && (#[trigger] entries[i]).0 == key && (forall|j: int|
            0 <= j < i ==> (#[trigger] entries[j]).0 != key) implies lookup(entries, key) == Some(
        entries[i].1,
    ) by {
        assert(key_at(entries, key, i));
        lemma_lookup_at(entries, key, i);
    }
}

/// Only objects have members, and they have those of their entries.
pub proof fn law_member(m: JsonModel, key: Seq<char>)
    ensures
        m matches JsonModel::Object(entries) ==> member(m, key) == lookup(entries, key),
        !(m is Object) ==> member(m, key) is None,
{
}

/// Putting rewrites the first entry with the key, or puts one entry more where
/// the keys before it precede it and the next does not; all other entries stay
/// in their order.
pub proof fn law_put(
    entries: Seq<(Seq<char>, JsonModel)>,
    key: Seq<char>,
    value: JsonModel,
    i: int,
)
    requires
        0 <= i <= entries.len(),
        forall|j: int| 0 <= j < i ==> (#[trigger] entries[j]).0 != key,
    ensures
        i < entries.len() && entries[i].0 == key ==> put(entries, key, value) == entries.update(
            i,
            (key, value),
        ),
        (forall|j: int| 0 <= j < entries.len() ==> (#[trigger] entries[j]).0 != key) && (forall|j: int|
            0 <= j < i ==> text::precedes((#[trigger] entries[j]).0, key)) && (i < entries.len()
            ==> !text::precedes(entries[i].0, key)) ==> put(entries, key, value) == entries.insert(
            i,
            (key, value),
        ),
{
    if i < entries.len() && entries[i].0 == key {
        assert(key_at(entries, key, i));
        lemma_put_at(entries, key, i, value);
    }
    if (forall|j: int| 0 <= j < entries.len() ==> (#[trigger] entries[j]).0 != key) && (forall|j: int|
        0 <= j < i ==> text::precedes((#[trigger] entries[j]).0, key)) && (i < entries.len()
        ==> !text::precedes(entries[i].0, key)) {
        assert(!exists|k: int| key_at(entries, key, k));
        lemma_slot(entries, key);
        let at = slot(entries, key) as int;
        if at < i {
            assert(text::precedes(entries[at].0, key));
        }
        if i < at {
            assert(text::precedes(entries[i].0, key));
        }
    }
}

/// A value with every negative floating-point zero written as the positive one.
pub open spec fn without_negative_zero(m: JsonModel) -> JsonModel
    decreases m,
{
    match m {
        JsonModel::Number(text) => JsonModel::Number(
            if text == "-0.0"@ {
                "0.0"@
            } else {
                text
            },
        ),
        JsonModel::Array(items) => JsonModel::Array(
            Seq::new(
                items.len(),
                |i: int|
                    if 0 <= i < items.len() {
                        without_negative_zero(items[i])
                    } else {
                        JsonModel::Null
                    },
            ),
        ),
        JsonModel::Object(entries) => JsonModel::Object(
            Seq::new(
                entries.len(),
                |i: int|
                    if 0 <= i < entries.len() {
                        (entries[i].0, without_negative_zero(entries[i].1))
                    } else {
                        (Seq::empty(), JsonModel::Null)
                    },
            ),
        ),
        _ => m,
    }
}

/// Values are equal exactly where they are the same but for the sign of a
/// floating-point zero.
pub proof fn law_equal(a: JsonModel, b: JsonModel)
    ensures
        equal(a, b) <==> without_negative_zero(a) == without_negative_zero(b),
    decreases a,
{
    let p = without_negative_zero(a);
    let q = without_negative_zero(b);
    match (a, b) {
        (JsonModel::Array(x), JsonModel::Array(y)) => {
            assert(a->Array_0 == x && b->Array_0 == y);
            let xs = p->Array_0;
            let ys = q->Array_0;
            assert(xs.len() == x.len() && ys.len() == y.len());
            assert(p is Array && q is Array);
            assert forall|i: int| 0 <= i < x.len() && i < y.len() implies equal(
                #[trigger] x[i],
                y[i],
            ) == (xs[i] == ys[i]) by {
                law_equal(x[i], y[i]);
            }
            if equal(a, b) {
                assert forall|i: int| 0 <= i < xs.len() implies xs[i] == ys[i] by {
                    assert(equal(x[i], y[i]));
                }
                assert(xs =~= ys);
            }
            if p == q {
                assert forall|i: int| 0 <= i < x.len() implies equal(#[trigger] x[i], y[i]) by {
                    assert(xs[i] == ys[i]);
                }
            }
        },
        (JsonModel::Object(x), JsonModel::Object(y)) => {
            assert(a->Object_0 == x && b->Object_0 == y);
            let xs = p->Object_0;
            let ys = q->Object_0;
            assert(xs.len() == x.len() && ys.len() == y.len());
            assert(p is Object && q is Object);
            assert forall|i: int| 0 <= i < x.len() && i < y.len() implies ((#[trigger] x[i]).0
                == y[i].0 && equal(x[i].1, y[i].1)) == (xs[i] == ys[i]) by {
                law_equal(x[i].1, y[i].1);
            }
            if equal(a, b) {
                assert forall|i: int| 0 <= i < xs.len() implies xs[i] == ys[i] by {
                    assert(x[i].0 == y[i].0 && equal(x[i].1, y[i].1));
                }
                assert(xs =~= ys);
            }
            if p == q {
                assert forall|i: int| 0 <= i < x.len() implies (#[trigger] x[i]).0 == y[i].0
                    && equal(x[i].1, y[i].1) by {
                    assert(xs[i] == ys[i]);
                }
            }
        },
        (JsonModel::Number(x), JsonModel::Number(y)) => {},
        _ => {},
    }
}

/// The mathematical value of a JSON value has its parts in their order.
pub proof fn law_view(json: Json)
    ensures
        json is Null ==> json@ is Null,
        json matches Json::Bool(b) ==> json@ == JsonModel::Bool(b),
        json matches Json::Number(n) ==> json@ == JsonModel::Number(number_text(n)),
        json matches Json::Text(s) ==> json@ == JsonModel::Text(s@),
        json matches Json::Array(items) ==> json@ is Array && json@->Array_0.len() == items@.len()
            && forall|i: int|
            0 <= i < items@.len() ==> (#[trigger] json@->Array_0[i]) == items@[i]@,
        json matches Json::Object(entries) ==> json@ is Object && json@->Object_0.len()
            == entries@.len() && forall|i: int|
            0 <= i < entries@.len() ==> (#[trigger] json@->Object_0[i]) == (
                entries@[i].0@,
                entries@[i].1@,
            ),
{
    broadcast use {lemma_array_model, lemma_object_model};

}

} // verus!
