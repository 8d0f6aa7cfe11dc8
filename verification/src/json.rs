//! JSON documents.

use vstd::prelude::*;
use vstd::string::*;

use crate::text::{parse_u64, parsed_unsigned, same_text};

verus! {

/// A JSON value, with its compact text.
pub struct Json {
    pub shown: String,
    pub node: Node,
}

/// What a JSON value is.
pub enum Node {
    Null,
    Bool(bool),
    Number,
    Text(String),
    List(Vec<Json>),
    /// Each name once.
    Object(Vec<(String, Json)>),
}

pub struct JsonView {
    pub shown: Seq<char>,
    pub node: NodeView,
}

pub enum NodeView {
    Null,
    Bool(bool),
    Number,
    Text(Seq<char>),
    List(Seq<JsonView>),
    Object(Seq<(Seq<char>, JsonView)>),
}

impl Json {
    pub open spec fn view(&self) -> JsonView
        decreases self,
    {
        JsonView {
            shown: self.shown@,
            node: match self.node {
                Node::Null => NodeView::Null,
                Node::Bool(b) => NodeView::Bool(b),
                Node::Number => NodeView::Number,
                Node::Text(text) => NodeView::Text(text@),
                Node::List(items) => NodeView::List(
                    Seq::new(
                        items@.len(),
                        |i: int|
                            if 0 <= i < items@.len() {
                                items@[i].view()
                            } else {
                                arbitrary()
                            },
                    ),
                ),
                Node::Object(fields) => NodeView::Object(
                    Seq::new(
                        fields@.len(),
                        |i: int|
                            if 0 <= i < fields@.len() {
                                (fields@[i].0@, fields@[i].1.view())
                            } else {
                                arbitrary()
                            },
                    ),
                ),
            },
        }
    }
}

// -------------------------------------------------------------------- parsing
/// A document of `serde_json`.
#[verifier::external_type_specification]
#[verifier::external_body]
pub struct ExValue(serde_json::Value);

/// What a `serde_json::Value` holds, with the compact text of each value in it.
pub uninterp spec fn contents(value: serde_json::Value) -> JsonView;

/// What `serde_json::from_slice` returns for bytes: the contents of a document,
/// or what is wrong with them.
pub uninterp spec fn json_of(body: Seq<u8>) -> Result<JsonView, Seq<char>>;

/// `serde_json::from_slice`: the document that bytes write. It depends on the
/// bytes alone; what it holds, and the wording of the error, is left to the
/// name.
#[verifier::external_body]
fn json_value(body: &[u8]) -> (out: Result<serde_json::Value, String>)
    ensures
        match out {
            Ok(value) => json_of(body@) == Ok::<JsonView, Seq<char>>(contents(value)),
            Err(error) => json_of(body@) == Err::<JsonView, Seq<char>>(error@),
        },
{
    serde_json::from_slice(body).map_err(|error: serde_json::Error| error.to_string())
}

/// Moves a `serde_json::Value` into a [`Json`], variant by variant, with the text
/// that its `Display` gives for each value.
#[verifier::external_body]
fn json_from(value: serde_json::Value) -> (json: Json)
    ensures
        json@ == contents(value),
{
    let shown = value.to_string();
    let node = match value {
        serde_json::Value::Null => Node::Null,
        serde_json::Value::Bool(b) => Node::Bool(b),
        serde_json::Value::Number(_) => Node::Number,
        serde_json::Value::String(text) => Node::Text(text),
        serde_json::Value::Array(list) => Node::List(list.into_iter().map(json_from).collect()),
        serde_json::Value::Object(map) => Node::Object(
            map.into_iter().map(|(name, field)| (name, json_from(field))).collect(),
        ),
    };
    Json { shown, node }
}

/// Reads a JSON document.
pub fn parse_json(body: &[u8]) -> (out: Result<Json, String>)
    ensures
        match out {
            Ok(json) => json_of(body@) == Ok::<JsonView, Seq<char>>(json@),
            Err(error) => json_of(body@) == Err::<JsonView, Seq<char>>(error@),
        },
{
    match json_value(body) {
        Ok(value) => Ok(json_from(value)),
        Err(error) => Err(error),
    }
}

// -------------------------------------------------------------------- reading
impl JsonView {
    /// The value of a field, if this is an object that has it.
    pub open spec fn field(self, name: Seq<char>) -> Option<JsonView> {
        match self.node {
            NodeView::Object(fields) => field_in(fields, name),
            _ => None,
        }
    }

    /// The text, if this is text.
    pub open spec fn text(self) -> Option<Seq<char>> {
        match self.node {
            NodeView::Text(text) => Some(text),
            _ => None,
        }
    }

    /// The flag, if this is one.
    pub open spec fn flag(self) -> Option<bool> {
        match self.node {
            NodeView::Bool(flag) => Some(flag),
            _ => None,
        }
    }

    /// The number, if this is one that is whole, not negative and fits.
    pub open spec fn number(self) -> Option<nat> {
        match self.node {
            NodeView::Number => parsed_unsigned(self.shown, u64::MAX as nat),
            _ => None,
        }
    }

    /// The items, if this is a list.
    pub open spec fn items(self) -> Option<Seq<JsonView>> {
        match self.node {
            NodeView::List(items) => Some(items),
            _ => None,
        }
    }

    /// The fields, if this is an object.
    pub open spec fn fields(self) -> Option<Seq<(Seq<char>, JsonView)>> {
        match self.node {
            NodeView::Object(fields) => Some(fields),
            _ => None,
        }
    }
}

/// A number by its text: the two zeros of a float are one.
pub open spec fn number_key(shown: Seq<char>) -> Seq<char> {
    if shown == "-0.0"@ {
        "0.0"@
    } else {
        shown
    }
}

/// Whether two values are equal. The fields of an object are in no order.
pub open spec fn same_value(a: JsonView, b: JsonView) -> bool
    decreases a,
{
    match (a.node, b.node) {
        (NodeView::Null, NodeView::Null) => true,
        (NodeView::Bool(x), NodeView::Bool(y)) => x == y,
        (NodeView::Number, NodeView::Number) => number_key(a.shown) == number_key(b.shown),
        (NodeView::Text(x), NodeView::Text(y)) => x == y,
        (NodeView::List(x), NodeView::List(y)) => x.len() == y.len() && forall|i: int|
            0 <= i < x.len() ==> same_value(#[trigger] x[i], y[i]),
        (NodeView::Object(x), NodeView::Object(y)) => x.len() == y.len() && forall|i: int|
            0 <= i < x.len() ==> match field_in(y, (#[trigger] x[i]).0) {
                Some(value) => same_value(x[i].1, value),
                None => false,
            },
        _ => false,
    }
}

/// The value of a field: the first of that name.
pub open spec fn field_in(fields: Seq<(Seq<char>, JsonView)>, name: Seq<char>) -> Option<JsonView>
    decreases fields.len(),
{
    if fields.len() == 0 {
        None
    } else if fields[0].0 == name {
        Some(fields[0].1)
    } else {
        field_in(fields.drop_first(), name)
    }
}

fn key_of_number(shown: &str) -> (key: &str)
    ensures
        key@ == number_key(shown@),
{
    if same_text(shown, "-0.0") {
        "0.0"
    } else {
        shown
    }
}

impl Json {
    pub fn null() -> (json: Json)
        ensures
            json@ == (JsonView { shown: "null"@, node: NodeView::Null }),
    {
        Json { shown: "null".to_owned(), node: Node::Null }
    }

    pub fn copy(&self) -> (out: Json)
        ensures
            out@ == self@,
        decreases self,
    {
        let shown = self.shown.clone();
        let node = match &self.node {
            Node::Null => Node::Null,
            Node::Bool(flag) => Node::Bool(*flag),
            Node::Number => Node::Number,
            Node::Text(text) => Node::Text(text.clone()),
            Node::List(items) => {
                let mut copies: Vec<Json> = Vec::new();
                let mut i: usize = 0;
                while i < items.len()
                    invariant
                        self.node == Node::List(*items),
                        i <= items@.len(),
                        copies@.len() == i,
                        forall|j: int| 0 <= j < i ==> (#[trigger] copies@[j])@ == items@[j]@,
                    decreases items@.len() - i,
                {
                    assert(decreases_to!(self.node->List_0@ => items@[i as int]));
                    copies.push(items[i].copy());
                    i = i + 1;
                }
                Node::List(copies)
            },
            Node::Object(fields) => {
                let mut copies: Vec<(String, Json)> = Vec::new();
                let mut i: usize = 0;
                while i < fields.len()
                    invariant
                        self.node == Node::Object(*fields),
                        i <= fields@.len(),
                        copies@.len() == i,
                        forall|j: int|
                            0 <= j < i ==> (#[trigger] copies@[j]).0@ == fields@[j].0@
                                && copies@[j].1@ == fields@[j].1@,
                    decreases fields@.len() - i,
                {
                    let field = &fields[i];
                    assert(decreases_to!(self.node->Object_0@ => fields@[i as int]));
                    copies.push((field.0.clone(), field.1.copy()));
                    i = i + 1;
                }
                Node::Object(copies)
            },
        };
        let out = Json { shown, node };
        proof {
            match (out@.node, self@.node) {
                (NodeView::List(x), NodeView::List(y)) => {
                    assert(x =~= y);
                },
                (NodeView::Object(x), NodeView::Object(y)) => {
                    assert(x =~= y);
                },
                _ => {},
            }
        }
        out
    }

    /// Whether another value is equal.
    pub fn same(&self, other: &Json) -> (same: bool)
        ensures
            same == same_value(self@, other@),
        decreases self,
    {
        match (&self.node, &other.node) {
            (Node::Null, Node::Null) => true,
            (Node::Bool(x), Node::Bool(y)) => *x == *y,
            (Node::Number, Node::Number) => same_text(
                key_of_number(self.shown.as_str()),
                key_of_number(other.shown.as_str()),
            ),
            (Node::Text(x), Node::Text(y)) => same_text(x.as_str(), y.as_str()),
            (Node::List(x), Node::List(y)) => {
                if x.len() != y.len() {
                    return false;
                }
                let ghost (a, b) = (self@.node->List_0, other@.node->List_0);
                let mut i: usize = 0;
                while i < x.len()
                    invariant
                        self.node == Node::List(*x),
                        other.node == Node::List(*y),
                        x@.len() == y@.len(),
                        i <= x@.len(),
                        a == self@.node->List_0,
                        b == other@.node->List_0,
                        forall|j: int| 0 <= j < i ==> same_value(#[trigger] a[j], b[j]),
                    decreases x@.len() - i,
                {
                    assert(a[i as int] == x@[i as int]@);
                    assert(b[i as int] == y@[i as int]@);
                    if !x[i].same(&y[i]) {
                        return false;
                    }
                    i = i + 1;
                }
                true
            },
            (Node::Object(x), Node::Object(y)) => {
                if x.len() != y.len() {
                    return false;
                }
                let ghost (a, b) = (self@.node->Object_0, other@.node->Object_0);
                let mut i: usize = 0;
                while i < x.len()
                    invariant
                        self.node == Node::Object(*x),
                        other.node == Node::Object(*y),
                        x@.len() == y@.len(),
                        i <= x@.len(),
                        a == self@.node->Object_0,
                        b == other@.node->Object_0,
                        forall|j: int|
                            0 <= j < i ==> match field_in(b, (#[trigger] a[j]).0) {
                                Some(value) => same_value(a[j].1, value),
                                None => false,
                            },
                    decreases x@.len() - i,
                {
                    let field = &x[i];
                    assert(a[i as int] == (field.0@, field.1@));
                    let equal = match other.get(field.0.as_str()) {
                        Some(value) => field.1.same(value),
                        None => false,
                    };
                    if !equal {
                        return false;
                    }
                    i = i + 1;
                }
                true
            },
            _ => false,
        }
    }

    /// The value of a field, if this is an object that has it.
    pub fn get(&self, name: &str) -> (out: Option<&Json>)
        ensures
            match out {
                Some(value) => self@.field(name@) == Some(value@),
                None => self@.field(name@) is None,
            },
    {
        match &self.node {
            Node::Object(fields) => {
                let ghost views = self@.node->Object_0;
                let mut i: usize = 0;
                assert(views.skip(0) =~= views);
                while i < fields.len()
                    invariant
                        i <= fields@.len(),
                        views.len() == fields@.len(),
                        forall|j: int|
                            0 <= j < fields@.len() ==> #[trigger] views[j] == (
                                fields@[j].0@,
                                fields@[j].1@,
                            ),
                        self@.field(name@) == field_in(views.skip(i as int), name@),
                    decreases fields@.len() - i,
                {
                    assert(views.skip(i as int)[0] == views[i as int]);
                    if same_text(fields[i].0.as_str(), name) {
                        return Some(&fields[i].1);
                    }
                    assert(views.skip(i as int).drop_first() =~= views.skip(i + 1));
                    i = i + 1;
                }
                assert(views.skip(i as int).len() == 0);
                None
            },
            _ => None,
        }
    }

    /// The text, if this is text.
    pub fn as_str(&self) -> (out: Option<&str>)
        ensures
            match out {
                Some(text) => self@.text() == Some(text@),
                None => self@.text() is None,
            },
    {
        match &self.node {
            Node::Text(text) => Some(text.as_str()),
            _ => None,
        }
    }

    /// The flag, if this is one.
    pub fn as_bool(&self) -> (out: Option<bool>)
        ensures
            out == self@.flag(),
    {
        match &self.node {
            Node::Bool(flag) => Some(*flag),
            _ => None,
        }
    }

    /// The number, if this is one that is whole, not negative and fits.
    pub fn as_u64(&self) -> (out: Option<u64>)
        ensures
            match out {
                Some(number) => self@.number() == Some(number as nat),
                None => self@.number() is None,
            },
    {
        match &self.node {
            Node::Number => parse_u64(self.shown.as_str()),
            _ => None,
        }
    }

    /// The items, if this is a list.
    pub fn as_list(&self) -> (out: Option<&Vec<Json>>)
        ensures
            match out {
                Some(items) => {
                    &&& self@.items() is Some
                    &&& self@.items()->Some_0.len() == items@.len()
                    &&& forall|i: int|
                        0 <= i < items@.len() ==> #[trigger] self@.items()->Some_0[i]
                            == items@[i]@
                },
                None => self@.items() is None,
            },
    {
        match &self.node {
            Node::List(items) => Some(items),
            _ => None,
        }
    }

    /// The fields, if this is an object.
    pub fn as_object(&self) -> (out: Option<&Vec<(String, Json)>>)
        ensures
            match out {
                Some(fields) => {
                    &&& self@.fields() is Some
                    &&& self@.fields()->Some_0.len() == fields@.len()
                    &&& forall|i: int|
                        0 <= i < fields@.len() ==> #[trigger] self@.fields()->Some_0[i] == (
                            fields@[i].0@,
                            fields@[i].1@,
                        )
                },
                None => self@.fields() is None,
            },
    {
        match &self.node {
            Node::Object(fields) => Some(fields),
            _ => None,
        }
    }
}

// ----------------------------------------------------------------------- laws
/// A field has the value of the first one of its name.
pub proof fn a_field_is_the_first_of_its_name(value: JsonView, name: Seq<char>, i: int)
    requires
        value.node is Object,
        0 <= i < value.node->Object_0.len(),
        value.node->Object_0[i].0 == name,
        forall|j: int| 0 <= j < i ==> (#[trigger] value.node->Object_0[j]).0 != name,
    ensures
        value.field(name) == Some(value.node->Object_0[i].1),
{
    first_in(value.node->Object_0, name, i);
}

proof fn first_in(fields: Seq<(Seq<char>, JsonView)>, name: Seq<char>, i: int)
    requires
        0 <= i < fields.len(),
        fields[i].0 == name,
        forall|j: int| 0 <= j < i ==> (#[trigger] fields[j]).0 != name,
    ensures
        field_in(fields, name) == Some(fields[i].1),
    decreases fields.len(),
{
    if i > 0 {
        let rest = fields.drop_first();
        assert(fields[0].0 != name);
        assert(rest[i - 1] == fields[i]);
        assert forall|j: int| 0 <= j < i - 1 implies (#[trigger] rest[j]).0 != name by {
            assert(rest[j] == fields[j + 1]);
        }
        first_in(rest, name, i - 1);
    }
}

/// A value that is no object has no field, and an object has no field of a name that none
/// of its fields has.
pub proof fn a_field_that_is_not_there_has_no_value(value: JsonView, name: Seq<char>)
    requires
        value.node is Object ==> forall|j: int|
            0 <= j < value.node->Object_0.len() ==> (#[trigger] value.node->Object_0[j]).0 != name,
    ensures
        value.field(name) is None,
{
    if value.node is Object {
        none_in(value.node->Object_0, name);
    }
}

proof fn none_in(fields: Seq<(Seq<char>, JsonView)>, name: Seq<char>)
    requires
        forall|j: int| 0 <= j < fields.len() ==> (#[trigger] fields[j]).0 != name,
    ensures
        field_in(fields, name) is None,
    decreases fields.len(),
{
    if fields.len() > 0 {
        let rest = fields.drop_first();
        assert(fields[0].0 != name);
        assert forall|j: int| 0 <= j < rest.len() implies (#[trigger] rest[j]).0 != name by {
            assert(rest[j] == fields[j + 1]);
        }
        none_in(rest, name);
    }
}

/// Values that are equal are of one kind: the same text, the same flag, lists of the same
/// length whose items are equal one by one, objects with as many fields of which each has
/// an equal one in the other.
pub proof fn equal_values_hold_the_same(a: JsonView, b: JsonView)
    requires
        same_value(a, b),
    ensures
        a.node is Null <==> b.node is Null,
        a.text() == b.text(),
        a.flag() == b.flag(),
        a.node is Number <==> b.node is Number,
        a.node is List <==> b.node is List,
        a.node is Object <==> b.node is Object,
        a.items() is Some ==> a.items()->Some_0.len() == b.items()->Some_0.len(),
        forall|i: int|
            a.node is List && 0 <= i < a.node->List_0.len() ==> same_value(
                #[trigger] a.node->List_0[i],
                b.node->List_0[i],
            ),
        a.fields() is Some ==> a.fields()->Some_0.len() == b.fields()->Some_0.len(),
        forall|i: int|
            a.node is Object && 0 <= i < a.node->Object_0.len() ==> b.field(
                (#[trigger] a.node->Object_0[i]).0,
            ) is Some && same_value(
                a.node->Object_0[i].1,
                b.field(a.node->Object_0[i].0)->Some_0,
            ),
{
}

/// Texts that are the same are equal, and so are numbers that are written alike, flags
/// that are the same, and nulls; texts that differ are not.
pub proof fn values_that_hold_the_same_are_equal(a: JsonView, b: JsonView)
    ensures
        a.node is Null && b.node is Null ==> same_value(a, b),
        a.text() is Some && b.text() is Some ==> (same_value(a, b) <==> a.text() == b.text()),
        a.flag() is Some && b.flag() is Some ==> (same_value(a, b) <==> a.flag() == b.flag()),
        a.node is Number && b.node is Number && a.shown == b.shown ==> same_value(a, b),
        a.node is Number && b.node is Number && same_value(a, b) && a.shown != b.shown ==> {
            ||| a.shown == "-0.0"@ && b.shown == "0.0"@
            ||| a.shown == "0.0"@ && b.shown == "-0.0"@
        },
{
}

} // verus!
