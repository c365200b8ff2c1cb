//! JSON documents.
//!
//! `serde_json` reads a document; what it read is then held as a tree of the library's own,
//! which the rest of the library works on.

use crate::number::double::Double;
use crate::text::equal;
use vstd::prelude::*;

verus! {

/// A JSON value.
#[derive(Debug)]
pub enum Json {
    Null,
    Bool(bool),
    /// A number, where it can be represented as a binary64 number.
    Number(Option<Double>),
    Text(String),
    Array(Vec<Json>),
    Object(Vec<Member>),
}

/// A member of a JSON object.
#[derive(Debug)]
pub struct Member {
    pub name: String,
    pub value: Json,
}

/// A JSON value as a mathematical tree.
pub enum JsonView {
    Null,
    Bool(bool),
    Number(Option<Double>),
    Text(Seq<char>),
    Array(Seq<JsonView>),
    Object(Seq<(Seq<char>, JsonView)>),
}

impl Json {
    pub open spec fn view(self) -> JsonView
        decreases self,
    {
        match self {
            Json::Null => JsonView::Null,
            Json::Bool(b) => JsonView::Bool(b),
            Json::Number(x) => JsonView::Number(x),
            Json::Text(s) => JsonView::Text(s@),
            Json::Array(items) => JsonView::Array(item_views(items, items.len() as nat)),
            Json::Object(members) => JsonView::Object(member_views(members, members.len() as nat)),
        }
    }
}

/// The first `n` items of an array as trees.
pub open spec fn item_views(items: Vec<Json>, n: nat) -> Seq<JsonView>
    decreases items, n,
{
    if n == 0 || n > items.len() {
        Seq::empty()
    } else {
        item_views(items, (n - 1) as nat).push(items[n - 1].view())
    }
}

/// The first `n` members of an object as trees.
pub open spec fn member_views(members: Vec<Member>, n: nat) -> Seq<(Seq<char>, JsonView)>
    decreases members, n,
{
    if n == 0 || n > members.len() {
        Seq::empty()
    } else {
        member_views(members, (n - 1) as nat).push(
            (members[n - 1].name@, members[n - 1].value.view()),
        )
    }
}

/// `serde_json::Value`, a JSON value as `serde_json` holds it.
#[verifier::external_type_specification]
#[verifier::external_body]
pub struct ExValue(serde_json::Value);

/// `serde_json::Error`, the reason why a text is not a JSON document.
#[verifier::external_type_specification]
#[verifier::external_body]
pub struct ExError(serde_json::Error);

/// The document that `serde_json::from_str` reads from a text, if the text is one.
pub uninterp spec fn document(text: Seq<char>) -> Option<JsonView>;

/// What a `serde_json::Value` holds.
pub uninterp spec fn contents(value: serde_json::Value) -> JsonView;

/// `serde_json::from_str`, reading a `Value`: whether it succeeds, and what the value then holds,
/// depend on the text alone.
#[verifier::external_body]
fn read_value(text: &str) -> (r: Result<serde_json::Value, serde_json::Error>)
    ensures
        match r {
            Ok(value) => document(text@) == Some(contents(value)),
            Err(_) => document(text@) is None,
        },
{
    serde_json::from_str(text)
}

/// One level of a `serde_json::Value`.
enum Node<'a> {
    Null,
    Bool(bool),
    Number(Option<u64>),
    Text(&'a String),
    Array(&'a Vec<serde_json::Value>),
    Object(Vec<(&'a String, &'a serde_json::Value)>),
}

/// The variant of a `serde_json::Value` with its fields. A number is what `Number::as_f64` makes
/// of it, by its bit pattern; an object is what `Map::iter` goes through.
#[verifier::external_body]
fn open_value<'a>(value: &'a serde_json::Value) -> (r: Node<'a>)
    ensures
        match r {
            Node::Null => contents(*value) == JsonView::Null,
            Node::Bool(b) => contents(*value) == JsonView::Bool(b),
            Node::Number(bits) => contents(*value) == JsonView::Number(
                match bits {
                    Some(bits) => Some(Double { bits }),
                    None => None,
                },
            ),
            Node::Text(s) => contents(*value) == JsonView::Text(s@),
            Node::Array(items) => {
                &&& contents(*value) matches JsonView::Array(list)
                &&& list.len() == items@.len()
                &&& forall|i: int| 0 <= i < list.len() ==> #[trigger] list[i] == contents(items@[i])
            },
            Node::Object(members) => {
                &&& contents(*value) matches JsonView::Object(list)
                &&& list.len() == members@.len()
                &&& forall|i: int|
                    0 <= i < list.len() ==> (#[trigger] list[i]).0 == members@[i].0@ && list[i].1
                        == contents(*members@[i].1)
            },
        },
{
    match value {
        serde_json::Value::Null => Node::Null,
        serde_json::Value::Bool(b) => Node::Bool(*b),
        serde_json::Value::Number(n) => Node::Number(n.as_f64().map(|x| x.to_bits())),
        serde_json::Value::String(s) => Node::Text(s),
        serde_json::Value::Array(items) => Node::Array(items),
        serde_json::Value::Object(members) => Node::Object(members.iter().collect()),
    }
}

proof fn lemma_item_views(items: Vec<Json>, n: nat)
    requires
        n <= items.len(),
    ensures
        item_views(items, n).len() == n,
        forall|i: int| 0 <= i < n ==> #[trigger] item_views(items, n)[i] == items[i]@,
    decreases n,
{
    if n > 0 {
        lemma_item_views(items, (n - 1) as nat);
    }
}

proof fn lemma_member_views(members: Vec<Member>, n: nat)
    requires
        n <= members.len(),
    ensures
        member_views(members, n).len() == n,
        forall|i: int|
            0 <= i < n ==> #[trigger] member_views(members, n)[i] == (
                members[i].name@,
                members[i].value@,
            ),
    decreases n,
{
    if n > 0 {
        lemma_member_views(members, (n - 1) as nat);
    }
}

/// The tree that a `serde_json::Value` holds.
fn tree(value: &serde_json::Value) -> (r: Json)
    ensures
        r@ == contents(*value),
    decreases contents(*value),
{
    match open_value(value) {
        Node::Null => Json::Null,
        Node::Bool(b) => Json::Bool(b),
        Node::Number(bits) => Json::Number(
            match bits {
                Some(bits) => Some(Double { bits }),
                None => None,
            },
        ),
        Node::Text(s) => Json::Text(s.clone()),
        Node::Array(items) => {
            let ghost list = contents(*value)->Array_0;
            let mut trees: Vec<Json> = Vec::new();
            let mut i: usize = 0;
            while i < items.len()
                invariant
                    i <= items.len() == list.len(),
                    contents(*value) == JsonView::Array(list),
                    forall|k: int|
                        0 <= k < list.len() ==> #[trigger] list[k] == contents(items@[k]),
                    trees.len() == i,
                    forall|k: int| 0 <= k < i ==> (#[trigger] trees@[k])@ == list[k],
                decreases items.len() - i,
            {
                assert(list[i as int] == contents(items@[i as int]));
                assert(decreases_to!(list => list[i as int]));
                assert(list == contents(*value)->Array_0);
                assert(decreases_to!(contents(*value) => contents(*value)->Array_0));
                trees.push(tree(&items[i]));
                i = i + 1;
            }
            proof {
                lemma_item_views(trees, trees.len() as nat);
                assert(item_views(trees, trees.len() as nat) =~= list);
            }
            Json::Array(trees)
        },
        Node::Object(members) => {
            let ghost list = contents(*value)->Object_0;
            let mut trees: Vec<Member> = Vec::new();
            let mut i: usize = 0;
            while i < members.len()
                invariant
                    i <= members.len() == list.len(),
                    contents(*value) == JsonView::Object(list),
                    forall|k: int|
                        0 <= k < list.len() ==> (#[trigger] list[k]).0 == members@[k].0@
                            && list[k].1 == contents(*members@[k].1),
                    trees.len() == i,
                    forall|k: int|
                        0 <= k < i ==> (#[trigger] trees@[k]).name@ == list[k].0
                            && trees@[k].value@ == list[k].1,
                decreases members.len() - i,
            {
                let pair = &members[i];
                assert(list[i as int].1 == contents(*members@[i as int].1));
                assert(decreases_to!(list => list[i as int]));
                assert(decreases_to!(list[i as int] => list[i as int].1));
                assert(list == contents(*value)->Object_0);
                assert(decreases_to!(contents(*value) => contents(*value)->Object_0));
                trees.push(Member { name: pair.0.clone(), value: tree(pair.1) });
                i = i + 1;
            }
            proof {
                lemma_member_views(trees, trees.len() as nat);
                assert(member_views(trees, trees.len() as nat) =~= list);
            }
            Json::Object(trees)
        },
    }
}

/// The document in a text, or nothing where the text is not one.
pub fn parse(text: &str) -> (r: Option<Json>)
    ensures
        match r {
            Some(json) => document(text@) == Some(json@),
            None => document(text@) is None,
        },
{
    match read_value(text) {
        Ok(value) => Some(tree(&value)),
        Err(_) => None,
    }
}

/// The value of the last of the members that are called `name`.
pub open spec fn last_named(list: Seq<(Seq<char>, JsonView)>, name: Seq<char>) -> Option<JsonView>
    decreases list.len(),
{
    if list.len() == 0 {
        None
    } else if list.last().0 == name {
        Some(list.last().1)
    } else {
        last_named(list.drop_last(), name)
    }
}

impl JsonView {
    /// The member `name` of an object.
    pub open spec fn member(self, name: Seq<char>) -> Option<JsonView> {
        match self {
            JsonView::Object(list) => last_named(list, name),
            _ => None,
        }
    }

    /// The items of an array.
    pub open spec fn items(self) -> Option<Seq<JsonView>> {
        match self {
            JsonView::Array(list) => Some(list),
            _ => None,
        }
    }

    /// A number.
    pub open spec fn number(self) -> Option<Double> {
        match self {
            JsonView::Number(x) => x,
            _ => None,
        }
    }

    /// The number that the member `name` is.
    pub open spec fn number_at(self, name: Seq<char>) -> Option<Double> {
        match self.member(name) {
            Some(v) => v.number(),
            None => None,
        }
    }

    /// The first item of the array that the member `name` is.
    pub open spec fn first_of(self, name: Seq<char>) -> Option<JsonView> {
        match self.member(name) {
            Some(JsonView::Array(list)) => if list.len() > 0 {
                Some(list[0])
            } else {
                None
            },
            _ => None,
        }
    }
}

impl Json {
    /// The member `name` of an object.
    pub fn get(&self, name: &str) -> (r: Option<&Json>)
        ensures
            match r {
                Some(v) => self@.member(name@) == Some(v@),
                None => self@.member(name@) is None,
            },
    {
        match self {
            Json::Object(members) => {
                let ghost list = member_views(*members, members.len() as nat);
                proof {
                    lemma_member_views(*members, members.len() as nat);
                }
                let mut i: usize = members.len();
                assert(list.take(i as int) == list);
                while i > 0
                    invariant
                        i <= members.len() == list.len(),
                        forall|k: int|
                            0 <= k < list.len() ==> #[trigger] list[k] == (
                                members@[k].name@,
                                members@[k].value@,
                            ),
                        self@ == JsonView::Object(list),
                        last_named(list, name@) == last_named(list.take(i as int), name@),
                    decreases i,
                {
                    i = i - 1;
                    assert(list[i as int] == (members@[i as int].name@, members@[i as int].value@));
                    assert(list.take(i + 1).last() == list[i as int]);
                    assert(list.take(i + 1).drop_last() == list.take(i as int));
                    if equal(members[i].name.as_str(), name) {
                        return Some(&members[i].value);
                    }
                }
                None
            },
            _ => None,
        }
    }

    /// The items of an array.
    pub fn as_array(&self) -> (r: Option<&Vec<Json>>)
        ensures
            match r {
                Some(items) => {
                    &&& self@.items() matches Some(list)
                    &&& list.len() == items@.len()
                    &&& forall|i: int| 0 <= i < list.len() ==> #[trigger] list[i] == items@[i]@
                },
                None => self@.items() is None,
            },
    {
        match self {
            Json::Array(items) => {
                proof {
                    lemma_item_views(*items, items.len() as nat);
                }
                Some(items)
            },
            _ => None,
        }
    }

    /// A number.
    pub fn as_number(&self) -> (r: Option<Double>)
        ensures
            r == self@.number(),
    {
        match self {
            Json::Number(x) => *x,
            _ => None,
        }
    }

    /// The number that the member `name` is.
    pub fn number(&self, name: &str) -> (r: Option<Double>)
        ensures
            r == self@.number_at(name@),
    {
        match self.get(name) {
            Some(v) => v.as_number(),
            None => None,
        }
    }

    /// The first item of the array that the member `name` is.
    pub fn first(&self, name: &str) -> (r: Option<&Json>)
        ensures
            match r {
                Some(v) => self@.first_of(name@) == Some(v@),
                None => self@.first_of(name@) is None,
            },
    {
        match self.get(name) {
            Some(v) => match v.as_array() {
                Some(items) => if items.len() > 0 {
                    assert(v@.items()->0[0] == items@[0]@);
                    Some(&items[0])
                } else {
                    None
                },
                None => None,
            },
            None => None,
        }
    }
}

/// The member of an object is the value of the last one of its name, and there is none where no
/// member has the name, or where the value is no object.
pub proof fn law_member_is_the_last_of_its_name(
    list: Seq<(Seq<char>, JsonView)>,
    i: int,
    name: Seq<char>,
)
    ensures
        0 <= i < list.len() && list[i].0 == name && (forall|j: int|
            i < j < list.len() ==> (#[trigger] list[j]).0 != name) ==> JsonView::Object(list).member(
            name,
        ) == Some(list[i].1),
        (forall|j: int| 0 <= j < list.len() ==> (#[trigger] list[j]).0 != name)
            ==> JsonView::Object(list).member(name) is None,
        JsonView::Null.member(name) is None,
    decreases list.len(),
{
    if list.len() > 0 {
        let front = list.drop_last();
        law_member_is_the_last_of_its_name(front, i, name);
        if 0 <= i < list.len() - 1 && (forall|j: int|
            i < j < list.len() ==> (#[trigger] list[j]).0 != name) {
            assert(list[list.len() - 1].0 != name);
            assert forall|j: int| i < j < front.len() implies (#[trigger] front[j]).0 != name by {
                assert(list[j].0 != name);
            }
        }
        if forall|j: int| 0 <= j < list.len() ==> (#[trigger] list[j]).0 != name {
            assert(list[list.len() - 1].0 != name);
            assert forall|j: int| 0 <= j < front.len() implies (#[trigger] front[j]).0 != name by {
                assert(list[j].0 != name);
            }
        }
    }
}

/// A value is found at its place: a number where a member is one that can be represented, and the
/// first item where a member is an array that has one.
pub proof fn law_values_are_found_at_their_place(
    v: JsonView,
    name: Seq<char>,
    x: Double,
    items: Seq<JsonView>,
)
    ensures
        v.number_at(name) == Some(x) <==> v.member(name) == Some(JsonView::Number(Some(x))),
        v.member(name) == Some(JsonView::Array(items)) && items.len() > 0 ==> v.first_of(name)
            == Some(items[0]),
        v.member(name) == Some(JsonView::Array(items)) && items.len() == 0 ==> v.first_of(
            name,
        ) is None,
        v.member(name) is None ==> v.number_at(name) is None && v.first_of(name) is None,
{
}

} // verus!
