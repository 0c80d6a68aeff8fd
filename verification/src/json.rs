use vstd::prelude::*;

verus! {

/// A JSON document as the library reads it: what `serde_json` parsed, held as plain values.
#[derive(Debug)]
pub enum Json {
    Null,
    Bool(bool),
    /// A number, held as the text that `serde_json` prints for it.
    Number(String),
    Str(String),
    Array(Vec<Json>),
    /// An object's members, in the order in which `serde_json`'s map yields them.
    Object(Vec<(String, Json)>),
}

/// The mathematical model of a [`Json`] value.
pub enum JsonV {
    Null,
    Bool(bool),
    Number(Seq<char>),
    Str(Seq<char>),
    Array(Seq<JsonV>),
    Object(Seq<(Seq<char>, JsonV)>),
}

impl View for Json {
    type V = JsonV;

    open spec fn view(&self) -> JsonV
        decreases self, 1int,
    {
        match self {
            Json::Null => JsonV::Null,
            Json::Bool(b) => JsonV::Bool(*b),
            Json::Number(t) => JsonV::Number(t@),
            Json::Str(s) => JsonV::Str(s@),
            Json::Array(items) => {
                proof {
                    broadcast use vstd::std_specs::vec::axiom_vec_decreases_to_view;
                }
                JsonV::Array(items_view(items@))
            },
            Json::Object(members) => {
                proof {
                    broadcast use vstd::std_specs::vec::axiom_vec_decreases_to_view;
                }
                JsonV::Object(members_view(members@))
            },
        }
    }
}

/// The model of an array's items.
pub open spec fn items_view(items: Seq<Json>) -> Seq<JsonV>
    decreases items, 0int,
{
    Seq::new(
        items.len(),
        |i: int|
            if 0 <= i < items.len() {
                items[i].view()
            } else {
                JsonV::Null
            },
    )
}

/// The model of an object's members.
pub open spec fn members_view(members: Seq<(String, Json)>) -> Seq<(Seq<char>, JsonV)>
    decreases members, 0int,
{
    Seq::new(
        members.len(),
        |i: int|
            if 0 <= i < members.len() {
                (members[i].0@, members[i].1.view())
            } else {
                (Seq::empty(), JsonV::Null)
            },
    )
}

} // verus!

verus! {

impl JsonV {
    /// Every object holds each of its keys once, at every depth.
    pub open spec fn wf(self) -> bool
        decreases self,
    {
        match self {
            JsonV::Array(items) => forall|i: int| 0 <= i < items.len() ==> (#[trigger] items[i]).wf(),
            JsonV::Object(members) => {
                &&& forall|i: int, j: int|
                    0 <= i < j < members.len() ==> (#[trigger] members[i]).0 != (#[trigger] members[j]).0
                &&& forall|i: int| 0 <= i < members.len() ==> (#[trigger] members[i]).1.wf()
            },
            _ => true,
        }
    }
}

} // verus!
