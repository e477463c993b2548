use vstd::prelude::*;
use crate::parse::is_number_lexeme;

verus! {

/// A JSON document held as plain values.
///
/// This is the structured-data type the library's operations work on: the
/// payload handed to the pin-JSON operation, and the decoded form of the
/// service's response bodies. A number is held as its lexeme — the text
/// of the JSON number literal — so any number the service or a caller
/// writes, fractions and exponents included, passes through unchanged;
/// no floating-point value is ever computed. The integer fields of the
/// pin response are read out of the lexeme during decoding.
#[derive(Debug, PartialEq, Eq)]
pub enum JsonValue {
    Null,
    Bool(bool),
    Num(String),
    Str(String),
    Arr(Vec<JsonValue>),
    Obj(Vec<(String, JsonValue)>),
}

/// The mathematical model of a JSON document: the shape of `JsonValue`
/// with sequences in place of vectors and strings.
pub enum JsonData {
    Null,
    Bool(bool),
    Num(Seq<char>),
    Str(Seq<char>),
    Arr(Seq<JsonData>),
    Obj(Seq<(Seq<char>, JsonData)>),
}

/// The model of a document: `JsonValue` mapped field by field onto `JsonData`.
pub open spec fn jv(v: JsonValue) -> JsonData
    decreases v,
{
    match v {
        JsonValue::Null => JsonData::Null,
        JsonValue::Bool(b) => JsonData::Bool(b),
        JsonValue::Num(t) => JsonData::Num(t@),
        JsonValue::Str(s) => JsonData::Str(s@),
        JsonValue::Arr(items) => JsonData::Arr(jv_seq(items@)),
        JsonValue::Obj(fields) => JsonData::Obj(jv_fields(fields@)),
    }
}

/// The models of the elements of an array, in order.
pub open spec fn jv_seq(s: Seq<JsonValue>) -> Seq<JsonData>
    decreases s,
{
    if s.len() == 0 {
        Seq::empty()
    } else {
        jv_seq(s.drop_last()).push(jv(s.last()))
    }
}

/// The models of the members of an object, in order, keys viewed as
/// character sequences.
pub open spec fn jv_fields(s: Seq<(String, JsonValue)>) -> Seq<(Seq<char>, JsonData)>
    decreases s,
{
    if s.len() == 0 {
        Seq::empty()
    } else {
        jv_fields(s.drop_last()).push((s.last().0@, jv(s.last().1)))
    }
}

impl View for JsonValue {
    type V = JsonData;

    open spec fn view(&self) -> JsonData {
        jv(*self)
    }
}

/// `jv_seq` maps the sequence elementwise.
pub proof fn lemma_jv_seq_index(s: Seq<JsonValue>)
    ensures
        jv_seq(s).len() == s.len(),
        forall|i: int| 0 <= i < s.len() ==> jv_seq(s)[i] == jv(#[trigger] s[i]),
    decreases s.len(),
{
    if s.len() > 0 {
        lemma_jv_seq_index(s.drop_last());
        assert(forall|i: int| 0 <= i < s.len() - 1 ==> s.drop_last()[i] == #[trigger] s[i]);
    }
}

/// `jv_fields` maps the member sequence elementwise.
pub proof fn lemma_jv_fields_index(s: Seq<(String, JsonValue)>)
    ensures
        jv_fields(s).len() == s.len(),
        forall|i: int| 0 <= i < s.len()
            ==> jv_fields(s)[i] == ((#[trigger] s[i]).0@, jv(s[i].1)),
    decreases s.len(),
{
    if s.len() > 0 {
        lemma_jv_fields_index(s.drop_last());
        assert(forall|i: int| 0 <= i < s.len() - 1 ==> s.drop_last()[i] == #[trigger] s[i]);
    }
}

impl JsonData {
    /// A well-formed document: every number lexeme follows the JSON
    /// number grammar.
    pub open spec fn wf(self) -> bool
        decreases self,
    {
        match self {
            JsonData::Null => true,
            JsonData::Bool(_) => true,
            JsonData::Num(t) => is_number_lexeme(t),
            JsonData::Str(_) => true,
            JsonData::Arr(items) => forall|i: int| 0 <= i < items.len() ==> (#[trigger] items[i]).wf(),
            JsonData::Obj(fields) => forall|i: int|
                0 <= i < fields.len() ==> (#[trigger] fields[i]).1.wf(),
        }
    }
}

impl JsonValue {
    /// Structurally copies the document.
    #[verifier::loop_isolation(false)]
    pub fn duplicate(&self) -> (r: JsonValue)
        ensures
            r@ == self@,
        decreases self,
    {
        match self {
            JsonValue::Null => JsonValue::Null,
            JsonValue::Bool(b) => JsonValue::Bool(*b),
            JsonValue::Num(t) => JsonValue::Num(t.clone()),
            JsonValue::Str(s) => JsonValue::Str(s.clone()),
            JsonValue::Arr(items) => {
                let mut out: Vec<JsonValue> = Vec::new();
                let mut i: usize = 0;
                while i < items.len()
                    invariant
                        i <= items.len(),
                        out@.len() == i as int,
                        forall|j: int| 0 <= j < i as int ==> jv(#[trigger] out@[j]) == jv(items@[j]),
                    decreases items.len() - i,
                {
                    proof {
                        let g = *self;
                        assert(decreases_to!(g => g->Arr_0));
                        assert(decreases_to!(g->Arr_0 => g->Arr_0@));
                        assert(decreases_to!(g->Arr_0@ => g->Arr_0@[i as int]));
                        assert(g->Arr_0@[i as int] == items@[i as int]);
                    }
                    out.push(items[i].duplicate());
                    i = i + 1;
                }
                let r = JsonValue::Arr(out);
                proof {
                    lemma_jv_seq_index(out@);
                    lemma_jv_seq_index(items@);
                    assert forall|k: int| 0 <= k < items@.len()
                        implies jv_seq(out@)[k] == jv_seq(items@)[k] by {
                        assert(jv(out@[k]) == jv(items@[k]));
                    }
                    assert(jv_seq(out@) =~= jv_seq(items@));
                }
                r
            },
            JsonValue::Obj(fields) => {
                let mut out: Vec<(String, JsonValue)> = Vec::new();
                let mut i: usize = 0;
                while i < fields.len()
                    invariant
                        i <= fields.len(),
                        out@.len() == i as int,
                        forall|j: int| 0 <= j < i as int ==> (#[trigger] out@[j]).0@ == fields@[j].0@,
                        forall|j: int| 0 <= j < i as int
                            ==> jv((#[trigger] out@[j]).1) == jv(fields@[j].1),
                    decreases fields.len() - i,
                {
                    proof {
                        let g = *self;
                        assert(decreases_to!(g => g->Obj_0));
                        assert(decreases_to!(g->Obj_0 => g->Obj_0@));
                        assert(decreases_to!(g->Obj_0@ => g->Obj_0@[i as int]));
                        assert(decreases_to!(g->Obj_0@[i as int] => g->Obj_0@[i as int].1));
                        assert(g->Obj_0@[i as int].1 == fields@[i as int].1);
                    }
                    let (k, v) = &fields[i];
                    out.push((k.clone(), v.duplicate()));
                    i = i + 1;
                }
                let r = JsonValue::Obj(out);
                proof {
                    lemma_jv_fields_index(out@);
                    lemma_jv_fields_index(fields@);
                    assert forall|k: int| 0 <= k < fields@.len()
                        implies jv_fields(out@)[k] == jv_fields(fields@)[k] by {
                        assert(out@[k].0@ == fields@[k].0@);
                        assert(jv(out@[k].1) == jv(fields@[k].1));
                    }
                    assert(jv_fields(out@) =~= jv_fields(fields@));
                }
                r
            },
        }
    }
}

} // verus!
