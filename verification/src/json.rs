//! A structured JSON document model.
//!
//! The server receives and produces JSON documents. This module models such a
//! document as a plain recursive datatype. A JSON number keeps the exact form
//! it had on the wire: a non-negative integer, a negative integer, or a
//! floating-point number held as the bit pattern of an IEEE-754 double, so
//! that a document is carried through the core without loss.

use vstd::prelude::*;

verus! {

/// A JSON number, in the form it had on the wire.
///
/// Floating-point values are held as the 64-bit IEEE-754 bit pattern, so the
/// core never computes on them; arithmetic on doubles is supplied by the
/// caller (see the calculation table of the dispatcher).
#[derive(Clone, Copy, PartialEq, Eq, Structural, Debug)]
pub enum JsonNumber {
    /// A negative integer.
    Int(i64),
    /// A non-negative integer.
    UInt(u64),
    /// The bit pattern of an IEEE-754 double.
    Float(u64),
}

/// A structured JSON document.
#[derive(PartialEq, Eq, Debug)]
pub enum JsonValue {
    Null,
    Bool(bool),
    Num(JsonNumber),
    Str(String),
    Arr(Vec<JsonValue>),
    Obj(Vec<(String, JsonValue)>),
}

/// The mathematical model of a JSON document: strings are character
/// sequences, arrays and objects are sequences.
pub enum SpecJson {
    Null,
    Bool(bool),
    Num(JsonNumber),
    Str(Seq<char>),
    Arr(Seq<SpecJson>),
    Obj(Seq<(Seq<char>, SpecJson)>),
}

/// The model of a document.
pub open spec fn spec_json_of(v: JsonValue) -> SpecJson
    decreases v, 2int,
{
    match v {
        JsonValue::Null => SpecJson::Null,
        JsonValue::Bool(b) => SpecJson::Bool(b),
        JsonValue::Num(n) => SpecJson::Num(n),
        JsonValue::Str(s) => SpecJson::Str(s@),
        JsonValue::Arr(elems) => {
            proof {
                assert(decreases_to!(v => elems));
                assert(decreases_to!(elems => elems@));
            }
            SpecJson::Arr(spec_json_seq(elems@))
        },
        JsonValue::Obj(fields) => {
            proof {
                assert(decreases_to!(v => fields));
                assert(decreases_to!(fields => fields@));
            }
            SpecJson::Obj(spec_fields_seq(fields@))
        },
    }
}

/// The models of the elements of a JSON array.
pub open spec fn spec_json_seq(s: Seq<JsonValue>) -> Seq<SpecJson>
    decreases s, 1int,
{
    if s.len() == 0 {
        Seq::empty()
    } else {
        seq![spec_json_of(s[0])] + spec_json_seq(s.subrange(1, s.len() as int))
    }
}

/// The models of the fields of a JSON object.
pub open spec fn spec_fields_seq(s: Seq<(String, JsonValue)>) -> Seq<(Seq<char>, SpecJson)>
    decreases s, 1int,
{
    if s.len() == 0 {
        Seq::empty()
    } else {
        proof {
            assert(decreases_to!(s => s[0]));
            assert(decreases_to!(s[0] => s[0].1));
        }
        seq![(s[0].0@, spec_json_of(s[0].1))] + spec_fields_seq(s.subrange(1, s.len() as int))
    }
}

/// An array's model has one element for each element of the array, in order.
pub proof fn lemma_spec_json_seq(s: Seq<JsonValue>)
    ensures
        spec_json_seq(s) == Seq::new(s.len(), |i: int| spec_json_of(s[i])),
    decreases s.len(),
{
    let goal = Seq::new(s.len(), |i: int| spec_json_of(s[i]));
    if s.len() == 0 {
        assert(spec_json_seq(s) =~= goal);
    } else {
        let tail = s.subrange(1, s.len() as int);
        lemma_spec_json_seq(tail);
        assert(spec_json_seq(s) =~= goal);
    }
}

/// An object's model has one field for each field of the object, in order.
pub proof fn lemma_spec_fields_seq(s: Seq<(String, JsonValue)>)
    ensures
        spec_fields_seq(s) == Seq::new(s.len(), |i: int| (s[i].0@, spec_json_of(s[i].1))),
    decreases s.len(),
{
    let goal = Seq::new(s.len(), |i: int| (s[i].0@, spec_json_of(s[i].1)));
    if s.len() == 0 {
        assert(spec_fields_seq(s) =~= goal);
    } else {
        let tail = s.subrange(1, s.len() as int);
        lemma_spec_fields_seq(tail);
        assert(spec_fields_seq(s) =~= goal);
    }
}

impl View for JsonValue {
    type V = SpecJson;

    open spec fn view(&self) -> SpecJson {
        spec_json_of(*self)
    }
}

impl JsonValue {
    /// A deep copy: the copy models to the same document.
    pub fn duplicate(&self) -> (r: JsonValue)
        ensures
            r@ == self@,
        decreases self,
    {
        match self {
            JsonValue::Null => JsonValue::Null,
            JsonValue::Bool(b) => JsonValue::Bool(*b),
            JsonValue::Num(n) => JsonValue::Num(*n),
            JsonValue::Str(s) => JsonValue::Str(s.clone()),
            JsonValue::Arr(elems) => {
                let mut out: Vec<JsonValue> = Vec::new();
                let mut i: usize = 0;
                while i < elems.len()
                    invariant
                        i <= elems.len(),
                        *self is Arr,
                        self->Arr_0 == *elems,
                        out@.len() == i as int,
                        forall|j: int|
                            0 <= j < i as int ==> #[trigger] spec_json_of(out@[j])
                                == spec_json_of(elems@[j]),
                    decreases elems.len() - i,
                {
                    proof {
                        assert(decreases_to!(*self => self->Arr_0));
                        assert(decreases_to!(*elems => elems@));
                        assert(decreases_to!(elems@ => elems@[i as int]));
                    }
                    let e = elems[i].duplicate();
                    out.push(e);
                    i = i + 1;
                }
                proof {
                    lemma_spec_json_seq(out@);
                    lemma_spec_json_seq(elems@);
                    assert(Seq::new(out@.len(), |j: int| spec_json_of(out@[j])) =~= Seq::new(
                        elems@.len(),
                        |j: int| spec_json_of(elems@[j]),
                    ));
                }
                JsonValue::Arr(out)
            },
            JsonValue::Obj(fields) => {
                let mut out: Vec<(String, JsonValue)> = Vec::new();
                let mut i: usize = 0;
                while i < fields.len()
                    invariant
                        i <= fields.len(),
                        *self is Obj,
                        self->Obj_0 == *fields,
                        out@.len() == i as int,
                        forall|j: int|
                            0 <= j < i as int ==> #[trigger] out@[j].0@ == fields@[j].0@
                                && spec_json_of(out@[j].1) == spec_json_of(fields@[j].1),
                    decreases fields.len() - i,
                {
                    proof {
                        assert(decreases_to!(*self => self->Obj_0));
                        assert(decreases_to!(*fields => fields@));
                        assert(decreases_to!(fields@ => fields@[i as int]));
                        assert(decreases_to!(fields@[i as int] => fields@[i as int].1));
                    }
                    let k = fields[i].0.clone();
                    let v = fields[i].1.duplicate();
                    out.push((k, v));
                    i = i + 1;
                }
                proof {
                    lemma_spec_fields_seq(out@);
                    lemma_spec_fields_seq(fields@);
                    assert(Seq::new(out@.len(), |j: int| (out@[j].0@, spec_json_of(out@[j].1)))
                        =~= Seq::new(
                        fields@.len(),
                        |j: int| (fields@[j].0@, spec_json_of(fields@[j].1)),
                    ));
                }
                JsonValue::Obj(out)
            },
        }
    }
}

/// True of a JSON number whose value, read as an IEEE-754 double, is zero
/// (an integer zero, or a float with the bit pattern of `0.0` or `-0.0`).
pub open spec fn spec_num_is_zero(n: JsonNumber) -> bool {
    match n {
        JsonNumber::Int(i) => i == 0,
        JsonNumber::UInt(u) => u == 0,
        JsonNumber::Float(bits) => bits == 0u64 || bits == 0x8000_0000_0000_0000u64,
    }
}

/// Decides whether a JSON number, read as a double, is zero.
pub fn num_is_zero(n: JsonNumber) -> (r: bool)
    ensures
        r == spec_num_is_zero(n),
{
    match n {
        JsonNumber::Int(i) => i == 0,
        JsonNumber::UInt(u) => u == 0,
        JsonNumber::Float(bits) => bits == 0u64 || bits == 0x8000_0000_0000_0000u64,
    }
}

} // verus!
