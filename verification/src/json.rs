use vstd::prelude::*;

verus! {

/// A value of the backup document: the subset of JSON the store reads and
/// writes. Numbers are integers, since the schema has no floating-point
/// columns; objects keep their fields in insertion order.
#[verifier::ext_equal]
#[derive(Debug)]
pub enum JsonValue {
    Null,
    Int(i64),
    Str(String),
    Arr(Vec<JsonValue>),
    Obj(Vec<(String, JsonValue)>),
}

/// The mathematical shape of a document value.
#[verifier::ext_equal]
pub enum JsonV {
    Null,
    Int(i64),
    Str(Seq<char>),
    Arr(Seq<JsonV>),
    Obj(Seq<(Seq<char>, JsonV)>),
}

/// The mathematical value of a document value.
pub open spec fn jv(v: JsonValue) -> JsonV
    decreases v,
    via jv_decreases
{
    match v {
        JsonValue::Null => JsonV::Null,
        JsonValue::Int(i) => JsonV::Int(i),
        JsonValue::Str(s) => JsonV::Str(s@),
        JsonValue::Arr(a) => JsonV::Arr(jv_list(a@)),
        JsonValue::Obj(o) => JsonV::Obj(jv_fields(o@)),
    }
}

/// The mathematical values of a list of document values, in order.
pub open spec fn jv_list(s: Seq<JsonValue>) -> Seq<JsonV>
    decreases s,
{
    if s.len() == 0 {
        Seq::empty()
    } else {
        seq![jv(s[0])] + jv_list(s.skip(1))
    }
}

/// The mathematical values of an object's fields, in order.
pub open spec fn jv_fields(s: Seq<(String, JsonValue)>) -> Seq<(Seq<char>, JsonV)>
    decreases s,
{
    if s.len() == 0 {
        Seq::empty()
    } else {
        seq![(s[0].0@, jv(s[0].1))] + jv_fields(s.skip(1))
    }
}

#[via_fn]
proof fn jv_decreases(v: JsonValue) {
    match v {
        JsonValue::Arr(a) => {
            assert(decreases_to!(v => a));
            assert(decreases_to!(a => a@));
            assert(decreases_to!(v => a@));
        },
        JsonValue::Obj(o) => {
            assert(decreases_to!(v => o));
            assert(decreases_to!(o => o@));
            assert(decreases_to!(v => o@));
        },
        _ => {},
    }
}

/// Element-wise reading of `jv_list`.
pub proof fn lemma_jv_list(s: Seq<JsonValue>)
    ensures
        jv_list(s).len() == s.len(),
        forall|i: int| 0 <= i < s.len() ==> jv_list(s)[i] == jv(#[trigger] s[i]),
    decreases s.len(),
{
    if s.len() > 0 {
        lemma_jv_list(s.skip(1));
        assert forall|i: int| 0 <= i < s.len() implies jv_list(s)[i] == jv(#[trigger] s[i]) by {
            if i > 0 {
                assert(jv_list(s)[i] == jv_list(s.skip(1))[i - 1]);
                assert(s.skip(1)[i - 1] == s[i]);
            }
        }
    }
}

/// Element-wise reading of `jv_fields`.
pub proof fn lemma_jv_fields(s: Seq<(String, JsonValue)>)
    ensures
        jv_fields(s).len() == s.len(),
        forall|i: int|
            0 <= i < s.len() ==> jv_fields(s)[i] == ((#[trigger] s[i]).0@, jv(s[i].1)),
    decreases s.len(),
{
    if s.len() > 0 {
        lemma_jv_fields(s.skip(1));
        assert forall|i: int|
            0 <= i < s.len() implies jv_fields(s)[i] == ((#[trigger] s[i]).0@, jv(s[i].1)) by {
            if i > 0 {
                assert(jv_fields(s)[i] == jv_fields(s.skip(1))[i - 1]);
                assert(s.skip(1)[i - 1] == s[i]);
            }
        }
    }
}

/// The first field of the object with the given name, reading fields left
/// to right.
pub open spec fn fields_get(o: Seq<(Seq<char>, JsonV)>, key: Seq<char>) -> Option<JsonV>
    decreases o.len(),
{
    if o.len() == 0 {
        None
    } else if o[0].0 == key {
        Some(o[0].1)
    } else {
        fields_get(o.skip(1), key)
    }
}

/// The named field of an object value; anything but an object has none.
pub open spec fn obj_get(v: JsonV, key: Seq<char>) -> Option<JsonV> {
    match v {
        JsonV::Obj(o) => fields_get(o, key),
        _ => None,
    }
}

/// The named field read as text, or the default where it is missing or
/// not text.
pub open spec fn j_str_or(v: Option<JsonV>, default: Seq<char>) -> Seq<char> {
    match v {
        Some(JsonV::Str(s)) => s,
        _ => default,
    }
}

/// The named field read as optional text: present text stays, anything
/// else reads as absent.
pub open spec fn j_opt_str(v: Option<JsonV>) -> Option<Seq<char>> {
    match v {
        Some(JsonV::Str(s)) => Some(s),
        _ => None,
    }
}

/// The named field read as an integer, or the default where it is missing
/// or not an integer.
pub open spec fn j_int_or(v: Option<JsonV>, default: i64) -> i64 {
    match v {
        Some(JsonV::Int(i)) => i,
        _ => default,
    }
}

/// The elements of an array value, where the value is an array.
pub open spec fn j_arr(v: Option<JsonV>) -> Option<Seq<JsonV>> {
    match v {
        Some(JsonV::Arr(a)) => Some(a),
        _ => None,
    }
}

impl JsonValue {
    /// The first field with the given name, when this value is an object
    /// that has one.
    pub fn get<'a>(&'a self, key: &str) -> (r: Option<&'a JsonValue>)
        ensures
            match r {
                Some(x) => obj_get(jv(*self), key@) == Some(jv(*x)),
                None => obj_get(jv(*self), key@) is None,
            },
    {
        match self {
            JsonValue::Obj(o) => {
                let mut i: usize = 0;
                let ghost fs = (match jv(*self) {
                    JsonV::Obj(f) => f,
                    _ => Seq::empty(),
                });
                proof {
                    lemma_jv_fields(o@);
                    assert(fs.skip(0) =~= fs);
                }
                while i < o.len()
                    invariant
                        i <= o@.len(),
                        jv(*self) == JsonV::Obj(fs),
                        fs.len() == o@.len(),
                        forall|k: int|
                            0 <= k < o@.len() ==> #[trigger] fs[k] == (o@[k].0@, jv(o@[k].1)),
                        fields_get(fs, key@) == fields_get(fs.skip(i as int), key@),
                    decreases o@.len() - i,
                {
                    proof {
                        assert(fs.skip(i as int)[0] == fs[i as int]);
                    }
                    let hit = match crate::strorder::cmp_str(o[i].0.as_str(), key) {
                        crate::strorder::StrOrd::Equal => true,
                        _ => false,
                    };
                    if hit {
                        return Some(&o[i].1);
                    }
                    proof {
                        assert(fs.skip(i as int).skip(1) =~= fs.skip(i + 1));
                    }
                    i = i + 1;
                }
                proof {
                    assert(fs.skip(i as int).len() == 0);
                }
                None
            },
            _ => None,
        }
    }

    /// This value read as an integer.
    pub fn as_int(&self) -> (r: Option<i64>)
        ensures
            match r {
                Some(i) => jv(*self) == JsonV::Int(i),
                None => !(jv(*self) is Int),
            },
    {
        match self {
            JsonValue::Int(i) => Some(*i),
            _ => None,
        }
    }

    /// This value read as text.
    pub fn as_str<'a>(&'a self) -> (r: Option<&'a String>)
        ensures
            match r {
                Some(s) => jv(*self) == JsonV::Str(s@),
                None => !(jv(*self) is Str),
            },
    {
        match self {
            JsonValue::Str(s) => Some(s),
            _ => None,
        }
    }

    /// This value's elements, when it is an array.
    pub fn as_array<'a>(&'a self) -> (r: Option<&'a Vec<JsonValue>>)
        ensures
            match r {
                Some(a) => jv(*self) == JsonV::Arr(jv_list(a@)),
                None => !(jv(*self) is Arr),
            },
    {
        match self {
            JsonValue::Arr(a) => Some(a),
            _ => None,
        }
    }
}

/// Name for what `base64::encode` returns: the encoding of a byte string
/// depends on the bytes alone.
pub uninterp spec fn base64_of(bytes: Seq<u8>) -> Seq<char>;

/// Relies on base64::encode, to render a blob column as text; an empty
/// blob encodes to the empty string.
#[verifier::external_body]
pub fn encode_base64(bytes: &Vec<u8>) -> (r: String)
    ensures
        r@ == base64_of(bytes@),
        bytes@.len() == 0 ==> r@.len() == 0,
{
    base64::encode(bytes)
}

} // verus!
