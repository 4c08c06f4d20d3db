//! Decoding watched files into endpoint records.
//!
//! The outside crates only turn text into a generic tree; a trusted
//! converter hands that tree over as the library's own `Json` type, and
//! the uninterpreted names `json_of` and `yaml_of` stand for what a
//! given text parses to. Every structural rule of the file format —
//! which fields exist, which are required, what the defaults are — is a
//! spec function over that tree, and the decoder is proved to implement
//! it exactly.

use vstd::prelude::*;
use crate::dst::{spec_parse_addr, Address};
use crate::endpoints::{labels_view, EndpointMeta, MetaV};
use crate::text::str_eq;

verus! {

// --- the tree model ---

/// A parsed configuration tree: JSON's shapes, with numbers narrowed to
/// what the file format reads. A number keeps its unsigned 64-bit value
/// when it has one, and only the fact of its unrepresentability
/// otherwise.
#[derive(Debug)]
pub enum Json {
    Null,
    Bool(bool),
    Num(Option<u64>),
    Str(String),
    Arr(Vec<Json>),
    Obj(Vec<(String, Json)>),
}

/// The mathematical value of a parsed tree.
#[verifier::ext_equal]
pub ghost enum JsonV {
    Null,
    Bool(bool),
    Num(Option<u64>),
    Str(Seq<char>),
    Arr(Seq<JsonV>),
    Obj(Seq<(Seq<char>, JsonV)>),
}

pub open spec fn json_view(j: Json) -> JsonV
    decreases j,
{
    match j {
        Json::Null => JsonV::Null,
        Json::Bool(b) => JsonV::Bool(b),
        Json::Num(n) => JsonV::Num(n),
        Json::Str(s) => JsonV::Str(s@),
        Json::Arr(items) => JsonV::Arr(arr_view(items@)),
        Json::Obj(entries) => JsonV::Obj(obj_view(entries@)),
    }
}

/// The values of an array's elements, in order.
pub open spec fn arr_view(items: Seq<Json>) -> Seq<JsonV>
    decreases items,
{
    if items.len() == 0 {
        Seq::empty()
    } else {
        seq![json_view(items[0])] + arr_view(items.skip(1))
    }
}

/// The values of an object's entries, in order.
pub open spec fn obj_view(entries: Seq<(String, Json)>) -> Seq<(Seq<char>, JsonV)>
    decreases entries,
{
    if entries.len() == 0 {
        Seq::empty()
    } else {
        seq![(entries[0].0@, json_view(entries[0].1))] + obj_view(entries.skip(1))
    }
}

impl View for Json {
    type V = JsonV;

    open spec fn view(&self) -> JsonV {
        json_view(*self)
    }
}

pub proof fn lemma_arr_view(items: Seq<Json>)
    ensures
        arr_view(items).len() == items.len(),
        forall|i: int|
            0 <= i < items.len() ==> #[trigger] arr_view(items)[i] == json_view(items[i]),
    decreases items.len(),
{
    if items.len() > 0 {
        lemma_arr_view(items.skip(1));
        assert forall|i: int|
            0 <= i < items.len() implies #[trigger] arr_view(items)[i] == json_view(
            items[i],
        ) by {
            if i > 0 {
                assert(arr_view(items)[i] == arr_view(items.skip(1))[i - 1]);
                assert(items.skip(1)[i - 1] == items[i]);
            }
        }
    }
}

pub proof fn lemma_obj_view(entries: Seq<(String, Json)>)
    ensures
        obj_view(entries).len() == entries.len(),
        forall|i: int|
            0 <= i < entries.len() ==> #[trigger] obj_view(entries)[i] == (
                entries[i].0@,
                json_view(entries[i].1),
            ),
    decreases entries.len(),
{
    if entries.len() > 0 {
        lemma_obj_view(entries.skip(1));
        assert forall|i: int|
            0 <= i < entries.len() implies #[trigger] obj_view(entries)[i] == (
            entries[i].0@,
            json_view(entries[i].1),
        ) by {
            if i > 0 {
                assert(obj_view(entries)[i] == obj_view(entries.skip(1))[i - 1]);
                assert(entries.skip(1)[i - 1] == entries[i]);
            }
        }
    }
}

// --- the trusted parsing boundary ---

/// The tree a JSON text parses to, or nothing for malformed text; it
/// depends on the text alone.
pub uninterp spec fn json_of(s: Seq<char>) -> Option<JsonV>;

/// The tree a YAML text parses to, or nothing for malformed text; it
/// depends on the text alone.
pub uninterp spec fn yaml_of(s: Seq<char>) -> Option<JsonV>;

/// serde_json's generic tree, handled opaquely by the converter below.
#[verifier::external_type_specification]
#[verifier::external_body]
pub struct ExValue(serde_json::Value);

/// Copies serde_json's tree into the library's, shape for shape, one
/// variant arm each; a number carries what serde_json::Number::as_u64
/// gives. Object entries come out in the map's own (key-sorted) order.
#[verifier::external_body]
fn value_to_json(v: &serde_json::Value) -> Json {
    match v {
        serde_json::Value::Null => Json::Null,
        serde_json::Value::Bool(b) => Json::Bool(*b),
        serde_json::Value::Number(n) => Json::Num(n.as_u64()),
        serde_json::Value::String(s) => Json::Str(s.clone()),
        serde_json::Value::Array(a) => Json::Arr(a.iter().map(value_to_json).collect()),
        serde_json::Value::Object(m) => Json::Obj(
            m.iter().map(|(k, x)| (k.clone(), value_to_json(x))).collect(),
        ),
    }
}

/// Relies on serde_json::from_str: a JSON text parses to the tree that
/// `json_of` names, and fails exactly when the text is not JSON.
#[verifier::external_body]
fn parse_json(s: &str) -> (r: Option<Json>)
    ensures
        match r {
            Some(t) => json_of(s@) == Some(t@),
            None => json_of(s@) is None,
        },
{
    serde_json::from_str::<serde_json::Value>(s).ok().map(|v| value_to_json(&v))
}

/// Relies on serde_yaml::from_str, deserializing into serde_json's
/// tree: a YAML text parses to the tree that `yaml_of` names, and fails
/// exactly when the text is not YAML.
#[verifier::external_body]
fn parse_yaml(s: &str) -> (r: Option<Json>)
    ensures
        match r {
            Some(t) => yaml_of(s@) == Some(t@),
            None => yaml_of(s@) is None,
        },
{
    serde_yaml::from_str::<serde_json::Value>(s).ok().map(|v| value_to_json(&v))
}

// --- the file format, field by field ---

/// The value of an object's first field named `k`, if any.
pub open spec fn obj_get(entries: Seq<(Seq<char>, JsonV)>, k: Seq<char>) -> Option<JsonV>
    decreases entries.len(),
{
    if entries.len() == 0 {
        None
    } else if entries[0].0 == k {
        Some(entries[0].1)
    } else {
        obj_get(entries.skip(1), k)
    }
}

proof fn lemma_obj_get_hit(s: Seq<(Seq<char>, JsonV)>, k: Seq<char>, i: int)
    requires
        0 <= i < s.len(),
        s[i].0 == k,
        forall|j: int| 0 <= j < i ==> (#[trigger] s[j]).0 != k,
    ensures
        obj_get(s, k) == Some(s[i].1),
    decreases i,
{
    if i > 0 {
        assert(s[0].0 != k);
        assert(s.skip(1)[i - 1] == s[i]);
        assert forall|j: int| 0 <= j < i - 1 implies (#[trigger] s.skip(1)[j]).0 != k by {
            assert(s.skip(1)[j] == s[j + 1]);
        }
        lemma_obj_get_hit(s.skip(1), k, i - 1);
    }
}

proof fn lemma_obj_get_miss(s: Seq<(Seq<char>, JsonV)>, k: Seq<char>)
    requires
        forall|j: int| 0 <= j < s.len() ==> (#[trigger] s[j]).0 != k,
    ensures
        obj_get(s, k) is None,
    decreases s.len(),
{
    if s.len() > 0 {
        assert forall|j: int| 0 <= j < s.len() - 1 implies (#[trigger] s.skip(1)[j]).0 != k by {
            assert(s.skip(1)[j] == s[j + 1]);
        }
        lemma_obj_get_miss(s.skip(1), k);
    }
}

/// The `address` rule: required, a string, in the address grammar.
pub open spec fn spec_addr_field(entries: Seq<(Seq<char>, JsonV)>) -> Option<Address> {
    match obj_get(entries, "address"@) {
        Some(JsonV::Str(s)) => spec_parse_addr(s),
        _ => None,
    }
}

/// The `h2` rule: absent means false; present must be a boolean.
pub open spec fn spec_h2_field(entries: Seq<(Seq<char>, JsonV)>) -> Option<bool> {
    match obj_get(entries, "h2"@) {
        None => Some(false),
        Some(JsonV::Bool(b)) => Some(b),
        Some(_) => None,
    }
}

/// The `weight` rule: absent means 10000; present must be an unsigned
/// number that fits in 32 bits.
pub open spec fn spec_weight_field(entries: Seq<(Seq<char>, JsonV)>) -> Option<u32> {
    match obj_get(entries, "weight"@) {
        None => Some(10000u32),
        Some(JsonV::Num(Some(u))) => if u <= u32::MAX {
            Some(u as u32)
        } else {
            None
        },
        Some(_) => None,
    }
}

/// An object whose values are all strings, as a label list in entry
/// order.
pub open spec fn spec_label_list(entries: Seq<(Seq<char>, JsonV)>) -> Option<
    Seq<(Seq<char>, Seq<char>)>,
>
    decreases entries.len(),
{
    if entries.len() == 0 {
        Some(Seq::empty())
    } else {
        match (entries[0].1, spec_label_list(entries.skip(1))) {
            (JsonV::Str(s), Some(rest)) => Some(seq![(entries[0].0, s)] + rest),
            _ => None,
        }
    }
}

proof fn lemma_label_list(s: Seq<(Seq<char>, JsonV)>)
    ensures
        spec_label_list(s) is Some <==> (forall|i: int|
            0 <= i < s.len() ==> (#[trigger] s[i]).1 is Str),
        spec_label_list(s) matches Some(ls) ==> ls.len() == s.len() && (forall|i: int|
            0 <= i < s.len() ==> s[i].1 == JsonV::Str((#[trigger] ls[i]).1) && ls[i].0
                == s[i].0),
    decreases s.len(),
{
    if s.len() > 0 {
        lemma_label_list(s.skip(1));
        assert(forall|i: int| 0 <= i < s.len() - 1 ==> #[trigger] s.skip(1)[i] == s[i + 1]);
        if spec_label_list(s) is Some {
            assert forall|i: int| 0 <= i < s.len() implies (#[trigger] s[i]).1 is Str by {
                if i > 0 {
                    assert(s.skip(1)[i - 1].1 is Str);
                }
            }
        }
        if forall|i: int| 0 <= i < s.len() ==> (#[trigger] s[i]).1 is Str {
            assert forall|i: int|
                0 <= i < s.len() - 1 implies (#[trigger] s.skip(1)[i]).1 is Str by {
                assert(s.skip(1)[i] == s[i + 1]);
            }
            assert(spec_label_list(s.skip(1)) is Some);
            assert(s[0].1 is Str);
        }
        if spec_label_list(s) is Some {
            let ls = spec_label_list(s).unwrap();
            let rest = spec_label_list(s.skip(1)).unwrap();
            assert forall|i: int|
                0 <= i < s.len() implies s[i].1 == JsonV::Str((#[trigger] ls[i]).1) && ls[i].0
                == s[i].0 by {
                if i > 0 {
                    assert(ls[i] == rest[i - 1]);
                    assert(s.skip(1)[i - 1] == s[i]);
                }
            }
        }
    }
}

/// The `metric_labels` rule: absent means empty; present must be an
/// object of strings.
pub open spec fn spec_labels_field(entries: Seq<(Seq<char>, JsonV)>) -> Option<
    Seq<(Seq<char>, Seq<char>)>,
> {
    match obj_get(entries, "metric_labels"@) {
        None => Some(Seq::empty()),
        Some(JsonV::Obj(les)) => spec_label_list(les),
        Some(_) => None,
    }
}

/// The rule for `tls_identity` and `authority_override`: absent or null
/// means none; present must be a string.
pub open spec fn spec_opt_str_field(entries: Seq<(Seq<char>, JsonV)>, k: Seq<char>) -> Option<
    Option<Seq<char>>,
> {
    match obj_get(entries, k) {
        None => Some(None),
        Some(JsonV::Null) => Some(None),
        Some(JsonV::Str(s)) => Some(Some(s)),
        Some(_) => None,
    }
}

/// What one record object decodes to, or nothing when a field breaks
/// its rule.
pub open spec fn spec_decode_record(v: JsonV) -> Option<MetaV> {
    match v {
        JsonV::Obj(entries) => {
            match (spec_addr_field(entries), spec_h2_field(entries), spec_weight_field(entries),
                spec_labels_field(entries), spec_opt_str_field(entries, "tls_identity"@),
                spec_opt_str_field(entries, "authority_override"@)) {
                (Some(a), Some(h), Some(w), Some(ls), Some(t), Some(au)) => Some(
                    MetaV {
                        address: a,
                        h2: h,
                        weight: w,
                        metric_labels: ls,
                        tls_identity: t,
                        authority_override: au,
                    },
                ),
                _ => None,
            }
        },
        _ => None,
    }
}

/// What a list of record objects decodes to, in order.
pub open spec fn spec_decode_list(items: Seq<JsonV>) -> Option<Seq<MetaV>>
    decreases items.len(),
{
    if items.len() == 0 {
        Some(Seq::empty())
    } else {
        match (spec_decode_record(items[0]), spec_decode_list(items.skip(1))) {
            (Some(m), Some(rest)) => Some(seq![m] + rest),
            _ => None,
        }
    }
}

proof fn lemma_decode_list(s: Seq<JsonV>)
    ensures
        spec_decode_list(s) is Some <==> (forall|i: int|
            0 <= i < s.len() ==> spec_decode_record(#[trigger] s[i]) is Some),
        spec_decode_list(s) matches Some(ms) ==> ms.len() == s.len() && (forall|i: int|
            0 <= i < s.len() ==> spec_decode_record(s[i]) == Some(#[trigger] ms[i])),
    decreases s.len(),
{
    if s.len() > 0 {
        lemma_decode_list(s.skip(1));
        assert(forall|i: int| 0 <= i < s.len() - 1 ==> #[trigger] s.skip(1)[i] == s[i + 1]);
        if spec_decode_list(s) is Some {
            assert forall|i: int|
                0 <= i < s.len() implies spec_decode_record(#[trigger] s[i]) is Some by {
                if i > 0 {
                    assert(spec_decode_record(s.skip(1)[i - 1]) is Some);
                }
            }
        }
        if forall|i: int| 0 <= i < s.len() ==> spec_decode_record(#[trigger] s[i]) is Some {
            assert forall|i: int|
                0 <= i < s.len() - 1 implies spec_decode_record(
                #[trigger] s.skip(1)[i],
            ) is Some by {
                assert(s.skip(1)[i] == s[i + 1]);
            }
            assert(spec_decode_list(s.skip(1)) is Some);
            assert(spec_decode_record(s[0]) is Some);
        }
        if spec_decode_list(s) is Some {
            let ms = spec_decode_list(s).unwrap();
            let rest = spec_decode_list(s.skip(1)).unwrap();
            assert forall|i: int|
                0 <= i < s.len() implies spec_decode_record(s[i]) == Some(
                #[trigger] ms[i],
            ) by {
                if i > 0 {
                    assert(ms[i] == rest[i - 1]);
                    assert(s.skip(1)[i - 1] == s[i]);
                }
            }
        }
    }
}

/// What a whole file's tree decodes to: an ordered list of records.
pub open spec fn spec_decode_records(v: JsonV) -> Option<Seq<MetaV>> {
    match v {
        JsonV::Arr(items) => spec_decode_list(items),
        _ => None,
    }
}

// --- the verified decoder ---

/// Why a file's contents were rejected.
#[derive(Debug)]
pub struct DecodeError {
    pub reason: &'static str,
}

impl DecodeError {
    /// The human-readable reason, for callers that report the failure.
    pub fn reason(&self) -> (r: &'static str)
        ensures
            r == self.reason,
    {
        self.reason
    }
}

/// Finds the value of the first field named `key`.
fn find_field<'a>(entries: &'a Vec<(String, Json)>, key: &str) -> (r: Option<&'a Json>)
    ensures
        match r {
            Some(x) => obj_get(obj_view(entries@), key@) == Some(x@),
            None => obj_get(obj_view(entries@), key@) is None,
        },
{
    proof {
        lemma_obj_view(entries@);
    }
    let n: usize = entries.len();
    let mut i: usize = 0;
    while i < n
        invariant
            0 <= i <= n,
            n == entries@.len(),
            obj_view(entries@).len() == entries@.len(),
            forall|j: int| 0 <= j < i ==> (#[trigger] obj_view(entries@)[j]).0 != key@,
        decreases n - i,
    {
        proof {
            lemma_obj_view(entries@);
        }
        if str_eq(entries[i].0.as_str(), key) {
            proof {
                lemma_obj_get_hit(obj_view(entries@), key@, i as int);
            }
            return Some(&entries[i].1);
        }
        i = i + 1;
    }
    proof {
        lemma_obj_get_miss(obj_view(entries@), key@);
    }
    None
}

/// Decodes one record object, exactly as `spec_decode_record` reads it.
fn record_of_json(j: &Json) -> (r: Result<EndpointMeta, DecodeError>)
    ensures
        match r {
            Ok(m) => spec_decode_record(j@) == Some(m@),
            Err(_) => spec_decode_record(j@) is None,
        },
{
    let entries: &Vec<(String, Json)> = match j {
        Json::Obj(entries) => entries,
        _ => {
            return Err(DecodeError { reason: "record is not an object" });
        },
    };
    let ghost ev = obj_view(entries@);
    proof {
        assert(j@ == JsonV::Obj(ev));
    }
    let address: Address = match find_field(entries, "address") {
        Some(Json::Str(s)) => {
            match Address::from_str(s.as_str()) {
                Some(a) => a,
                None => {
                    return Err(DecodeError { reason: "invalid socket address" });
                },
            }
        },
        Some(_) => {
            return Err(DecodeError { reason: "address is not a string" });
        },
        None => {
            return Err(DecodeError { reason: "record has no address" });
        },
    };
    let h2: bool = match find_field(entries, "h2") {
        None => false,
        Some(Json::Bool(b)) => *b,
        Some(_) => {
            return Err(DecodeError { reason: "h2 is not a boolean" });
        },
    };
    let weight: u32 = match find_field(entries, "weight") {
        None => 10000,
        Some(Json::Num(Some(u))) => {
            if *u <= 0xffff_ffff {
                *u as u32
            } else {
                return Err(DecodeError { reason: "weight does not fit in 32 bits" });
            }
        },
        Some(_) => {
            return Err(DecodeError { reason: "weight is not an unsigned integer" });
        },
    };
    let metric_labels: Vec<(String, String)> = match find_field(entries, "metric_labels") {
        None => Vec::new(),
        Some(Json::Obj(les)) => {
            match labels_of_entries(les) {
                Ok(labels) => labels,
                Err(e) => {
                    return Err(e);
                },
            }
        },
        Some(_) => {
            return Err(DecodeError { reason: "metric_labels is not an object" });
        },
    };
    let tls_identity: Option<String> = match find_field(entries, "tls_identity") {
        None => None,
        Some(Json::Null) => None,
        Some(Json::Str(s)) => Some(s.clone()),
        Some(_) => {
            return Err(DecodeError { reason: "tls_identity is not a string" });
        },
    };
    let authority_override: Option<String> = match find_field(entries, "authority_override") {
        None => None,
        Some(Json::Null) => None,
        Some(Json::Str(s)) => Some(s.clone()),
        Some(_) => {
            return Err(DecodeError { reason: "authority_override is not a string" });
        },
    };
    let m = EndpointMeta::new(address, h2, weight, metric_labels, tls_identity,
        authority_override);
    proof {
        assert(m@ =~= spec_decode_record(j@).unwrap());
    }
    Ok(m)
}

/// Decodes a label object, exactly as `spec_label_list` reads it.
fn labels_of_entries(les: &Vec<(String, Json)>) -> (r: Result<
    Vec<(String, String)>,
    DecodeError,
>)
    ensures
        match r {
            Ok(labels) => spec_label_list(obj_view(les@)) == Some(labels_view(labels@)),
            Err(_) => spec_label_list(obj_view(les@)) is None,
        },
{
    proof {
        lemma_obj_view(les@);
        lemma_label_list(obj_view(les@));
    }
    let mut labels: Vec<(String, String)> = Vec::new();
    let n: usize = les.len();
    let mut i: usize = 0;
    while i < n
        invariant
            0 <= i <= n,
            n == les@.len(),
            obj_view(les@).len() == les@.len(),
            labels@.len() == i,
            forall|j: int| 0 <= j < i ==> (#[trigger] obj_view(les@)[j]).1 is Str,
            forall|j: int|
                0 <= j < i ==> obj_view(les@)[j].1 == JsonV::Str(
                    (#[trigger] labels_view(labels@)[j]).1,
                ) && labels_view(labels@)[j].0 == obj_view(les@)[j].0,
        decreases n - i,
    {
        proof {
            lemma_obj_view(les@);
        }
        let value: &Json = &les[i].1;
        match value {
            Json::Str(s) => {
                let k: String = les[i].0.clone();
                let ghost labels0 = labels@;
                labels.push((k, s.clone()));
                proof {
                    assert(labels@ == labels0.push((k, *s)));
                    assert forall|j: int|
                        0 <= j < i + 1 implies obj_view(les@)[j].1 == JsonV::Str(
                        (#[trigger] labels_view(labels@)[j]).1,
                    ) && labels_view(labels@)[j].0 == obj_view(les@)[j].0 by {
                        if j < i {
                            assert(labels@[j] == labels0[j]);
                            assert(labels_view(labels@)[j] == labels_view(labels0)[j]);
                        } else {
                            assert(labels@[j] == (k, *s));
                        }
                    }
                }
            },
            _ => {
                proof {
                    lemma_label_list(obj_view(les@));
                    assert(obj_view(les@)[i as int].1 == json_view(les@[i as int].1));
                    assert(!(obj_view(les@)[i as int].1 is Str));
                }
                return Err(DecodeError { reason: "metric label is not a string" });
            },
        }
        i = i + 1;
    }
    proof {
        lemma_label_list(obj_view(les@));
        let ls = spec_label_list(obj_view(les@)).unwrap();
        assert(labels_view(labels@) =~= ls);
    }
    Ok(labels)
}

/// Decodes an ordered list of record objects, exactly as
/// `spec_decode_records` reads it.
fn records_of_json(j: &Json) -> (r: Result<Vec<EndpointMeta>, DecodeError>)
    ensures
        match r {
            Ok(v) => spec_decode_records(j@) == Some(v@.map_values(|m: EndpointMeta| m@)),
            Err(_) => spec_decode_records(j@) is None,
        },
{
    let items: &Vec<Json> = match j {
        Json::Arr(items) => items,
        _ => {
            return Err(DecodeError { reason: "file does not hold a list" });
        },
    };
    proof {
        lemma_arr_view(items@);
        lemma_decode_list(arr_view(items@));
        assert(j@ == JsonV::Arr(arr_view(items@)));
    }
    let mut out: Vec<EndpointMeta> = Vec::new();
    let n: usize = items.len();
    let mut i: usize = 0;
    while i < n
        invariant
            0 <= i <= n,
            n == items@.len(),
            arr_view(items@).len() == items@.len(),
            j@ == JsonV::Arr(arr_view(items@)),
            out@.len() == i,
            forall|j2: int|
                0 <= j2 < i ==> spec_decode_record(#[trigger] arr_view(items@)[j2]) is Some,
            forall|j2: int|
                0 <= j2 < i ==> spec_decode_record(arr_view(items@)[j2]) == Some(
                    (#[trigger] out@[j2])@,
                ),
        decreases n - i,
    {
        proof {
            lemma_arr_view(items@);
        }
        match record_of_json(&items[i]) {
            Ok(m) => {
                let ghost out0 = out@;
                out.push(m);
                proof {
                    assert(forall|j2: int| 0 <= j2 < i ==> #[trigger] out@[j2] == out0[j2]);
                    assert(out@[i as int] == m);
                }
            },
            Err(e) => {
                proof {
                    lemma_decode_list(arr_view(items@));
                    assert(arr_view(items@)[i as int] == json_view(items@[i as int]));
                }
                return Err(e);
            },
        }
        i = i + 1;
    }
    proof {
        lemma_decode_list(arr_view(items@));
        let ms = spec_decode_list(arr_view(items@)).unwrap();
        assert(out@.map_values(|m: EndpointMeta| m@) =~= ms);
    }
    Ok(out)
}

/// Decodes a JSON file into its ordered record list: exactly the records
/// that `spec_decode_records` reads from the tree the text parses to.
pub fn decode_json_records(contents: &str) -> (r: Result<Vec<EndpointMeta>, DecodeError>)
    ensures
        match r {
            Ok(v) => json_of(contents@) matches Some(t) && spec_decode_records(t) == Some(
                v@.map_values(|m: EndpointMeta| m@),
            ),
            Err(_) => json_of(contents@) is None || (json_of(contents@) matches Some(t)
                && spec_decode_records(t) is None),
        },
{
    match parse_json(contents) {
        Some(v) => records_of_json(&v),
        None => Err(DecodeError { reason: "malformed JSON" }),
    }
}

/// Decodes a YAML file into its ordered record list: exactly the records
/// that `spec_decode_records` reads from the tree the text parses to.
pub fn decode_yaml_records(contents: &str) -> (r: Result<Vec<EndpointMeta>, DecodeError>)
    ensures
        match r {
            Ok(v) => yaml_of(contents@) matches Some(t) && spec_decode_records(t) == Some(
                v@.map_values(|m: EndpointMeta| m@),
            ),
            Err(_) => yaml_of(contents@) is None || (yaml_of(contents@) matches Some(t)
                && spec_decode_records(t) is None),
        },
{
    match parse_yaml(contents) {
        Some(v) => records_of_json(&v),
        None => Err(DecodeError { reason: "malformed YAML" }),
    }
}

} // verus!
