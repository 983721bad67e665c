//! A JSON tree as the library reads it: tool parameter schemas.
use vstd::prelude::*;
use crate::text::same_text;

verus! {

broadcast use vstd::std_specs::vec::group_vec_axioms;

/// A JSON value; a number keeps its written form, an object its members in order.
#[derive(Debug)]
pub enum Json {
    Null,
    Bool(bool),
    Number(String),
    Str(String),
    Array(Vec<Json>),
    Object(Vec<Member>),
}

/// One member of a JSON object.
#[derive(Debug)]
pub struct Member {
    pub key: String,
    pub value: Json,
}

pub ghost enum JsonView {
    Null,
    Bool(bool),
    Number(Seq<char>),
    Str(Seq<char>),
    Array(Seq<JsonView>),
    Object(Seq<(Seq<char>, JsonView)>),
}

pub open spec fn json_view(j: Json) -> JsonView
    decreases j,
{
    match j {
        Json::Null => JsonView::Null,
        Json::Bool(b) => JsonView::Bool(b),
        Json::Number(n) => JsonView::Number(n@),
        Json::Str(s) => JsonView::Str(s@),
        Json::Array(v) => JsonView::Array(items_view(v@)),
        Json::Object(ms) => JsonView::Object(members_view(ms@)),
    }
}

pub open spec fn items_view(v: Seq<Json>) -> Seq<JsonView>
    decreases v,
{
    if v.len() == 0 {
        Seq::empty()
    } else {
        seq![json_view(v[0])] + items_view(v.drop_first())
    }
}

pub open spec fn members_view(ms: Seq<Member>) -> Seq<(Seq<char>, JsonView)>
    decreases ms,
{
    if ms.len() == 0 {
        Seq::empty()
    } else {
        seq![(ms[0].key@, json_view(ms[0].value))] + members_view(ms.drop_first())
    }
}

impl View for Json {
    type V = JsonView;

    open spec fn view(&self) -> JsonView {
        json_view(*self)
    }
}

/// Whether a member is the `"format": "uri"` annotation that some backends reject.
pub open spec fn is_uri_format(k: Seq<char>, v: JsonView) -> bool {
    k == "format"@ && v == JsonView::Str("uri"@)
}

/// A schema without the `"format": "uri"` annotation, here and in the schemas
/// under `properties` and `items`, at any depth.
pub open spec fn clean(j: JsonView) -> JsonView
    decreases j,
{
    match j {
        JsonView::Object(ms) => JsonView::Object(clean_members(ms)),
        _ => j,
    }
}

pub open spec fn clean_members(ms: Seq<(Seq<char>, JsonView)>) -> Seq<(Seq<char>, JsonView)>
    decreases ms,
{
    if ms.len() == 0 {
        Seq::empty()
    } else {
        let (k, v) = ms[0];
        let tail = clean_members(ms.drop_first());
        if is_uri_format(k, v) {
            tail
        } else if k == "properties"@ {
            seq![(k, clean_properties(v))] + tail
        } else if k == "items"@ {
            seq![(k, clean(v))] + tail
        } else {
            seq![(k, v)] + tail
        }
    }
}

/// A `properties` object with each of its schemas cleaned.
pub open spec fn clean_properties(j: JsonView) -> JsonView
    decreases j,
{
    match j {
        JsonView::Object(ms) => JsonView::Object(clean_values(ms)),
        _ => j,
    }
}

pub open spec fn clean_values(ms: Seq<(Seq<char>, JsonView)>) -> Seq<(Seq<char>, JsonView)>
    decreases ms,
{
    if ms.len() == 0 {
        Seq::empty()
    } else {
        seq![(ms[0].0, clean(ms[0].1))] + clean_values(ms.drop_first())
    }
}

proof fn lemma_members_view_push(a: Seq<Member>, m: Member)
    ensures
        members_view(a.push(m)) == members_view(a).push((m.key@, json_view(m.value))),
    decreases a.len(),
{
    assert(members_view(Seq::<Member>::empty()) =~= Seq::<(Seq<char>, JsonView)>::empty());
    assert(a.push(m)[0] == if a.len() == 0 { m } else { a[0] });
    if a.len() == 0 {
        assert(a.push(m).drop_first() =~= Seq::<Member>::empty());
        assert(members_view(a.push(m)) =~= members_view(a).push((m.key@, json_view(m.value))));
    } else {
        lemma_members_view_push(a.drop_first(), m);
        assert(a.push(m).drop_first() =~= a.drop_first().push(m));
        assert(members_view(a.push(m)) =~= members_view(a).push((m.key@, json_view(m.value))));
    }
}

fn is_uri_member(m: &Member) -> (r: bool)
    ensures
        r == is_uri_format(m.key@, json_view(m.value)),
{
    proof {
        reveal_strlit("uri");
    }
    if !same_text(m.key.as_str(), "format") {
        return false;
    }
    match &m.value {
        Json::Str(s) => {
            let r = same_text(s.as_str(), "uri");
            assert(r ==> json_view(m.value) == JsonView::Str("uri"@));
            r
        },
        _ => false,
    }
}

/// Strips the `"format": "uri"` annotation from a schema, and from the schemas under
/// its `properties` and `items`, at any depth.
pub fn clean_schema(schema: Json) -> (r: Json)
    ensures
        r@ == clean(schema@),
    decreases schema,
{
    let ghost whole = schema;
    match schema {
        Json::Object(ms) => {
            let ghost ovec = ms;
            let ghost n = ms@.len();
            let mut rest = ms;
            let mut out: Vec<Member> = Vec::new();
            let ghost mut k: int = 0;
            assert(ovec@.subrange(0, n as int) =~= ovec@);
            while rest.len() > 0
                invariant
                    whole == Json::Object(ovec),
                    schema == whole,
                    n == ovec@.len(),
                    0 <= k <= n,
                    rest@ == ovec@.subrange(k, n as int),
                    members_view(out@) + clean_members(members_view(rest@)) == clean_members(
                        members_view(ovec@),
                    ),
                decreases rest@.len(),
            {
                let ghost before = rest@;
                let m = rest.remove(0);
                assert(rest@ =~= before.drop_first());
                assert(m == ovec@[k]);
                proof {
                    assert(decreases_to!(whole => whole->Object_0));
                    assert(decreases_to!(ovec => ovec@));
                    assert(decreases_to!(ovec@ => ovec@[k]));
                    assert(decreases_to!(ovec@[k] => ovec@[k].value));
                    assert(decreases_to!(whole => m.value));
                }
                let ghost mv = (m.key@, json_view(m.value));
                assert(members_view(before) == seq![mv] + members_view(rest@));
                assert((seq![mv] + members_view(rest@)).drop_first() =~= members_view(rest@));
                let ghost out0 = out@;
                if is_uri_member(&m) {
                } else {
                    let Member { key, value } = m;
                    assert(decreases_to!(schema => value));
                    let props = same_text(key.as_str(), "properties");
                    let items = same_text(key.as_str(), "items");
                    let v = if props {
                        clean_property_schemas(value)
                    } else if items {
                        clean_schema(value)
                    } else {
                        value
                    };
                    let nm = Member { key, value: v };
                    out.push(nm);
                    proof {
                        lemma_members_view_push(out0, nm);
                    }
                }
                proof {
                    k = k + 1;
                }
                assert(rest@ =~= ovec@.subrange(k, n as int));
            }
            assert(members_view(rest@) =~= Seq::<(Seq<char>, JsonView)>::empty());
            assert(members_view(out@) =~= clean_members(members_view(ovec@)));
            Json::Object(out)
        },
        other => other,
    }
}

/// Cleans each schema of a `properties` object.
fn clean_property_schemas(j: Json) -> (r: Json)
    ensures
        r@ == clean_properties(j@),
    decreases j,
{
    let ghost whole = j;
    match j {
        Json::Object(ms) => {
            let ghost ovec = ms;
            let ghost n = ms@.len();
            let mut rest = ms;
            let mut out: Vec<Member> = Vec::new();
            let ghost mut k: int = 0;
            assert(ovec@.subrange(0, n as int) =~= ovec@);
            while rest.len() > 0
                invariant
                    whole == Json::Object(ovec),
                    j == whole,
                    n == ovec@.len(),
                    0 <= k <= n,
                    rest@ == ovec@.subrange(k, n as int),
                    members_view(out@) + clean_values(members_view(rest@)) == clean_values(
                        members_view(ovec@),
                    ),
                decreases rest@.len(),
            {
                let ghost before = rest@;
                let m = rest.remove(0);
                assert(rest@ =~= before.drop_first());
                assert(m == ovec@[k]);
                proof {
                    assert(decreases_to!(whole => whole->Object_0));
                    assert(decreases_to!(ovec => ovec@));
                    assert(decreases_to!(ovec@ => ovec@[k]));
                    assert(decreases_to!(ovec@[k] => ovec@[k].value));
                    assert(decreases_to!(whole => m.value));
                }
                let ghost mv = (m.key@, json_view(m.value));
                assert(members_view(before) == seq![mv] + members_view(rest@));
                assert((seq![mv] + members_view(rest@)).drop_first() =~= members_view(rest@));
                let ghost out0 = out@;
                let Member { key, value } = m;
                assert(decreases_to!(j => value));
                let nm = Member { key, value: clean_schema(value) };
                out.push(nm);
                proof {
                    lemma_members_view_push(out0, nm);
                    k = k + 1;
                }
                assert(rest@ =~= ovec@.subrange(k, n as int));
            }
            assert(members_view(rest@) =~= Seq::<(Seq<char>, JsonView)>::empty());
            assert(members_view(out@) =~= clean_values(members_view(ovec@)));
            Json::Object(out)
        },
        other => other,
    }
}

/// Whether serde_json reads a text as one JSON value.
pub uninterp spec fn parses_as_json(s: Seq<char>) -> bool;

/// Relies on serde_json::from_str into a serde_json::Value: whether it reads the text
/// as one JSON value (white space around it allowed); the answer depends on the text alone.
#[verifier::external_body]
pub(crate) fn is_json_text(s: &str) -> (r: bool)
    ensures
        r == parses_as_json(s@),
{
    serde_json::from_str::<serde_json::Value>(s).is_ok()
}

} // verus!
