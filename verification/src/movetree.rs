//! A game-move tree loaded from JSON.
//!
//! A tree node is an object with a `"board"` string and an optional
//! `"children"` array of further nodes; anything else is rejected, and one
//! bad node rejects the whole tree. The JSON text is parsed by serde_json
//! behind a trusted bridge into [`JsonValue`], the crate's own model of a
//! JSON document (numeric payloads are not modelled); the tree-building
//! logic on that model is verified.

use vstd::prelude::*;
use vstd::string::StringExecFns;

verus! {

/// The crate's model of a JSON document. Object member order is kept;
/// a number's value is not modelled, only that it was a number.
pub enum JsonValue {
    Null,
    Bool(bool),
    Number,
    Str(String),
    Arr(Vec<JsonValue>),
    Obj(Vec<(String, JsonValue)>),
}

/// The mathematical value of a [`JsonValue`].
pub enum JsonV {
    Null,
    Bool(bool),
    Number,
    Str(Seq<char>),
    Arr(Seq<JsonV>),
    Obj(Seq<(Seq<char>, JsonV)>),
}

pub open spec fn json_view(v: JsonValue) -> JsonV
    decreases v,
{
    match v {
        JsonValue::Null => JsonV::Null,
        JsonValue::Bool(b) => JsonV::Bool(b),
        JsonValue::Number => JsonV::Number,
        JsonValue::Str(s) => JsonV::Str(s@),
        JsonValue::Arr(a) => JsonV::Arr(json_list_view(a@)),
        JsonValue::Obj(o) => JsonV::Obj(json_fields_view(o@)),
    }
}

pub open spec fn json_list_view(s: Seq<JsonValue>) -> Seq<JsonV>
    decreases s,
{
    if s.len() == 0 {
        Seq::<JsonV>::empty()
    } else {
        json_list_view(s.drop_last()).push(json_view(s.last()))
    }
}

pub open spec fn json_fields_view(s: Seq<(String, JsonValue)>) -> Seq<(Seq<char>, JsonV)>
    decreases s,
{
    if s.len() == 0 {
        Seq::<(Seq<char>, JsonV)>::empty()
    } else {
        json_fields_view(s.drop_last()).push((s.last().0@, json_view(s.last().1)))
    }
}

impl View for JsonValue {
    type V = JsonV;

    open spec fn view(&self) -> JsonV {
        json_view(*self)
    }
}

pub proof fn lemma_json_list_view_index(s: Seq<JsonValue>)
    ensures
        json_list_view(s).len() == s.len(),
        forall|i: int| 0 <= i < s.len() ==> #[trigger] json_list_view(s)[i] == json_view(s[i]),
    decreases s.len(),
{
    if s.len() > 0 {
        lemma_json_list_view_index(s.drop_last());
    }
}

pub proof fn lemma_json_fields_view_index(s: Seq<(String, JsonValue)>)
    ensures
        json_fields_view(s).len() == s.len(),
        forall|i: int|
            0 <= i < s.len() ==> #[trigger] json_fields_view(s)[i] == (s[i].0@, json_view(s[i].1)),
    decreases s.len(),
{
    if s.len() > 0 {
        lemma_json_fields_view_index(s.drop_last());
    }
}

/// The value of the first member with the given name, if any.
pub open spec fn spec_field(fields: Seq<(Seq<char>, JsonV)>, key: Seq<char>) -> Option<JsonV>
    decreases fields.len(),
{
    if fields.len() == 0 {
        None
    } else if fields[0].0 == key {
        Some(fields[0].1)
    } else {
        spec_field(fields.drop_first(), key)
    }
}

proof fn lemma_field_skip(fields: Seq<(Seq<char>, JsonV)>, key: Seq<char>, i: int)
    requires
        0 <= i <= fields.len(),
        forall|j: int| 0 <= j < i ==> (#[trigger] fields[j]).0 != key,
    ensures
        spec_field(fields, key) == spec_field(fields.subrange(i, fields.len() as int), key),
    decreases i,
{
    if i == 0 {
        assert(fields.subrange(0, fields.len() as int) =~= fields);
    } else {
        assert(fields[0].0 != key);
        assert(fields.drop_first() =~= fields.subrange(1, fields.len() as int));
        assert(forall|j: int|
            0 <= j < i - 1 ==> (#[trigger] fields.drop_first()[j]).0 != key);
        lemma_field_skip(fields.drop_first(), key, i - 1);
        assert(fields.drop_first().subrange(i - 1, fields.drop_first().len() as int)
            =~= fields.subrange(i, fields.len() as int));
    }
}

proof fn lemma_field_member(fields: Seq<(Seq<char>, JsonV)>, key: Seq<char>)
    ensures
        spec_field(fields, key) matches Some(x) ==> exists|i: int|
            0 <= i < fields.len() && (#[trigger] fields[i]).1 == x,
    decreases fields.len(),
{
    if fields.len() > 0 && fields[0].0 != key {
        lemma_field_member(fields.drop_first(), key);
        if spec_field(fields, key) is Some {
            let x = spec_field(fields, key)->Some_0;
            let i = choose|i: int|
                0 <= i < fields.drop_first().len() && (#[trigger] fields.drop_first()[i]).1 == x;
            assert(fields[i + 1].1 == x);
        }
    }
}

/// One node of the move tree: a board description and the moves that can
/// follow it.
#[derive(Debug)]
pub struct MoveTree {
    pub board: String,
    pub children: Vec<MoveTree>,
}

/// The mathematical value of a [`MoveTree`].
pub struct MoveTreeV {
    pub board: Seq<char>,
    pub children: Seq<MoveTreeV>,
}

pub open spec fn tree_view(t: MoveTree) -> MoveTreeV
    decreases t,
{
    MoveTreeV { board: t.board@, children: forest_view(t.children@) }
}

pub open spec fn forest_view(s: Seq<MoveTree>) -> Seq<MoveTreeV>
    decreases s,
{
    if s.len() == 0 {
        Seq::<MoveTreeV>::empty()
    } else {
        forest_view(s.drop_last()).push(tree_view(s.last()))
    }
}

impl View for MoveTree {
    type V = MoveTreeV;

    open spec fn view(&self) -> MoveTreeV {
        tree_view(*self)
    }
}

/// The tree a JSON value denotes: an object with a `"board"` string and
/// either a `"children"` array whose members all denote trees, or no
/// `"children"` member at all. Anything else denotes no tree.
pub open spec fn spec_tree_of_json(v: JsonV) -> Option<MoveTreeV>
    decreases v,
    via spec_tree_of_json_decreases
{
    match v {
        JsonV::Obj(fields) => {
            match (spec_field(fields, "board"@), spec_field(fields, "children"@)) {
                (Some(JsonV::Str(board)), Some(JsonV::Arr(children))) => {
                    match spec_forest_of_json(children) {
                        Some(f) => Some(MoveTreeV { board, children: f }),
                        None => None,
                    }
                },
                (Some(JsonV::Str(board)), None) => {
                    Some(MoveTreeV { board, children: Seq::<MoveTreeV>::empty() })
                },
                _ => None,
            }
        },
        _ => None,
    }
}

/// The trees a JSON array denotes, when every member denotes one.
pub open spec fn spec_forest_of_json(s: Seq<JsonV>) -> Option<Seq<MoveTreeV>>
    decreases s,
{
    if s.len() == 0 {
        Some(Seq::<MoveTreeV>::empty())
    } else {
        match (spec_forest_of_json(s.drop_last()), spec_tree_of_json(s.last())) {
            (Some(f), Some(t)) => Some(f.push(t)),
            _ => None,
        }
    }
}

#[via_fn]
proof fn spec_tree_of_json_decreases(v: JsonV) {
    match v {
        JsonV::Obj(fields) => {
            lemma_field_member(fields, "children"@);
            match spec_field(fields, "children"@) {
                Some(x) => {
                    let i = choose|i: int|
                        0 <= i < fields.len() && (#[trigger] fields[i]).1 == x;
                    assert(decreases_to!(v => fields));
                    assert(decreases_to!(fields => fields[i]));
                    assert(decreases_to!(fields[i] => fields[i].1));
                    match x {
                        JsonV::Arr(children) => {
                            assert(decreases_to!(fields[i].1 => children));
                            assert(decreases_to!(v => children));
                        },
                        _ => {},
                    }
                },
                None => {},
            }
        },
        _ => {},
    }
}

impl MoveTree {
    /// Build a tree from one already-modelled JSON value; the verified core
    /// of loading. A missing or non-string `"board"`, a non-array
    /// `"children"`, or any child that is itself no tree rejects the node.
    #[verifier::loop_isolation(false)]
    pub fn from_json_inner(v: &JsonValue) -> (r: Option<MoveTree>)
        ensures
            match r {
                Some(t) => spec_tree_of_json(v@) == Some(tree_view(t)),
                None => spec_tree_of_json(v@) is None,
            },
        decreases *v,
    {
        let board_key: String = String::from_str("board");
        let children_key: String = String::from_str("children");
        match v {
            JsonValue::Obj(fields) => {
                proof {
                    lemma_json_fields_view_index(fields@);
                }
                let board_val = obj_get(fields, &board_key);
                let children_val = obj_get(fields, &children_key);
                match board_val {
                    Some(JsonValue::Str(board)) => {
                        match children_val {
                            Some(cv) => match cv {
                                JsonValue::Arr(children) => {
                                proof {
                                    lemma_json_list_view_index(children@);
                                }
                                let n = children.len();
                                let mut parsed: Vec<MoveTree> = Vec::new();
                                let ghost cviews = json_list_view(children@);
                                for j in 0..n
                                    invariant
                                        n == children@.len(),
                                        cviews == json_list_view(children@),
                                        cviews.len() == n,
                                        forall|i: int|
                                            0 <= i < n ==> #[trigger] cviews[i] == json_view(
                                                children@[i],
                                            ),
                                        spec_forest_of_json(cviews.take(j as int)) == Some(
                                            forest_view(parsed@),
                                        ),
                                        v@ == json_view(*v),
                                    decreases n - j,
                                {
                                    proof {
                                        let i = choose|i: int|
                                            0 <= i < fields@.len() && (#[trigger] fields@[i]).1
                                                == *cv;
                                        assert(fields@[i].1 == *cv);
                                        assert(decreases_to!(*v => (*v)->Obj_0));
                                        assert((*v)->Obj_0 == *fields);
                                        assert(decreases_to!(*fields => fields@));
                                        assert(decreases_to!(fields@ => fields@[i]));
                                        assert(decreases_to!(fields@[i] => fields@[i].1));
                                        assert(decreases_to!(*cv => (*cv)->Arr_0));
                                        assert((*cv)->Arr_0 == *children);
                                        assert(decreases_to!(*children => children@));
                                        assert(decreases_to!(children@ => children@[j as int]));
                                        assert(decreases_to!(*v => children@[j as int]));
                                    }
                                    match Self::from_json_inner(&children[j]) {
                                        Some(t) => {
                                            let ghost prevparsed = parsed@;
                                            parsed.push(t);
                                            proof {
                                                assert(cviews.take(j + 1 as int).drop_last()
                                                    =~= cviews.take(j as int));
                                                assert(cviews.take(j + 1 as int).last()
                                                    == cviews[j as int]);
                                                assert(spec_tree_of_json(cviews[j as int])
                                                    == Some(tree_view(t)));
                                                assert(parsed@.drop_last() =~= prevparsed);
                                                assert(forest_view(parsed@) == forest_view(
                                                    prevparsed,
                                                ).push(tree_view(t)));
                                                assert(spec_forest_of_json(cviews.take(
                                                    j + 1 as int,
                                                )) == Some(forest_view(parsed@)));
                                            }
                                        },
                                        None => {
                                            proof {
                                                lemma_forest_prefix_none(cviews, j as int);
                                            }
                                            return None;
                                        },
                                    }
                                }
                                proof {
                                    assert(cviews.take(n as int) =~= cviews);
                                }
                                Some(MoveTree { board: board.clone(), children: parsed })
                                },
                                _ => None,
                            },
                            None => {
                                proof {
                                    assert(forest_view(Seq::<MoveTree>::empty())
                                        =~= Seq::<MoveTreeV>::empty());
                                }
                                Some(MoveTree { board: board.clone(), children: Vec::new() })
                            },
                        }
                    },
                    _ => None,
                }
            },
            _ => None,
        }
    }

    /// Build a tree from a parse result, as handed over by the bridge or by
    /// a reader at the transport layer.
    pub fn from_json(parsed: Option<JsonValue>) -> (r: Option<MoveTree>)
        ensures
            match parsed {
                Some(v) => match r {
                    Some(t) => spec_tree_of_json(v@) == Some(tree_view(t)),
                    None => spec_tree_of_json(v@) is None,
                },
                None => r is None,
            },
    {
        match parsed {
            Some(v) => Self::from_json_inner(&v),
            None => None,
        }
    }

    /// Parse JSON text and build the tree it denotes.
    pub fn from_json_str(json: &str) -> (r: Option<MoveTree>)
        ensures
            match r {
                Some(t) => json_parse(json@) matches Some(jv) && spec_tree_of_json(jv) == Some(
                    tree_view(t),
                ),
                None => json_parse(json@) matches Some(jv) ==> spec_tree_of_json(jv) is None,
            },
    {
        Self::from_json(parse_json_text(json))
    }
}

/// If an array member denotes no tree, the whole array denotes no forest.
proof fn lemma_forest_prefix_none(s: Seq<JsonV>, j: int)
    requires
        0 <= j < s.len(),
        spec_tree_of_json(s[j]) is None,
    ensures
        spec_forest_of_json(s) is None,
    decreases s.len(),
{
    if s.len() > 0 {
        if j == s.len() - 1 {
        } else {
            lemma_forest_prefix_none(s.drop_last(), j);
        }
    }
}

/// Look a member up by name: the first member with that name, scanning in
/// order, exactly as [`spec_field`] says.
fn obj_get<'a>(fields: &'a Vec<(String, JsonValue)>, key: &String) -> (r: Option<&'a JsonValue>)
    ensures
        match r {
            Some(x) => spec_field(json_fields_view(fields@), key@) == Some(json_view(*x))
                && exists|i: int| 0 <= i < fields@.len() && (#[trigger] fields@[i]).1 == *x,
            None => spec_field(json_fields_view(fields@), key@) is None,
        },
{
    proof {
        lemma_json_fields_view_index(fields@);
    }
    let ghost fv = json_fields_view(fields@);
    let n = fields.len();
    let mut i: usize = 0;
    while i < n
        invariant
            i <= n,
            n == fields@.len(),
            fv == json_fields_view(fields@),
            fv.len() == n,
            forall|k: int| 0 <= k < n ==> #[trigger] fv[k] == (fields@[k].0@, json_view(
                fields@[k].1,
            )),
            forall|k: int| 0 <= k < i ==> (#[trigger] fv[k]).0 != key@,
        decreases n - i,
    {
        if fields[i].0 == *key {
            proof {
                lemma_field_skip(fv, key@, i as int);
                assert(fv.subrange(i as int, n as int)[0] == fv[i as int]);
                assert(fv.subrange(i as int, n as int).len() > 0);
            }
            return Some(&fields[i].1);
        }
        i = i + 1;
    }
    proof {
        lemma_field_skip(fv, key@, n as int);
        assert(fv.subrange(n as int, n as int).len() == 0);
    }
    None
}

/// What serde_json makes of a text: the parse is a function of the
/// characters alone.
pub uninterp spec fn json_parse(s: Seq<char>) -> Option<JsonV>;

/// Relies on `serde_json::from_str::<serde_json::Value>`: it parses the
/// text into a JSON document or fails, deterministically in the text.
#[verifier::external_body]
fn parse_json_text(s: &str) -> (r: Option<JsonValue>)
    ensures
        match r {
            Some(v) => json_parse(s@) == Some(json_view(v)),
            None => json_parse(s@) is None,
        },
{
    match serde_json::from_str::<serde_json::Value>(s) {
        Ok(v) => Some(convert_json(&v)),
        Err(_) => None,
    }
}

/// Converts a `serde_json::Value` into the crate's model: one arm per
/// variant, moving fields; a number's payload is dropped.
#[verifier::external_body]
fn convert_json(v: &serde_json::Value) -> JsonValue {
    match v {
        serde_json::Value::Null => JsonValue::Null,
        serde_json::Value::Bool(b) => JsonValue::Bool(*b),
        serde_json::Value::Number(_) => JsonValue::Number,
        serde_json::Value::String(s) => JsonValue::Str(s.clone()),
        serde_json::Value::Array(a) => JsonValue::Arr(a.iter().map(convert_json).collect()),
        serde_json::Value::Object(o) => JsonValue::Obj(
            o.iter().map(|(k, x)| (k.clone(), convert_json(x))).collect(),
        ),
    }
}

#[verifier::external_type_specification]
#[verifier::external_body]
pub struct ExJsonDocument(serde_json::Value);

} // verus!
