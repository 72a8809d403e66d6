//! Runtime values and the environments that bind names to them.
//!
//! Environments live in a [`Runtime`], which owns all of them; an [`Env`] is
//! the index of one. A closure keeps the index of the environment it was made
//! in, so later bindings there stay visible to it.

use vstd::prelude::*;
use vstd::utf8::encode_utf8;
use crate::ast::{
    BlockStatement, Ident, Node, SpecBlock, SpecIdent, SpecNode, block_str, copy_block,
    copy_idents, copy_node, idents_str, node_str, view_idents,
};
use crate::float::FloatArith;
use crate::numfmt::{fnv1a, fnv1a_64, i64_text, int_text};
use crate::text::{append_str, str_eq, string_of};

verus! {

/// The type of a value, as messages name it.
#[derive(Clone, Copy, PartialEq, Eq, Structural, Hash, Debug)]
pub enum Type {
    Integer,
    Float,
    Boolean,
    Nil,
    ReturnValue,
    Error,
    Function,
    String,
    Builtin,
    Array,
    Hash,
    Quote,
    Macro,
}

pub open spec fn object_type_name(t: Type) -> Seq<char> {
    match t {
        Type::Integer => "Integer"@,
        Type::Float => "Float"@,
        Type::Boolean => "Boolean"@,
        Type::Nil => "Nil"@,
        Type::ReturnValue => "ReturnValue"@,
        Type::Error => "Error"@,
        Type::Function => "Function"@,
        Type::String => "String"@,
        Type::Builtin => "Builtin"@,
        Type::Array => "Array"@,
        Type::Hash => "Hash"@,
        Type::Quote => "Quote"@,
        Type::Macro => "Macro"@,
    }
}

impl Type {
    pub fn as_str(&self) -> (r: &'static str)
        ensures
            r@ == object_type_name(*self),
    {
        match self {
            Type::Integer => "Integer",
            Type::Float => "Float",
            Type::Boolean => "Boolean",
            Type::Nil => "Nil",
            Type::ReturnValue => "ReturnValue",
            Type::Error => "Error",
            Type::Function => "Function",
            Type::String => "String",
            Type::Builtin => "Builtin",
            Type::Array => "Array",
            Type::Hash => "Hash",
            Type::Quote => "Quote",
            Type::Macro => "Macro",
        }
    }

    /// The type's name as an owned string (the text `{}` prints).
    pub fn to_string(&self) -> (r: String)
        ensures
            r@ == object_type_name(*self),
    {
        string_of(self.as_str())
    }
}

/// What a hashable value is keyed by in a hash: its type and a 64-bit code.
#[derive(Clone, Copy, PartialEq, Eq, Structural, Hash, Debug)]
pub struct HashKey {
    pub type_: Type,
    pub value: u64,
}

/// The built-in functions.
#[derive(Clone, Copy, PartialEq, Eq, Structural, Debug)]
pub enum BuiltinKind {
    Len,
    First,
    Last,
    Rest,
    Push,
    Puts,
}

#[derive(Clone, Copy, PartialEq, Eq, Structural, Debug)]
pub struct Builtin {
    pub kind: BuiltinKind,
}

/// The index of an environment in a [`Runtime`].
pub type Env = usize;

/// A binary64 number (by its bits) with its display text. Values made by
/// [`FloatValue::new`] carry the text that the [`FloatArith`] implementation
/// displays the bits as; which implementation that was is not part of the
/// value, so no invariant ties the two fields together here.
#[derive(Debug)]
pub struct FloatValue {
    pub bits: u64,
    pub text: String,
}

impl FloatValue {
    /// The number with these bits, with the text `F` displays it as.
    pub fn new<F: FloatArith>(bits: u64) -> (r: FloatValue)
        ensures
            r.bits == bits,
            r.text@ == F::spec_format(bits)@,
    {
        FloatValue { bits, text: F::format(bits) }
    }
}

#[derive(Debug)]
pub struct Function {
    pub parameters: Vec<Ident>,
    pub body: BlockStatement,
    pub env: Env,
}

#[derive(Debug)]
pub struct Macro {
    pub parameters: Vec<Ident>,
    pub body: BlockStatement,
    pub env: Env,
}

#[derive(Debug)]
pub struct HashPair {
    pub key: Object,
    pub value: Object,
}

/// A hash: its pairs in the order their keys were first added, each with
/// the key's hash key; no hash key occurs twice.
#[derive(Debug)]
pub struct HashObj {
    pub pairs: Vec<(HashKey, HashPair)>,
}

#[derive(Debug)]
pub enum Object {
    Integer(i64),
    Float(FloatValue),
    Boolean(bool),
    Nil,
    ReturnValue(Box<Object>),
    Error(String),
    Function(Function),
    Str(String),
    Builtin(Builtin),
    Array(Vec<Object>),
    Hash(HashObj),
    Quote(Box<Node>),
    Macro(Macro),
}

/// The meaning of a value.
pub enum SpecObject {
    Integer(i64),
    Float(u64, Seq<char>),
    Boolean(bool),
    Nil,
    ReturnValue(Box<SpecObject>),
    Error(Seq<char>),
    Function(Seq<SpecIdent>, SpecBlock, usize),
    Str(Seq<char>),
    Builtin(BuiltinKind),
    Array(Seq<SpecObject>),
    Hash(Seq<(HashKey, SpecObject, SpecObject)>),
    Quote(SpecNode),
    Macro(Seq<SpecIdent>, SpecBlock, usize),
}

pub open spec fn view_object(o: Object) -> SpecObject
    decreases o,
{
    match o {
        Object::Integer(v) => SpecObject::Integer(v),
        Object::Float(f) => SpecObject::Float(f.bits, f.text@),
        Object::Boolean(b) => SpecObject::Boolean(b),
        Object::Nil => SpecObject::Nil,
        Object::ReturnValue(v) => SpecObject::ReturnValue(Box::new(view_object(*v))),
        Object::Error(m) => SpecObject::Error(m@),
        Object::Function(f) => SpecObject::Function(view_idents(f.parameters@), f.body@, f.env),
        Object::Str(s) => SpecObject::Str(s@),
        Object::Builtin(b) => SpecObject::Builtin(b.kind),
        Object::Array(v) => SpecObject::Array(view_objects(v@)),
        Object::Hash(h) => SpecObject::Hash(view_hash_pairs(h.pairs@)),
        Object::Quote(n) => SpecObject::Quote(n@),
        Object::Macro(m) => SpecObject::Macro(view_idents(m.parameters@), m.body@, m.env),
    }
}

pub open spec fn view_objects(v: Seq<Object>) -> Seq<SpecObject>
    decreases v,
{
    Seq::new(
        v.len(),
        |k: int|
            if 0 <= k < v.len() {
                proof {
                    assert(decreases_to!(v => v[k]));
                }
                view_object(v[k])
            } else {
                SpecObject::Nil
            },
    )
}

pub proof fn lemma_view_objects(v: Seq<Object>)
    ensures
        view_objects(v).len() == v.len(),
        forall|k: int| 0 <= k < v.len() ==> #[trigger] view_objects(v)[k] == view_object(v[k]),
{
}

pub open spec fn view_hash_pairs(v: Seq<(HashKey, HashPair)>) -> Seq<(HashKey, SpecObject, SpecObject)>
    decreases v,
{
    Seq::new(
        v.len(),
        |k: int|
            if 0 <= k < v.len() {
                proof {
                    assert(decreases_to!(v => v[k]));
                    assert(decreases_to!(v[k] => v[k].1));
                    assert(decreases_to!(v[k].1 => v[k].1.key));
                    assert(decreases_to!(v[k].1 => v[k].1.value));
                }
                (v[k].0, view_object(v[k].1.key), view_object(v[k].1.value))
            } else {
                (v[0].0, SpecObject::Nil, SpecObject::Nil)
            },
    )
}

impl View for Object {
    type V = SpecObject;

    open spec fn view(&self) -> SpecObject {
        view_object(*self)
    }
}

pub fn copy_object(o: &Object) -> (r: Object)
    ensures
        r@ == o@,
    decreases o,
{
    match o {
        Object::Integer(v) => Object::Integer(*v),
        Object::Float(f) => Object::Float(FloatValue { bits: f.bits, text: f.text.clone() }),
        Object::Boolean(b) => Object::Boolean(*b),
        Object::Nil => Object::Nil,
        Object::ReturnValue(v) => Object::ReturnValue(Box::new(copy_object(v))),
        Object::Error(m) => Object::Error(m.clone()),
        Object::Function(f) => Object::Function(
            Function {
                parameters: copy_idents(&f.parameters),
                body: copy_block(&f.body),
                env: f.env,
            },
        ),
        Object::Str(s) => Object::Str(s.clone()),
        Object::Builtin(b) => Object::Builtin(*b),
        Object::Array(v) => Object::Array(copy_objects(v)),
        Object::Hash(h) => Object::Hash(HashObj { pairs: copy_hash_pairs(&h.pairs) }),
        Object::Quote(n) => Object::Quote(Box::new(copy_node(n))),
        Object::Macro(m) => Object::Macro(
            Macro { parameters: copy_idents(&m.parameters), body: copy_block(&m.body), env: m.env },
        ),
    }
}

pub fn copy_objects(v: &Vec<Object>) -> (r: Vec<Object>)
    ensures
        view_objects(r@) == view_objects(v@),
    decreases v,
{
    let mut r: Vec<Object> = Vec::new();
    let mut i: usize = 0;
    while i < v.len()
        invariant
            i <= v.len(),
            r@.len() == i,
            forall|k: int| 0 <= k < i ==> view_object(#[trigger] r@[k]) == view_object(v@[k]),
        decreases v.len() - i,
    {
        proof {
            assert(decreases_to!(v => v@[i as int]));
        }
        r.push(copy_object(&v[i]));
        i = i + 1;
    }
    assert(view_objects(r@) =~= view_objects(v@));
    r
}

pub fn copy_hash_pairs(v: &Vec<(HashKey, HashPair)>) -> (r: Vec<(HashKey, HashPair)>)
    ensures
        view_hash_pairs(r@) == view_hash_pairs(v@),
    decreases v,
{
    let mut r: Vec<(HashKey, HashPair)> = Vec::new();
    let mut i: usize = 0;
    while i < v.len()
        invariant
            i <= v.len(),
            r@.len() == i,
            forall|k: int|
                0 <= k < i ==> (#[trigger] r@[k]).0 == v@[k].0 && view_object(r@[k].1.key)
                    == view_object(v@[k].1.key) && view_object(r@[k].1.value) == view_object(
                    v@[k].1.value,
                ),
        decreases v.len() - i,
    {
        proof {
            assert(decreases_to!(v => v@[i as int]));
            assert(decreases_to!(v@[i as int] => v@[i as int].1));
            assert(decreases_to!(v@[i as int].1 => v@[i as int].1.key));
            assert(decreases_to!(v@[i as int].1 => v@[i as int].1.value));
        }
        let key = copy_object(&v[i].1.key);
        let value = copy_object(&v[i].1.value);
        r.push((v[i].0, HashPair { key, value }));
        i = i + 1;
    }
    assert(view_hash_pairs(r@) =~= view_hash_pairs(v@));
    r
}

impl Clone for Object {
    fn clone(&self) -> (r: Self)
        ensures
            r@ == self@,
    {
        copy_object(self)
    }
}

/// The type of a value.
pub open spec fn type_of(o: SpecObject) -> Type {
    match o {
        SpecObject::Integer(_) => Type::Integer,
        SpecObject::Float(..) => Type::Float,
        SpecObject::Boolean(_) => Type::Boolean,
        SpecObject::Nil => Type::Nil,
        SpecObject::ReturnValue(_) => Type::ReturnValue,
        SpecObject::Error(_) => Type::Error,
        SpecObject::Function(..) => Type::Function,
        SpecObject::Str(_) => Type::String,
        SpecObject::Builtin(_) => Type::Builtin,
        SpecObject::Array(_) => Type::Array,
        SpecObject::Hash(_) => Type::Hash,
        SpecObject::Quote(_) => Type::Quote,
        SpecObject::Macro(..) => Type::Macro,
    }
}

/// The text a value is shown as.
pub open spec fn inspect_text(o: SpecObject) -> Seq<char>
    decreases o,
{
    match o {
        SpecObject::Integer(v) => int_text(v as int),
        SpecObject::Float(_, text) => text,
        SpecObject::Boolean(b) => if b {
            "true"@
        } else {
            "false"@
        },
        SpecObject::Nil => "nil"@,
        SpecObject::ReturnValue(v) => inspect_text(*v),
        SpecObject::Error(m) => "Error: "@ + m,
        SpecObject::Function(ps, body, _) => "fn("@ + idents_str(ps) + ") {\n"@ + block_str(body)
            + "\n}"@,
        SpecObject::Str(s) => s,
        SpecObject::Builtin(_) => "builtin function"@,
        SpecObject::Array(es) => "["@ + inspect_list(es) + "]"@,
        SpecObject::Hash(ps) => "{"@ + inspect_pairs(ps) + "}"@,
        SpecObject::Quote(n) => "Quote("@ + node_str(n) + ")"@,
        SpecObject::Macro(ps, body, _) => "macro("@ + idents_str(ps) + ") {\n"@ + block_str(body)
            + "\n}"@,
    }
}

/// The values shown, joined by ", ".
pub open spec fn inspect_list(s: Seq<SpecObject>) -> Seq<char>
    decreases s,
{
    if s.len() == 0 {
        Seq::empty()
    } else if s.len() == 1 {
        inspect_text(s[0])
    } else {
        inspect_list(s.drop_last()) + ", "@ + inspect_text(s.last())
    }
}

/// The pairs shown as "key: value", joined by ", ".
pub open spec fn inspect_pairs(s: Seq<(HashKey, SpecObject, SpecObject)>) -> Seq<char>
    decreases s,
{
    if s.len() == 0 {
        Seq::empty()
    } else if s.len() == 1 {
        inspect_text(s[0].1) + ": "@ + inspect_text(s[0].2)
    } else {
        inspect_pairs(s.drop_last()) + ", "@ + inspect_text(s.last().1) + ": "@ + inspect_text(
            s.last().2,
        )
    }
}

/// The hash key of a value, for the hashable types.
pub open spec fn hash_key_of(o: SpecObject) -> Option<HashKey> {
    match o {
        SpecObject::Integer(v) => Some(HashKey { type_: Type::Integer, value: v as u64 }),
        SpecObject::Boolean(b) => Some(
            HashKey {
                type_: Type::Boolean,
                value: if b {
                    1
                } else {
                    0
                },
            },
        ),
        SpecObject::Str(s) => Some(HashKey { type_: Type::String, value: fnv1a(encode_utf8(s)) }),
        SpecObject::Float(_, text) => Some(
            HashKey { type_: Type::Float, value: fnv1a(encode_utf8(text)) },
        ),
        _ => None,
    }
}

fn write_objects(v: &Vec<Object>, out: &mut String)
    ensures
        final(out)@ == old(out)@ + inspect_list(view_objects(v@)),
    decreases v,
{
    let ghost start = old(out)@;
    let ghost sv = view_objects(v@);
    let mut i: usize = 0;
    while i < v.len()
        invariant
            i <= v.len(),
            sv == view_objects(v@),
            out@ == start + inspect_list(sv.take(i as int)),
        decreases v.len() - i,
    {
        proof {
            assert(decreases_to!(v => v@[i as int]));
        }
        if i > 0 {
            append_str(out, ", ");
        }
        write_object(&v[i], out);
        proof {
            assert(sv.take(i + 1).drop_last() =~= sv.take(i as int));
            if i == 0 {
                assert(sv.take(1) =~= seq![sv[0]]);
            }
        }
        i = i + 1;
    }
    assert(sv.take(v.len() as int) =~= sv);
}

fn write_hash_pairs(v: &Vec<(HashKey, HashPair)>, out: &mut String)
    ensures
        final(out)@ == old(out)@ + inspect_pairs(view_hash_pairs(v@)),
    decreases v,
{
    let ghost start = old(out)@;
    let ghost sv = view_hash_pairs(v@);
    let mut i: usize = 0;
    while i < v.len()
        invariant
            i <= v.len(),
            sv == view_hash_pairs(v@),
            out@ == start + inspect_pairs(sv.take(i as int)),
        decreases v.len() - i,
    {
        proof {
            assert(decreases_to!(v => v@[i as int]));
            assert(decreases_to!(v@[i as int] => v@[i as int].1));
            assert(decreases_to!(v@[i as int].1 => v@[i as int].1.key));
            assert(decreases_to!(v@[i as int].1 => v@[i as int].1.value));
        }
        if i > 0 {
            append_str(out, ", ");
        }
        write_object(&v[i].1.key, out);
        append_str(out, ": ");
        write_object(&v[i].1.value, out);
        proof {
            assert(sv.take(i + 1).drop_last() =~= sv.take(i as int));
            if i == 0 {
                assert(sv.take(1) =~= seq![sv[0]]);
            }
        }
        i = i + 1;
    }
    assert(sv.take(v.len() as int) =~= sv);
}

#[verifier::spinoff_prover]
#[verifier::rlimit(40)]
fn write_object(o: &Object, out: &mut String)
    ensures
        final(out)@ == old(out)@ + inspect_text(o@),
    decreases o,
{
    let ghost start = old(out)@;
    match o {
        Object::Integer(v) => {
            let t = i64_text(*v);
            append_str(out, t.as_str());
        },
        Object::Float(f) => {
            append_str(out, f.text.as_str());
        },
        Object::Boolean(b) => {
            if *b {
                append_str(out, "true");
            } else {
                append_str(out, "false");
            }
        },
        Object::Nil => {
            append_str(out, "nil");
        },
        Object::ReturnValue(v) => {
            write_object(v, out);
        },
        Object::Error(m) => {
            append_str(out, "Error: ");
            append_str(out, m.as_str());
        },
        Object::Function(f) => {
            append_str(out, "fn(");
            write_params(&f.parameters, out);
            append_str(out, ") {\n");
            let body = f.body.to_string();
            append_str(out, body.as_str());
            append_str(out, "\n}");
            assert(out@ =~= start + inspect_text(o@));
        },
        Object::Str(s) => {
            append_str(out, s.as_str());
        },
        Object::Builtin(_) => {
            append_str(out, "builtin function");
        },
        Object::Array(v) => {
            append_str(out, "[");
            write_objects(v, out);
            append_str(out, "]");
            assert(out@ =~= start + inspect_text(o@));
        },
        Object::Hash(h) => {
            append_str(out, "{");
            write_hash_pairs(&h.pairs, out);
            append_str(out, "}");
            assert(out@ =~= start + inspect_text(o@));
        },
        Object::Quote(n) => {
            append_str(out, "Quote(");
            let t = n.to_string();
            append_str(out, t.as_str());
            append_str(out, ")");
            assert(out@ =~= start + inspect_text(o@));
        },
        Object::Macro(m) => {
            append_str(out, "macro(");
            write_params(&m.parameters, out);
            append_str(out, ") {\n");
            let body = m.body.to_string();
            append_str(out, body.as_str());
            append_str(out, "\n}");
            assert(out@ =~= start + inspect_text(o@));
        },
    }
}

fn write_params(v: &Vec<Ident>, out: &mut String)
    ensures
        final(out)@ == old(out)@ + idents_str(view_idents(v@)),
{
    let ghost start = old(out)@;
    let ghost sv = view_idents(v@);
    let mut i: usize = 0;
    while i < v.len()
        invariant
            i <= v.len(),
            sv == view_idents(v@),
            out@ == start + idents_str(sv.take(i as int)),
        decreases v.len() - i,
    {
        if i > 0 {
            append_str(out, ", ");
        }
        append_str(out, v[i].value.as_str());
        proof {
            assert(sv.take(i + 1).drop_last() =~= sv.take(i as int));
            if i == 0 {
                assert(sv.take(1) =~= seq![sv[0]]);
            }
        }
        i = i + 1;
    }
    assert(sv.take(v.len() as int) =~= sv);
}

impl Object {
    /// The type of this value.
    pub fn type_(&self) -> (r: Type)
        ensures
            r == type_of(self@),
    {
        match self {
            Object::Integer(_) => Type::Integer,
            Object::Float(_) => Type::Float,
            Object::Boolean(_) => Type::Boolean,
            Object::Nil => Type::Nil,
            Object::ReturnValue(_) => Type::ReturnValue,
            Object::Error(_) => Type::Error,
            Object::Function(_) => Type::Function,
            Object::Str(_) => Type::String,
            Object::Builtin(_) => Type::Builtin,
            Object::Array(_) => Type::Array,
            Object::Hash(_) => Type::Hash,
            Object::Quote(_) => Type::Quote,
            Object::Macro(_) => Type::Macro,
        }
    }

    /// The text this value is shown as.
    pub fn inspect(&self) -> (r: String)
        ensures
            r@ == inspect_text(self@),
    {
        let mut out = String::new();
        write_object(self, &mut out);
        out
    }

    /// The key this value has in a hash, if its type is hashable.
    pub fn hash_key(&self) -> (r: Option<HashKey>)
        ensures
            r == hash_key_of(self@),
    {
        match self {
            Object::Integer(v) => Some(HashKey { type_: Type::Integer, value: *v as u64 }),
            Object::Boolean(b) => Some(
                HashKey {
                    type_: Type::Boolean,
                    value: if *b {
                        1
                    } else {
                        0
                    },
                },
            ),
            Object::Str(s) => Some(
                HashKey { type_: Type::String, value: fnv1a_64(s.as_str().as_bytes()) },
            ),
            Object::Float(f) => Some(
                HashKey { type_: Type::Float, value: fnv1a_64(f.text.as_str().as_bytes()) },
            ),
            _ => None,
        }
    }
}

/// Whether `i` is the first place in `ps` whose hash key is `k`.
pub open spec fn first_key_at(ps: Seq<(HashKey, SpecObject, SpecObject)>, k: HashKey, i: int) -> bool {
    &&& 0 <= i < ps.len()
    &&& ps[i].0 == k
    &&& forall|j: int| 0 <= j < i ==> ps[j].0 != k
}

/// The first place in `ps` whose hash key is `k`, or -1.
pub open spec fn key_index(ps: Seq<(HashKey, SpecObject, SpecObject)>, k: HashKey) -> int {
    if exists|i: int| first_key_at(ps, k, i) {
        choose|i: int| first_key_at(ps, k, i)
    } else {
        -1
    }
}

/// The key and value stored under hash key `k`.
pub open spec fn hash_lookup(ps: Seq<(HashKey, SpecObject, SpecObject)>, k: HashKey) -> Option<
    (SpecObject, SpecObject),
> {
    let i = key_index(ps, k);
    if i >= 0 {
        Some((ps[i].1, ps[i].2))
    } else {
        None
    }
}

/// The pairs after storing `key: value` under hash key `k`: a pair already
/// stored under `k` is replaced in its place, else the pair is added last.
pub open spec fn hash_insert(
    ps: Seq<(HashKey, SpecObject, SpecObject)>,
    k: HashKey,
    key: SpecObject,
    value: SpecObject,
) -> Seq<(HashKey, SpecObject, SpecObject)> {
    let i = key_index(ps, k);
    if i >= 0 {
        ps.update(i, (k, key, value))
    } else {
        ps.push((k, key, value))
    }
}

pub proof fn lemma_key_index(ps: Seq<(HashKey, SpecObject, SpecObject)>, k: HashKey, i: int)
    requires
        (0 <= i < ps.len() && ps[i].0 == k) || i == ps.len(),
        0 <= i <= ps.len(),
        forall|j: int| 0 <= j < i ==> ps[j].0 != k,
    ensures
        key_index(ps, k) == (if i < ps.len() {
            i
        } else {
            -1
        }),
{
    if i < ps.len() {
        assert(first_key_at(ps, k, i));
        let c = choose|c: int| first_key_at(ps, k, c);
        assert(first_key_at(ps, k, c));
        if c < i {
            assert(ps[c].0 != k);
        }
        if c > i {
            assert(ps[i].0 != k);
        }
    } else {
        assert forall|c: int| !first_key_at(ps, k, c) by {
            if 0 <= c < ps.len() {
                assert(ps[c].0 != k);
            }
        }
    }
}

pub proof fn lemma_view_hash_pairs(v: Seq<(HashKey, HashPair)>)
    ensures
        view_hash_pairs(v).len() == v.len(),
        forall|k: int|
            0 <= k < v.len() ==> #[trigger] view_hash_pairs(v)[k] == (
                v[k].0,
                view_object(v[k].1.key),
                view_object(v[k].1.value),
            ),
{
}

/// The first place whose hash key is `k`, or the number of pairs.
fn find_key(pairs: &Vec<(HashKey, HashPair)>, k: HashKey) -> (i: usize)
    ensures
        key_index(view_hash_pairs(pairs@), k) == (if i < pairs@.len() {
            i as int
        } else {
            -1
        }),
        i <= pairs@.len(),
{
    let ghost ps = view_hash_pairs(pairs@);
    proof {
        lemma_view_hash_pairs(pairs@);
    }
    let mut i: usize = 0;
    while i < pairs.len()
        invariant
            i <= pairs@.len(),
            ps == view_hash_pairs(pairs@),
            ps.len() == pairs@.len(),
            forall|j: int| 0 <= j < i ==> ps[j].0 != k,
        decreases pairs@.len() - i,
    {
        if pairs[i].0 == k {
            proof {
                lemma_key_index(ps, k, i as int);
            }
            return i;
        }
        i = i + 1;
    }
    proof {
        lemma_key_index(ps, k, i as int);
    }
    i
}

/// Stores `key: value` under hash key `k`, replacing a pair already stored
/// under `k` in its place, else adding it last.
pub fn insert_pair(pairs: &mut Vec<(HashKey, HashPair)>, k: HashKey, key: Object, value: Object)
    ensures
        view_hash_pairs(final(pairs)@) == hash_insert(view_hash_pairs(old(pairs)@), k, key@, value@),
{
    let ghost ps = view_hash_pairs(old(pairs)@);
    let ghost kv = key@;
    let ghost vv = value@;
    proof {
        lemma_view_hash_pairs(old(pairs)@);
    }
    let i = find_key(pairs, k);
    if i < pairs.len() {
        pairs.set(i, (k, HashPair { key, value }));
        proof {
            lemma_view_hash_pairs(pairs@);
            assert(view_hash_pairs(pairs@) =~= ps.update(i as int, (k, kv, vv)));
        }
    } else {
        pairs.push((k, HashPair { key, value }));
        proof {
            lemma_view_hash_pairs(pairs@);
            assert(view_hash_pairs(pairs@) =~= ps.push((k, kv, vv)));
        }
    }
}

impl HashObj {
    /// The pair stored under this hash key.
    pub fn get(&self, key: &HashKey) -> (r: Option<&HashPair>)
        ensures
            match r {
                Some(p) => hash_lookup(view_hash_pairs(self.pairs@), *key) == Some(
                    (p.key@, p.value@),
                ),
                None => hash_lookup(view_hash_pairs(self.pairs@), *key) is None,
            },
    {
        let ghost ps = view_hash_pairs(self.pairs@);
        let mut i: usize = 0;
        while i < self.pairs.len()
            invariant
                i <= self.pairs@.len(),
                ps == view_hash_pairs(self.pairs@),
                forall|j: int| 0 <= j < i ==> ps[j].0 != *key,
            decreases self.pairs@.len() - i,
        {
            if self.pairs[i].0 == *key {
                proof {
                    lemma_key_index(ps, *key, i as int);
                }
                return Some(&self.pairs[i].1);
            }
            i = i + 1;
        }
        proof {
            lemma_key_index(ps, *key, i as int);
        }
        None
    }
}

// ---------------------------------------------------------------------------
// Environments
// ---------------------------------------------------------------------------

/// One scope: its bindings in the order they were made, and the scope it is
/// nested in. A later binding of a name hides an earlier one.
#[derive(Debug)]
pub struct Environment {
    pub store: Vec<(String, Object)>,
    pub outer: Option<Env>,
}

/// All environments of an interpreter, and the lines `puts` has written.
/// An environment only ever refers to one made before it.
#[derive(Debug)]
pub struct Runtime {
    pub envs: Vec<Environment>,
    pub output: Vec<String>,
}

pub struct SpecEnv {
    pub store: Seq<(Seq<char>, SpecObject)>,
    pub outer: Option<usize>,
}

pub struct RtState {
    pub envs: Seq<SpecEnv>,
    pub output: Seq<Seq<char>>,
}

pub open spec fn view_store(s: Seq<(String, Object)>) -> Seq<(Seq<char>, SpecObject)> {
    Seq::new(s.len(), |k: int| (s[k].0@, view_object(s[k].1)))
}

pub open spec fn view_env(e: Environment) -> SpecEnv {
    SpecEnv { store: view_store(e.store@), outer: e.outer }
}

pub open spec fn view_strings(s: Seq<String>) -> Seq<Seq<char>> {
    Seq::new(s.len(), |k: int| s[k]@)
}

impl View for Runtime {
    type V = RtState;

    closed spec fn view(&self) -> RtState {
        RtState {
            envs: Seq::new(self.envs@.len(), |k: int| view_env(self.envs@[k])),
            output: view_strings(self.output@),
        }
    }
}

/// The latest binding of `name` in one scope's bindings.
pub open spec fn store_lookup(store: Seq<(Seq<char>, SpecObject)>, name: Seq<char>) -> Option<
    SpecObject,
>
    decreases store.len(),
{
    if store.len() == 0 {
        None
    } else if store.last().0 == name {
        Some(store.last().1)
    } else {
        store_lookup(store.drop_last(), name)
    }
}

/// What `name` is bound to in environment `e`, looking outward through the
/// enclosing environments.
pub open spec fn env_lookup(envs: Seq<SpecEnv>, e: int, name: Seq<char>) -> Option<SpecObject>
    decreases e,
{
    if !(0 <= e < envs.len()) {
        None
    } else {
        match store_lookup(envs[e].store, name) {
            Some(v) => Some(v),
            None => match envs[e].outer {
                Some(o) => if o < e {
                    env_lookup(envs, o as int, name)
                } else {
                    None
                },
                None => None,
            },
        }
    }
}

/// The state after binding `name` to `v` in environment `e` (none if there is
/// no such environment).
pub open spec fn env_bind(st: RtState, e: usize, name: Seq<char>, v: SpecObject) -> RtState {
    if e < st.envs.len() {
        RtState {
            envs: st.envs.update(
                e as int,
                SpecEnv { store: st.envs[e as int].store.push((name, v)), outer: st.envs[e as int].outer },
            ),
            output: st.output,
        }
    } else {
        st
    }
}

/// The state with one more, empty environment, nested in `outer` when that is
/// an existing environment.
pub open spec fn env_push(st: RtState, outer: Option<usize>) -> RtState {
    RtState {
        envs: st.envs.push(
            SpecEnv {
                store: Seq::empty(),
                outer: match outer {
                    Some(o) => if o < st.envs.len() {
                        Some(o)
                    } else {
                        None
                    },
                    None => None,
                },
            },
        ),
        output: st.output,
    }
}

impl Runtime {
    /// A runtime with no environments and no output.
    pub fn new() -> (r: Runtime)
        ensures
            r@ == (RtState { envs: Seq::empty(), output: Seq::empty() }),
    {
        let r = Runtime { envs: Vec::new(), output: Vec::new() };
        assert(r@.envs =~= Seq::empty());
        assert(r@.output =~= Seq::empty());
        r
    }

    /// The lines written so far.
    pub fn output(&self) -> (r: &[String])
        ensures
            view_strings(r@) == self@.output,
    {
        self.output.as_slice()
    }

    /// Adds a line of output.
    pub fn write_line(&mut self, line: String)
        ensures
            final(self)@ == (RtState { envs: old(self)@.envs, output: old(self)@.output.push(line@) }),
    {
        self.output.push(line);
        proof {
            assert(final(self)@.envs =~= old(self)@.envs);
            assert(final(self)@.output =~= old(self)@.output.push(line@));
        }
    }

    /// Hands out the lines written so far, and forgets them.
    pub fn take_output(&mut self) -> (r: Vec<String>)
        ensures
            view_strings(r@) == old(self)@.output,
            final(self)@ == (RtState { envs: old(self)@.envs, output: Seq::empty() }),
    {
        let mut out: Vec<String> = Vec::new();
        std::mem::swap(&mut out, &mut self.output);
        proof {
            assert(final(self)@.envs =~= old(self)@.envs);
            assert(final(self)@.output =~= Seq::<Seq<char>>::empty());
        }
        out
    }
}

/// The latest binding of `name` among `store`'s bindings.
fn store_find<'a>(store: &'a Vec<(String, Object)>, name: &str) -> (r: Option<&'a Object>)
    ensures
        match r {
            Some(o) => store_lookup(view_store(store@), name@) == Some(o@),
            None => store_lookup(view_store(store@), name@) is None,
        },
{
    let ghost vs = view_store(store@);
    let mut i = store.len();
    assert(vs.take(i as int) =~= vs);
    while i > 0
        invariant
            i <= store@.len(),
            vs == view_store(store@),
            store_lookup(vs, name@) == store_lookup(vs.take(i as int), name@),
        decreases i,
    {
        assert(vs.take(i as int).drop_last() =~= vs.take(i - 1));
        if str_eq(store[i - 1].0.as_str(), name) {
            return Some(&store[i - 1].1);
        }
        i = i - 1;
    }
    assert(vs.take(0) =~= Seq::<(Seq<char>, SpecObject)>::empty());
    None
}

impl Environment {
    /// A new, empty top-level environment.
    pub fn new(rt: &mut Runtime) -> (r: Env)
        ensures
            r == old(rt)@.envs.len(),
            final(rt)@ == env_push(old(rt)@, None),
    {
        Self::make(rt, None)
    }

    /// A new, empty environment nested in `outer`.
    pub fn new_enclosed(rt: &mut Runtime, outer: Env) -> (r: Env)
        ensures
            r == old(rt)@.envs.len(),
            final(rt)@ == env_push(old(rt)@, Some(outer)),
    {
        Self::make(rt, Some(outer))
    }

    fn make(rt: &mut Runtime, outer: Option<Env>) -> (r: Env)
        ensures
            r == old(rt)@.envs.len(),
            final(rt)@ == env_push(old(rt)@, outer),
    {
        let n = rt.envs.len();
        let o = match outer {
            Some(o) => if o < n {
                Some(o)
            } else {
                None
            },
            None => None,
        };
        rt.envs.push(Environment { store: Vec::new(), outer: o });
        proof {
            let e = SpecEnv { store: Seq::empty(), outer: o };
            assert(view_env(rt.envs@[n as int]) == e) by {
                assert(view_store(rt.envs@[n as int].store@) =~= Seq::empty());
            }
            assert(final(rt)@.envs =~= env_push(old(rt)@, outer).envs);
        }
        n
    }

    /// The value `name` is bound to in environment `env` or the environments
    /// it is nested in.
    pub fn get(rt: &Runtime, env: Env, name: &str) -> (r: Option<Object>)
        ensures
            match r {
                Some(o) => env_lookup(rt@.envs, env as int, name@) == Some(o@),
                None => env_lookup(rt@.envs, env as int, name@) is None,
            },
    {
        let ghost envs = rt@.envs;
        let mut cur = env;
        loop
            invariant
                envs == rt@.envs,
                env_lookup(envs, cur as int, name@) == env_lookup(envs, env as int, name@),
            decreases cur,
        {
            if cur >= rt.envs.len() {
                return None;
            }
            let e = &rt.envs[cur];
            assert(view_env(*e) == envs[cur as int]);
            match store_find(&e.store, name) {
                Some(o) => {
                    return Some(copy_object(o));
                },
                None => {},
            }
            match e.outer {
                Some(o) => {
                    if o < cur {
                        cur = o;
                    } else {
                        return None;
                    }
                },
                None => {
                    return None;
                },
            }
        }
    }

    /// Binds `name` to `val` in environment `env`, and gives back `val`.
    pub fn set(rt: &mut Runtime, env: Env, name: String, val: Object) -> (r: Object)
        ensures
            r@ == val@,
            final(rt)@ == env_bind(old(rt)@, env, name@, val@),
    {
        let ret = copy_object(&val);
        if env < rt.envs.len() {
            let ghost n = name@;
            rt.envs[env].store.push((name, val));
            proof {
                let e = env as int;
                assert(view_store(rt.envs@[e].store@) =~= old(rt)@.envs[e].store.push((n, ret@)));
                assert(final(rt)@.envs =~= env_bind(old(rt)@, env, n, ret@).envs);
            }
        }
        ret
    }
}

} // verus!
