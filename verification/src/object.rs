//! Runtime values: a closed tagged union with exhaustive matching at every
//! evaluation site, beside its mathematical model `ObjV`.
//!
//! A `ReturnValue` or `Error` value, once produced, is never treated as an
//! ordinary value by any combinator further up the evaluation: it propagates
//! unchanged until consumed by the nearest function-call boundary (for
//! return) or the top level (for error).

use vstd::prelude::*;
use vstd::string::StringExecFns;
use crate::ast::{Ident, Program, StmtV, stmts_v, idents_v};

verus! {

/// The tag of a built-in function: which native behaviour a `Builtin`
/// object dispatches to.
#[derive(Debug, Clone, Copy, PartialEq)]
pub enum BuiltinKind {
    Read,
    ReadFile,
    WriteFile,
    Len,
    First,
    Last,
    Tail,
    Get,
    Push,
    MapFn,
    FilterFn,
    Sort,
    Reverse,
    Trim,
    ParseNumber,
    Explode,
    ReplaceString,
    ReplaceN,
    Lowercase,
    Uppercase,
    Print,
}

/// A key of a map object: the hashable literal types.
#[derive(Debug, PartialEq)]
pub enum HashKey {
    Int(i64),
    Bool(bool),
    Str(String),
}

/// A runtime value.  A closure (`Func`) carries its parameter names, its
/// body, and the index of the environment frame that was active at its
/// definition site.  A `Builtin` carries its declared arity (negative means
/// variadic) and its dispatch tag.
#[derive(Debug, PartialEq)]
pub enum Object {
    Int(i64),
    Bool(bool),
    String(String),
    Null,
    Array(Vec<Object>),
    Hash(Vec<(HashKey, Object)>),
    Func(Vec<Ident>, Program, usize),
    Builtin(i64, BuiltinKind),
    ReturnValue(Box<Object>),
    Error(String),
}

/// The model of a map key.
pub enum KeyV {
    Int(i64),
    Bool(bool),
    Str(Seq<char>),
}

/// The model of a runtime value.
pub enum ObjV {
    Int(i64),
    Bool(bool),
    Str(Seq<char>),
    Null,
    Array(Seq<ObjV>),
    Hash(Seq<(KeyV, ObjV)>),
    Func(Seq<Seq<char>>, Seq<StmtV>, int),
    Builtin(i64, BuiltinKind),
    Return(Box<ObjV>),
    Error(Seq<char>),
}

/// The model of a map key value.
pub open spec fn key_v(k: HashKey) -> KeyV {
    match k {
        HashKey::Int(i) => KeyV::Int(i),
        HashKey::Bool(b) => KeyV::Bool(b),
        HashKey::Str(s) => KeyV::Str(s@),
    }
}

/// The model of a runtime value.
pub open spec fn obj_v(o: Object) -> ObjV
    decreases o,
{
    match o {
        Object::Int(i) => ObjV::Int(i),
        Object::Bool(b) => ObjV::Bool(b),
        Object::String(s) => ObjV::Str(s@),
        Object::Null => ObjV::Null,
        Object::Array(es) => ObjV::Array(objs_v(es@)),
        Object::Hash(ps) => ObjV::Hash(hpairs_v(ps@)),
        Object::Func(params, body, env) => ObjV::Func(
            idents_v(params@),
            stmts_v(body@),
            env as int,
        ),
        Object::Builtin(arity, kind) => ObjV::Builtin(arity, kind),
        Object::ReturnValue(inner) => ObjV::Return(Box::new(obj_v(*inner))),
        Object::Error(m) => ObjV::Error(m@),
    }
}

/// The models of a sequence of runtime values.
pub open spec fn objs_v(os: Seq<Object>) -> Seq<ObjV>
    decreases os,
{
    if os.len() == 0 {
        Seq::empty()
    } else {
        seq![obj_v(os[0])] + objs_v(os.subrange(1, os.len() as int))
    }
}

/// The models of the pairs of a map object.
pub open spec fn hpairs_v(ps: Seq<(HashKey, Object)>) -> Seq<(KeyV, ObjV)>
    decreases ps,
{
    if ps.len() == 0 {
        Seq::empty()
    } else {
        seq![(key_v(ps[0].0), obj_v(ps[0].1))] + hpairs_v(ps.subrange(1, ps.len() as int))
    }
}

/// `objs_v` maps the model over the values, element by element.
pub proof fn lemma_objs_v_props(os: Seq<Object>)
    ensures
        objs_v(os).len() == os.len(),
        forall|i: int| 0 <= i < os.len() ==> #[trigger] objs_v(os)[i] == obj_v(os[i]),
    decreases os,
{
    if os.len() > 0 {
        lemma_objs_v_props(os.subrange(1, os.len() as int));
    }
}

/// `hpairs_v` maps the model over the pairs, element by element.
pub proof fn lemma_hpairs_v_props(ps: Seq<(HashKey, Object)>)
    ensures
        hpairs_v(ps).len() == ps.len(),
        forall|i: int|
            0 <= i < ps.len() ==> #[trigger] hpairs_v(ps)[i] == (key_v(ps[i].0), obj_v(ps[i].1)),
    decreases ps,
{
    if ps.len() > 0 {
        lemma_hpairs_v_props(ps.subrange(1, ps.len() as int));
    }
}

/// Appending a value appends its model.
pub proof fn lemma_objs_v_push(os: Seq<Object>, o: Object)
    ensures
        objs_v(os.push(o)) == objs_v(os).push(obj_v(o)),
{
    lemma_objs_v_props(os.push(o));
    lemma_objs_v_props(os);
    assert(objs_v(os.push(o)) =~= objs_v(os).push(obj_v(o)));
}

/// Every closure a value holds points below `n`: the value can be used with
/// an environment arena of `n` frames.
pub open spec fn obj_wf(v: ObjV, n: int) -> bool
    decreases v,
{
    match v {
        ObjV::Array(es) => objs_wf(es, n),
        ObjV::Hash(ps) => hpairs_wf(ps, n),
        ObjV::Func(_, _, env) => 0 <= env < n,
        ObjV::Return(inner) => obj_wf(*inner, n),
        _ => true,
    }
}

/// Well-formedness of a sequence of values.
pub open spec fn objs_wf(es: Seq<ObjV>, n: int) -> bool
    decreases es,
{
    es.len() == 0 || (obj_wf(es[0], n) && objs_wf(es.subrange(1, es.len() as int), n))
}

/// Well-formedness of the pairs of a map object.
pub open spec fn hpairs_wf(ps: Seq<(KeyV, ObjV)>, n: int) -> bool
    decreases ps,
{
    ps.len() == 0 || (obj_wf(ps[0].1, n) && hpairs_wf(ps.subrange(1, ps.len() as int), n))
}

/// Well-formedness survives growing the arena.
pub proof fn lemma_obj_wf_mono(v: ObjV, n: int, m: int)
    requires
        obj_wf(v, n),
        n <= m,
    ensures
        obj_wf(v, m),
    decreases v,
{
    match v {
        ObjV::Array(es) => {
            lemma_objs_wf_mono(es, n, m);
        },
        ObjV::Hash(ps) => {
            lemma_hpairs_wf_mono(ps, n, m);
        },
        ObjV::Return(inner) => {
            lemma_obj_wf_mono(*inner, n, m);
        },
        _ => {},
    }
}

pub proof fn lemma_objs_wf_mono(es: Seq<ObjV>, n: int, m: int)
    requires
        objs_wf(es, n),
        n <= m,
    ensures
        objs_wf(es, m),
    decreases es,
{
    if es.len() > 0 {
        lemma_obj_wf_mono(es[0], n, m);
        lemma_objs_wf_mono(es.subrange(1, es.len() as int), n, m);
    }
}

pub proof fn lemma_hpairs_wf_mono(ps: Seq<(KeyV, ObjV)>, n: int, m: int)
    requires
        hpairs_wf(ps, n),
        n <= m,
    ensures
        hpairs_wf(ps, m),
    decreases ps,
{
    if ps.len() > 0 {
        lemma_obj_wf_mono(ps[0].1, n, m);
        lemma_hpairs_wf_mono(ps.subrange(1, ps.len() as int), n, m);
    }
}

/// Well-formedness of each element of a sequence.
pub proof fn lemma_objs_wf_props(es: Seq<ObjV>, n: int)
    requires
        objs_wf(es, n),
    ensures
        forall|i: int| 0 <= i < es.len() ==> obj_wf(#[trigger] es[i], n),
    decreases es,
{
    if es.len() > 0 {
        lemma_objs_wf_props(es.subrange(1, es.len() as int), n);
        assert forall|i: int| 0 <= i < es.len() implies obj_wf(#[trigger] es[i], n) by {
            if i > 0 {
                assert(es[i] == es.subrange(1, es.len() as int)[i - 1]);
            }
        }
    }
}

/// A sequence of elementwise well-formed values is well formed.
pub proof fn lemma_objs_wf_intro(es: Seq<ObjV>, n: int)
    requires
        forall|i: int| 0 <= i < es.len() ==> obj_wf(#[trigger] es[i], n),
    ensures
        objs_wf(es, n),
    decreases es,
{
    if es.len() > 0 {
        assert(obj_wf(es[0], n));
        let rest = es.subrange(1, es.len() as int);
        assert forall|i: int| 0 <= i < rest.len() implies obj_wf(#[trigger] rest[i], n) by {
            assert(rest[i] == es[i + 1]);
        }
        lemma_objs_wf_intro(rest, n);
    }
}

impl Clone for HashKey {
    /// A clone denotes the same key.
    fn clone(&self) -> (r: HashKey)
        ensures
            key_v(r) == key_v(*self),
    {
        match self {
            HashKey::Int(i) => HashKey::Int(*i),
            HashKey::Bool(b) => HashKey::Bool(*b),
            HashKey::Str(s) => HashKey::Str(s.clone()),
        }
    }
}

/// Deep-copies a runtime value; the copy denotes the same model.
pub fn clone_obj(o: &Object) -> (r: Object)
    ensures
        obj_v(r) == obj_v(*o),
    decreases *o,
{
    match o {
        Object::Int(i) => Object::Int(*i),
        Object::Bool(b) => Object::Bool(*b),
        Object::String(s) => Object::String(s.clone()),
        Object::Null => Object::Null,
        Object::Array(es) => Object::Array(clone_objs(es)),
        Object::Hash(ps) => Object::Hash(clone_hpairs(ps)),
        Object::Func(params, body, env) => Object::Func(
            crate::ast::clone_idents(params),
            crate::ast::clone_stmts(body),
            *env,
        ),
        Object::Builtin(arity, kind) => Object::Builtin(*arity, *kind),
        Object::ReturnValue(inner) => Object::ReturnValue(Box::new(clone_obj(&**inner))),
        Object::Error(m) => Object::Error(m.clone()),
    }
}

/// Deep-copies a sequence of runtime values.
pub fn clone_objs(os: &Vec<Object>) -> (r: Vec<Object>)
    ensures
        objs_v(r@) == objs_v(os@),
    decreases *os,
{
    let mut r: Vec<Object> = Vec::new();
    let mut i: usize = 0;
    while i < os.len()
        invariant
            i <= os.len(),
            r@.len() == i,
            forall|j: int| 0 <= j < i ==> obj_v(#[trigger] r@[j]) == obj_v(os@[j]),
        decreases os.len() - i,
    {
        proof {
            vstd::std_specs::vec::axiom_vec_index_decreases(*os, i as int);
        }
        r.push(clone_obj(&os[i]));
        i = i + 1;
    }
    proof {
        lemma_objs_v_props(r@);
        lemma_objs_v_props(os@);
        assert(objs_v(r@) =~= objs_v(os@));
    }
    r
}

/// Deep-copies the pairs of a map object.
pub fn clone_hpairs(ps: &Vec<(HashKey, Object)>) -> (r: Vec<(HashKey, Object)>)
    ensures
        hpairs_v(r@) == hpairs_v(ps@),
    decreases *ps,
{
    let mut r: Vec<(HashKey, Object)> = Vec::new();
    let mut i: usize = 0;
    while i < ps.len()
        invariant
            i <= ps.len(),
            r@.len() == i,
            forall|j: int|
                0 <= j < i ==> (key_v(#[trigger] r@[j].0), obj_v(r@[j].1)) == (
                    key_v(ps@[j].0),
                    obj_v(ps@[j].1),
                ),
        decreases ps.len() - i,
    {
        proof {
            vstd::std_specs::vec::axiom_vec_index_decreases(*ps, i as int);
        }
        let p = &ps[i];
        r.push((p.0.clone(), clone_obj(&p.1)));
        i = i + 1;
    }
    proof {
        lemma_hpairs_v_props(r@);
        lemma_hpairs_v_props(ps@);
        assert(hpairs_v(r@) =~= hpairs_v(ps@));
    }
    r
}

impl Clone for Object {
    /// A clone denotes the same model.
    fn clone(&self) -> (r: Object)
        ensures
            obj_v(r) == obj_v(*self),
    {
        clone_obj(self)
    }
}

/// The name of a value's type, as it appears in error messages.
pub open spec fn obj_type_name_v(v: ObjV) -> Seq<char> {
    match v {
        ObjV::Int(_) => "Int"@,
        ObjV::Bool(_) => "Bool"@,
        ObjV::Str(_) => "String"@,
        ObjV::Null => "Null"@,
        ObjV::Array(_) => "Array"@,
        ObjV::Hash(_) => "Hash"@,
        ObjV::Func(_, _, _) => "Function"@,
        ObjV::Builtin(_, _) => "Builtin"@,
        ObjV::Return(_) => "ReturnValue"@,
        ObjV::Error(_) => "Error"@,
    }
}

/// Executable type name.
pub fn obj_type_name(o: &Object) -> (s: String)
    ensures
        s@ == obj_type_name_v(obj_v(*o)),
{
    match o {
        Object::Int(_) => String::from_str("Int"),
        Object::Bool(_) => String::from_str("Bool"),
        Object::String(_) => String::from_str("String"),
        Object::Null => String::from_str("Null"),
        Object::Array(_) => String::from_str("Array"),
        Object::Hash(_) => String::from_str("Hash"),
        Object::Func(_, _, _) => String::from_str("Function"),
        Object::Builtin(_, _) => String::from_str("Builtin"),
        Object::ReturnValue(_) => String::from_str("ReturnValue"),
        Object::Error(_) => String::from_str("Error"),
    }
}

} // verus!
