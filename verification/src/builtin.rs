//! The built-in functions `len`, `first`, `last`, `rest`, `push` and `puts`.

use vstd::prelude::*;
use crate::eval_spec::{
    builtin_of, builtin_result, first_result, inspect_all, last_result, len_result, push_result,
    rest_result, wrong_arg_count,
};
use crate::numfmt::usize_text;
use crate::object::{
    BuiltinKind, Object, RtState, Runtime, copy_object, copy_objects, lemma_view_objects, view_object,
    view_objects,
};
use crate::operators::cat2;
use crate::text::{append_str, str_eq, string_of};

verus! {

/// The built-in function of this name, if there is one.
pub fn builtin_lookup(name: &str) -> (r: Option<BuiltinKind>)
    ensures
        r == builtin_of(name@),
{
    if str_eq(name, "len") {
        Some(BuiltinKind::Len)
    } else if str_eq(name, "first") {
        Some(BuiltinKind::First)
    } else if str_eq(name, "last") {
        Some(BuiltinKind::Last)
    } else if str_eq(name, "rest") {
        Some(BuiltinKind::Rest)
    } else if str_eq(name, "push") {
        Some(BuiltinKind::Push)
    } else if str_eq(name, "puts") {
        Some(BuiltinKind::Puts)
    } else {
        None
    }
}

fn wrong_args(want: usize, got: usize) -> (r: Object)
    ensures
        r@ == wrong_arg_count(want as int, got as int),
{
    let mut s = string_of("wrong number of arguments. want=");
    let w = usize_text(want);
    append_str(&mut s, w.as_str());
    append_str(&mut s, ", got=");
    let g = usize_text(got);
    append_str(&mut s, g.as_str());
    Object::Error(s)
}

fn builtin_len(args: &Vec<Object>) -> (r: Object)
    ensures
        r@ == len_result(view_objects(args@)),
{
    if args.len() != 1 {
        return wrong_args(1, args.len());
    }
    let a0 = &args[0];
    proof {
        lemma_view_objects(args@);
    }
    match a0 {
        Object::Str(s) => {
            let b = s.as_str().as_bytes();
            Object::Integer(b.len() as i64)
        },
        Object::Array(es) => {
            proof {
                lemma_view_objects(es@);
            }
            Object::Integer(es.len() as i64)
        },
        o => Object::Error(cat2("argument to `len` not supported, got ", o.type_().as_str())),
    }
}

fn builtin_first(args: &Vec<Object>) -> (r: Object)
    ensures
        r@ == first_result(view_objects(args@)),
{
    if args.len() != 1 {
        return wrong_args(1, args.len());
    }
    let a0 = &args[0];
    proof {
        lemma_view_objects(args@);
    }
    match a0 {
        Object::Array(es) => {
            proof {
                lemma_view_objects(es@);
            }
            if es.len() == 0 {
                Object::Nil
            } else {
                copy_object(&es[0])
            }
        },
        o => Object::Error(cat2("argument to `first` must be Array, got ", o.type_().as_str())),
    }
}

fn builtin_last(args: &Vec<Object>) -> (r: Object)
    ensures
        r@ == last_result(view_objects(args@)),
{
    if args.len() != 1 {
        return wrong_args(1, args.len());
    }
    let a0 = &args[0];
    proof {
        lemma_view_objects(args@);
    }
    match a0 {
        Object::Array(es) => {
            proof {
                lemma_view_objects(es@);
            }
            if es.len() == 0 {
                Object::Nil
            } else {
                copy_object(&es[es.len() - 1])
            }
        },
        o => Object::Error(cat2("argument to `last` must be Array, got ", o.type_().as_str())),
    }
}

/// Copies of `es[1..]`.
fn copy_tail(es: &Vec<Object>) -> (r: Vec<Object>)
    requires
        es@.len() > 0,
    ensures
        view_objects(r@) == view_objects(es@).drop_first(),
{
    let mut r: Vec<Object> = Vec::new();
    let mut i: usize = 1;
    while i < es.len()
        invariant
            1 <= i <= es@.len(),
            r@.len() == i - 1,
            forall|k: int| 0 <= k < r@.len() ==> view_object(#[trigger] r@[k]) == view_object(es@[k + 1]),
        decreases es@.len() - i,
    {
        r.push(copy_object(&es[i]));
        i = i + 1;
    }
    proof {
        lemma_view_objects(r@);
        lemma_view_objects(es@);
        assert(view_objects(r@) =~= view_objects(es@).drop_first());
    }
    r
}

fn builtin_rest(args: &Vec<Object>) -> (r: Object)
    ensures
        r@ == rest_result(view_objects(args@)),
{
    if args.len() != 1 {
        return wrong_args(1, args.len());
    }
    let a0 = &args[0];
    proof {
        lemma_view_objects(args@);
    }
    match a0 {
        Object::Array(es) => {
            proof {
                lemma_view_objects(es@);
            }
            if es.len() == 0 {
                Object::Nil
            } else {
                Object::Array(copy_tail(es))
            }
        },
        o => Object::Error(cat2("argument to `last` must be Array, got ", o.type_().as_str())),
    }
}

fn builtin_push(args: &Vec<Object>) -> (r: Object)
    ensures
        r@ == push_result(view_objects(args@)),
{
    if args.len() != 2 {
        return wrong_args(2, args.len());
    }
    let a0 = &args[0];
    proof {
        lemma_view_objects(args@);
    }
    match a0 {
        Object::Array(es) => {
            let mut v = copy_objects(es);
            let x = copy_object(&args[1]);
            let ghost before = v@;
            v.push(x);
            assert(view_objects(v@) =~= view_objects(before).push(x@));
            Object::Array(v)
        },
        o => Object::Error(
            cat2("first argument to `push` must be Array, got ", o.type_().as_str()),
        ),
    }
}

fn builtin_puts(args: &Vec<Object>, rt: &mut Runtime)
    ensures
        final(rt)@ == (RtState {
            envs: old(rt)@.envs,
            output: old(rt)@.output + inspect_all(view_objects(args@)),
        }),
{
    let ghost av = view_objects(args@);
    let mut i: usize = 0;
    while i < args.len()
        invariant
            i <= args@.len(),
            av == view_objects(args@),
            rt@.envs == old(rt)@.envs,
            rt@.output == old(rt)@.output + inspect_all(av.take(i as int)),
        decreases args@.len() - i,
    {
        let line = args[i].inspect();
        rt.write_line(line);
        assert(inspect_all(av.take(i + 1)) =~= inspect_all(av.take(i as int)).push(line@));
        i = i + 1;
    }
    assert(av.take(args@.len() as int) =~= av);
}

/// Calls a built-in function.
pub fn builtin_call(k: BuiltinKind, args: &Vec<Object>, rt: &mut Runtime) -> (r: Object)
    ensures
        (r@, final(rt)@) == builtin_result(k, view_objects(args@), old(rt)@),
{
    match k {
        BuiltinKind::Len => builtin_len(args),
        BuiltinKind::First => builtin_first(args),
        BuiltinKind::Last => builtin_last(args),
        BuiltinKind::Rest => builtin_rest(args),
        BuiltinKind::Push => builtin_push(args),
        BuiltinKind::Puts => {
            builtin_puts(args, rt);
            Object::Nil
        },
    }
}

} // verus!
