//! Prefix, infix and index operators on values.

use vstd::prelude::*;
use crate::eval_spec::{
    float_infix, float_operand, index_result, infix_result, integer_infix, is_truthy,
    objects_equal, operator_error, prefix_result, string_infix,
};
use crate::float::{
    FloatArith, float_neg,
};
use crate::eval_spec::tname;
use crate::object::{
    FloatValue, HashObj, Object, SpecObject, Type, copy_object, hash_key_of, hash_lookup,
    view_hash_pairs, view_objects,
};
use crate::text::{append_str, str_eq, string_of};

verus! {

/// The text `a` followed by `b`.
pub fn cat2(a: &str, b: &str) -> (r: String)
    ensures
        r@ == a@ + b@,
{
    let mut s = string_of(a);
    append_str(&mut s, b);
    s
}

/// The texts one after the other.
pub fn cat3(a: &str, b: &str, c: &str) -> (r: String)
    ensures
        r@ == a@ + b@ + c@,
{
    let mut s = string_of(a);
    append_str(&mut s, b);
    append_str(&mut s, c);
    s
}

/// The texts one after the other.
pub fn cat6(a: &str, b: &str, c: &str, d: &str, e: &str, f: &str) -> (r: String)
    ensures
        r@ == a@ + b@ + c@ + d@ + e@ + f@,
{
    let mut s = string_of(a);
    append_str(&mut s, b);
    append_str(&mut s, c);
    append_str(&mut s, d);
    append_str(&mut s, e);
    append_str(&mut s, f);
    s
}

/// Everything but `nil` and `false` counts as true.
pub fn truthy(o: &Object) -> (r: bool)
    ensures
        r == is_truthy(o@),
{
    match o {
        Object::Nil => false,
        Object::Boolean(b) => *b,
        _ => true,
    }
}

fn operator_error_exec(lt: &str, op: &str, rt: &str) -> (r: Object)
    ensures
        r@ == operator_error(lt@, op@, rt@),
{
    Object::Error(cat6("unknown operator: ", lt, " ", op, " ", rt))
}

/// Applies a prefix operator.
pub fn eval_prefix<F: FloatArith>(op: &str, right: Object) -> (r: Object)
    ensures
        r@ == prefix_result::<F>(op@, right@),
{
    if str_eq(op, "!") {
        Object::Boolean(!truthy(&right))
    } else if str_eq(op, "-") {
        match right {
            Object::Integer(v) => Object::Integer(0i64.wrapping_sub(v)),
            Object::Float(f) => Object::Float(FloatValue::new::<F>(float_neg(f.bits))),
            other => Object::Error(cat2("unknown operator: -", other.type_().as_str())),
        }
    } else {
        Object::Error(cat3("unknown operator: ", op, right.type_().as_str()))
    }
}

fn integer_infix_exec(op: &str, l: i64, r: i64) -> (o: Object)
    ensures
        o@ == integer_infix(op@, l, r),
{
    if str_eq(op, "+") {
        Object::Integer(l.wrapping_add(r))
    } else if str_eq(op, "-") {
        Object::Integer(l.wrapping_sub(r))
    } else if str_eq(op, "*") {
        Object::Integer(l.wrapping_mul(r))
    } else if str_eq(op, "/") {
        if r == 0 {
            Object::Error(string_of("division by zero"))
        } else {
            match l.checked_div(r) {
                Some(q) => Object::Integer(q),
                None => Object::Integer(i64::MIN),
            }
        }
    } else if str_eq(op, "<") {
        Object::Boolean(l < r)
    } else if str_eq(op, ">") {
        Object::Boolean(l > r)
    } else if str_eq(op, "<=") {
        Object::Boolean(l <= r)
    } else if str_eq(op, ">=") {
        Object::Boolean(l >= r)
    } else if str_eq(op, "==") {
        Object::Boolean(l == r)
    } else if str_eq(op, "!=") {
        Object::Boolean(l != r)
    } else {
        operator_error_exec("Integer", op, "Integer")
    }
}

fn float_operand_exec<F: FloatArith>(o: &Object) -> (r: Option<u64>)
    ensures
        r == float_operand::<F>(o@),
{
    match o {
        Object::Integer(v) => Some(F::from_int(*v)),
        Object::Float(f) => Some(f.bits),
        _ => None,
    }
}

fn float_infix_exec<F: FloatArith>(op: &str, l: &Object, r: &Object) -> (o: Object)
    ensures
        o@ == float_infix::<F>(op@, l@, r@),
{
    match (float_operand_exec::<F>(l), float_operand_exec::<F>(r)) {
        (Some(a), Some(b)) => {
            if str_eq(op, "+") {
                Object::Float(FloatValue::new::<F>(F::add(a, b)))
            } else if str_eq(op, "-") {
                Object::Float(FloatValue::new::<F>(F::sub(a, b)))
            } else if str_eq(op, "*") {
                Object::Float(FloatValue::new::<F>(F::mul(a, b)))
            } else if str_eq(op, "/") {
                Object::Float(FloatValue::new::<F>(F::div(a, b)))
            } else if str_eq(op, "<") {
                Object::Boolean(F::less(a, b))
            } else if str_eq(op, ">") {
                Object::Boolean(F::less(b, a))
            } else if str_eq(op, "<=") {
                let less = F::less(a, b);
                let equal = F::equal(a, b);
                Object::Boolean(less || equal)
            } else if str_eq(op, ">=") {
                let greater = F::less(b, a);
                let equal = F::equal(a, b);
                Object::Boolean(greater || equal)
            } else if str_eq(op, "==") {
                Object::Boolean(F::equal(a, b))
            } else if str_eq(op, "!=") {
                Object::Boolean(!F::equal(a, b))
            } else {
                operator_error_exec(l.type_().as_str(), op, r.type_().as_str())
            }
        },
        _ => operator_error_exec(l.type_().as_str(), op, r.type_().as_str()),
    }
}

fn string_infix_exec(op: &str, l: &String, r: &String) -> (o: Object)
    ensures
        o@ == string_infix(op@, l@, r@),
{
    if str_eq(op, "+") {
        Object::Str(cat2(l.as_str(), r.as_str()))
    } else if str_eq(op, "==") {
        Object::Boolean(str_eq(l.as_str(), r.as_str()))
    } else if str_eq(op, "!=") {
        Object::Boolean(!str_eq(l.as_str(), r.as_str()))
    } else {
        operator_error_exec("String", op, "String")
    }
}

fn objects_equal_exec(l: &Object, r: &Object) -> (b: bool)
    ensures
        b == objects_equal(l@, r@),
{
    match (l, r) {
        (Object::Boolean(a), Object::Boolean(b)) => *a == *b,
        (Object::Nil, Object::Nil) => true,
        _ => false,
    }
}

/// Applies an infix operator.
pub fn eval_infix<F: FloatArith>(op: &str, l: Object, r: Object) -> (o: Object)
    ensures
        o@ == infix_result::<F>(op@, l@, r@),
{
    match (&l, &r) {
        (Object::Integer(a), Object::Integer(b)) => {
            return integer_infix_exec(op, *a, *b);
        },
        _ => {},
    }
    let lt = l.type_();
    let rt = r.type_();
    if lt == Type::Float || rt == Type::Float {
        return float_infix_exec::<F>(op, &l, &r);
    }
    match (&l, &r) {
        (Object::Str(a), Object::Str(b)) => {
            return string_infix_exec(op, a, b);
        },
        _ => {},
    }
    if str_eq(op, "==") {
        Object::Boolean(objects_equal_exec(&l, &r))
    } else if str_eq(op, "!=") {
        Object::Boolean(!objects_equal_exec(&l, &r))
    } else if lt != rt {
        Object::Error(cat6("type mismatch: ", lt.as_str(), " ", op, " ", rt.as_str()))
    } else {
        operator_error_exec(lt.as_str(), op, rt.as_str())
    }
}

fn array_index(es: &Vec<Object>, v: i64) -> (r: Object)
    ensures
        r@ == (if v < 0 || v >= es@.len() {
            SpecObject::Nil
        } else {
            view_objects(es@)[v as int]
        }),
{
    let n = es.len() as u64;
    if v < 0 || (v as u64) >= n {
        Object::Nil
    } else {
        let k = v as usize;
        copy_object(&es[k])
    }
}

fn hash_index(h: &HashObj, i: &Object) -> (r: Object)
    ensures
        r@ == (match hash_key_of(i@) {
            None => SpecObject::Error("unusable as hash key: "@ + tname(i@)),
            Some(k) => match hash_lookup(view_hash_pairs(h.pairs@), k) {
                Some(p) => p.1,
                None => SpecObject::Nil,
            },
        }),
{
    match i.hash_key() {
        None => Object::Error(cat2("unusable as hash key: ", i.type_().as_str())),
        Some(k) => match h.get(&k) {
            Some(p) => copy_object(&p.value),
            None => Object::Nil,
        },
    }
}

/// Applies the index operator `l[i]`.
pub fn eval_index(l: &Object, i: &Object) -> (r: Object)
    ensures
        r@ == index_result(l@, i@),
{
    match (l, i) {
        (Object::Array(es), Object::Integer(v)) => array_index(es, *v),
        _ => {
            match l {
                Object::Hash(h) => hash_index(h, i),
                _ => Object::Error(cat2("index operator not supported: ", l.type_().as_str())),
            }
        },
    }
}

} // verus!
