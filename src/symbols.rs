//! The names under which body state and built-in functions appear in equations.
use vstd::prelude::*;
use crate::text::{chars_of, push_str, string_of};

verus! {

/// Whether two strings hold the same characters.
pub fn same_text(a: &str, b: &str) -> (r: bool)
    ensures
        r == (a@ == b@),
{
    let x = chars_of(a);
    let y = chars_of(b);
    if x.len() != y.len() {
        return false;
    }
    let mut i: usize = 0;
    while i < x.len()
        invariant
            x@ == a@,
            y@ == b@,
            x.len() == y.len(),
            i <= x.len(),
            forall|k: int| 0 <= k < i ==> x@[k] == y@[k],
        decreases x.len() - i,
    {
        if x[i] != y[i] {
            return false;
        }
        i += 1;
    }
    proof { assert(x@ =~= y@); }
    true
}

/// `head_body`: the name of a quantity `head` of the body `body`, as in
/// `a_B`, `x_B`, `m_B`.
pub fn joined(head: &str, body: &str) -> (r: String)
    ensures
        r@ == head@ + "_"@ + body@,
{
    let mut out: Vec<char> = Vec::new();
    push_str(&mut out, head);
    push_str(&mut out, "_");
    push_str(&mut out, body);
    let r = string_of(&out);
    assert(r@ =~= head@ + "_"@ + body@);
    r
}

/// `v_axis_body`: the velocity along `axis` of the body `body`, as in `v_x_B`.
pub fn velocity_binding(axis: &str, body: &str) -> (r: String)
    ensures
        r@ == "v_"@ + axis@ + "_"@ + body@,
{
    let mut out: Vec<char> = Vec::new();
    push_str(&mut out, "v_");
    push_str(&mut out, axis);
    push_str(&mut out, "_");
    push_str(&mut out, body);
    let r = string_of(&out);
    assert(r@ =~= "v_"@ + axis@ + "_"@ + body@);
    r
}

/// A kind of motion: along the linear bases, or about the angular ones.
#[derive(Clone, Copy, Debug, PartialEq, Eq, Structural)]
pub enum Motion {
    Linear,
    Angular,
}

/// A motion quantity, in the order in which a tick looks for its definition.
#[derive(Clone, Copy, Debug, PartialEq, Eq, Structural)]
pub enum Quantity {
    Displacement,
    Velocity,
    Acceleration,
}

/// The symbol that names `q` for motion `m` in equations.
pub open spec fn symbol_spec(m: Motion, q: Quantity) -> Seq<char> {
    match (m, q) {
        (Motion::Linear, Quantity::Displacement) => "s"@,
        (Motion::Linear, Quantity::Velocity) => "v"@,
        (Motion::Linear, Quantity::Acceleration) => "a"@,
        (Motion::Angular, Quantity::Displacement) => "q"@,
        (Motion::Angular, Quantity::Velocity) => "omega"@,
        (Motion::Angular, Quantity::Acceleration) => "alpha"@,
    }
}

/// `s`, `v`, `a` for linear motion; `q`, `omega`, `alpha` for angular motion.
pub fn symbol(m: Motion, q: Quantity) -> (r: &'static str)
    ensures
        r@ == symbol_spec(m, q),
{
    match (m, q) {
        (Motion::Linear, Quantity::Displacement) => "s",
        (Motion::Linear, Quantity::Velocity) => "v",
        (Motion::Linear, Quantity::Acceleration) => "a",
        (Motion::Angular, Quantity::Displacement) => "q",
        (Motion::Angular, Quantity::Velocity) => "omega",
        (Motion::Angular, Quantity::Acceleration) => "alpha",
    }
}

/// The quantity looked for after `q` when `q` is not defined: displacement,
/// then velocity, then acceleration.
pub fn fallback(q: Quantity) -> (r: Option<Quantity>)
    ensures
        r == match q {
            Quantity::Displacement => Some(Quantity::Velocity),
            Quantity::Velocity => Some(Quantity::Acceleration),
            Quantity::Acceleration => None::<Quantity>,
        },
{
    match q {
        Quantity::Displacement => Some(Quantity::Velocity),
        Quantity::Velocity => Some(Quantity::Acceleration),
        Quantity::Acceleration => None,
    }
}

pub open spec fn is_name_start(c: char) -> bool {
    ('a' <= c && c <= 'z') || ('A' <= c && c <= 'Z') || c == '_'
}

pub open spec fn is_name_char(c: char) -> bool {
    is_name_start(c) || ('0' <= c && c <= '9')
}

/// A body name: letters, digits and underscores, not empty, not led by a digit.
pub open spec fn valid_body_name(s: Seq<char>) -> bool {
    &&& s.len() > 0
    &&& is_name_start(s[0])
    &&& forall|i: int| 0 <= i < s.len() ==> is_name_char(#[trigger] s[i])
}

/// Whether `name` can name a body.
pub fn is_valid_body_name(name: &str) -> (r: bool)
    ensures
        r == valid_body_name(name@),
{
    let cs = chars_of(name);
    if cs.len() == 0 {
        return false;
    }
    let c0 = cs[0];
    if !((c0 >= 'a' && c0 <= 'z') || (c0 >= 'A' && c0 <= 'Z') || c0 == '_') {
        return false;
    }
    let mut i: usize = 0;
    while i < cs.len()
        invariant
            cs@ == name@,
            i <= cs.len(),
            forall|k: int| 0 <= k < i ==> is_name_char(#[trigger] cs@[k]),
        decreases cs.len() - i,
    {
        let c = cs[i];
        if !((c >= 'a' && c <= 'z') || (c >= 'A' && c <= 'Z') || c == '_' || (c >= '0' && c <= '9')) {
            return false;
        }
        i += 1;
    }
    true
}

/// The number of arguments of each built-in function.
pub open spec fn builtin_arity_spec(name: Seq<char>) -> Option<nat> {
    if name == "sin"@ || name == "cos"@ || name == "tan"@ || name == "asin"@
        || name == "acos"@ || name == "atan"@ || name == "ln"@ || name == "sqrt"@ {
        Some(1)
    } else if name == "log"@ || name == "nrt"@ {
        Some(2)
    } else {
        None
    }
}

/// The names of the built-in functions.
pub open spec fn builtin_names() -> Seq<Seq<char>> {
    seq!["sin"@, "cos"@, "tan"@, "asin"@, "acos"@, "atan"@, "log"@, "ln"@, "sqrt"@, "nrt"@]
}

/// The number of arguments that the built-in `name` takes, if there is one.
pub fn builtin_arity(name: &str) -> (r: Option<usize>)
    ensures
        r matches Some(k) ==> builtin_arity_spec(name@) == Some(k as nat),
        r is None ==> builtin_arity_spec(name@) is None,
{
    if same_text(name, "sin") || same_text(name, "cos") || same_text(name, "tan")
        || same_text(name, "asin") || same_text(name, "acos") || same_text(name, "atan")
        || same_text(name, "ln") || same_text(name, "sqrt") {
        Some(1)
    } else if same_text(name, "log") || same_text(name, "nrt") {
        Some(2)
    } else {
        None
    }
}

/// The names of the built-in functions, in a fixed order.
pub fn builtins() -> (r: Vec<&'static str>)
    ensures
        r@.map_values(|s: &str| s@) == builtin_names(),
{
    let mut v: Vec<&'static str> = Vec::new();
    v.push("sin");
    v.push("cos");
    v.push("tan");
    v.push("asin");
    v.push("acos");
    v.push("atan");
    v.push("log");
    v.push("ln");
    v.push("sqrt");
    v.push("nrt");
    proof { assert(v@.map_values(|s: &str| s@) =~= builtin_names()); }
    v
}

} // verus!
