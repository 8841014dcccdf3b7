//! The decisions of evaluation that do not depend on numbers: which implicit
//! solve answers for a variable, whether a call has the right number of
//! arguments, and whether a failed probe means "not defined".
use vstd::prelude::*;
use crate::error::ErrorKind;
use crate::program::{name_set, Equation};
use crate::symbols::builtin_arity_spec;

verus! {

/// What solving one candidate equation for a variable gave.
#[derive(Clone, Debug)]
pub enum Resolution<T> {
    /// The solve converged on this value.
    Success(T),
    /// The solve needed a variable that nothing defines; it is named here.
    Unsatisfied(String),
    /// The equation is already being solved further up; it was skipped.
    Ignore,
}

/// The value of the first success among `rs[i..]`.
pub open spec fn first_success<T>(rs: Seq<Resolution<T>>, i: int) -> Option<T>
    decreases rs.len() - i,
{
    if i < 0 || i >= rs.len() {
        None
    } else {
        match rs[i] {
            Resolution::Success(v) => Some(v),
            _ => first_success(rs, i + 1),
        }
    }
}

/// The name in the first `Unsatisfied` among `rs[i..]`.
pub open spec fn first_unsatisfied<T>(rs: Seq<Resolution<T>>, i: int) -> Option<Seq<char>>
    decreases rs.len() - i,
{
    if i < 0 || i >= rs.len() {
        None
    } else {
        match rs[i] {
            Resolution::Unsatisfied(n) => Some(n@),
            _ => first_unsatisfied(rs, i + 1),
        }
    }
}

/// Combines the outcomes of the candidate equations for `name`, in equation
/// order: the first success gives the value; without one, the variable is
/// unsatisfied, named by the first unresolved dependency or else by `name`.
pub fn resolve<T: Copy>(outcomes: &Vec<Resolution<T>>, name: &String) -> (r: Result<T, ErrorKind>)
    ensures
        match first_success(outcomes@, 0) {
            Some(v) => r == Ok::<T, ErrorKind>(v),
            None => r matches Err(ErrorKind::UnsatisfiedVariable(x)) && x@ == match first_unsatisfied(outcomes@, 0) {
                Some(n) => n,
                None => name@,
            },
        },
{
    let mut unsatisfied: Option<String> = None;
    let mut i: usize = 0;
    while i < outcomes.len()
        invariant
            i <= outcomes.len(),
            first_success(outcomes@, 0) == first_success(outcomes@, i as int),
            match unsatisfied {
                Some(n) => first_unsatisfied(outcomes@, 0) == Some(n@),
                None => first_unsatisfied(outcomes@, 0) == first_unsatisfied(outcomes@, i as int),
            },
        decreases outcomes.len() - i,
    {
        match &outcomes[i] {
            Resolution::Success(v) => {
                return Ok(*v);
            },
            Resolution::Unsatisfied(n) => {
                if unsatisfied.is_none() {
                    unsatisfied = Some(n.clone());
                }
            },
            Resolution::Ignore => {},
        }
        i += 1;
    }
    match unsatisfied {
        Some(n) => Err(ErrorKind::UnsatisfiedVariable(n)),
        None => Err(ErrorKind::UnsatisfiedVariable(name.clone())),
    }
}

/// What a call of `name` that takes `expected` arguments gives on `found`.
pub open spec fn arity_outcome(name: String, expected: usize, found: usize) -> Result<(), ErrorKind> {
    if expected == found {
        Ok(())
    } else {
        Err(ErrorKind::WrongNumberOfArguments { name, expected, found })
    }
}

/// Checks that a call of `name`, which takes `expected` arguments, was
/// given `found`.
pub fn check_arity(name: &String, expected: usize, found: usize) -> (r: Result<(), ErrorKind>)
    ensures
        r == arity_outcome(*name, expected, found),
{
    if expected == found {
        Ok(())
    } else {
        Err(ErrorKind::WrongNumberOfArguments { name: name.clone(), expected, found })
    }
}

/// A built-in of arity `k` called with any other number of arguments fails
/// with `WrongNumberOfArguments`, naming it, `k` expected and the number found.
pub proof fn builtin_wrong_arity(name: String, k: usize, found: usize)
    requires
        builtin_arity_spec(name@) == Some(k as nat),
        found != k,
    ensures
        arity_outcome(name, k, found) == Err::<(), ErrorKind>(
            ErrorKind::WrongNumberOfArguments { name, expected: k, found },
        ),
{
}

/// Whether a probe of `form` that failed with `kind` only found `form`
/// undefined, which sends the tick on to the next quantity; any other
/// failure ends the tick.
pub fn is_undefined(kind: &ErrorKind, form: &String) -> (r: bool)
    ensures
        r == (kind matches ErrorKind::UnsatisfiedVariable(x) && x@ == form@),
{
    match kind {
        ErrorKind::UnsatisfiedVariable(x) => *x == *form,
        _ => false,
    }
}

/// Where a variable's value comes from, before any equation is solved for
/// it: a function parameter first, then a value found earlier in the same
/// evaluation, then a named constant.
pub fn lookup_order<T: Copy>(local: Option<T>, memo: Option<T>, constant: Option<T>) -> (r: Option<T>)
    ensures
        r == match local {
            Some(v) => Some(v),
            None => match memo {
                Some(v) => Some(v),
                None => constant,
            },
        },
{
    match local {
        Some(v) => Some(v),
        None => match memo {
            Some(v) => Some(v),
            None => constant,
        },
    }
}

/// The function called `name`, or `UnsatisfiedFunction` naming it; checked
/// before any argument is evaluated.
pub fn require_function<F>(found: Option<F>, name: &String) -> (r: Result<F, ErrorKind>)
    ensures
        match found {
            Some(f) => r == Ok::<F, ErrorKind>(f),
            None => r matches Err(ErrorKind::UnsatisfiedFunction(x)) && x@ == name@,
        },
{
    match found {
        Some(f) => Ok(f),
        None => Err(ErrorKind::UnsatisfiedFunction(name.clone())),
    }
}

/// The positions, in order, of the equations from `i` on that mention `name`.
pub open spec fn mentioning(eqs: Seq<Equation>, name: Seq<char>, i: int) -> Seq<int>
    decreases eqs.len() - i,
{
    if i < 0 || i >= eqs.len() {
        Seq::empty()
    } else if name_set(eqs[i].dependencies@).contains(name) {
        seq![i] + mentioning(eqs, name, i + 1)
    } else {
        mentioning(eqs, name, i + 1)
    }
}

/// The equations that can be solved for `name`, in equation order, each with
/// whether it is already being solved further up (its id is in `visited`),
/// in which case it is skipped.
pub fn candidates(equations: &Vec<Equation>, visited: &Vec<usize>, name: &String) -> (r: Vec<(usize, bool)>)
    ensures
        r@.len() == mentioning(equations@, name@, 0).len(),
        forall|k: int| 0 <= k < r@.len() ==> #[trigger] r@[k].0 as int == mentioning(equations@, name@, 0)[k]
            && r@[k].1 == visited@.contains(equations@[r@[k].0 as int].id),
{
    let mut r: Vec<(usize, bool)> = Vec::new();
    let mut i: usize = 0;
    while i < equations.len()
        invariant
            i <= equations.len(),
            mentioning(equations@, name@, 0) == r@.map_values(|c: (usize, bool)| c.0 as int)
                + mentioning(equations@, name@, i as int),
            forall|k: int| 0 <= k < r@.len() ==> (#[trigger] r@[k]).0 < equations@.len()
                && r@[k].1 == visited@.contains(equations@[r@[k].0 as int].id),
        decreases equations.len() - i,
    {
        let eq = &equations[i];
        let mut mentions = false;
        let mut k: usize = 0;
        while k < eq.dependencies.len()
            invariant
                k <= eq.dependencies.len(),
                !mentions ==> forall|j: int| 0 <= j < k ==> eq.dependencies@[j]@ != name@,
                mentions ==> name_set(eq.dependencies@).contains(name@),
            decreases eq.dependencies.len() - k,
        {
            if eq.dependencies[k] == *name {
                proof {
                    assert(eq.dependencies@.map_values(|s: String| s@)[k as int] == name@);
                }
                mentions = true;
            }
            k += 1;
        }
        proof {
            if !mentions {
                let names = eq.dependencies@.map_values(|s: String| s@);
                assert forall|j: int| 0 <= j < names.len() implies #[trigger] names[j] != name@ by {
                    assert(eq.dependencies@[j]@ != name@);
                }
                assert(!names.contains(name@));
            }
        }
        if mentions {
            let mut seen = false;
            let mut m: usize = 0;
            while m < visited.len()
                invariant
                    m <= visited.len(),
                    seen == exists|j: int| 0 <= j < m && visited@[j] == eq.id,
                decreases visited.len() - m,
            {
                if visited[m] == eq.id {
                    seen = true;
                }
                m += 1;
            }
            proof {
                if seen {
                    let j = choose|j: int| 0 <= j < m && visited@[j] == eq.id;
                    assert(visited@.contains(eq.id));
                }
            }
            let ghost before = r@;
            r.push((i, seen));
            proof {
                assert(r@.map_values(|c: (usize, bool)| c.0 as int)
                    =~= before.map_values(|c: (usize, bool)| c.0 as int).push(i as int));
            }
        }
        i += 1;
    }
    proof {
        assert(r@.map_values(|c: (usize, bool)| c.0 as int) + Seq::<int>::empty()
            =~= r@.map_values(|c: (usize, bool)| c.0 as int));
    }
    r
}

} // verus!
