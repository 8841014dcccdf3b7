//! Reading a list of equation sources into equations and user functions.
use vstd::prelude::*;
use crate::error::{Error, ErrorKind};
use crate::parser::{args_view, node_view, parse_source, parse_str, Expr, Node};

verus! {

/// An equation: a comparison that relates the quantities it names.
#[derive(Debug)]
pub struct Equation {
    /// Its place among the equations, used to stop a solve that would reenter it.
    pub id: usize,
    /// A `Comparison` node.
    pub node: Node,
    /// Every variable and function name that occurs in it, once each.
    pub dependencies: Vec<String>,
}

/// A function defined by the user, as in `f(x, y) = x*y`.
#[derive(Debug)]
pub struct Definition {
    pub name: String,
    pub params: Vec<String>,
    pub body: Node,
}

/// The equations and user functions of a list of sources, in source order.
#[derive(Debug)]
pub struct Program {
    pub equations: Vec<Equation>,
    pub definitions: Vec<Definition>,
}

/// The variable and function names that occur in `e`.
pub open spec fn names_of(e: Expr) -> Set<Seq<char>>
    decreases e,
{
    match e {
        Expr::Arithmetic(_, l, r) => names_of(*l) + names_of(*r),
        Expr::Number(_) => Set::empty(),
        Expr::Variable(n) => set![n],
        Expr::Function(n, args) => set![n] + names_of_all(args),
        Expr::Comparison(l, r) => names_of(*l) + names_of(*r),
    }
}

pub open spec fn names_of_all(args: Seq<Expr>) -> Set<Seq<char>>
    decreases args,
{
    if args.len() == 0 {
        Set::empty()
    } else {
        names_of_all(args.drop_last()) + names_of(args.last())
    }
}

/// Whether `e` defines a function: a comparison whose left side is a call
/// whose arguments are all plain variables.
pub open spec fn is_definition(e: Expr) -> bool {
    &&& e matches Expr::Comparison(l, _)
    &&& *l matches Expr::Function(_, args)
    &&& forall|i: int| 0 <= i < args.len() ==> #[trigger] args[i] is Variable
}

pub open spec fn is_equation(e: Expr) -> bool {
    e is Comparison && !is_definition(e)
}

/// The equations among `es`, in order.
pub open spec fn equations_of(es: Seq<Expr>) -> Seq<Expr>
    decreases es.len(),
{
    if es.len() == 0 {
        Seq::empty()
    } else if is_equation(es.last()) {
        equations_of(es.drop_last()).push(es.last())
    } else {
        equations_of(es.drop_last())
    }
}

/// The function definitions among `es`, in order.
pub open spec fn definitions_of(es: Seq<Expr>) -> Seq<Expr>
    decreases es.len(),
{
    if es.len() == 0 {
        Seq::empty()
    } else if is_definition(es.last()) {
        definitions_of(es.drop_last()).push(es.last())
    } else {
        definitions_of(es.drop_last())
    }
}

/// The trees of all sources, or the first error in source order.
pub open spec fn parse_all(srcs: Seq<Seq<char>>) -> Result<Seq<Expr>, ErrorKind>
    decreases srcs.len(),
{
    if srcs.len() == 0 {
        Ok(Seq::empty())
    } else {
        match parse_all(srcs.drop_last()) {
            Err(e) => Err(e),
            Ok(es) => match parse_source(srcs.last()) {
                Err(e) => Err(e),
                Ok(x) => Ok(es.push(x)),
            },
        }
    }
}

pub open spec fn name_set(v: Seq<String>) -> Set<Seq<char>> {
    v.map_values(|s: String| s@).to_set()
}

pub open spec fn distinct_names(v: Seq<String>) -> bool {
    forall|i: int, j: int| 0 <= i < j < v.len() ==> v[i]@ != v[j]@
}

impl Equation {
    /// The equation read from the comparison `e`, as the `id`-th equation.
    pub open spec fn models(&self, e: Expr, id: int) -> bool {
        &&& self.id == id
        &&& self.node@ == e
        &&& name_set(self.dependencies@) == names_of(e)
        &&& distinct_names(self.dependencies@)
    }
}

impl Definition {
    /// The function defined by the comparison `e`.
    pub open spec fn models(&self, e: Expr) -> bool {
        &&& e matches Expr::Comparison(l, r)
        &&& *l matches Expr::Function(name, args)
        &&& self.name@ == name
        &&& self.params@.len() == args.len()
        &&& forall|i: int| 0 <= i < args.len() ==> args[i] == Expr::Variable(#[trigger] self.params@[i]@)
        &&& self.body@ == *r
    }
}

impl Program {
    /// This program is what the trees `es` give.
    pub open spec fn models(&self, es: Seq<Expr>) -> bool {
        &&& self.equations@.len() == equations_of(es).len()
        &&& forall|i: int| 0 <= i < self.equations@.len()
            ==> #[trigger] self.equations@[i].models(equations_of(es)[i], i)
        &&& self.definitions@.len() == definitions_of(es).len()
        &&& forall|i: int| 0 <= i < self.definitions@.len()
            ==> #[trigger] self.definitions@[i].models(definitions_of(es)[i])
    }
}


/// Adds `name` to `deps` unless a name equal to it is there already.
fn add_name(deps: &mut Vec<String>, name: &String)
    requires
        distinct_names(old(deps)@),
    ensures
        distinct_names(final(deps)@),
        name_set(final(deps)@) == name_set(old(deps)@).insert(name@),
{
    let mut i: usize = 0;
    while i < deps.len()
        invariant
            i <= deps.len(),
            deps@ == old(deps)@,
            distinct_names(deps@),
            forall|j: int| 0 <= j < i ==> deps@[j]@ != name@,
        decreases deps.len() - i,
    {
        if deps[i] == *name {
            proof {
                assert(deps@.map_values(|s: String| s@)[i as int] == name@);
                assert(name_set(deps@).contains(name@));
                assert(name_set(deps@).insert(name@) =~= name_set(deps@));
            }
            return;
        }
        i += 1;
    }
    let ghost before = deps@;
    deps.push(name.clone());
    proof {
        assert(deps@.map_values(|s: String| s@) =~= before.map_values(|s: String| s@).push(name@));
        before.map_values(|s: String| s@).lemma_push_to_set_commute(name@);
        assert(name_set(deps@) =~= name_set(before).insert(name@));
    }
}

/// Adds to `deps` every name that occurs in `node` and is not there yet.
pub fn analyze(node: &Node, deps: &mut Vec<String>)
    requires
        distinct_names(old(deps)@),
    ensures
        distinct_names(final(deps)@),
        name_set(final(deps)@) == name_set(old(deps)@) + names_of(node@),
    decreases node,
{
    let ghost start = name_set(deps@);
    match node {
        Node::Arithmetic { operation: _, left, right } => {
            analyze(left, deps);
            analyze(right, deps);
            proof { assert(name_set(deps@) =~= start + names_of(node@)); }
        },
        Node::Variable(name) => {
            add_name(deps, name);
            proof { assert(name_set(deps@) =~= start + names_of(node@)); }
        },
        Node::Function { name, args } => {
            add_name(deps, name);
            let mut i: usize = 0;
            while i < args.len()
                invariant
                    i <= args.len(),
                    *node == (Node::Function { name: *name, args: *args }),
                    distinct_names(deps@),
                    name_set(deps@) == start + set![name@]
                        + names_of_all(args_view(args@.subrange(0, i as int))),
                decreases args.len() - i,
            {
                proof {
                    assert(decreases_to!(node => node->args));
                    assert(decreases_to!(args => args@));
                    assert(decreases_to!(args@ => args@[i as int]));
                }
                analyze(&args[i], deps);
                proof {
                    assert(args@.subrange(0, i + 1).drop_last() =~= args@.subrange(0, i as int));
                    let v = args_view(args@.subrange(0, i + 1));
                    assert(v.drop_last() =~= args_view(args@.subrange(0, i as int)));
                    assert(v.last() == node_view(*args@[i as int]));
                }
                i += 1;
                proof {
                    assert(name_set(deps@) =~= start + set![name@]
                        + names_of_all(args_view(args@.subrange(0, i as int))));
                }
            }
            proof {
                assert(args@.subrange(0, i as int) =~= args@);
                assert(name_set(deps@) =~= start + names_of(node@));
            }
        },
        Node::Comparison { left, right } => {
            analyze(left, deps);
            analyze(right, deps);
            proof { assert(name_set(deps@) =~= start + names_of(node@)); }
        },
        Node::Number(_) => {
            proof { assert(name_set(deps@) =~= start + names_of(node@)); }
        },
    }
}

/// The name and parameter names of `left` where it is a call whose
/// arguments are all plain variables.
fn definition_parts(left: &Node) -> (r: Option<(String, Vec<String>)>)
    ensures
        match r {
            Some((name, params)) => left@ matches Expr::Function(n, args) && name@ == n
                && params@.len() == args.len()
                && forall|i: int| 0 <= i < args.len() ==> args[i] == Expr::Variable(#[trigger] params@[i]@),
            None => !(left@ matches Expr::Function(_, args)
                && forall|i: int| 0 <= i < args.len() ==> #[trigger] args[i] is Variable),
        },
{
    match left {
        Node::Function { name, args } => {
            let ghost av = args_view(args@);
            proof { lemma_args_view(args@); }
            let mut params: Vec<String> = Vec::new();
            let mut i: usize = 0;
            while i < args.len()
                invariant
                    i <= args.len(),
                    av == args_view(args@),
                    av.len() == args@.len(),
                    forall|k: int| 0 <= k < args@.len() ==> av[k] == node_view(*#[trigger] args@[k]),
                    params@.len() == i,
                    left@ == Expr::Function(name@, av),
                    forall|k: int| 0 <= k < i ==> av[k] == Expr::Variable(#[trigger] params@[k]@),
                decreases args.len() - i,
            {
                match &*args[i] {
                    Node::Variable(p) => {
                        params.push(p.clone());
                    },
                    _ => {
                        proof {
                            assert(!(av[i as int] is Variable));
                            assert(left@ == Expr::Function(name@, av));
                        }
                        return None;
                    },
                }
                i += 1;
            }
            Some((name.clone(), params))
        },
        _ => None,
    }
}

proof fn lemma_args_view(args: Seq<Box<Node>>)
    ensures
        args_view(args).len() == args.len(),
        forall|k: int| 0 <= k < args.len() ==> args_view(args)[k] == node_view(*#[trigger] args[k]),
    decreases args.len(),
{
    if args.len() > 0 {
        lemma_args_view(args.drop_last());
        assert forall|k: int| 0 <= k < args.len() implies args_view(args)[k] == node_view(*#[trigger] args[k]) by {
            if k < args.len() - 1 {
                assert(args.drop_last()[k] == args[k]);
            }
        }
    }
}

impl Program {
    /// Files the tree `node`: as a function definition, as the next
    /// equation, or not at all.
    fn add(&mut self, node: Node, es: Ghost<Seq<Expr>>)
        requires
            old(self).models(es@),
        ensures
            final(self).models(es@.push(node@)),
    {
        let ghost x = node@;
        let ghost es = es@;
        proof { assert(es.push(x).drop_last() =~= es); }
        match node {
            Node::Comparison { left, right } => {
                match definition_parts(&left) {
                    Some((name, params)) => {
                        proof {
                            assert(x == Expr::Comparison(Box::new(left@), Box::new(right@)));
                            assert forall|k: int| 0 <= k < params@.len() implies
                                (#[trigger] (left@->Function_1)[k]) is Variable by {
                                assert((left@->Function_1)[k] == Expr::Variable(params@[k]@));
                            }
                            assert(is_definition(x));
                            assert(definitions_of(es.push(x)) =~= definitions_of(es).push(x)) by {
                                assert(es.push(x).drop_last() =~= es);
                            }
                            assert(equations_of(es.push(x)) =~= equations_of(es)) by {
                                assert(es.push(x).drop_last() =~= es);
                            }
                        }
                        self.definitions.push(Definition { name, params, body: *right });
                    },
                    None => {
                        let node = Node::Comparison { left, right };
                        let mut dependencies: Vec<String> = Vec::new();
                        proof { assert(name_set(dependencies@) =~= Set::<Seq<char>>::empty()); }
                        analyze(&node, &mut dependencies);
                        proof { assert(name_set(dependencies@) =~= names_of(x)); }
                        let id = self.equations.len();
                        proof {
                            assert(is_equation(x));
                            assert(equations_of(es.push(x)) =~= equations_of(es).push(x)) by {
                                assert(es.push(x).drop_last() =~= es);
                            }
                            assert(definitions_of(es.push(x)) =~= definitions_of(es)) by {
                                assert(es.push(x).drop_last() =~= es);
                            }
                        }
                        self.equations.push(Equation { id, node, dependencies });
                    },
                }
            },
            _ => {
                proof {
                    assert(equations_of(es.push(x)) =~= equations_of(es)) by {
                        assert(es.push(x).drop_last() =~= es);
                    }
                    assert(definitions_of(es.push(x)) =~= definitions_of(es)) by {
                        assert(es.push(x).drop_last() =~= es);
                    }
                }
            },
        }
    }

    /// Reads every source; a comparison whose left side is a call on plain
    /// variables defines a function, any other comparison is an equation,
    /// and a source without `=` is left out. Equations are numbered in
    /// source order. The first source that does not parse gives the error.
    pub fn build(sources: &Vec<&str>) -> (r: Result<Program, Error>)
        ensures
            match parse_all(sources@.map_values(|s: &str| s@)) {
                Err(e) => r matches Err(x) && x.kind == e,
                Ok(es) => r matches Ok(p) && p.models(es),
            },
    {
        let ghost srcs = sources@.map_values(|s: &str| s@);
        let mut equations: Vec<Equation> = Vec::new();
        let mut definitions: Vec<Definition> = Vec::new();
        let ghost mut es: Seq<Expr> = Seq::empty();
        let mut i: usize = 0;
        while i < sources.len()
            invariant
                i <= sources.len(),
                srcs == sources@.map_values(|s: &str| s@),
                parse_all(srcs.subrange(0, i as int)) == Ok::<Seq<Expr>, ErrorKind>(es),
                (Program { equations, definitions }).models(es),
            decreases sources.len() - i,
        {
            proof {
                assert(srcs.subrange(0, i + 1).drop_last() =~= srcs.subrange(0, i as int));
            }
            let node = match parse_str(sources[i]) {
                Ok(n) => n,
                Err(e) => {
                    proof { lemma_parse_all_prefix(srcs, i as int + 1); }
                    return Err(e);
                },
            };
            let ghost x = node@;
            let mut program = Program { equations, definitions };
            program.add(node, Ghost(es));
            equations = program.equations;
            definitions = program.definitions;
            proof {
                assert(parse_all(srcs.subrange(0, i + 1)) == Ok::<Seq<Expr>, ErrorKind>(es.push(x)));
                es = es.push(x);
            }
            i += 1;
        }
        proof {
            assert(srcs.subrange(0, i as int) =~= srcs);
        }
        Ok(Program { equations, definitions })
    }
}

/// Where the sources before `n` parse and source `n - 1` does not, all of
/// them together give that source's error.
proof fn lemma_parse_all_prefix(srcs: Seq<Seq<char>>, n: int)
    requires
        0 < n <= srcs.len(),
        parse_all(srcs.subrange(0, n - 1)) is Ok,
        parse_source(srcs[n - 1]) is Err,
    ensures
        parse_all(srcs) == Err::<Seq<Expr>, ErrorKind>(parse_source(srcs[n - 1])->Err_0),
    decreases srcs.len() - n,
{
    assert(srcs.subrange(0, n).drop_last() =~= srcs.subrange(0, n - 1));
    if n < srcs.len() {
        lemma_parse_all_errs(srcs, n);
    } else {
        assert(srcs.subrange(0, n) =~= srcs);
    }
}

/// Once a prefix of the sources fails, every longer prefix fails the same way.
proof fn lemma_parse_all_errs(srcs: Seq<Seq<char>>, n: int)
    requires
        0 < n <= srcs.len(),
        parse_all(srcs.subrange(0, n)) is Err,
    ensures
        parse_all(srcs) == parse_all(srcs.subrange(0, n)),
    decreases srcs.len() - n,
{
    if n < srcs.len() {
        assert(srcs.subrange(0, n + 1).drop_last() =~= srcs.subrange(0, n));
        lemma_parse_all_errs(srcs, n + 1);
    } else {
        assert(srcs.subrange(0, n) =~= srcs);
    }
}

} // verus!
