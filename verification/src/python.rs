//! The functions of the generated Python client.
use vstd::prelude::*;

use crate::ir::{python_reference, FieldType, Function, FunctionArgs, IntermediateRepr};
use crate::strings::concat3;

verus! {

/// A function of the generated client: its name, the Python type of its
/// result, and each argument's name with its Python type.
#[derive(Debug, PartialEq)]
pub struct PythonFunction {
    pub name: String,
    pub return_type: String,
    pub args: Vec<(String, String)>,
}

/// The generated client: one function per client configuration of each
/// project function.
#[derive(Debug, PartialEq)]
pub struct PythonClient {
    pub funcs: Vec<PythonFunction>,
}

/// Abstract client function: name, return type, arguments.
pub type PyFnV = (Seq<char>, Seq<char>, Seq<(Seq<char>, Seq<char>)>);

/// The abstract form of a client function.
pub open spec fn py_fn_view(f: PythonFunction) -> PyFnV {
    (f.name@, f.return_type@, Seq::new(f.args@.len(), |i: int| (f.args@[i].0@, f.args@[i].1@)))
}

/// The abstract forms of client functions, in order.
pub open spec fn py_fns_view(s: Seq<PythonFunction>) -> Seq<PyFnV> {
    Seq::new(s.len(), |i: int| py_fn_view(s[i]))
}

/// Each named argument with the Python type of its type, in order.
pub open spec fn arg_refs(args: Seq<(String, FieldType)>) -> Seq<(Seq<char>, Seq<char>)> {
    Seq::new(args.len(), |i: int| (args[i].0@, python_reference(args[i].1)))
}

/// The error for a function whose argument has no name.
pub open spec fn unnamed_args_message(name: Seq<char>) -> Seq<char> {
    "Python codegen does not support unnamed args: please add names to all arguments of BAML function '"@
        + name + "'"@
}

/// The client functions of one project function: none without
/// configurations; otherwise one per configuration, or an error when the
/// function takes an unnamed argument.
pub open spec fn function_entries(f: Function) -> Result<Seq<PyFnV>, Seq<char>> {
    match f.client_configs {
        None => Ok(Seq::empty()),
        Some(cfgs) => if cfgs@.len() == 0 {
            Ok(Seq::empty())
        } else {
            match f.inputs {
                FunctionArgs::UnnamedArg(_) => Err(unnamed_args_message(f.name@)),
                FunctionArgs::NamedArgList(args) => Ok(
                    Seq::new(cfgs@.len(), |i: int| (f.name@, python_reference(f.output), arg_refs(args@))),
                ),
            }
        },
    }
}

/// The client functions of all project functions in order, or the error of
/// the first function that has one.
pub open spec fn client_entries(fs: Seq<Function>) -> Result<Seq<PyFnV>, Seq<char>>
    decreases fs.len(),
{
    if fs.len() == 0 {
        Ok(Seq::empty())
    } else {
        match client_entries(fs.drop_last()) {
            Err(e) => Err(e),
            Ok(prev) => match function_entries(fs.last()) {
                Err(e) => Err(e),
                Ok(cur) => Ok(prev + cur),
            },
        }
    }
}

fn named_arg_refs(args: &Vec<(String, FieldType)>) -> (r: Vec<(String, String)>)
    ensures
        Seq::new(r@.len(), |i: int| (r@[i].0@, r@[i].1@)) == arg_refs(args@),
{
    let mut out: Vec<(String, String)> = Vec::new();
    let mut i: usize = 0;
    while i < args.len()
        invariant
            i <= args@.len(),
            out@.len() == i,
            forall|j: int| 0 <= j < i ==> (#[trigger] out@[j]).0@ == args@[j].0@ && out@[j].1@ == python_reference(args@[j].1),
        decreases args@.len() - i,
    {
        out.push((args[i].0.clone(), args[i].1.to_type_reference()));
        i = i + 1;
    }
    assert(Seq::new(out@.len(), |i: int| (out@[i].0@, out@[i].1@)) =~= arg_refs(args@));
    out
}

fn copy_pairs(v: &Vec<(String, String)>) -> (r: Vec<(String, String)>)
    ensures
        r@.len() == v@.len(),
        forall|j: int| 0 <= j < v@.len() ==> (#[trigger] r@[j]).0@ == v@[j].0@ && r@[j].1@ == v@[j].1@,
{
    let mut out: Vec<(String, String)> = Vec::new();
    let mut i: usize = 0;
    while i < v.len()
        invariant
            i <= v@.len(),
            out@.len() == i,
            forall|j: int| 0 <= j < i ==> (#[trigger] out@[j]).0@ == v@[j].0@ && out@[j].1@ == v@[j].1@,
        decreases v@.len() - i,
    {
        out.push((v[i].0.clone(), v[i].1.clone()));
        i = i + 1;
    }
    out
}

impl PythonClient {
    /// The client of a project (see `client_entries`).
    pub fn try_from(ir: &IntermediateRepr) -> (r: Result<PythonClient, String>)
        ensures
            match r {
                Ok(c) => client_entries(ir.functions@) == Ok::<Seq<PyFnV>, Seq<char>>(py_fns_view(c.funcs@)),
                Err(e) => client_entries(ir.functions@) == Err::<Seq<PyFnV>, Seq<char>>(e@),
            },
    {
        let fs = &ir.functions;
        let mut funcs: Vec<PythonFunction> = Vec::new();
        let mut i: usize = 0;
        assert(fs@.take(0) =~= Seq::<Function>::empty());
        assert(py_fns_view(funcs@) =~= Seq::<PyFnV>::empty());
        while i < fs.len()
            invariant
                i <= fs@.len(),
                fs@ == ir.functions@,
                client_entries(fs@.take(i as int)) == Ok::<Seq<PyFnV>, Seq<char>>(py_fns_view(funcs@)),
            decreases fs@.len() - i,
        {
            let f = &fs[i];
            let ghost before = py_fns_view(funcs@);
            assert(fs@.take(i + 1).drop_last() =~= fs@.take(i as int));
            assert(fs@.take(i + 1).last() == fs@[i as int]);
            match &f.client_configs {
                None => {
                    assert(before + Seq::<PyFnV>::empty() =~= before);
                },
                Some(cfgs) => {
                    if cfgs.len() == 0 {
                        assert(before + Seq::<PyFnV>::empty() =~= before);
                    } else {
                        match &f.inputs {
                            FunctionArgs::UnnamedArg(_) => {
                                let msg = concat3(
                                    "Python codegen does not support unnamed args: please add names to all arguments of BAML function '",
                                    f.name.as_str(),
                                    "'",
                                );
                                let mut k: usize = i + 1;
                                while k < fs.len()
                                    invariant
                                        i < k <= fs@.len(),
                                        fs@ == ir.functions@,
                                        client_entries(fs@.take(k as int)) == Err::<Seq<PyFnV>, Seq<char>>(msg@),
                                    decreases fs@.len() - k,
                                {
                                    assert(fs@.take(k + 1).drop_last() =~= fs@.take(k as int));
                                    k = k + 1;
                                }
                                assert(fs@.take(k as int) =~= fs@);
                                return Err(msg);
                            },
                            FunctionArgs::NamedArgList(args) => {
                                let ret = f.output.to_type_reference();
                                let refs = named_arg_refs(args);
                                let ghost cur = Seq::new(cfgs@.len(), |j: int| (f.name@, python_reference(f.output), arg_refs(args@)));
                                let mut c: usize = 0;
                                while c < cfgs.len()
                                    invariant
                                        c <= cfgs@.len(),
                                        py_fns_view(funcs@) == before + cur.take(c as int),
                                        ret@ == python_reference(f.output),
                                        Seq::new(refs@.len(), |i: int| (refs@[i].0@, refs@[i].1@)) == arg_refs(args@),
                                        cur.len() == cfgs@.len(),
                                        forall|j: int| 0 <= j < cur.len() ==> #[trigger] cur[j] == (f.name@, python_reference(f.output), arg_refs(args@)),
                                    decreases cfgs@.len() - c,
                                {
                                    let a = copy_pairs(&refs);
                                    let pf = PythonFunction { name: f.name.clone(), return_type: ret.clone(), args: a };
                                    assert(Seq::new(a@.len(), |i: int| (a@[i].0@, a@[i].1@)) =~= arg_refs(args@));
                                    assert(py_fn_view(pf) == cur[c as int]);
                                    let ghost old_funcs = funcs@;
                                    funcs.push(pf);
                                    assert(funcs@ == old_funcs.push(pf));
                                    assert(py_fns_view(funcs@) =~= py_fns_view(old_funcs).push(py_fn_view(pf)));
                                    assert(before + cur.take(c + 1) =~= (before + cur.take(c as int)).push(cur[c as int]));
                                    c = c + 1;
                                }
                                assert(cur.take(c as int) =~= cur);
                            },
                        }
                    }
                },
            }
            i = i + 1;
        }
        assert(fs@.take(i as int) =~= fs@);
        Ok(PythonClient { funcs })
    }
}

} // verus!
