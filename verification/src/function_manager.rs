use vstd::prelude::*;

use crate::operand::OperandType;
use crate::util::str_eq;

verus! {

/// One registered function signature: its name, return type and the types
/// of its parameters in order.
#[verifier::ext_equal]
pub struct FnBinding {
    pub name: Seq<char>,
    pub ret: OperandType,
    pub params: Seq<OperandType>,
}

/// Look a function up by name; the first registration of a name wins.
pub open spec fn fn_lookup(bindings: Seq<FnBinding>, name: Seq<char>) -> Option<
    (OperandType, Seq<OperandType>),
>
    decreases bindings.len(),
{
    if bindings.len() == 0 {
        None
    } else if bindings.first().name == name {
        Some((bindings.first().ret, bindings.first().params))
    } else {
        fn_lookup(bindings.drop_first(), name)
    }
}

/// The table after a signature is registered: a redeclared name is ignored,
/// the first registration stands.
pub open spec fn fn_declare(
    bindings: Seq<FnBinding>,
    name: Seq<char>,
    ret: OperandType,
    params: Seq<OperandType>,
) -> Seq<FnBinding> {
    if fn_lookup(bindings, name) is Some {
        bindings
    } else {
        bindings.push(FnBinding { name, ret, params })
    }
}

/// The table of function signatures of the global scope.
#[derive(Debug)]
pub struct FunctionManager {
    functions: Vec<(String, OperandType, Vec<OperandType>)>,
}

impl View for FunctionManager {
    type V = Seq<FnBinding>;

    closed spec fn view(&self) -> Seq<FnBinding> {
        Seq::new(
            self.functions@.len(),
            |i: int| FnBinding {
                name: self.functions@[i].0@,
                ret: self.functions@[i].1,
                params: self.functions@[i].2@,
            },
        )
    }
}

impl FunctionManager {
    /// An empty signature table.
    pub fn new() -> (r: Self)
        ensures
            r@.len() == 0,
    {
        Self { functions: Vec::new() }
    }

    /// The return type and parameter types registered under a name.
    pub fn get_function_type(&self, name: &str) -> (r: Option<(OperandType, Vec<OperandType>)>)
        ensures
            (r is Some) == (fn_lookup(self@, name@) is Some),
            r matches Some(q) ==> fn_lookup(self@, name@) matches Some(p) && q.0 == p.0 && q.1@
                == p.1,
    {
        let mut i: usize = 0;
        proof {
            assert(self@.skip(0) =~= self@);
        }
        while i < self.functions.len()
            invariant
                i <= self.functions@.len(),
                fn_lookup(self@, name@) == fn_lookup(self@.skip(i as int), name@),
            decreases self.functions@.len() - i,
        {
            proof {
                assert(self@.skip(i as int).first() == self@[i as int]);
                assert(self@.skip(i as int).drop_first() =~= self@.skip(i + 1));
            }
            let e = &self.functions[i];
            if str_eq(e.0.as_str(), name) {
                let mut params: Vec<OperandType> = Vec::new();
                let mut k: usize = 0;
                while k < e.2.len()
                    invariant
                        k <= e.2@.len(),
                        params@ =~= e.2@.take(k as int),
                    decreases e.2@.len() - k,
                {
                    proof {
                        assert(e.2@.take(k + 1) =~= e.2@.take(k as int).push(e.2@[k as int]));
                    }
                    let p = e.2[k].clone();
                    params.push(p);
                    k += 1;
                }
                proof {
                    assert(params@ =~= e.2@);
                }
                return Some((e.1.clone(), params));
            }
            i += 1;
        }
        proof {
            assert(self@.skip(self.functions@.len() as int) =~= Seq::<FnBinding>::empty());
        }
        None
    }

    /// Register a signature; a name already registered is left as it was.
    pub fn declare_function(&mut self, name: &str, ty: &OperandType, params: &[OperandType])
        ensures
            final(self)@ == fn_declare(old(self)@, name@, *ty, params@),
    {
        if self.get_function_type(name).is_some() {
            return ;
        }
        let mut owned: Vec<OperandType> = Vec::new();
        let mut k: usize = 0;
        while k < params.len()
            invariant
                k <= params@.len(),
                owned@ =~= params@.take(k as int),
            decreases params@.len() - k,
        {
            proof {
                assert(params@.take(k + 1) =~= params@.take(k as int).push(params@[k as int]));
            }
            let p = params[k].clone();
            owned.push(p);
            k += 1;
        }
        proof {
            assert(owned@ =~= params@);
        }
        self.functions.push((name.to_owned(), ty.clone(), owned));
        proof {
            assert(self@ =~= old(self)@.push(FnBinding { name: name@, ret: *ty, params: params@ }));
        }
    }
}

} // verus!
