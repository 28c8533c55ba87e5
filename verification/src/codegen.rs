//! Typed-AST-to-IR lowering: signature table, scope stack, control-flow and
//! expression lowering.
//!
//! Lowering runs in two phases: first every struct layout and every callable
//! signature is registered, then every body is lowered. Because registration
//! completes before any body is lowered, a call site needs only the callee's
//! signature, so forward references and mutual recursion work regardless of
//! declaration order.

use vstd::prelude::*;
use crate::ast::{
    BlockNode, ClassNode, ComparisonNode, Expression, ExternNode, FileNode, FunctionNode,
    LetNode, LiteralNode, MethodNode, Operation, ParameterNode, ReturnNode, Statement,
    StructLiteralNode, Type, UnaryNode, WhileNode, IfNode, CallNode, AssignNode,
};
use crate::errors::CodegenError;
use crate::ir::{
    BasicBlock, FunctionBuilder, Instruction, IrFunction, IrModule, Terminator, preserves_closed,
};
use crate::layout::{
    ClassInfo, SizeManager, acyclic, class_names_unique, classes_closed, dep_edge,
    dependency_order, edges_ranked,
};
use crate::text::string_eq_str;

verus! {

/// A callable's calling signature: its ordered parameter types and its
/// return type, `Void` when it produces no value.
pub struct Signature {
    pub name: String,
    pub params: Vec<Type>,
    pub return_type: Type,
}

/// Signature names are pairwise distinct.
pub open spec fn sig_names_unique(sigs: Seq<Signature>) -> bool {
    forall|i: int, j: int| 0 <= i < j < sigs.len() ==> sigs[i].name@ != sigs[j].name@
}

/// Whether a callable of that name is registered.
pub open spec fn sig_contains(sigs: Seq<Signature>, name: Seq<char>) -> bool {
    exists|i: int| 0 <= i < sigs.len() && sigs[i].name@ == name
}

/// The registration position of the named callable.
pub open spec fn sig_index_of(sigs: Seq<Signature>, name: Seq<char>) -> int {
    choose|i: int| 0 <= i < sigs.len() && sigs[i].name@ == name
}

/// Forward references and mutual recursion: once the registration pass is
/// complete, every registered callable resolves to its own signature, no
/// matter where in the declaration order it stands relative to its callers.
pub proof fn lemma_lookup_order_independent(sigs: Seq<Signature>, i: int)
    requires
        sig_names_unique(sigs),
        0 <= i < sigs.len(),
    ensures
        sig_contains(sigs, sigs[i].name@),
        sig_index_of(sigs, sigs[i].name@) == i,
{
    assert(sigs[i].name@ == sigs[i].name@);
    let c = sig_index_of(sigs, sigs[i].name@);
    assert(0 <= c < sigs.len() && sigs[c].name@ == sigs[i].name@);
    if c < i {
        assert(sigs[c].name@ != sigs[i].name@);
    } else if i < c {
        assert(sigs[i].name@ != sigs[c].name@);
    }
}

/// The composite key of a struct-bound method: owning struct, underscore,
/// method name.
pub open spec fn composite_name(class_name: Seq<char>, method_name: Seq<char>) -> Seq<char> {
    class_name + "_"@ + method_name
}

/// Builds the composite key of a struct-bound method.
pub fn make_composite_name(class_name: &String, method_name: &String) -> (r: String)
    ensures
        r@ == composite_name(class_name@, method_name@),
{
    let mut out = class_name.clone();
    out.append("_");
    out.append(method_name.as_str());
    out
}

/// The innermost binding of a name in one scope: later bindings shadow
/// earlier ones.
pub open spec fn scope_resolve_one(scope: Seq<(String, usize)>, name: Seq<char>) -> Option<usize>
    decreases scope.len(),
{
    if scope.len() == 0 {
        Option::None
    } else if scope.last().0@ == name {
        Option::Some(scope.last().1)
    } else {
        scope_resolve_one(scope.drop_last(), name)
    }
}

/// The binding a name resolves to: innermost scope first, and inside a
/// scope the latest binding.
pub open spec fn scope_resolve(scopes: Seq<Vec<(String, usize)>>, name: Seq<char>) -> Option<
    usize,
>
    decreases scopes.len(),
{
    if scopes.len() == 0 {
        Option::None
    } else {
        match scope_resolve_one(scopes.last()@, name) {
            Option::Some(v) => Option::Some(v),
            Option::None => scope_resolve(scopes.drop_last(), name),
        }
    }
}

/// The lowering session: layouts, signatures, the scope stack of the body
/// being lowered, its builder, and the loop nesting for break/continue.
pub struct Codegen {
    pub sm: SizeManager,
    pub signatures: Vec<Signature>,
    pub stack_scopes: Vec<Vec<(String, usize)>>,
    pub builder: FunctionBuilder,
    /// Innermost last: (condition block, after block) of each enclosing
    /// loop.
    pub loop_stack: Vec<(usize, usize)>,
}

impl Codegen {
    /// A fresh session with empty tables and no body under way.
    pub fn new() -> (r: Self)
        ensures
            r.sm.structs@.len() == 0,
            r.sm.wf(),
            r.signatures@.len() == 0,
            r.stack_scopes@.len() == 0,
            r.loop_stack@.len() == 0,
            r.builder.wf(),
            r.builder.spec_open(),
    {
        Codegen {
            sm: SizeManager::new(),
            signatures: Vec::new(),
            stack_scopes: Vec::new(),
            builder: FunctionBuilder::new(String::new(), Vec::new(), Type::Void),
            loop_stack: Vec::new(),
        }
    }

    /// Registers one callable signature; the type checker has already
    /// rejected redeclarations.
    pub fn register_signature(&mut self, sig: Signature)
        requires
            !sig_contains(old(self).signatures@, sig.name@),
        ensures
            final(self).signatures@ == old(self).signatures@.push(sig),
            sig_names_unique(old(self).signatures@) ==> sig_names_unique(final(self).signatures@),
            final(self).sm == old(self).sm,
            final(self).stack_scopes == old(self).stack_scopes,
            final(self).builder == old(self).builder,
            final(self).loop_stack == old(self).loop_stack,
    {
        self.signatures.push(sig);
        proof {
            let pre = old(self).signatures@;
            let post = self.signatures@;
            if sig_names_unique(pre) {
                assert forall|i: int, j: int|
                    0 <= i < j < post.len() implies post[i].name@ != post[j].name@ by {
                    if j < pre.len() {
                        assert(pre[i].name@ != pre[j].name@);
                    } else {
                        assert(post[j] == sig);
                        assert(pre[i].name@ == post[i].name@);
                        if post[i].name@ == sig.name@ {
                            assert(sig_contains(pre, sig.name@));
                        }
                    }
                }
            }
        }
    }

    /// Finds the registered signature of a callable.
    pub fn lookup_signature(&self, name: &str) -> (r: Option<usize>)
        ensures
            match r {
                Option::Some(i) => i < self.signatures@.len() && self.signatures@[i as int].name@
                    == name@,
                Option::None => !sig_contains(self.signatures@, name@),
            },
    {
        let mut i: usize = 0;
        while i < self.signatures.len()
            invariant
                i <= self.signatures@.len(),
                forall|k: int| 0 <= k < i ==> self.signatures@[k].name@ != name@,
            decreases self.signatures@.len() - i,
        {
            if string_eq_str(&self.signatures[i].name, name) {
                return Option::Some(i);
            }
            i = i + 1;
        }
        Option::None
    }

    /// Pushes an empty scope; no binding changes.
    pub fn enter_scope(&mut self)
        ensures
            final(self).stack_scopes@.len() == old(self).stack_scopes@.len() + 1,
            forall|k: int|
                0 <= k < old(self).stack_scopes@.len() ==> final(self).stack_scopes@[k] == old(self).stack_scopes@[k],
            final(self).stack_scopes@.last()@.len() == 0,
            forall|n: Seq<char>|
                scope_resolve(final(self).stack_scopes@, n) == scope_resolve(
                    old(self).stack_scopes@,
                    n,
                ),
            final(self).sm == old(self).sm,
            final(self).signatures == old(self).signatures,
            final(self).builder == old(self).builder,
            final(self).loop_stack == old(self).loop_stack,
    {
        self.stack_scopes.push(Vec::new());
        proof {
            assert forall|n: Seq<char>|
                scope_resolve(self.stack_scopes@, n) == scope_resolve(
                    old(self).stack_scopes@,
                    n,
                ) by {
                assert(self.stack_scopes@.last()@.len() == 0);
                assert(scope_resolve_one(self.stack_scopes@.last()@, n) is None);
                assert(self.stack_scopes@.drop_last() =~= old(self).stack_scopes@);
            }
        }
    }

    /// Discards the innermost scope whole; bindings made in it vanish.
    pub fn exit_scope(&mut self)
        requires
            old(self).stack_scopes@.len() > 0,
        ensures
            final(self).stack_scopes@ == old(self).stack_scopes@.drop_last(),
            final(self).sm == old(self).sm,
            final(self).signatures == old(self).signatures,
            final(self).builder == old(self).builder,
            final(self).loop_stack == old(self).loop_stack,
    {
        let _ = self.stack_scopes.pop();
    }

    /// Binds a name in the innermost scope. Inserting always into the
    /// innermost map gives correct shadowing without special-casing
    /// redeclaration: the new binding shadows every other one of the same
    /// name, and no other name changes.
    pub fn add_variable(&mut self, name: &str, value: usize)
        requires
            old(self).stack_scopes@.len() > 0,
        ensures
            final(self).stack_scopes@.len() == old(self).stack_scopes@.len(),
            forall|k: int|
                0 <= k < old(self).stack_scopes@.len() - 1 ==> final(self).stack_scopes@[k] == old(self).stack_scopes@[k],
            final(self).stack_scopes@.last()@ == old(self).stack_scopes@.last()@.push(
                (final(self).stack_scopes@.last()@.last().0, value),
            ),
            final(self).stack_scopes@.last()@.last().0@ == name@,
            forall|n: Seq<char>|
                scope_resolve(final(self).stack_scopes@, n) == (if n == name@ {
                    Option::Some(value)
                } else {
                    scope_resolve(old(self).stack_scopes@, n)
                }),
            final(self).sm == old(self).sm,
            final(self).signatures == old(self).signatures,
            final(self).builder == old(self).builder,
            final(self).loop_stack == old(self).loop_stack,
    {
        let owned = name.to_owned();
        let mut top = match self.stack_scopes.pop() {
            Option::Some(t) => t,
            Option::None => unreached(),
        };
        top.push((owned, value));
        self.stack_scopes.push(top);
        proof {
            let pre = old(self).stack_scopes@;
            let post = self.stack_scopes@;
            assert(post.drop_last() =~= pre.drop_last());
            assert(post.last()@ == pre.last()@.push((post.last()@.last().0, value)));
            assert forall|n: Seq<char>|
                scope_resolve(post, n) == (if n == name@ {
                    Option::Some(value)
                } else {
                    scope_resolve(pre, n)
                }) by {
                let t = post.last()@;
                if n == name@ {
                    assert(scope_resolve_one(t, n) == Option::Some(value));
                } else {
                    assert(t.drop_last() =~= pre.last()@);
                    assert(scope_resolve_one(t, n) == scope_resolve_one(pre.last()@, n));
                }
            }
        }
    }

    /// Finds the binding a name resolves to, if any.
    fn resolve_variable(&self, name: &str) -> (r: Option<usize>)
        ensures
            r == scope_resolve(self.stack_scopes@, name@),
    {
        let ns = self.stack_scopes.len();
        proof {
            assert(self.stack_scopes@.subrange(0, ns as int) =~= self.stack_scopes@);
        }
        let mut s = ns;
        while s > 0
            invariant
                s <= ns,
                ns == self.stack_scopes@.len(),
                scope_resolve(self.stack_scopes@.subrange(0, s as int), name@) == scope_resolve(
                    self.stack_scopes@,
                    name@,
                ),
            decreases s,
        {
            s = s - 1;
            let scope = &self.stack_scopes[s];
            let nk = scope.len();
            proof {
                assert(scope@.subrange(0, nk as int) =~= scope@);
            }
            let mut k = nk;
            while k > 0
                invariant
                    k <= nk,
                    nk == scope@.len(),
                    scope == self.stack_scopes@[s as int],
                    scope_resolve_one(scope@.subrange(0, k as int), name@) == scope_resolve_one(
                        scope@,
                        name@,
                    ),
                decreases k,
            {
                k = k - 1;
                if string_eq_str(&scope[k].0, name) {
                    proof {
                        let prefix = scope@.subrange(0, k as int + 1);
                        assert(prefix.last() == scope@[k as int]);
                        assert(scope_resolve_one(prefix, name@) == Option::Some(scope@[k as int].1));
                    }
                    return Option::Some(scope[k].1);
                }
                proof {
                    let prefix = scope@.subrange(0, k as int + 1);
                    assert(prefix.last() == scope@[k as int]);
                    assert(prefix.drop_last() =~= scope@.subrange(0, k as int));
                }
            }
            proof {
                assert(scope@.subrange(0, 0) =~= Seq::<(String, usize)>::empty());
                assert(scope_resolve_one(scope@, name@) is None);
                let outer = self.stack_scopes@.subrange(0, s as int + 1);
                assert(outer.last() == self.stack_scopes@[s as int]);
                assert(outer.drop_last() =~= self.stack_scopes@.subrange(0, s as int));
            }
        }
        proof {
            assert(self.stack_scopes@.subrange(0, 0) =~= Seq::<Vec<(String, usize)>>::empty());
        }
        Option::None
    }

    /// Whether any live scope binds the name.
    pub fn known_variable(&self, name: &str) -> (r: bool)
        ensures
            r == (scope_resolve(self.stack_scopes@, name@) is Some),
    {
        match self.resolve_variable(name) {
            Option::Some(_) => true,
            Option::None => false,
        }
    }

    /// Returns the binding of a name. The type checker has validated every
    /// name reference, so an unbound name is an internal-invariant failure
    /// and is excluded by precondition.
    pub fn get_variable(&self, name: &str) -> (r: usize)
        requires
            scope_resolve(self.stack_scopes@, name@) is Some,
        ensures
            Option::Some(r) == scope_resolve(self.stack_scopes@, name@),
    {
        match self.resolve_variable(name) {
            Option::Some(v) => v,
            Option::None => unreached(),
        }
    }
}

} // verus!

verus! {

/// Field names are pairwise distinct inside every class.
pub open spec fn fields_unique(classes: Seq<ClassNode>) -> bool {
    forall|c: int, i: int, j: int|
        0 <= c < classes.len() && 0 <= i < j < classes[c].fields@.len() ==> (
        #[trigger] classes[c].fields@[i]).name@ != (#[trigger] classes[c].fields@[j]).name@
}

/// The composite key of method `m` of class `c`.
pub open spec fn method_key(file: FileNode, c: int, m: int) -> Seq<char> {
    composite_name(file.classes@[c].name@, file.classes@[c].methods@[m].name@)
}

/// No two callables share a key: functions, externs and methods (under
/// their composite keys) are pairwise distinct.
pub open spec fn callables_unique(file: FileNode) -> bool {
    &&& (forall|i: int, j: int|
        0 <= i < j < file.functions@.len() ==> file.functions@[i].name@
            != file.functions@[j].name@)
    &&& (forall|i: int, j: int|
        0 <= i < j < file.externs@.len() ==> file.externs@[i].name@ != file.externs@[j].name@)
    &&& (forall|i: int, j: int|
        0 <= i < file.functions@.len() && 0 <= j < file.externs@.len()
            ==> file.functions@[i].name@ != file.externs@[j].name@)
    &&& (forall|c1: int, m1: int, c2: int, m2: int|
        0 <= c1 < file.classes@.len() && 0 <= m1 < file.classes@[c1].methods@.len() && 0 <= c2
            < file.classes@.len() && 0 <= m2 < file.classes@[c2].methods@.len() && !(c1 == c2 && m1
            == m2) ==> method_key(file, c1, m1) != method_key(file, c2, m2))
    &&& (forall|c: int, m: int, i: int|
        0 <= c < file.classes@.len() && 0 <= m < file.classes@[c].methods@.len() && 0 <= i
            < file.functions@.len() ==> method_key(file, c, m) != file.functions@[i].name@)
    &&& (forall|c: int, m: int, i: int|
        0 <= c < file.classes@.len() && 0 <= m < file.classes@[c].methods@.len() && 0 <= i
            < file.externs@.len() ==> method_key(file, c, m) != file.externs@[i].name@)
}

/// A registered signature carries the declared parameter and return types.
pub open spec fn sig_matches(sig: Signature, params: Seq<ParameterNode>, ret: Type) -> bool {
    &&& sig.params@.len() == params.len()
    &&& (forall|k: int| 0 <= k < params.len() ==> (#[trigger] sig.params@[k]).matches(params[k].typ.typ))
    &&& sig.return_type.matches(ret)
}

/// Some registered signature carries this name with these declared types.
pub open spec fn has_sig(
    sigs: Seq<Signature>,
    name: Seq<char>,
    params: Seq<ParameterNode>,
    ret: Type,
) -> bool {
    exists|k: int|
        0 <= k < sigs.len() && (#[trigger] sigs[k]).name@ == name && sig_matches(
            sigs[k],
            params,
            ret,
        )
}

/// The signature bears some method's composite key.
pub open spec fn sig_is_method_key(sig: Signature, file: FileNode) -> bool {
    exists|c: int, m: int|
        0 <= c < file.classes@.len() && 0 <= m < file.classes@[c].methods@.len() && sig.name@
            == #[trigger] method_key(file, c, m)
}

/// The signature bears some free function's name.
pub open spec fn sig_is_function_name(sig: Signature, file: FileNode) -> bool {
    exists|i: int|
        0 <= i < file.functions@.len() && sig.name@ == (#[trigger] file.functions@[i]).name@
}

/// A class's layout holds exactly its declared fields, in declaration
/// order.
pub open spec fn layout_matches(info: ClassInfo, cls: ClassNode) -> bool {
    &&& info.fields@.len() == cls.fields@.len()
    &&& (forall|f: int|
        0 <= f < cls.fields@.len() ==> (#[trigger] info.fields@[f]).0@ == cls.fields@[f].name@
            && info.fields@[f].1.matches(cls.fields@[f].type_def.typ))
}

impl Codegen {
    /// Builds one signature from declared parameters and a return type.
    fn build_signature(name: String, params: &Vec<ParameterNode>, ret: &Type) -> (r: Signature)
        ensures
            r.name == name,
            sig_matches(r, params@, *ret),
    {
        let mut tys: Vec<Type> = Vec::new();
        let mut k: usize = 0;
        let np = params.len();
        while k < np
            invariant
                k <= np,
                np == params@.len(),
                tys@.len() == k,
                forall|t: int| 0 <= t < k ==> (#[trigger] tys@[t]).matches(params@[t].typ.typ),
            decreases np - k,
        {
            let t = params[k].typ.typ.clone();
            tys.push(t);
            k = k + 1;
        }
        Signature { name, params: tys, return_type: ret.clone() }
    }

    /// Registers every struct layout, in an emission order that places every
    /// struct after everything it contains by value, and then every callable
    /// signature, before any body is lowered.
    ///
    /// Fails exactly when the by-value containment graph is cyclic.
    pub fn fill_lookup(&mut self, file: &FileNode) -> (r: Result<(), CodegenError>)
        requires
            old(self).sm.structs@.len() == 0,
            old(self).signatures@.len() == 0,
            class_names_unique(file.classes@),
            classes_closed(file.classes@),
            fields_unique(file.classes@),
            callables_unique(*file),
        ensures
            (r is Ok) <==> acyclic(file.classes@),
            r is Err ==> r->Err_0 == CodegenError::CyclicDependency,
            final(self).stack_scopes == old(self).stack_scopes,
            final(self).builder == old(self).builder,
            final(self).loop_stack == old(self).loop_stack,
            r is Ok ==> {
                &&& final(self).sm.wf()
                &&& final(self).sm.structs@.len() == file.classes@.len()
                &&& (forall|c: int|
                    0 <= c < file.classes@.len() ==> final(self).sm.spec_contains_struct(
                        (#[trigger] file.classes@[c]).name@,
                    ) && layout_matches(
                        final(self).sm.spec_info_of(file.classes@[c].name@),
                        file.classes@[c],
                    ))
                &&& (forall|p: int, q: int, ci: int, cj: int|
                    #![trigger final(self).sm.structs@[p], final(self).sm.structs@[q], dep_edge(file.classes@, ci, cj)]
                    0 <= p < final(self).sm.structs@.len() && 0 <= q < final(self).sm.structs@.len() && 0 <= ci < file.classes@.len() && 0 <= cj
                        < file.classes@.len() && final(self).sm.structs@[p].0@ == file.classes@[
                        ci].name@ && final(self).sm.structs@[q].0@ == file.classes@[cj].name@
                        && dep_edge(file.classes@, ci, cj) ==> q < p)
                &&& sig_names_unique(final(self).signatures@)
                &&& (forall|i: int|
                    0 <= i < file.functions@.len() ==> has_sig(
                        final(self).signatures@,
                        (#[trigger] file.functions@[i]).name@,
                        file.functions@[i].parameters@,
                        file.functions@[i].return_type.typ,
                    ))
                &&& (forall|i: int|
                    0 <= i < file.externs@.len() ==> has_sig(
                        final(self).signatures@,
                        (#[trigger] file.externs@[i]).name@,
                        file.externs@[i].parameters@,
                        file.externs@[i].return_type.typ,
                    ))
                &&& (forall|c: int, m: int|
                    0 <= c < file.classes@.len() && 0 <= m < file.classes@[c].methods@.len()
                    ==> has_sig(final(self).signatures@, #[trigger] method_key(*file, c, m), file.classes@[c].methods@[m].parameters@, file.classes@[c].methods@[m].return_type.typ))
            },
    {
        // Sort structs by field dependency: if struct `Foo` holds a `Bar`
        // by value, `Bar`'s layout must be created first.
        let order = match dependency_order(&file.classes) {
            Result::Ok(o) => o,
            Result::Err(e) => {
                return Result::Err(e);
            },
        };
        let n = order.len();
        let mut p: usize = 0;
        while p < n
            invariant
                n == order@.len(),
                n == file.classes@.len(),
                p <= n,
                self.sm.wf(),
                self.sm.structs@.len() == p,
                forall|t: int|
                    0 <= t < p ==> (#[trigger] self.sm.structs@[t]).0@ == file.classes@[
                        order@[t] as int].name@,
                forall|nm: Seq<char>|
                    #[trigger] self.sm.spec_contains_struct(nm) <==> exists|t: int|
                        0 <= t < p && file.classes@[order@[t] as int].name@ == nm,
                forall|t: int|
                    0 <= t < p ==> self.sm.spec_contains_struct(
                        (#[trigger] file.classes@[order@[t] as int]).name@,
                    ) && layout_matches(
                        self.sm.spec_info_of(file.classes@[order@[t] as int].name@),
                        file.classes@[order@[t] as int],
                    ),
                self.signatures@.len() == 0,
                self.stack_scopes == old(self).stack_scopes,
                self.builder == old(self).builder,
                self.loop_stack == old(self).loop_stack,
            decreases n - p,
        {
            let ci = order[p];
            let cls = &file.classes[ci];
            proof {
                if self.sm.spec_contains_struct(cls.name@) {
                    let t = choose|t: int|
                        0 <= t < p && file.classes@[order@[t] as int].name@ == cls.name@;
                    if order@[t] as int != ci as int {
                        assert(class_names_unique(file.classes@));
                        let a = order@[t] as int;
                        let b = ci as int;
                        if a < b {
                            assert(file.classes@[a].name@ != file.classes@[b].name@);
                        } else {
                            assert(file.classes@[b].name@ != file.classes@[a].name@);
                        }
                        assert(false);
                    } else {
                        assert(order@[t] == order@[p as int]);
                        assert(order@.no_duplicates());
                        assert(t == p as int);
                        assert(false);
                    }
                }
            }
            self.sm.add_struct(cls.name.as_str());
            let nf = cls.fields.len();
            let mut f: usize = 0;
            while f < nf
                invariant
                    p < n,
                    n == order@.len(),
                    n == file.classes@.len(),
                    ci == order@[p as int],
                    ci < n,
                    cls == file.classes@[ci as int],
                    nf == cls.fields@.len(),
                    f <= nf,
                    self.sm.wf(),
                    self.sm.structs@.len() == p + 1,
                    forall|t: int|
                        0 <= t < p + 1 ==> (#[trigger] self.sm.structs@[t]).0@ == file.classes@[
                            order@[t] as int].name@,
                    self.sm.spec_contains_struct(cls.name@),
                    forall|nm: Seq<char>|
                        #[trigger] self.sm.spec_contains_struct(nm) <==> (nm == cls.name@
                            || exists|t: int|
                            0 <= t < p && file.classes@[order@[t] as int].name@ == nm),
                    ({
                        let info = self.sm.spec_info_of(cls.name@);
                        &&& info.fields@.len() == f
                        &&& (forall|t: int|
                            0 <= t < f ==> (#[trigger] info.fields@[t]).0@ == cls.fields@[t].name@
                                && info.fields@[t].1.matches(cls.fields@[t].type_def.typ))
                    }),
                    forall|t: int|
                        0 <= t < p ==> self.sm.spec_contains_struct(
                            (#[trigger] file.classes@[order@[t] as int]).name@,
                        ) && layout_matches(
                            self.sm.spec_info_of(file.classes@[order@[t] as int].name@),
                            file.classes@[order@[t] as int],
                        ),
                    self.signatures@.len() == 0,
                    self.stack_scopes == old(self).stack_scopes,
                    self.builder == old(self).builder,
                    self.loop_stack == old(self).loop_stack,
                decreases nf - f,
            {
                let field = &cls.fields[f];
                proof {
                    let info = self.sm.spec_info_of(cls.name@);
                    if info.spec_contains_field(field.name@) {
                        let t = choose|t: int|
                            0 <= t < info.fields@.len() && info.fields@[t].0@ == field.name@;
                        assert(cls.fields@[t].name@ == cls.fields@[f as int].name@);
                        assert(false);
                    }
                }
                self.sm.add_field(cls.name.as_str(), field.name.as_str(), &field.type_def.typ);
                proof {
                    assert forall|t: int|
                        0 <= t < p implies self.sm.spec_contains_struct(
                        (#[trigger] file.classes@[order@[t] as int]).name@,
                    ) && layout_matches(
                        self.sm.spec_info_of(file.classes@[order@[t] as int].name@),
                        file.classes@[order@[t] as int],
                    ) by {
                        let nm = file.classes@[order@[t] as int].name@;
                        assert(nm != cls.name@) by {
                            let a = order@[t] as int;
                            let b = ci as int;
                            assert(a != b) by {
                                if a == b {
                                    assert(order@[t] == order@[p as int]);
                                    assert(t == p as int);
                                }
                            }
                            if a < b {
                                assert(file.classes@[a].name@ != file.classes@[b].name@);
                            } else {
                                assert(file.classes@[b].name@ != file.classes@[a].name@);
                            }
                        }
                        assert(self.sm.spec_contains_struct(nm));
                        let idx = self.sm.spec_struct_index(nm);
                        let idx_cls = self.sm.spec_struct_index(cls.name@);
                        assert(self.sm.structs@[idx].0@ == nm);
                        assert(idx != idx_cls);
                    }
                }
                f = f + 1;
            }
            p = p + 1;
            proof {
                assert forall|nm: Seq<char>|
                    #[trigger] self.sm.spec_contains_struct(nm) implies (exists|t: int|
                    0 <= t < p && file.classes@[order@[t] as int].name@ == nm) by {
                    if nm == cls.name@ {
                        assert(file.classes@[order@[p - 1] as int].name@ == nm);
                    }
                }
                assert forall|t: int|
                    0 <= t < p implies self.sm.spec_contains_struct(
                    (#[trigger] file.classes@[order@[t] as int]).name@,
                ) && layout_matches(
                    self.sm.spec_info_of(file.classes@[order@[t] as int].name@),
                    file.classes@[order@[t] as int],
                ) by {
                    if t == p - 1 {
                        assert(file.classes@[order@[t] as int].name@ == cls.name@);
                    }
                }
            }
        }
        proof {
            assert forall|c: int|
                0 <= c < file.classes@.len() implies self.sm.spec_contains_struct(
                (#[trigger] file.classes@[c]).name@,
            ) && layout_matches(
                self.sm.spec_info_of(file.classes@[c].name@),
                file.classes@[c],
            ) by {
                assert(order@.contains(c as usize));
                let t = choose|t: int| 0 <= t < order@.len() && order@[t] == c as usize;
                assert(order@[t] as int == c);
            }
            assert forall|p2: int, q2: int, ci: int, cj: int|
                #![trigger self.sm.structs@[p2], self.sm.structs@[q2], dep_edge(file.classes@, ci, cj)]
                0 <= p2 < self.sm.structs@.len() && 0 <= q2 < self.sm.structs@.len() && 0 <= ci
                    < file.classes@.len() && 0 <= cj < file.classes@.len()
                    && self.sm.structs@[p2].0@ == file.classes@[ci].name@
                    && self.sm.structs@[q2].0@ == file.classes@[cj].name@ && dep_edge(
                    file.classes@,
                    ci,
                    cj,
                ) implies q2 < p2 by {
                assert(self.sm.structs@[p2].0@ == file.classes@[order@[p2] as int].name@);
                assert(self.sm.structs@[q2].0@ == file.classes@[order@[q2] as int].name@);
                let a = order@[p2] as int;
                let b = order@[q2] as int;
                assert(a == ci) by {
                    if a != ci {
                        if a < ci {
                            assert(file.classes@[a].name@ != file.classes@[ci].name@);
                        } else {
                            assert(file.classes@[ci].name@ != file.classes@[a].name@);
                        }
                    }
                }
                assert(b == cj) by {
                    if b != cj {
                        if b < cj {
                            assert(file.classes@[b].name@ != file.classes@[cj].name@);
                        } else {
                            assert(file.classes@[cj].name@ != file.classes@[b].name@);
                        }
                    }
                }
                assert(dep_edge(file.classes@, order@[p2] as int, order@[q2] as int));
            }
        }
        self.register_all_signatures(file);
        Result::Ok(())
    }
}

} // verus!

verus! {

impl Codegen {
    /// Registers the signature of every method (under its composite key),
    /// function, and external declaration.
    fn register_all_signatures(&mut self, file: &FileNode)
        requires
            old(self).signatures@.len() == 0,
            callables_unique(*file),
        ensures
            sig_names_unique(final(self).signatures@),
            forall|c: int, m: int|
                0 <= c < file.classes@.len() && 0 <= m < file.classes@[c].methods@.len()
                    ==> has_sig(
                    final(self).signatures@,
                    #[trigger] method_key(*file, c, m),
                    file.classes@[c].methods@[m].parameters@,
                    file.classes@[c].methods@[m].return_type.typ,
                ),
            forall|i: int|
                0 <= i < file.functions@.len() ==> has_sig(
                    final(self).signatures@,
                    (#[trigger] file.functions@[i]).name@,
                    file.functions@[i].parameters@,
                    file.functions@[i].return_type.typ,
                ),
            forall|i: int|
                0 <= i < file.externs@.len() ==> has_sig(
                    final(self).signatures@,
                    (#[trigger] file.externs@[i]).name@,
                    file.externs@[i].parameters@,
                    file.externs@[i].return_type.typ,
                ),
            final(self).sm == old(self).sm,
            final(self).stack_scopes == old(self).stack_scopes,
            final(self).builder == old(self).builder,
            final(self).loop_stack == old(self).loop_stack,
    {
        self.register_method_signatures(file);
        let ghost after_methods = self.signatures@;
        self.register_function_signatures(file);
        let ghost after_functions = self.signatures@;
        self.register_extern_signatures(file);
        proof {
            assert forall|c: int, m: int|
                0 <= c < file.classes@.len() && 0 <= m
                    < file.classes@[c].methods@.len() implies has_sig(
                self.signatures@,
                #[trigger] method_key(*file, c, m),
                file.classes@[c].methods@[m].parameters@,
                file.classes@[c].methods@[m].return_type.typ,
            ) by {
                let k = choose|k: int|
                    0 <= k < after_methods.len() && (#[trigger] after_methods[k]).name@
                        == method_key(*file, c, m) && sig_matches(
                        after_methods[k],
                        file.classes@[c].methods@[m].parameters@,
                        file.classes@[c].methods@[m].return_type.typ,
                    );
                assert(after_functions[k] == after_methods[k]);
                assert(self.signatures@[k] == after_functions[k]);
            }
            assert forall|i: int|
                0 <= i < file.functions@.len() implies has_sig(
                self.signatures@,
                (#[trigger] file.functions@[i]).name@,
                file.functions@[i].parameters@,
                file.functions@[i].return_type.typ,
            ) by {
                let k = choose|k: int|
                    0 <= k < after_functions.len() && (#[trigger] after_functions[k]).name@
                        == file.functions@[i].name@ && sig_matches(
                        after_functions[k],
                        file.functions@[i].parameters@,
                        file.functions@[i].return_type.typ,
                    );
                assert(self.signatures@[k] == after_functions[k]);
            }
        }
    }

    /// Registers every method under its composite key.
    fn register_method_signatures(&mut self, file: &FileNode)
        requires
            old(self).signatures@.len() == 0,
            callables_unique(*file),
        ensures
            sig_names_unique(final(self).signatures@),
            forall|k: int|
                0 <= k < final(self).signatures@.len() ==> sig_is_method_key(
                    #[trigger] final(self).signatures@[k],
                    *file,
                ),
            forall|c: int, m: int|
                0 <= c < file.classes@.len() && 0 <= m < file.classes@[c].methods@.len()
                    ==> has_sig(
                    final(self).signatures@,
                    #[trigger] method_key(*file, c, m),
                    file.classes@[c].methods@[m].parameters@,
                    file.classes@[c].methods@[m].return_type.typ,
                ),
            final(self).sm == old(self).sm,
            final(self).stack_scopes == old(self).stack_scopes,
            final(self).builder == old(self).builder,
            final(self).loop_stack == old(self).loop_stack,
    {
        let nc = file.classes.len();
        let mut c: usize = 0;
        while c < nc
            invariant
                nc == file.classes@.len(),
                c <= nc,
                sig_names_unique(self.signatures@),
                forall|k: int|
                    0 <= k < self.signatures@.len() ==> exists|c2: int, m2: int|
                        0 <= c2 < c && 0 <= m2 < file.classes@[c2].methods@.len() && (
                        #[trigger] self.signatures@[k]).name@ == method_key(*file, c2, m2),
                forall|c2: int, m2: int|
                    0 <= c2 < c && 0 <= m2 < file.classes@[c2].methods@.len() ==> has_sig(
                        self.signatures@,
                        #[trigger] method_key(*file, c2, m2),
                        file.classes@[c2].methods@[m2].parameters@,
                        file.classes@[c2].methods@[m2].return_type.typ,
                    ),
                self.sm == old(self).sm,
                self.stack_scopes == old(self).stack_scopes,
                self.builder == old(self).builder,
                self.loop_stack == old(self).loop_stack,
            decreases nc - c,
        {
            let cls = &file.classes[c];
            let nm = cls.methods.len();
            proof {
                assert forall|k: int|
                    0 <= k < self.signatures@.len() implies exists|c2: int, m2: int|
                    0 <= c2 < nc && 0 <= m2 < file.classes@[c2].methods@.len() && (c2 < c || (c2
                        == c && m2 < 0)) && (#[trigger] self.signatures@[k]).name@ == method_key(
                    *file,
                    c2,
                    m2,
                ) by {
                    let (c2, m2) = choose|c2: int, m2: int|
                        0 <= c2 < c && 0 <= m2 < file.classes@[c2].methods@.len() && (
                        self.signatures@[k]).name@ == method_key(*file, c2, m2);
                    assert(0 <= c2 < nc && c2 < c);
                    assert(self.signatures@[k].name@ == method_key(*file, c2, m2));
                }
            }
            let mut m: usize = 0;
            while m < nm
                invariant
                    nc == file.classes@.len(),
                    c < nc,
                    cls == file.classes@[c as int],
                    nm == cls.methods@.len(),
                    m <= nm,
                    sig_names_unique(self.signatures@),
                    forall|k: int|
                        0 <= k < self.signatures@.len() ==> exists|c2: int, m2: int|
                            0 <= c2 < nc && 0 <= m2 < file.classes@[c2].methods@.len() && (c2
                                < c || (c2 == c && m2 < m)) && (
                            #[trigger] self.signatures@[k]).name@ == method_key(*file, c2, m2),
                    forall|c2: int, m2: int|
                        0 <= c2 < nc && 0 <= m2 < file.classes@[c2].methods@.len() && (c2 < c || (
                        c2 == c && m2 < m)) ==> has_sig(
                            self.signatures@,
                            #[trigger] method_key(*file, c2, m2),
                            file.classes@[c2].methods@[m2].parameters@,
                            file.classes@[c2].methods@[m2].return_type.typ,
                        ),
                    self.sm == old(self).sm,
                    self.stack_scopes == old(self).stack_scopes,
                    self.builder == old(self).builder,
                    self.loop_stack == old(self).loop_stack,
                decreases nm - m,
            {
                let method = &cls.methods[m];
                let name = make_composite_name(&cls.name, &method.name);
                let sig = Self::build_signature(name, &method.parameters, &method.return_type.typ);
                proof {
                    if sig_contains(self.signatures@, sig.name@) {
                        let k = choose|k: int|
                            0 <= k < self.signatures@.len() && self.signatures@[k].name@
                                == sig.name@;
                        let (c2, m2) = choose|c2: int, m2: int|
                            0 <= c2 < nc && 0 <= m2 < file.classes@[c2].methods@.len() && (c2 < c
                                || (c2 == c && m2 < m)) && self.signatures@[k].name@ == method_key(
                                *file,
                                c2,
                                m2,
                            );
                        assert(method_key(*file, c2, m2) == method_key(*file, c as int, m as int));
                        assert(false);
                    }
                }
                let ghost pre = self.signatures@;
                self.register_signature(sig);
                proof {
                    assert forall|k: int|
                        0 <= k < self.signatures@.len() implies exists|c2: int, m2: int|
                        0 <= c2 < nc && 0 <= m2 < file.classes@[c2].methods@.len() && (c2 < c || (
                        c2 == c && m2 < m + 1)) && (#[trigger] self.signatures@[k]).name@
                            == method_key(*file, c2, m2) by {
                        if k < pre.len() {
                            let (c2, m2) = choose|c2: int, m2: int|
                                0 <= c2 < nc && 0 <= m2 < file.classes@[c2].methods@.len() && (c2
                                    < c || (c2 == c && m2 < m)) && pre[k].name@ == method_key(
                                    *file,
                                    c2,
                                    m2,
                                );
                            assert(self.signatures@[k].name@ == method_key(*file, c2, m2));
                        } else {
                            assert(self.signatures@[k].name@ == method_key(
                                *file,
                                c as int,
                                m as int,
                            ));
                        }
                    }
                    assert forall|c2: int, m2: int|
                        0 <= c2 < nc && 0 <= m2 < file.classes@[c2].methods@.len() && (c2 < c || (
                        c2 == c && m2 < m + 1)) implies has_sig(
                        self.signatures@,
                        #[trigger] method_key(*file, c2, m2),
                        file.classes@[c2].methods@[m2].parameters@,
                        file.classes@[c2].methods@[m2].return_type.typ,
                    ) by {
                        if c2 == c && m2 == m {
                            assert((#[trigger] self.signatures@[pre.len() as int]).name@
                                == method_key(*file, c2, m2));
                        } else {
                            let k = choose|k: int|
                                0 <= k < pre.len() && (#[trigger] pre[k]).name@ == method_key(
                                    *file,
                                    c2,
                                    m2,
                                ) && sig_matches(
                                    pre[k],
                                    file.classes@[c2].methods@[m2].parameters@,
                                    file.classes@[c2].methods@[m2].return_type.typ,
                                );
                            assert(self.signatures@[k] == pre[k]);
                        }
                    }
                }
                m = m + 1;
            }
            proof {
                assert forall|k: int|
                    0 <= k < self.signatures@.len() implies exists|c2: int, m2: int|
                    0 <= c2 < c + 1 && 0 <= m2 < file.classes@[c2].methods@.len() && (
                    #[trigger] self.signatures@[k]).name@ == method_key(*file, c2, m2) by {
                    let (c2, m2) = choose|c2: int, m2: int|
                        0 <= c2 < nc && 0 <= m2 < file.classes@[c2].methods@.len() && (c2 < c || (
                        c2 == c && m2 < nm)) && (self.signatures@[k]).name@ == method_key(
                        *file,
                        c2,
                        m2,
                    );
                    assert(self.signatures@[k].name@ == method_key(*file, c2, m2));
                }
            }
            c = c + 1;
        }
    }

    /// Registers every free function under its own name.
    fn register_function_signatures(&mut self, file: &FileNode)
        requires
            sig_names_unique(old(self).signatures@),
            callables_unique(*file),
            forall|k: int|
                0 <= k < old(self).signatures@.len() ==> sig_is_method_key(
                    #[trigger] old(self).signatures@[k],
                    *file,
                ),
        ensures
            sig_names_unique(final(self).signatures@),
            old(self).signatures@.len() <= final(self).signatures@.len(),
            forall|k: int|
                0 <= k < old(self).signatures@.len() ==> final(self).signatures@[k] == old(self).signatures@[k],
            forall|k: int|
                0 <= k < final(self).signatures@.len() ==> sig_is_method_key(
                    #[trigger] final(self).signatures@[k],
                    *file,
                ) || sig_is_function_name(final(self).signatures@[k], *file),
            forall|i: int|
                0 <= i < file.functions@.len() ==> has_sig(
                    final(self).signatures@,
                    (#[trigger] file.functions@[i]).name@,
                    file.functions@[i].parameters@,
                    file.functions@[i].return_type.typ,
                ),
            final(self).sm == old(self).sm,
            final(self).stack_scopes == old(self).stack_scopes,
            final(self).builder == old(self).builder,
            final(self).loop_stack == old(self).loop_stack,
    {
        let nf = file.functions.len();
        let mut i: usize = 0;
        while i < nf
            invariant
                nf == file.functions@.len(),
                i <= nf,
                sig_names_unique(self.signatures@),
                old(self).signatures@.len() <= self.signatures@.len(),
                forall|k: int|
                    0 <= k < old(self).signatures@.len() ==> self.signatures@[k] == old(self).signatures@[k],
                forall|k: int|
                    0 <= k < self.signatures@.len() ==> sig_is_method_key(
                        #[trigger] self.signatures@[k],
                        *file,
                    ) || exists|i2: int|
                        0 <= i2 < i && self.signatures@[k].name@ == (
                        #[trigger] file.functions@[i2]).name@,
                forall|i2: int|
                    0 <= i2 < i ==> has_sig(
                        self.signatures@,
                        (#[trigger] file.functions@[i2]).name@,
                        file.functions@[i2].parameters@,
                        file.functions@[i2].return_type.typ,
                    ),
                self.sm == old(self).sm,
                self.stack_scopes == old(self).stack_scopes,
                self.builder == old(self).builder,
                self.loop_stack == old(self).loop_stack,
            decreases nf - i,
        {
            let function = &file.functions[i];
            let name = function.name.clone();
            let sig = Self::build_signature(name, &function.parameters, &function.return_type.typ);
            proof {
                if sig_contains(self.signatures@, sig.name@) {
                    let k = choose|k: int|
                        0 <= k < self.signatures@.len() && self.signatures@[k].name@ == sig.name@;
                    if sig_is_method_key(self.signatures@[k], *file) {
                        let (c2, m2) = choose|c2: int, m2: int|
                            0 <= c2 < file.classes@.len() && 0 <= m2 < file.classes@[
                                c2].methods@.len() && self.signatures@[k].name@
                                == #[trigger] method_key(*file, c2, m2);
                        assert(method_key(*file, c2, m2) != file.functions@[i as int].name@);
                        assert(false);
                    } else {
                        let i2 = choose|i2: int|
                            0 <= i2 < i && self.signatures@[k].name@ == (
                            #[trigger] file.functions@[i2]).name@;
                        assert(file.functions@[i2].name@ != file.functions@[i as int].name@);
                        assert(false);
                    }
                }
            }
            let ghost pre = self.signatures@;
            self.register_signature(sig);
            proof {
                assert forall|k: int|
                    0 <= k < self.signatures@.len() implies sig_is_method_key(
                    #[trigger] self.signatures@[k],
                    *file,
                ) || exists|i2: int|
                    0 <= i2 < i + 1 && self.signatures@[k].name@ == (
                    #[trigger] file.functions@[i2]).name@ by {
                    if k < pre.len() {
                        assert(self.signatures@[k] == pre[k]);
                    } else {
                        assert(self.signatures@[k].name@ == file.functions@[i as int].name@);
                    }
                }
                assert forall|i2: int|
                    0 <= i2 < i + 1 implies has_sig(
                    self.signatures@,
                    (#[trigger] file.functions@[i2]).name@,
                    file.functions@[i2].parameters@,
                    file.functions@[i2].return_type.typ,
                ) by {
                    if i2 < i {
                        let k = choose|k: int|
                            0 <= k < pre.len() && (#[trigger] pre[k]).name@ == file.functions@[
                                i2].name@ && sig_matches(
                                pre[k],
                                file.functions@[i2].parameters@,
                                file.functions@[i2].return_type.typ,
                            );
                        assert(self.signatures@[k] == pre[k]);
                    } else {
                        assert((self.signatures@[pre.len() as int]).name@ == file.functions@[
                            i as int].name@);
                        assert(sig_matches(
                            self.signatures@[pre.len() as int],
                            file.functions@[i as int].parameters@,
                            file.functions@[i as int].return_type.typ,
                        ));
                    }
                }
            }
            i = i + 1;
        }
    }

    /// Registers every external declaration under its own name.
    fn register_extern_signatures(&mut self, file: &FileNode)
        requires
            sig_names_unique(old(self).signatures@),
            callables_unique(*file),
            forall|k: int|
                0 <= k < old(self).signatures@.len() ==> sig_is_method_key(
                    #[trigger] old(self).signatures@[k],
                    *file,
                ) || sig_is_function_name(old(self).signatures@[k], *file),
        ensures
            sig_names_unique(final(self).signatures@),
            old(self).signatures@.len() <= final(self).signatures@.len(),
            forall|k: int|
                0 <= k < old(self).signatures@.len() ==> final(self).signatures@[k] == old(self).signatures@[k],
            forall|i: int|
                0 <= i < file.externs@.len() ==> has_sig(
                    final(self).signatures@,
                    (#[trigger] file.externs@[i]).name@,
                    file.externs@[i].parameters@,
                    file.externs@[i].return_type.typ,
                ),
            final(self).sm == old(self).sm,
            final(self).stack_scopes == old(self).stack_scopes,
            final(self).builder == old(self).builder,
            final(self).loop_stack == old(self).loop_stack,
    {
        let ne = file.externs.len();
        let mut i: usize = 0;
        while i < ne
            invariant
                ne == file.externs@.len(),
                i <= ne,
                sig_names_unique(self.signatures@),
                old(self).signatures@.len() <= self.signatures@.len(),
                forall|k: int|
                    0 <= k < old(self).signatures@.len() ==> self.signatures@[k] == old(self).signatures@[k],
                forall|k: int|
                    0 <= k < self.signatures@.len() ==> sig_is_method_key(
                        #[trigger] self.signatures@[k],
                        *file,
                    ) || sig_is_function_name(self.signatures@[k], *file) || exists|i2: int|
                        0 <= i2 < i && self.signatures@[k].name@ == (
                        #[trigger] file.externs@[i2]).name@,
                forall|i2: int|
                    0 <= i2 < i ==> has_sig(
                        self.signatures@,
                        (#[trigger] file.externs@[i2]).name@,
                        file.externs@[i2].parameters@,
                        file.externs@[i2].return_type.typ,
                    ),
                self.sm == old(self).sm,
                self.stack_scopes == old(self).stack_scopes,
                self.builder == old(self).builder,
                self.loop_stack == old(self).loop_stack,
            decreases ne - i,
        {
            let external = &file.externs[i];
            let name = external.name.clone();
            let sig = Self::build_signature(name, &external.parameters, &external.return_type.typ);
            proof {
                if sig_contains(self.signatures@, sig.name@) {
                    let k = choose|k: int|
                        0 <= k < self.signatures@.len() && self.signatures@[k].name@ == sig.name@;
                    if sig_is_method_key(self.signatures@[k], *file) {
                        let (c2, m2) = choose|c2: int, m2: int|
                            0 <= c2 < file.classes@.len() && 0 <= m2 < file.classes@[
                                c2].methods@.len() && self.signatures@[k].name@
                                == #[trigger] method_key(*file, c2, m2);
                        assert(method_key(*file, c2, m2) != file.externs@[i as int].name@);
                        assert(false);
                    } else if sig_is_function_name(self.signatures@[k], *file) {
                        let i2 = choose|i2: int|
                            0 <= i2 < file.functions@.len() && self.signatures@[k].name@ == (
                            #[trigger] file.functions@[i2]).name@;
                        assert(file.functions@[i2].name@ != file.externs@[i as int].name@);
                        assert(false);
                    } else {
                        let i2 = choose|i2: int|
                            0 <= i2 < i && self.signatures@[k].name@ == (
                            #[trigger] file.externs@[i2]).name@;
                        assert(file.externs@[i2].name@ != file.externs@[i as int].name@);
                        assert(false);
                    }
                }
            }
            let ghost pre = self.signatures@;
            self.register_signature(sig);
            proof {
                assert forall|k: int|
                    0 <= k < self.signatures@.len() implies sig_is_method_key(
                    #[trigger] self.signatures@[k],
                    *file,
                ) || sig_is_function_name(self.signatures@[k], *file) || exists|i2: int|
                    0 <= i2 < i + 1 && self.signatures@[k].name@ == (
                    #[trigger] file.externs@[i2]).name@ by {
                    if k < pre.len() {
                        assert(self.signatures@[k] == pre[k]);
                    } else {
                        assert(self.signatures@[k].name@ == file.externs@[i as int].name@);
                    }
                }
                assert forall|i2: int|
                    0 <= i2 < i + 1 implies has_sig(
                    self.signatures@,
                    (#[trigger] file.externs@[i2]).name@,
                    file.externs@[i2].parameters@,
                    file.externs@[i2].return_type.typ,
                ) by {
                    if i2 < i {
                        let k = choose|k: int|
                            0 <= k < pre.len() && (#[trigger] pre[k]).name@ == file.externs@[
                                i2].name@ && sig_matches(
                                pre[k],
                                file.externs@[i2].parameters@,
                                file.externs@[i2].return_type.typ,
                            );
                        assert(self.signatures@[k] == pre[k]);
                    } else {
                        assert((self.signatures@[pre.len() as int]).name@ == file.externs@[
                            i as int].name@);
                        assert(sig_matches(
                            self.signatures@[pre.len() as int],
                            file.externs@[i as int].parameters@,
                            file.externs@[i as int].return_type.typ,
                        ));
                    }
                }
            }
            i = i + 1;
        }
    }
}

} // verus!

verus! {

/// What one expression lowering may do to the session: append instructions
/// to the open insertion block and define new values; blocks, tables, scopes
/// and loop nesting stay as they were.
pub open spec fn expr_step(pre: Codegen, post: Codegen) -> bool {
    &&& post.builder.wf()
    &&& post.builder.spec_open()
    &&& post.builder.current == pre.builder.current
    &&& post.builder.blocks@.len() == pre.builder.blocks@.len()
    &&& (forall|b: int|
        0 <= b < pre.builder.blocks@.len() && b != pre.builder.current ==> post.builder.blocks@[b]
            == pre.builder.blocks@[b])
    &&& instr_prefix(
        pre.builder.blocks@[pre.builder.current as int].instructions@,
        post.builder.blocks@[pre.builder.current as int].instructions@,
    )
    &&& pre.builder.value_count() <= post.builder.value_count()
    &&& (forall|id: int|
        0 <= id < pre.builder.value_count() ==> #[trigger] post.builder.value_is_ptr@[id]
            == pre.builder.value_is_ptr@[id])
    &&& post.builder.name == pre.builder.name
    &&& post.builder.params == pre.builder.params
    &&& post.builder.return_type == pre.builder.return_type
    &&& post.sm == pre.sm
    &&& post.signatures == pre.signatures
    &&& post.stack_scopes == pre.stack_scopes
    &&& post.loop_stack == pre.loop_stack
}

/// `a` is an initial run of `b`.
pub open spec fn instr_prefix(a: Seq<Instruction>, b: Seq<Instruction>) -> bool {
    a.len() <= b.len() && forall|k: int| 0 <= k < a.len() ==> a[k] == b[k]
}

/// The raw bits the literal lowers to.
pub open spec fn literal_bits(l: LiteralNode) -> u64 {
    if l.typ is Bool {
        if l.value@ == "true"@ {
            1u64
        } else {
            0u64
        }
    } else {
        crate::text::dec_value(l.value@) as u64
    }
}

/// Whether the literal's text fits its resolved type.
pub open spec fn literal_fits(l: LiteralNode) -> bool {
    match l.typ {
        Type::Bool => true,
        Type::I32 => lit_dec_in_range(l.value@, 0x7fff_ffff),
        Type::U32 => lit_dec_in_range(l.value@, 0xffff_ffff),
        Type::I64 => lit_dec_in_range(l.value@, 0x7fff_ffff_ffff_ffff),
        Type::U64 => lit_dec_in_range(l.value@, 0xffff_ffff_ffff_ffff),
        Type::Usize => lit_dec_in_range(l.value@, 0xffff_ffff_ffff_ffff),
        _ => false,
    }
}

/// A non-empty all-digit text whose value is at most `max`.
pub open spec fn lit_dec_in_range(s: Seq<char>, max: int) -> bool {
    s.len() > 0 && crate::text::all_digits(s) && crate::text::dec_value(s) <= max
}

impl Codegen {
    /// Lowers a literal to a constant of matching width.
    ///
    /// A literal whose text does not fit its resolved type is an
    /// internal-invariant violation: the checker attached the type.
    pub fn codegen_literal(&mut self, literal: &LiteralNode) -> (r: Result<usize, CodegenError>)
        requires
            old(self).builder.wf(),
            old(self).builder.spec_open(),
        ensures
            expr_step(*old(self), *final(self)),
            (r is Ok) == literal_fits(*literal),
            match r {
                Result::Ok(v) => {
                    &&& (v as int) < final(self).builder.value_count()
                    &&& !final(self).builder.spec_is_ptr(v as int)
                    &&& final(self).builder.blocks@[final(self).builder.current as int].instructions@
                        == old(self).builder.blocks@[old(self).builder.current as int].instructions@.push(
                        Instruction::ConstInt {
                            dst: v,
                            ty: literal.typ,
                            bits: literal_bits(*literal),
                        },
                    )
                },
                Result::Err(e) => e == CodegenError::InvalidLiteral || e
                    == CodegenError::UnhandledConstruct,
            },
    {
        let bits: u64 = match &literal.typ {
            Type::Bool => {
                if string_eq_str(&literal.value, "true") {
                    1
                } else {
                    0
                }
            },
            Type::I32 => {
                match crate::text::parse_dec_u64(literal.value.as_str()) {
                    Option::Some(v) => {
                        if v > 0x7fff_ffff {
                            return Result::Err(CodegenError::InvalidLiteral);
                        }
                        v
                    },
                    Option::None => {
                        proof {
                            if crate::text::all_digits(literal.value@) && literal.value@.len()
                                > 0 {
                                crate::text::lemma_dec_value_nonneg(literal.value@);
                            }
                        }
                        return Result::Err(CodegenError::InvalidLiteral);
                    },
                }
            },
            Type::U32 => {
                match crate::text::parse_dec_u64(literal.value.as_str()) {
                    Option::Some(v) => {
                        if v > 0xffff_ffff {
                            return Result::Err(CodegenError::InvalidLiteral);
                        }
                        v
                    },
                    Option::None => {
                        proof {
                            if crate::text::all_digits(literal.value@) && literal.value@.len()
                                > 0 {
                                crate::text::lemma_dec_value_nonneg(literal.value@);
                            }
                        }
                        return Result::Err(CodegenError::InvalidLiteral);
                    },
                }
            },
            Type::I64 => {
                match crate::text::parse_dec_u64(literal.value.as_str()) {
                    Option::Some(v) => {
                        if v > 0x7fff_ffff_ffff_ffff {
                            return Result::Err(CodegenError::InvalidLiteral);
                        }
                        v
                    },
                    Option::None => {
                        proof {
                            if crate::text::all_digits(literal.value@) && literal.value@.len()
                                > 0 {
                                crate::text::lemma_dec_value_nonneg(literal.value@);
                            }
                        }
                        return Result::Err(CodegenError::InvalidLiteral);
                    },
                }
            },
            Type::U64 => {
                match crate::text::parse_dec_u64(literal.value.as_str()) {
                    Option::Some(v) => v,
                    Option::None => {
                        proof {
                            if crate::text::all_digits(literal.value@) && literal.value@.len()
                                > 0 {
                                crate::text::lemma_dec_value_nonneg(literal.value@);
                            }
                        }
                        return Result::Err(CodegenError::InvalidLiteral);
                    },
                }
            },
            Type::Usize => {
                match crate::text::parse_dec_u64(literal.value.as_str()) {
                    Option::Some(v) => v,
                    Option::None => {
                        proof {
                            if crate::text::all_digits(literal.value@) && literal.value@.len()
                                > 0 {
                                crate::text::lemma_dec_value_nonneg(literal.value@);
                            }
                        }
                        return Result::Err(CodegenError::InvalidLiteral);
                    },
                }
            },
            _ => {
                return Result::Err(CodegenError::UnhandledConstruct);
            },
        };
        let dst = self.builder.fresh_value(false);
        let ty = literal.typ.clone();
        self.builder.emit(Instruction::ConstInt { dst, ty, bits });
        Result::Ok(dst)
    }

    /// Lowers a name reference: the binding's address in location mode, the
    /// loaded value otherwise.
    pub fn codegen_name(&mut self, name: &crate::ast::NameNode, load_var: bool) -> (r: Result<
        usize,
        CodegenError,
    >)
        requires
            old(self).builder.wf(),
            old(self).builder.spec_open(),
        ensures
            expr_step(*old(self), *final(self)),
            match r {
                Result::Ok(v) => {
                    &&& (load_var ==> (v as int) < final(self).builder.value_count()
                        && !final(self).builder.spec_is_ptr(v as int))
                    &&& scope_resolve(old(self).stack_scopes@, name.name@) is Some
                    &&& (!load_var ==> Option::Some(v) == scope_resolve(
                        old(self).stack_scopes@,
                        name.name@,
                    ))
                    &&& (load_var ==> (final(self).builder.blocks@[old(self).builder.current as int].instructions@.last() matches Instruction::Load {
                        dst,
                        ptr,
                        ..
                    } && dst == v && Option::Some(ptr) == scope_resolve(
                        old(self).stack_scopes@,
                        name.name@,
                    )))
                },
                Result::Err(e) => e == CodegenError::UnknownVariable || e
                    == CodegenError::NotAPointer,
            },
            (scope_resolve(old(self).stack_scopes@, name.name@) is None) ==> r == Result::<
                usize,
                CodegenError,
            >::Err(CodegenError::UnknownVariable),
    {
        let var = match self.resolve_variable(name.name.as_str()) {
            Option::Some(v) => v,
            Option::None => {
                return Result::Err(CodegenError::UnknownVariable);
            },
        };
        if !load_var {
            return Result::Ok(var);
        }
        if var >= self.builder.value_is_ptr.len() {
            return Result::Err(CodegenError::NotAPointer);
        }
        if !self.builder.is_pointer(var) {
            return Result::Err(CodegenError::NotAPointer);
        }
        let dst = self.builder.fresh_value(false);
        let ty = name.typ.clone();
        self.builder.emit(Instruction::Load { dst, ty, ptr: var });
        Result::Ok(dst)
    }
}

} // verus!

verus! {

impl Codegen {
    /// Lowers an expression to a value, or in location mode to an unloaded
    /// storage handle.
    pub fn codegen_expression(&mut self, expression: &Expression, load_var: bool) -> (r: Result<
        usize,
        CodegenError,
    >)
        requires
            old(self).sm.wf(),
            old(self).builder.wf(),
            old(self).builder.spec_open(),
        ensures
            expr_step(*old(self), *final(self)),
            match r {
                Result::Ok(v) => load_var ==> (v as int) < final(self).builder.value_count()
                    && !final(self).builder.spec_is_ptr(v as int),
                Result::Err(_) => true,
            },
            ((*expression) matches Expression::Literal(l) && literal_fits(l)) ==> r is Ok,
        decreases *expression,
    {
        match expression {
            Expression::Literal(literal) => self.codegen_literal(literal),
            Expression::Binary(binary) => self.codegen_binary(binary, load_var),
            Expression::Comparison(comparison) => self.codegen_comparison(comparison),
            Expression::Name(name) => self.codegen_name(name, load_var),
            Expression::FunctionCall(function_call) => self.codegen_function_call(function_call),
            Expression::Unary(unary) => self.codegen_unary(unary, load_var),
            Expression::StructLiteral(struct_literal) => self.codegen_struct_literal(
                struct_literal,
                load_var,
            ),
            Expression::Identifier(identifier) => self.codegen_expression(
                &*identifier.expression,
                load_var,
            ),
            _ => Result::Err(CodegenError::UnhandledConstruct),
        }
    }

    /// Lowers a unary expression; only arithmetic negation exists.
    pub fn codegen_unary(&mut self, unary_node: &UnaryNode, load_var: bool) -> (r: Result<
        usize,
        CodegenError,
    >)
        requires
            old(self).sm.wf(),
            old(self).builder.wf(),
            old(self).builder.spec_open(),
        ensures
            expr_step(*old(self), *final(self)),
            match r {
                Result::Ok(v) => {
                    &&& (v as int) < final(self).builder.value_count()
                    &&& !final(self).builder.spec_is_ptr(v as int)
                    &&& (final(self).builder.blocks@[old(self).builder.current as int].instructions@.last() matches Instruction::Negate {
                        dst,
                        src,
                    } && dst == v)
                },
                Result::Err(_) => true,
            },
        decreases *unary_node,
    {
        match unary_node.operation {
            Operation::Negate => {
                let value = match self.codegen_expression(&*unary_node.expression, true) {
                    Result::Ok(v) => v,
                    Result::Err(e) => {
                        return Result::Err(e);
                    },
                };
                let t = unary_node.expression.get_type();
                if !t.is_int() {
                    return Result::Err(CodegenError::NotAnInteger);
                }
                let dst = self.builder.fresh_value(false);
                self.builder.emit(Instruction::Negate { dst, src: value });
                Result::Ok(dst)
            },
            _ => Result::Err(CodegenError::UnhandledConstruct),
        }
    }

    /// Lowers an ordered or equality comparison to a boolean value.
    ///
    /// Ordered comparisons defensively require integer operands; equality
    /// and inequality are not restricted to them.
    pub fn codegen_comparison(&mut self, comparison: &ComparisonNode) -> (r: Result<
        usize,
        CodegenError,
    >)
        requires
            old(self).sm.wf(),
            old(self).builder.wf(),
            old(self).builder.spec_open(),
        ensures
            expr_step(*old(self), *final(self)),
            match r {
                Result::Ok(v) => {
                    &&& (v as int) < final(self).builder.value_count()
                    &&& !final(self).builder.spec_is_ptr(v as int)
                    &&& (final(self).builder.blocks@[old(self).builder.current as int].instructions@.last() matches Instruction::Compare {
                        dst,
                        op,
                        lhs,
                        rhs,
                    } && op == comparison.operation && dst == v)
                },
                Result::Err(_) => true,
            },
            (comparison.operation is Equal && ((*comparison.lhs) matches Expression::Literal(l1)
                && literal_fits(l1)) && ((*comparison.rhs) matches Expression::Literal(l2)
                && literal_fits(l2))) ==> r is Ok,
        decreases *comparison,
    {
        let ordered = match comparison.operation {
            Operation::LessThan | Operation::GreaterThan | Operation::LessThanOrEqual
                | Operation::GreaterThanOrEqual => true,
            Operation::Equal | Operation::NotEqual => false,
            _ => {
                return Result::Err(CodegenError::UnhandledConstruct);
            },
        };
        let lhs = match self.codegen_expression(&*comparison.lhs, true) {
            Result::Ok(v) => v,
            Result::Err(e) => {
                return Result::Err(e);
            },
        };
        let rhs = match self.codegen_expression(&*comparison.rhs, true) {
            Result::Ok(v) => v,
            Result::Err(e) => {
                return Result::Err(e);
            },
        };
        if ordered {
            let lt = comparison.lhs.get_type();
            let rt = comparison.rhs.get_type();
            if !lt.is_int() || !rt.is_int() {
                return Result::Err(CodegenError::NotAnInteger);
            }
        }
        let dst = self.builder.fresh_value(false);
        self.builder.emit(Instruction::Compare { dst, op: comparison.operation, lhs, rhs });
        Result::Ok(dst)
    }

    /// Lowers a call to a free function: arguments in declaration order, in
    /// value mode; a callee with no return type yields an unused
    /// placeholder value.
    pub fn codegen_function_call(&mut self, function_call: &CallNode) -> (r: Result<
        usize,
        CodegenError,
    >)
        requires
            old(self).sm.wf(),
            old(self).builder.wf(),
            old(self).builder.spec_open(),
        ensures
            expr_step(*old(self), *final(self)),
            match r {
                Result::Ok(v) => (v as int) < final(self).builder.value_count() && !final(self).builder.spec_is_ptr(v as int),
                Result::Err(_) => true,
            },
            !sig_contains(old(self).signatures@, function_call.function_name@) ==> r == Result::<
                usize,
                CodegenError,
            >::Err(CodegenError::UnknownSymbol),
            (r is Ok && sig_names_unique(old(self).signatures@)) ==> {
                let instrs = final(self).builder.blocks@[old(self).builder.current as int].instructions@;
                exists|ix: int|
                    {
                        &&& 0 <= ix < instrs.len()
                        &&& ((#[trigger] final(self).builder.blocks@[old(self).builder.current as int].instructions@[ix]) matches Instruction::Call {
                            dst,
                            callee,
                            args,
                            has_result,
                        } && {
                            &&& callee@ == function_call.function_name@
                            &&& args@.len() == function_call.arguments@.len()
                            &&& has_result == !(old(self).signatures@[sig_index_of(
                                old(self).signatures@,
                                function_call.function_name@,
                            )].return_type is Void)
                            &&& (has_result ==> r == Result::<usize, CodegenError>::Ok(dst)
                                && instrs.len() == ix + 1)
                            &&& (!has_result ==> instrs.len() == ix + 2 && (instrs[ix + 1] matches
                                Instruction::ConstInt { dst: pd, .. } && r == Result::<
                                usize,
                                CodegenError,
                            >::Ok(pd)))
                        })
                    }
            },
        decreases *function_call,
    {
        let sig_idx = match self.lookup_signature(function_call.function_name.as_str()) {
            Option::Some(i) => i,
            Option::None => {
                return Result::Err(CodegenError::UnknownSymbol);
            },
        };
        proof {
            assert(sig_contains(self.signatures@, function_call.function_name@));
        }
        let has_result = match &self.signatures[sig_idx].return_type {
            Type::Void => false,
            _ => true,
        };
        let mut args: Vec<usize> = Vec::new();
        let na = function_call.arguments.len();
        let mut k: usize = 0;
        while k < na
            invariant
                na == function_call.arguments@.len(),
                k <= na,
                expr_step(*old(self), *self),
                args@.len() == k,
            decreases na - k,
        {
            let v = match self.codegen_expression(&function_call.arguments[k].expression.expression, true) {
                Result::Ok(v) => v,
                Result::Err(e) => {
                    return Result::Err(e);
                },
            };
            args.push(v);
            k = k + 1;
        }
        let callee = function_call.function_name.clone();
        let dst = self.builder.fresh_value(false);
        self.builder.emit(Instruction::Call { dst, callee, args, has_result });
        let ghost cur = old(self).builder.current as int;
        let ghost call_ix = self.builder.blocks@[cur].instructions@.len() - 1;
        proof {
            assert forall|id: int|
                0 <= id < old(self).builder.value_count() implies #[trigger] self.builder.value_is_ptr@[id]
                    == old(self).builder.value_is_ptr@[id] by {}
            assert(expr_step(*old(self), *self));
            if sig_names_unique(old(self).signatures@) {
                let key = function_call.function_name@;
                let c = sig_index_of(old(self).signatures@, key);
                assert(sig_contains(old(self).signatures@, key));
                assert(0 <= c < old(self).signatures@.len() && old(self).signatures@[c].name@
                    == key);
                if c < sig_idx {
                    assert(old(self).signatures@[c].name@ != old(self).signatures@[
                        sig_idx as int].name@);
                } else if sig_idx < c {
                    assert(old(self).signatures@[sig_idx as int].name@ != old(self).signatures@[c].name@);
                }
                assert(c == sig_idx);
            }
            assert(self.builder.blocks@[cur].instructions@[call_ix] matches Instruction::Call {
                ..
            });
        }
        if has_result {
            Result::Ok(dst)
        } else {
            // The callee produces no value; hand back a placeholder constant
            // that nothing will read.
            let ph = self.builder.fresh_value(false);
            self.builder.emit(Instruction::ConstInt { dst: ph, ty: Type::I32, bits: 0 });
            proof {
                assert forall|id: int|
                    0 <= id < old(self).builder.value_count() implies #[trigger] self.builder.value_is_ptr@[id]
                        == old(self).builder.value_is_ptr@[id] by {}
                assert(expr_step(*old(self), *self));
                assert(self.builder.blocks@[cur].instructions@[call_ix] matches
                    Instruction::Call { .. });
            }
            Result::Ok(ph)
        }
    }

    /// Somewhere in `instrs`, the address of the named field is formed at
    /// exactly its positional index in the registered layout, and the next
    /// instruction stores through that address.
    pub open spec fn field_store_emitted(
        instrs: Seq<Instruction>,
        sm: SizeManager,
        sname: Seq<char>,
        fname: Seq<char>,
    ) -> bool {
        exists|ix: int|
            {
                &&& 0 <= ix < instrs.len() - 1
                &&& ((#[trigger] instrs[ix]) matches Instruction::FieldPtr {
                    dst,
                    struct_name,
                    index,
                    base,
                } && {
                    &&& struct_name@ == sname
                    &&& index == sm.spec_info_of(sname).spec_field_index(fname)
                    &&& (instrs[ix + 1] matches Instruction::Store { ptr, value } && ptr == dst)
                })
            }
    }

    /// Stores the already-evaluated field values of a struct literal at
    /// their layout offsets inside the fresh temporary.
    #[verifier::rlimit(100)]
    fn codegen_field_stores(
        &mut self,
        struct_literal: &StructLiteralNode,
        expressions: &Vec<usize>,
        struct_alloc: usize,
    ) -> (r: Result<(), CodegenError>)
        requires
            old(self).sm.wf(),
            old(self).builder.wf(),
            old(self).builder.spec_open(),
            old(self).sm.spec_contains_struct(struct_literal.struct_name@),
            expressions@.len() == struct_literal.fields@.len(),
        ensures
            expr_step(*old(self), *final(self)),
            r is Ok ==> forall|k: int|
                0 <= k < struct_literal.fields@.len() ==> old(self).sm.spec_info_of(
                    struct_literal.struct_name@,
                ).spec_contains_field((#[trigger] struct_literal.fields@[k]).0@)
                    && Self::field_store_emitted(
                    final(self).builder.blocks@[old(self).builder.current as int].instructions@,
                    old(self).sm,
                    struct_literal.struct_name@,
                    struct_literal.fields@[k].0@,
                ),
        decreases *struct_literal,
    {
        let ghost cur = old(self).builder.current as int;
        let nf = struct_literal.fields.len();
        let mut k: usize = 0;
        while k < nf
            invariant
                nf == struct_literal.fields@.len(),
                nf == expressions@.len(),
                k <= nf,
                expr_step(*old(self), *self),
                self.sm.spec_contains_struct(struct_literal.struct_name@),
                forall|k2: int|
                    0 <= k2 < k ==> self.sm.spec_info_of(
                        struct_literal.struct_name@,
                    ).spec_contains_field((#[trigger] struct_literal.fields@[k2]).0@)
                        && Self::field_store_emitted(
                        self.builder.blocks@[cur].instructions@,
                        self.sm,
                        struct_literal.struct_name@,
                        struct_literal.fields@[k2].0@,
                    ),
            decreases nf - k,
        {
            let ghost pre0 = self.builder.blocks@[cur].instructions@;
            let info = self.sm.get_struct_info(struct_literal.struct_name.as_str());
            if !info.has_field(struct_literal.fields[k].0.as_str()) {
                return Result::Err(CodegenError::UnknownField);
            }
            let field_offset = info.get_field_index(struct_literal.fields[k].0.as_str());
            let sn = struct_literal.struct_name.clone();
            let field_alloc = self.builder.fresh_value(true);
            self.builder.emit(
                Instruction::FieldPtr {
                    dst: field_alloc,
                    struct_name: sn,
                    index: field_offset,
                    base: struct_alloc,
                },
            );
            let ghost mid = self.builder.blocks@[cur].instructions@;
            let ghost fp_ix = mid.len() - 1;
            self.builder.emit(Instruction::Store { ptr: field_alloc, value: expressions[k] });
            proof {
                let instrs = self.builder.blocks@[cur].instructions@;
                assert(fp_ix == pre0.len());
                assert(instrs[fp_ix] == mid[fp_ix]);
                assert(instrs[fp_ix] matches Instruction::FieldPtr { dst, .. } && dst
                    == field_alloc);
                assert forall|k2: int|
                    0 <= k2 < k + 1 implies self.sm.spec_info_of(
                    struct_literal.struct_name@,
                ).spec_contains_field((#[trigger] struct_literal.fields@[k2]).0@)
                    && Self::field_store_emitted(
                    instrs,
                    self.sm,
                    struct_literal.struct_name@,
                    struct_literal.fields@[k2].0@,
                ) by {
                    if k2 == k {
                        assert(0 <= fp_ix < instrs.len() - 1);
                    } else {
                        let ix0 = choose|ix0: int|
                            {
                                &&& 0 <= ix0 < pre0.len() - 1
                                &&& ((#[trigger] pre0[ix0]) matches Instruction::FieldPtr {
                                    dst,
                                    struct_name,
                                    index,
                                    base,
                                } && {
                                    &&& struct_name@ == struct_literal.struct_name@
                                    &&& index == self.sm.spec_info_of(
                                        struct_literal.struct_name@,
                                    ).spec_field_index(struct_literal.fields@[k2].0@)
                                    &&& (pre0[ix0 + 1] matches Instruction::Store { ptr, value }
                                        && ptr == dst)
                                })
                            };
                        assert(instrs[ix0] == pre0[ix0]);
                        assert(instrs[ix0 + 1] == pre0[ix0 + 1]);
                    }
                }
            }
            k = k + 1;
        }
        Result::Ok(())
    }

    /// Lowers a struct literal: the field expressions are evaluated in
    /// source order, then stored at their layout offsets in a fresh
    /// temporary.
    #[verifier::rlimit(100)]
    pub fn codegen_struct_literal(
        &mut self,
        struct_literal: &StructLiteralNode,
        load_var: bool,
    ) -> (r: Result<usize, CodegenError>)
        requires
            old(self).sm.wf(),
            old(self).builder.wf(),
            old(self).builder.spec_open(),
        ensures
            expr_step(*old(self), *final(self)),
            match r {
                Result::Ok(v) => (v as int) < final(self).builder.value_count() && (load_var
                    ==> !final(self).builder.spec_is_ptr(v as int)),
                Result::Err(_) => true,
            },
            r is Ok ==> old(self).sm.spec_contains_struct(struct_literal.struct_name@),
            r is Ok ==> forall|k: int|
                0 <= k < struct_literal.fields@.len() ==> old(self).sm.spec_info_of(
                    struct_literal.struct_name@,
                ).spec_contains_field((#[trigger] struct_literal.fields@[k]).0@)
                    && Self::field_store_emitted(
                    final(self).builder.blocks@[old(self).builder.current as int].instructions@,
                    old(self).sm,
                    struct_literal.struct_name@,
                    struct_literal.fields@[k].0@,
                ),
        decreases *struct_literal,
    {
        let mut expressions: Vec<usize> = Vec::new();
        let nf = struct_literal.fields.len();
        let mut k: usize = 0;
        while k < nf
            invariant
                nf == struct_literal.fields@.len(),
                k <= nf,
                expr_step(*old(self), *self),
                expressions@.len() == k,
            decreases nf - k,
        {
            let v = match self.codegen_expression(&struct_literal.fields[k].1, true) {
                Result::Ok(v) => v,
                Result::Err(e) => {
                    return Result::Err(e);
                },
            };
            expressions.push(v);
            k = k + 1;
        }
        if !self.sm.contains_struct(struct_literal.struct_name.as_str()) {
            return Result::Err(CodegenError::UnknownStruct);
        }
        let ty = struct_literal.typ.clone();
        let struct_alloc = self.builder.fresh_value(true);
        self.builder.emit(Instruction::Alloca { dst: struct_alloc, ty });
        match self.codegen_field_stores(struct_literal, &expressions, struct_alloc) {
            Result::Ok(_) => {},
            Result::Err(e) => {
                return Result::Err(e);
            },
        }
        let ghost cur = old(self).builder.current as int;
        let ghost done = self.builder.blocks@[cur].instructions@;
        if load_var {
            let lty = struct_literal.typ.clone();
            let loaded = self.builder.fresh_value(false);
            self.builder.emit(Instruction::Load { dst: loaded, ty: lty, ptr: struct_alloc });
            proof {
                let instrs = self.builder.blocks@[cur].instructions@;
                assert forall|k2: int|
                    0 <= k2 < struct_literal.fields@.len() implies self.sm.spec_info_of(
                    struct_literal.struct_name@,
                ).spec_contains_field((#[trigger] struct_literal.fields@[k2]).0@)
                    && Self::field_store_emitted(
                    instrs,
                    self.sm,
                    struct_literal.struct_name@,
                    struct_literal.fields@[k2].0@,
                ) by {
                    let ix0 = choose|ix0: int|
                        {
                            &&& 0 <= ix0 < done.len() - 1
                            &&& ((#[trigger] done[ix0]) matches Instruction::FieldPtr {
                                dst,
                                struct_name,
                                index,
                                base,
                            } && {
                                &&& struct_name@ == struct_literal.struct_name@
                                &&& index == self.sm.spec_info_of(
                                    struct_literal.struct_name@,
                                ).spec_field_index(struct_literal.fields@[k2].0@)
                                &&& (done[ix0 + 1] matches Instruction::Store { ptr, value }
                                    && ptr == dst)
                            })
                        };
                    assert(instrs[ix0] == done[ix0]);
                    assert(instrs[ix0 + 1] == done[ix0 + 1]);
                }
            }
            Result::Ok(loaded)
        } else {
            Result::Ok(struct_alloc)
        }
    }
}

} // verus!

verus! {

/// The block's last two instructions materialize boolean false and compare
/// the lowered condition against it for inequality; `cond` is that
/// comparison's result.
pub open spec fn compared_against_false(instrs: Seq<Instruction>, cond: usize) -> bool {
    &&& instrs.len() >= 2
    &&& (instrs.last() matches Instruction::Compare { dst, op, lhs, rhs } && {
        &&& op is NotEqual
        &&& dst == cond
        &&& (instrs[instrs.len() - 2] matches Instruction::ConstInt { dst: zd, ty, bits } && ty
            is Bool && bits == 0 && rhs == zd)
    })
}

/// The signed arithmetic forms, lowered with a `Binary` instruction after a
/// defensive integer check.
pub open spec fn is_arith_op(op: Operation) -> bool {
    op is Add || op is Sub || op is Mul || op is Div || op is Modulo
}

/// The bitwise forms, lowered with a `Binary` instruction; the integer
/// check does not apply to them.
pub open spec fn is_bitwise_op(op: Operation) -> bool {
    op is BitwiseAnd || op is BitwiseOr || op is BitwiseXor
}

impl Codegen {
    /// Lowers a binary expression: arithmetic and bitwise operations,
    /// expression-valued assignment, and member access.
    ///
    /// For a member access whose right side is a plain field name, the
    /// emitted field address uses exactly the field's positional index in
    /// the receiver's registered layout; a right side that is a call is a
    /// method call through the composite key, with the receiver passed as
    /// implicit first argument.
    pub fn codegen_binary(&mut self, binary: &crate::ast::BinaryNode, load_var: bool) -> (r:
        Result<usize, CodegenError>)
        requires
            old(self).sm.wf(),
            old(self).builder.wf(),
            old(self).builder.spec_open(),
        ensures
            expr_step(*old(self), *final(self)),
            match r {
                Result::Ok(v) => load_var ==> (v as int) < final(self).builder.value_count()
                    && !final(self).builder.spec_is_ptr(v as int),
                Result::Err(_) => true,
            },
            (r is Ok && (is_arith_op(binary.operation) || is_bitwise_op(binary.operation)))
                ==> (final(self).builder.blocks@[old(self).builder.current as int].instructions@.last() matches Instruction::Binary {
                dst,
                op,
                lhs,
                rhs,
            } && op == binary.operation && r == Result::<usize, CodegenError>::Ok(dst)),
            (r is Ok && binary.operation is Assign) ==> (final(self).builder.blocks@[old(self).builder.current as int].instructions@.last() matches Instruction::Store {
                ptr,
                value,
            } && r == Result::<usize, CodegenError>::Ok(value) && (ptr as int) < final(self).builder.value_count() && final(self).builder.spec_is_ptr(ptr as int)),
            (r is Ok && binary.operation is Dot && (*binary.rhs) is FunctionCall
                && sig_names_unique(old(self).signatures@)) ==> {
                let sname = binary.lhs.spec_type().spec_struct_name();
                let mname = (*binary.rhs)->FunctionCall_0.function_name@;
                let key = composite_name(sname, mname);
                let instrs = final(self).builder.blocks@[old(self).builder.current as int].instructions@;
                exists|ix: int|
                    {
                        &&& 0 <= ix < instrs.len()
                        &&& ((#[trigger] final(self).builder.blocks@[old(self).builder.current as int].instructions@[ix]) matches Instruction::Call {
                            dst,
                            callee,
                            args,
                            has_result,
                        } && {
                            &&& callee@ == key
                            &&& args@.len() == (*binary.rhs)->FunctionCall_0.arguments@.len() + 1
                            &&& has_result == !(old(self).signatures@[sig_index_of(
                                old(self).signatures@,
                                key,
                            )].return_type is Void)
                            &&& (has_result ==> r == Result::<usize, CodegenError>::Ok(dst))
                            &&& (!has_result ==> instrs.len() == ix + 2 && (instrs[ix + 1] matches
                                Instruction::ConstInt { dst: pd, .. } && r == Result::<
                                usize,
                                CodegenError,
                            >::Ok(pd)))
                            &&& (exists|lx: int|
                                0 <= lx < ix && ((#[trigger] final(self).builder.blocks@[old(self).builder.current as int].instructions@[lx]) matches
                                    Instruction::Load { dst: ld, .. } && ld == args@[0]))
                        })
                    }
            },
            (r is Ok && binary.operation is Dot && (*binary.rhs) is Name) ==> {
                let sname = binary.lhs.spec_type().spec_struct_name();
                let fname = (*binary.rhs)->Name_0.name@;
                &&& binary.lhs.spec_type() is Struct
                &&& old(self).sm.spec_contains_struct(sname)
                &&& old(self).sm.spec_info_of(sname).spec_contains_field(fname)
                &&& exists|ix: int|
                    {
                        &&& 0 <= ix < final(self).builder.blocks@[old(self).builder.current as int].instructions@.len()
                        &&& (#[trigger] final(self).builder.blocks@[old(self).builder.current as int].instructions@[ix]) matches
                            Instruction::FieldPtr { dst, struct_name, index, base }
                            && struct_name@ == sname && index == old(self).sm.spec_info_of(
                            sname,
                        ).spec_field_index(fname)
                    }
            },
        decreases *binary,
    {
        let op = binary.operation;
        let arith = match op {
            Operation::Add | Operation::Sub | Operation::Mul | Operation::Div
                | Operation::Modulo => true,
            _ => false,
        };
        let bitwise = match op {
            Operation::BitwiseAnd | Operation::BitwiseOr | Operation::BitwiseXor => true,
            _ => false,
        };
        if arith || bitwise {
            let lhs = match self.codegen_expression(&*binary.lhs, true) {
                Result::Ok(v) => v,
                Result::Err(e) => {
                    return Result::Err(e);
                },
            };
            let rhs = match self.codegen_expression(&*binary.rhs, true) {
                Result::Ok(v) => v,
                Result::Err(e) => {
                    return Result::Err(e);
                },
            };
            if arith {
                let lt = binary.lhs.get_type();
                let rt = binary.rhs.get_type();
                if !lt.is_int() || !rt.is_int() {
                    return Result::Err(CodegenError::NotAnInteger);
                }
            }
            let dst = self.builder.fresh_value(false);
            self.builder.emit(Instruction::Binary { dst, op, lhs, rhs });
            return Result::Ok(dst);
        }
        match op {
            Operation::Assign => {
                let var = match self.codegen_expression(&*binary.lhs, false) {
                    Result::Ok(v) => v,
                    Result::Err(e) => {
                        return Result::Err(e);
                    },
                };
                let value = match self.codegen_expression(&*binary.rhs, true) {
                    Result::Ok(v) => v,
                    Result::Err(e) => {
                        return Result::Err(e);
                    },
                };
                if var >= self.builder.value_is_ptr.len() {
                    return Result::Err(CodegenError::NotAPointer);
                }
                if !self.builder.is_pointer(var) {
                    return Result::Err(CodegenError::NotAPointer);
                }
                self.builder.emit(Instruction::Store { ptr: var, value });
                Result::Ok(value)
            },
            Operation::Dot => {
                let lhs_type = binary.lhs.get_type();
                if !lhs_type.is_struct() {
                    return Result::Err(CodegenError::NotAStruct);
                }
                let lv = match self.codegen_expression(&*binary.lhs, false) {
                    Result::Ok(v) => v,
                    Result::Err(e) => {
                        return Result::Err(e);
                    },
                };
                // Guarantee an address for the receiver: spill it to a
                // fresh temporary slot if it came as a plain value.
                let lhs_ptr: usize = if lv < self.builder.value_is_ptr.len()
                    && self.builder.is_pointer(lv) {
                    lv
                } else {
                    if lv >= self.builder.value_is_ptr.len() {
                        return Result::Err(CodegenError::NotAPointer);
                    }
                    let spill_ty = binary.lhs.get_type();
                    let spill = self.builder.fresh_value(true);
                    self.builder.emit(Instruction::Alloca { dst: spill, ty: spill_ty });
                    self.builder.emit(Instruction::Store { ptr: spill, value: lv });
                    spill
                };
                let struct_name = lhs_type.get_struct_name();
                if !self.sm.contains_struct(struct_name.as_str()) {
                    return Result::Err(CodegenError::UnknownStruct);
                }
                match &*binary.rhs {
                    Expression::Name(field) => {
                        let info = self.sm.get_struct_info(struct_name.as_str());
                        if !info.has_field(field.name.as_str()) {
                            return Result::Err(CodegenError::UnknownField);
                        }
                        let offset = info.get_field_index(field.name.as_str());
                        let sn = struct_name.clone();
                        let field_ptr = self.builder.fresh_value(true);
                        self.builder.emit(
                            Instruction::FieldPtr {
                                dst: field_ptr,
                                struct_name: sn,
                                index: offset,
                                base: lhs_ptr,
                            },
                        );
                        let ghost fp_ix = self.builder.blocks@[old(self).builder.current as int].instructions@.len() - 1;
                        proof {
                            let cur = old(self).builder.current as int;
                            let instrs = self.builder.blocks@[cur].instructions@;
                            assert(instrs[fp_ix] matches Instruction::FieldPtr {
                                dst,
                                struct_name,
                                index,
                                base,
                            } && struct_name@ == binary.lhs.spec_type().spec_struct_name()
                                && index == old(self).sm.spec_info_of(
                                binary.lhs.spec_type().spec_struct_name(),
                            ).spec_field_index((*binary.rhs)->Name_0.name@));
                        }
                        if load_var {
                            let fty = field.typ.clone();
                            let loaded = self.builder.fresh_value(false);
                            self.builder.emit(
                                Instruction::Load { dst: loaded, ty: fty, ptr: field_ptr },
                            );
                            proof {
                                let cur = old(self).builder.current as int;
                                let instrs = self.builder.blocks@[cur].instructions@;
                                assert(instrs[fp_ix] matches Instruction::FieldPtr {
                                    dst,
                                    struct_name,
                                    index,
                                    base,
                                } && struct_name@ == binary.lhs.spec_type().spec_struct_name()
                                    && index == old(self).sm.spec_info_of(
                                    binary.lhs.spec_type().spec_struct_name(),
                                ).spec_field_index((*binary.rhs)->Name_0.name@));
                            }
                            proof {
                                assert forall|id: int|
                                    0 <= id < old(self).builder.value_count() implies #[trigger] self.builder.value_is_ptr@[id]
                                        == old(self).builder.value_is_ptr@[id] by {}
                            }
                            Result::Ok(loaded)
                        } else {
                            Result::Ok(field_ptr)
                        }
                    },
                    Expression::FunctionCall(method_call) => {
                        let method_name = make_composite_name(
                            struct_name,
                            &method_call.function_name,
                        );
                        let sig_idx = match self.lookup_signature(method_name.as_str()) {
                            Option::Some(i) => i,
                            Option::None => {
                                return Result::Err(CodegenError::UnknownSymbol);
                            },
                        };
                        let has_result = match &self.signatures[sig_idx].return_type {
                            Type::Void => false,
                            _ => true,
                        };
                        // Load the receiver and pass it as the implicit
                        // first argument.
                        let recv_ty = binary.lhs.get_type();
                        let recv = self.builder.fresh_value(false);
                        self.builder.emit(
                            Instruction::Load { dst: recv, ty: recv_ty, ptr: lhs_ptr },
                        );
                        let ghost cur = old(self).builder.current as int;
                        let ghost snap = self.builder.blocks@[cur].instructions@;
                        proof {
                            assert forall|id: int|
                                0 <= id < old(self).builder.value_count() implies #[trigger] self.builder.value_is_ptr@[id]
                                    == old(self).builder.value_is_ptr@[id] by {}
                            assert(snap.last() matches Instruction::Load { dst, .. } && dst
                                == recv);
                        }
                        let mut args: Vec<usize> = Vec::new();
                        args.push(recv);
                        let na = method_call.arguments.len();
                        let mut k: usize = 0;
                        while k < na
                            invariant
                                na == method_call.arguments@.len(),
                                k <= na,
                                self.sm.wf(),
                                expr_step(*old(self), *self),
                                args@.len() == k + 1,
                                args@[0] == recv,
                                instr_prefix(snap, self.builder.blocks@[cur].instructions@),
                            decreases na - k,
                        {
                            let v = match self.codegen_expression(
                                &method_call.arguments[k].expression.expression,
                                true,
                            ) {
                                Result::Ok(v) => v,
                                Result::Err(e) => {
                                    return Result::Err(e);
                                },
                            };
                            args.push(v);
                            k = k + 1;
                        }
                        let dst = self.builder.fresh_value(false);
                        self.builder.emit(
                            Instruction::Call { dst, callee: method_name, args, has_result },
                        );
                        let ghost call_ix = self.builder.blocks@[cur].instructions@.len() - 1;
                        proof {
                            assert forall|id: int|
                                0 <= id < old(self).builder.value_count() implies #[trigger] self.builder.value_is_ptr@[id]
                                    == old(self).builder.value_is_ptr@[id] by {}
                            let key = composite_name(
                                binary.lhs.spec_type().spec_struct_name(),
                                (*binary.rhs)->FunctionCall_0.function_name@,
                            );
                            let c = sig_index_of(old(self).signatures@, key);
                            if sig_names_unique(old(self).signatures@) {
                                assert(sig_contains(old(self).signatures@, key));
                                assert(0 <= c < old(self).signatures@.len() && old(self).signatures@[c].name@ == key);
                                if c < sig_idx {
                                    assert(old(self).signatures@[c].name@ != old(self).signatures@[sig_idx as int].name@);
                                } else if sig_idx < c {
                                    assert(old(self).signatures@[sig_idx as int].name@ != old(self).signatures@[c].name@);
                                }
                                assert(c == sig_idx);
                            }
                            let instrs = self.builder.blocks@[cur].instructions@;
                            assert(instrs[call_ix] matches Instruction::Call { callee, args, .. }
                                && callee@ == key && args@[0] == recv);
                            assert(instrs[snap.len() - 1] == snap[snap.len() - 1]);
                        }
                        if has_result {
                            Result::Ok(dst)
                        } else {
                            // A method without a result yields a
                            // never-dereferenced placeholder value.
                            let ph = self.builder.fresh_value(false);
                            self.builder.emit(
                                Instruction::ConstInt { dst: ph, ty: Type::I32, bits: 0 },
                            );
                            proof {
                                assert forall|id: int|
                                    0 <= id < old(self).builder.value_count() implies #[trigger] self.builder.value_is_ptr@[id]
                                        == old(self).builder.value_is_ptr@[id] by {}
                                let instrs = self.builder.blocks@[cur].instructions@;
                                assert(instrs[call_ix] matches Instruction::Call { .. });
                                assert(instrs[snap.len() - 1] == snap[snap.len() - 1]);
                                assert(instrs.len() == call_ix + 2);
                                assert(instrs[call_ix + 1] matches Instruction::ConstInt {
                                    dst,
                                    ..
                                } && dst == ph);
                            }
                            Result::Ok(ph)
                        }
                    },
                    _ => Result::Err(CodegenError::UnhandledConstruct),
                }
            },
            _ => Result::Err(CodegenError::UnhandledConstruct),
        }
    }
}

} // verus!

verus! {

/// What one statement lowering may do to the session: close or extend the
/// insertion block, allocate and fill new blocks, move the insertion point
/// to one of them, and bind names in the innermost scope. Closed blocks,
/// outer scopes, the tables and the loop nesting stay as they were.
pub open spec fn stmt_effect(pre: Codegen, post: Codegen) -> bool {
    &&& post.builder.wf()
    &&& preserves_closed(pre.builder.blocks@, post.builder.blocks@)
    &&& (forall|b: int|
        0 <= b < pre.builder.blocks@.len() && b != pre.builder.current ==> post.builder.blocks@[b]
            == pre.builder.blocks@[b])
    &&& instr_prefix(
        pre.builder.blocks@[pre.builder.current as int].instructions@,
        post.builder.blocks@[pre.builder.current as int].instructions@,
    )
    &&& (post.builder.current == pre.builder.current || post.builder.current
        >= pre.builder.blocks@.len())
    &&& pre.builder.value_count() <= post.builder.value_count()
    &&& (forall|id: int|
        0 <= id < pre.builder.value_count() ==> #[trigger] post.builder.value_is_ptr@[id]
            == pre.builder.value_is_ptr@[id])
    &&& post.builder.name == pre.builder.name
    &&& post.builder.params == pre.builder.params
    &&& post.builder.return_type == pre.builder.return_type
    &&& post.sm == pre.sm
    &&& post.signatures == pre.signatures
    &&& post.loop_stack@ == pre.loop_stack@
    &&& scope_extends(pre.stack_scopes@, post.stack_scopes@)
}

/// Scopes after a statement: same depth, outer scopes untouched, the
/// innermost at most extended.
pub open spec fn scope_extends(
    pre: Seq<Vec<(String, usize)>>,
    post: Seq<Vec<(String, usize)>>,
) -> bool {
    &&& post.len() == pre.len()
    &&& (forall|k: int| 0 <= k < pre.len() - 1 ==> post[k] == pre[k])
    &&& (pre.len() > 0 ==> pair_prefix(pre.last()@, post.last()@))
}

/// `a` is an initial run of `b`.
pub open spec fn pair_prefix(a: Seq<(String, usize)>, b: Seq<(String, usize)>) -> bool {
    a.len() <= b.len() && forall|k: int| 0 <= k < a.len() ==> a[k] == b[k]
}

/// What one block lowering may do: like a statement, but the scope it
/// pushed is discarded whole, so the scope stack comes back exactly as it
/// was.
pub open spec fn block_effect(pre: Codegen, post: Codegen) -> bool {
    &&& post.builder.wf()
    &&& preserves_closed(pre.builder.blocks@, post.builder.blocks@)
    &&& (forall|b: int|
        0 <= b < pre.builder.blocks@.len() && b != pre.builder.current ==> post.builder.blocks@[b]
            == pre.builder.blocks@[b])
    &&& instr_prefix(
        pre.builder.blocks@[pre.builder.current as int].instructions@,
        post.builder.blocks@[pre.builder.current as int].instructions@,
    )
    &&& (post.builder.current == pre.builder.current || post.builder.current
        >= pre.builder.blocks@.len())
    &&& pre.builder.value_count() <= post.builder.value_count()
    &&& (forall|id: int|
        0 <= id < pre.builder.value_count() ==> #[trigger] post.builder.value_is_ptr@[id]
            == pre.builder.value_is_ptr@[id])
    &&& post.builder.name == pre.builder.name
    &&& post.builder.params == pre.builder.params
    &&& post.builder.return_type == pre.builder.return_type
    &&& post.sm == pre.sm
    &&& post.signatures == pre.signatures
    &&& post.loop_stack@ == pre.loop_stack@
    &&& post.stack_scopes@ == pre.stack_scopes@
}

impl Codegen {
    /// Lowers a variable declaration: reserve a slot, bind the name in the
    /// innermost scope, then store the initializer.
    pub fn codegen_stmt_var_decl(&mut self, let_node: &LetNode) -> (r: Result<bool, CodegenError>)
        requires
            old(self).sm.wf(),
            old(self).builder.wf(),
            old(self).builder.spec_open(),
            old(self).stack_scopes@.len() > 0,
        ensures
            final(self).sm == old(self).sm,
            final(self).signatures == old(self).signatures,
            match r {
                Result::Ok(t) => {
                    &&& stmt_effect(*old(self), *final(self))
                    &&& t == !final(self).builder.spec_open()
                    &&& !t
                    &&& exists|a: usize|
                        {
                            let instrs = final(self).builder.blocks@[old(self).builder.current as int].instructions@;
                            &&& scope_resolve(final(self).stack_scopes@, let_node.name@)
                                == Option::Some(a)
                            &&& (a as int) < final(self).builder.value_count()
                            &&& #[trigger] final(self).builder.spec_is_ptr(a as int)
                            &&& (exists|ix: int|
                                0 <= ix < instrs.len() && ((#[trigger] instrs[ix]) matches
                                    Instruction::Alloca { dst, ty } && dst == a && ty.matches(
                                    let_node.typ.typ,
                                )))
                            &&& (instrs.last() matches Instruction::Store { ptr, value } && ptr
                                == a)
                        }
                },
                Result::Err(_) => true,
            },
        decreases *let_node,
    {
        let ty = let_node.typ.typ.clone();
        let alloca = self.builder.fresh_value(true);
        self.builder.emit(Instruction::Alloca { dst: alloca, ty });
        let ghost al_ix = self.builder.blocks@[old(self).builder.current as int].instructions@.len()
            - 1;
        self.add_variable(let_node.name.as_str(), alloca);
        let value = match self.codegen_expression(&let_node.expression.expression, true) {
            Result::Ok(v) => v,
            Result::Err(e) => {
                return Result::Err(e);
            },
        };
        self.builder.emit(Instruction::Store { ptr: alloca, value });
        proof {
            let cur = old(self).builder.current as int;
            let instrs = self.builder.blocks@[cur].instructions@;
            assert(instrs[al_ix] matches Instruction::Alloca { dst, ty } && dst == alloca
                && ty.matches(let_node.typ.typ));
            assert(self.builder.spec_is_ptr(alloca as int));
            assert(scope_resolve(self.stack_scopes@, let_node.name@) == Option::Some(alloca));
        }
        Result::Ok(false)
    }

    /// Lowers an assignment statement: left side in location mode, right
    /// side in value mode, then a store.
    pub fn codegen_stmt_assign(&mut self, assign: &AssignNode) -> (r: Result<bool, CodegenError>)
        requires
            old(self).sm.wf(),
            old(self).builder.wf(),
            old(self).builder.spec_open(),
        ensures
            final(self).sm == old(self).sm,
            final(self).signatures == old(self).signatures,
            match r {
                Result::Ok(t) => {
                    &&& stmt_effect(*old(self), *final(self))
                    &&& t == !final(self).builder.spec_open()
                    &&& !t
                    &&& (final(self).builder.blocks@[old(self).builder.current as int].instructions@.last() matches Instruction::Store {
                        ptr,
                        value,
                    } && (ptr as int) < final(self).builder.value_count() && final(self).builder.spec_is_ptr(ptr as int))
                },
                Result::Err(_) => true,
            },
        decreases *assign,
    {
        let var = match self.codegen_expression(&*assign.name.expression, false) {
            Result::Ok(v) => v,
            Result::Err(e) => {
                return Result::Err(e);
            },
        };
        let value = match self.codegen_expression(&assign.expression.expression, true) {
            Result::Ok(v) => v,
            Result::Err(e) => {
                return Result::Err(e);
            },
        };
        if var >= self.builder.value_is_ptr.len() {
            return Result::Err(CodegenError::NotAPointer);
        }
        if !self.builder.is_pointer(var) {
            return Result::Err(CodegenError::NotAPointer);
        }
        self.builder.emit(Instruction::Store { ptr: var, value });
        Result::Ok(false)
    }

    /// Lowers a return: the optional value, then a return terminator, which
    /// closes the block.
    pub fn codegen_stmt_return(&mut self, return_node: &ReturnNode) -> (r: Result<
        bool,
        CodegenError,
    >)
        requires
            old(self).sm.wf(),
            old(self).builder.wf(),
            old(self).builder.spec_open(),
        ensures
            final(self).sm == old(self).sm,
            final(self).signatures == old(self).signatures,
            match r {
                Result::Ok(t) => {
                    &&& stmt_effect(*old(self), *final(self))
                    &&& t == !final(self).builder.spec_open()
                    &&& t
                    &&& (final(self).builder.blocks@[old(self).builder.current as int].terminator
                        matches Option::Some(Terminator::Return { value }) && (value is Some
                        <==> return_node.return_value is Some))
                },
                Result::Err(_) => true,
            },
            return_node.return_value is None ==> r is Ok,
        decreases *return_node,
    {
        match &return_node.return_value {
            Option::Some(value_node) => {
                let v = match self.codegen_expression(&value_node.expression, true) {
                    Result::Ok(v) => v,
                    Result::Err(e) => {
                        return Result::Err(e);
                    },
                };
                self.builder.terminate(Terminator::Return { value: Option::Some(v) });
                Result::Ok(true)
            },
            Option::None => {
                self.builder.terminate(Terminator::Return { value: Option::None });
                Result::Ok(true)
            },
        }
    }

    /// Lowers a break: an unconditional jump to the innermost loop's after
    /// block. Break outside a loop is an internal-invariant violation.
    pub fn codegen_stmt_break(&mut self) -> (r: Result<bool, CodegenError>)
        requires
            old(self).builder.wf(),
            old(self).builder.spec_open(),
        ensures
            final(self).sm == old(self).sm,
            final(self).signatures == old(self).signatures,
            match r {
                Result::Ok(t) => {
                    &&& stmt_effect(*old(self), *final(self))
                    &&& t == !final(self).builder.spec_open()
                    &&& t
                    &&& final(self).builder.blocks@[old(self).builder.current as int].terminator
                        == Option::Some(
                        Terminator::Branch { target: old(self).loop_stack@.last().1 },
                    )
                },
                Result::Err(e) => e == CodegenError::LoopControlOutsideLoop,
            },
            (old(self).loop_stack@.len() == 0) == (r is Err),
    {
        let nl = self.loop_stack.len();
        if nl == 0 {
            return Result::Err(CodegenError::LoopControlOutsideLoop);
        }
        let after = self.loop_stack[nl - 1].1;
        self.builder.terminate(Terminator::Branch { target: after });
        Result::Ok(true)
    }

    /// Lowers a continue: an unconditional jump back to the innermost
    /// loop's condition block. Continue outside a loop is an
    /// internal-invariant violation.
    pub fn codegen_stmt_continue(&mut self) -> (r: Result<bool, CodegenError>)
        requires
            old(self).builder.wf(),
            old(self).builder.spec_open(),
        ensures
            final(self).sm == old(self).sm,
            final(self).signatures == old(self).signatures,
            match r {
                Result::Ok(t) => {
                    &&& stmt_effect(*old(self), *final(self))
                    &&& t == !final(self).builder.spec_open()
                    &&& t
                    &&& final(self).builder.blocks@[old(self).builder.current as int].terminator
                        == Option::Some(
                        Terminator::Branch { target: old(self).loop_stack@.last().0 },
                    )
                },
                Result::Err(e) => e == CodegenError::LoopControlOutsideLoop,
            },
            (old(self).loop_stack@.len() == 0) == (r is Err),
    {
        let nl = self.loop_stack.len();
        if nl == 0 {
            return Result::Err(CodegenError::LoopControlOutsideLoop);
        }
        let cond = self.loop_stack[nl - 1].0;
        self.builder.terminate(Terminator::Branch { target: cond });
        Result::Ok(true)
    }
}

} // verus!

verus! {

impl Codegen {
    /// Wires the merge of a two-armed if: a continuation block is created
    /// only for arms that have not already terminated, and exactly those
    /// arms receive a synthesized jump to it. If both arms already
    /// terminate, nothing at all is added.
    ///
    /// Returns whether the whole if/else construct terminated. On entry the
    /// insertion point is the else arm's exit block, as the else arm was
    /// lowered last.
    pub fn wire_if_merge(
        &mut self,
        then_exit: usize,
        else_exit: usize,
        then_closed: bool,
        else_closed: bool,
    ) -> (r: bool)
        requires
            old(self).builder.wf(),
            then_exit < old(self).builder.blocks@.len(),
            else_exit < old(self).builder.blocks@.len(),
            then_exit != else_exit,
            old(self).builder.current == else_exit,
            then_closed == (old(self).builder.blocks@[then_exit as int].terminator is Some),
            else_closed == (old(self).builder.blocks@[else_exit as int].terminator is Some),
        ensures
            r == (then_closed && else_closed),
            r == !final(self).builder.spec_open(),
            final(self).builder.wf(),
            preserves_closed(old(self).builder.blocks@, final(self).builder.blocks@),
            final(self).sm == old(self).sm,
            final(self).signatures == old(self).signatures,
            final(self).stack_scopes == old(self).stack_scopes,
            final(self).loop_stack == old(self).loop_stack,
            final(self).builder.value_is_ptr == old(self).builder.value_is_ptr,
            final(self).builder.name == old(self).builder.name,
            final(self).builder.params == old(self).builder.params,
            final(self).builder.return_type == old(self).builder.return_type,
            (then_closed && else_closed) ==> final(self).builder == old(self).builder,
            (then_closed && !else_closed) ==> {
                let cont = old(self).builder.blocks@.len() as int;
                &&& final(self).builder.blocks@.len() == cont + 1
                &&& final(self).builder.blocks@[then_exit as int] == old(self).builder.blocks@[then_exit as int]
                &&& (final(self).builder.blocks@[else_exit as int].terminator matches Option::Some(
                    Terminator::Branch { target },
                ) && target as int == cont)
                &&& final(self).builder.current as int == cont
                &&& (forall|b: int|
                    0 <= b < cont && b != else_exit ==> final(self).builder.blocks@[b] == old(self).builder.blocks@[b])
            },
            (!then_closed && else_closed) ==> {
                let cont = old(self).builder.blocks@.len() as int;
                &&& final(self).builder.blocks@.len() == cont + 1
                &&& final(self).builder.blocks@[else_exit as int] == old(self).builder.blocks@[else_exit as int]
                &&& (final(self).builder.blocks@[then_exit as int].terminator matches Option::Some(
                    Terminator::Branch { target },
                ) && target as int == cont)
                &&& final(self).builder.current as int == cont
                &&& (forall|b: int|
                    0 <= b < cont && b != then_exit ==> final(self).builder.blocks@[b] == old(self).builder.blocks@[b])
            },
            (!then_closed && !else_closed) ==> {
                let cont = old(self).builder.blocks@.len() as int;
                &&& final(self).builder.blocks@.len() == cont + 1
                &&& (final(self).builder.blocks@[then_exit as int].terminator matches Option::Some(
                    Terminator::Branch { target },
                ) && target as int == cont)
                &&& (final(self).builder.blocks@[else_exit as int].terminator matches Option::Some(
                    Terminator::Branch { target },
                ) && target as int == cont)
                &&& final(self).builder.current as int == cont
                &&& (forall|b: int|
                    0 <= b < cont && b != then_exit && b != else_exit ==> final(self).builder.blocks@[b] == old(self).builder.blocks@[b])
            },
    {
        if then_closed && else_closed {
            true
        } else if then_closed {
            let cont = self.builder.append_block();
            self.builder.terminate(Terminator::Branch { target: cont });
            self.builder.position_at_end(cont);
            false
        } else if else_closed {
            let cont = self.builder.append_block();
            self.builder.position_at_end(then_exit);
            self.builder.terminate(Terminator::Branch { target: cont });
            self.builder.position_at_end(cont);
            false
        } else {
            let cont = self.builder.append_block();
            self.builder.terminate(Terminator::Branch { target: cont });
            self.builder.position_at_end(then_exit);
            self.builder.terminate(Terminator::Branch { target: cont });
            self.builder.position_at_end(cont);
            false
        }
    }
}

} // verus!

verus! {

impl Codegen {
    /// Lowers an if: compare the condition against false, branch to a then
    /// arm (and else arm if present), lower each arm into its block, and
    /// wire in a continuation block only for arms that did not already
    /// terminate.
    #[verifier::rlimit(60)]
    pub fn codegen_stmt_if(&mut self, if_node: &IfNode) -> (r: Result<bool, CodegenError>)
        requires
            old(self).sm.wf(),
            old(self).builder.wf(),
            old(self).builder.spec_open(),
        ensures
            final(self).sm == old(self).sm,
            final(self).signatures == old(self).signatures,
            match r {
                Result::Ok(t) => stmt_effect(*old(self), *final(self)) && t == !final(self).builder.spec_open(),
                Result::Err(_) => true,
            },
            (if_node.condition.operation is Equal && ((*if_node.condition.lhs) matches
                Expression::Literal(l1) && literal_fits(l1)) && ((*if_node.condition.rhs) matches
                Expression::Literal(l2) && literal_fits(l2))
                && if_node.if_branch.statements@.len() == 0 && (if_node.else_branch matches
                Option::Some(eb) ==> eb.statements@.len() == 0)) ==> r is Ok,
            r is Ok ==> (final(self).builder.blocks@[old(self).builder.current as int].terminator matches Option::Some(
                Terminator::CondBranch { cond, then_target, else_target },
            ) && then_target as int == old(self).builder.blocks@.len() && else_target as int
                == old(self).builder.blocks@.len() + 1 && compared_against_false(
                final(self).builder.blocks@[old(self).builder.current as int].instructions@,
                cond,
            )),
            (r is Ok && if_node.else_branch is Some) ==> exists|
                mid: Seq<BasicBlock>,
                te: int,
                ee: int,
            |
                #![trigger mid[te], mid[ee]]
                {
                    &&& mid.len() <= final(self).builder.blocks@.len()
                    &&& 0 <= te < mid.len()
                    &&& 0 <= ee < mid.len()
                    &&& te != ee
                    &&& r == Result::<bool, CodegenError>::Ok((mid[te].terminator is Some) && (
                    mid[ee].terminator is Some))
                    &&& ((mid[te].terminator is Some && mid[ee].terminator is Some) ==> final(self).builder.blocks@ == mid)
                    &&& ((mid[te].terminator is Some && mid[ee].terminator is None) ==> {
                        &&& final(self).builder.blocks@.len() == mid.len() + 1
                        &&& final(self).builder.blocks@[te] == mid[te]
                        &&& (final(self).builder.blocks@[ee].terminator matches Option::Some(
                            Terminator::Branch { target },
                        ) && target as int == mid.len())
                        &&& final(self).builder.current as int == mid.len()
                    })
                    &&& ((mid[te].terminator is None && mid[ee].terminator is Some) ==> {
                        &&& final(self).builder.blocks@.len() == mid.len() + 1
                        &&& final(self).builder.blocks@[ee] == mid[ee]
                        &&& (final(self).builder.blocks@[te].terminator matches Option::Some(
                            Terminator::Branch { target },
                        ) && target as int == mid.len())
                        &&& final(self).builder.current as int == mid.len()
                    })
                    &&& ((mid[te].terminator is None && mid[ee].terminator is None) ==> {
                        &&& final(self).builder.blocks@.len() == mid.len() + 1
                        &&& (final(self).builder.blocks@[te].terminator matches Option::Some(
                            Terminator::Branch { target },
                        ) && target as int == mid.len())
                        &&& (final(self).builder.blocks@[ee].terminator matches Option::Some(
                            Terminator::Branch { target },
                        ) && target as int == mid.len())
                        &&& final(self).builder.current as int == mid.len()
                    })
                },
            (r is Ok && if_node.else_branch is None) ==> final(self).builder.current as int
                == old(self).builder.blocks@.len() + 1 && r == Result::<bool, CodegenError>::Ok(
                false,
            ) && exists|mid: Seq<BasicBlock>, te: int|
                #![trigger mid[te]]
                {
                    &&& mid.len() == final(self).builder.blocks@.len()
                    &&& 0 <= te < mid.len()
                    &&& (mid[te].terminator is None ==> {
                        &&& (final(self).builder.blocks@[te].terminator matches Option::Some(
                            Terminator::Branch { target },
                        ) && target as int == old(self).builder.blocks@.len() + 1)
                        &&& (forall|b: int|
                            0 <= b < mid.len() && b != te ==> final(self).builder.blocks@[b]
                                == mid[b])
                    })
                    &&& (mid[te].terminator is Some ==> final(self).builder.blocks@ == mid)
                },
        decreases *if_node,
    {
        let condition = match self.codegen_comparison(&if_node.condition) {
            Result::Ok(v) => v,
            Result::Err(e) => {
                return Result::Err(e);
            },
        };
        let c0 = self.builder.fresh_value(false);
        self.builder.emit(Instruction::ConstInt { dst: c0, ty: Type::Bool, bits: 0 });
        let cc = self.builder.fresh_value(false);
        self.builder.emit(
            Instruction::Compare { dst: cc, op: Operation::NotEqual, lhs: condition, rhs: c0 },
        );
        match &if_node.else_branch {
            Option::Some(else_body) => {
                let then_bb = self.builder.append_block();
                let else_bb = self.builder.append_block();
                self.builder.terminate(
                    Terminator::CondBranch { cond: cc, then_target: then_bb, else_target: else_bb },
                );
                self.builder.position_at_end(then_bb);
                let tflag = match self.codegen_block(&if_node.if_branch) {
                    Result::Ok(t) => t,
                    Result::Err(e) => {
                        return Result::Err(e);
                    },
                };
                let then_exit = self.builder.current_block();
                self.builder.position_at_end(else_bb);
                let eflag = match self.codegen_block(else_body) {
                    Result::Ok(t) => t,
                    Result::Err(e) => {
                        return Result::Err(e);
                    },
                };
                let else_exit = self.builder.current_block();
                let ghost mid = self.builder.blocks@;
                let merged = self.wire_if_merge(then_exit, else_exit, tflag, eflag);
                proof {
                    let te = then_exit as int;
                    let ee = else_exit as int;
                    assert(0 <= te < mid.len() && 0 <= ee < mid.len() && te != ee);
                    assert(tflag == (mid[te].terminator is Some));
                    assert(eflag == (mid[ee].terminator is Some));
                    if tflag && eflag {
                        assert(self.builder.blocks@ == mid);
                    }
                }
                Result::Ok(merged)
            },
            Option::None => {
                let then_bb = self.builder.append_block();
                let cont_bb = self.builder.append_block();
                self.builder.terminate(
                    Terminator::CondBranch { cond: cc, then_target: then_bb, else_target: cont_bb },
                );
                self.builder.position_at_end(then_bb);
                let tflag = match self.codegen_block(&if_node.if_branch) {
                    Result::Ok(t) => t,
                    Result::Err(e) => {
                        return Result::Err(e);
                    },
                };
                let ghost mid = self.builder.blocks@;
                let ghost te = self.builder.current as int;
                if !tflag {
                    self.builder.terminate(Terminator::Branch { target: cont_bb });
                }
                self.builder.position_at_end(cont_bb);
                proof {
                    assert(0 <= te < mid.len());
                    if mid[te].terminator is Some {
                        assert(self.builder.blocks@ =~= mid);
                    }
                }
                Result::Ok(false)
            },
        }
    }

    /// Lowers a while: jump to a fresh condition block, conditional-branch
    /// from there to body or after, lower the body, append the back edge
    /// only if the body's final block is still open, and continue from the
    /// after block.
    #[verifier::rlimit(60)]
    pub fn codegen_stmt_while(&mut self, while_node: &WhileNode) -> (r: Result<
        bool,
        CodegenError,
    >)
        requires
            old(self).sm.wf(),
            old(self).builder.wf(),
            old(self).builder.spec_open(),
        ensures
            final(self).sm == old(self).sm,
            final(self).signatures == old(self).signatures,
            match r {
                Result::Ok(t) => {
                    &&& stmt_effect(*old(self), *final(self))
                    &&& t == !final(self).builder.spec_open()
                    &&& !t
                    &&& (final(self).builder.blocks@[old(self).builder.current as int].terminator
                        matches Option::Some(Terminator::Branch { target }) && target as int
                        == old(self).builder.blocks@.len())
                    &&& (final(self).builder.blocks@[old(self).builder.blocks@.len() as int].terminator matches Option::Some(
                        Terminator::CondBranch { cond, then_target, else_target },
                    ) && then_target as int == old(self).builder.blocks@.len() + 1
                        && else_target as int == old(self).builder.blocks@.len() + 2
                        && compared_against_false(
                        final(self).builder.blocks@[old(self).builder.blocks@.len() as int].instructions@,
                        cond,
                    ))
                    &&& final(self).builder.current as int == old(self).builder.blocks@.len() + 2
                    &&& exists|mid: Seq<BasicBlock>, be: int|
                        #![trigger mid[be]]
                        {
                            &&& mid.len() == final(self).builder.blocks@.len()
                            &&& 0 <= be < mid.len()
                            &&& (mid[be].terminator is None ==> {
                                &&& (final(self).builder.blocks@[be].terminator matches
                                    Option::Some(Terminator::Branch { target }) && target as int
                                    == old(self).builder.blocks@.len())
                                &&& (forall|b: int|
                                    0 <= b < mid.len() && b != be
                                        ==> final(self).builder.blocks@[b] == mid[b])
                            })
                            &&& (mid[be].terminator is Some ==> final(self).builder.blocks@
                                == mid)
                        }
                },
                Result::Err(_) => true,
            },
            (while_node.condition.operation is Equal && ((*while_node.condition.lhs) matches
                Expression::Literal(l1) && literal_fits(l1)) && ((*while_node.condition.rhs)
                matches Expression::Literal(l2) && literal_fits(l2))
                && while_node.block.statements@.len() == 0) ==> r is Ok,
        decreases *while_node,
    {
        let cond_block = self.builder.append_block();
        self.builder.terminate(Terminator::Branch { target: cond_block });
        self.builder.position_at_end(cond_block);
        let condition = match self.codegen_comparison(&while_node.condition) {
            Result::Ok(v) => v,
            Result::Err(e) => {
                return Result::Err(e);
            },
        };
        let c0 = self.builder.fresh_value(false);
        self.builder.emit(Instruction::ConstInt { dst: c0, ty: Type::Bool, bits: 0 });
        let cc = self.builder.fresh_value(false);
        self.builder.emit(
            Instruction::Compare { dst: cc, op: Operation::NotEqual, lhs: condition, rhs: c0 },
        );
        let body_block = self.builder.append_block();
        let after_block = self.builder.append_block();
        self.builder.terminate(
            Terminator::CondBranch { cond: cc, then_target: body_block, else_target: after_block },
        );
        self.builder.position_at_end(body_block);
        self.loop_stack.push((cond_block, after_block));
        let body_flag = match self.codegen_block(&while_node.block) {
            Result::Ok(t) => t,
            Result::Err(e) => {
                return Result::Err(e);
            },
        };
        let _ = self.loop_stack.pop();
        let ghost mid = self.builder.blocks@;
        let ghost be = self.builder.current as int;
        if !body_flag {
            self.builder.terminate(Terminator::Branch { target: cond_block });
        }
        self.builder.position_at_end(after_block);
        proof {
            assert(self.loop_stack@ =~= old(self).loop_stack@);
            assert(0 <= be < mid.len());
            if mid[be].terminator is None {
                assert(self.builder.blocks@[be].terminator matches Option::Some(
                    Terminator::Branch { target },
                ) && target as int == old(self).builder.blocks@.len());
            } else {
                assert(self.builder.blocks@ =~= mid);
            }
        }
        Result::Ok(false)
    }

    /// Lowers one statement and reports whether it closed the insertion
    /// block; the flag propagates upward through every nested construct.
    pub fn codegen_statement(&mut self, statement: &Statement) -> (r: Result<bool, CodegenError>)
        requires
            old(self).sm.wf(),
            old(self).builder.wf(),
            old(self).builder.spec_open(),
            old(self).stack_scopes@.len() > 0,
        ensures
            final(self).sm == old(self).sm,
            final(self).signatures == old(self).signatures,
            match r {
                Result::Ok(t) => stmt_effect(*old(self), *final(self)) && t == !final(self).builder.spec_open(),
                Result::Err(_) => true,
            },
            ((*statement) matches Statement::Return(rn) && rn.return_value is None) ==> r is Ok,
        decreases *statement,
    {
        match statement {
            Statement::Expression(expression_node) => {
                match self.codegen_expression(&expression_node.expression, true) {
                    Result::Ok(_) => Result::Ok(false),
                    Result::Err(e) => Result::Err(e),
                }
            },
            Statement::Let(let_node) => self.codegen_stmt_var_decl(let_node),
            Statement::Assign(assign_node) => self.codegen_stmt_assign(assign_node),
            Statement::If(if_node) => self.codegen_stmt_if(if_node),
            Statement::Return(return_node) => self.codegen_stmt_return(return_node),
            Statement::While(while_node) => self.codegen_stmt_while(while_node),
            Statement::Break(_) => self.codegen_stmt_break(),
            Statement::Continue(_) => self.codegen_stmt_continue(),
        }
    }

    /// Lowers a block: enter a scope, lower the statements in order, leave
    /// the scope. A statement after one that already closed the block is
    /// unreachable and reported as an internal-invariant violation.
    #[verifier::rlimit(60)]
    pub fn codegen_block(&mut self, block: &BlockNode) -> (r: Result<bool, CodegenError>)
        requires
            old(self).sm.wf(),
            old(self).builder.wf(),
            old(self).builder.spec_open(),
        ensures
            final(self).sm == old(self).sm,
            final(self).signatures == old(self).signatures,
            match r {
                Result::Ok(t) => block_effect(*old(self), *final(self)) && t == !final(self).builder.spec_open(),
                Result::Err(_) => true,
            },
            block.statements@.len() == 0 ==> r == Result::<bool, CodegenError>::Ok(false)
                && final(self).builder.blocks == old(self).builder.blocks && final(self).builder.current == old(self).builder.current,
        decreases *block,
    {
        self.enter_scope();
        let mut terminated = false;
        let n = block.statements.len();
        let mut i: usize = 0;
        while i < n
            invariant
                n == block.statements@.len(),
                i <= n,
                old(self).sm.wf(),
                self.sm == old(self).sm,
                self.signatures == old(self).signatures,
                self.loop_stack@ == old(self).loop_stack@,
                self.builder.wf(),
                terminated == !self.builder.spec_open(),
                preserves_closed(old(self).builder.blocks@, self.builder.blocks@),
                instr_prefix(
                    old(self).builder.blocks@[old(self).builder.current as int].instructions@,
                    self.builder.blocks@[old(self).builder.current as int].instructions@,
                ),
                forall|b: int|
                    0 <= b < old(self).builder.blocks@.len() && b != old(self).builder.current
                        ==> self.builder.blocks@[b] == old(self).builder.blocks@[b],
                self.builder.current == old(self).builder.current || self.builder.current >= old(self).builder.blocks@.len(),
                old(self).builder.value_count() <= self.builder.value_count(),
                forall|id: int|
                    0 <= id < old(self).builder.value_count() ==> #[trigger] self.builder.value_is_ptr@[id]
                        == old(self).builder.value_is_ptr@[id],
                self.builder.name == old(self).builder.name,
                self.builder.params == old(self).builder.params,
                self.builder.return_type == old(self).builder.return_type,
                self.stack_scopes@.len() == old(self).stack_scopes@.len() + 1,
                forall|k: int|
                    0 <= k < old(self).stack_scopes@.len() ==> self.stack_scopes@[k] == old(self).stack_scopes@[k],
                i == 0 ==> !terminated && self.builder == old(self).builder,
            decreases n - i,
        {
            if terminated {
                return Result::Err(CodegenError::ClosedBlock);
            }
            let t = match self.codegen_statement(&block.statements[i]) {
                Result::Ok(t) => t,
                Result::Err(e) => {
                    return Result::Err(e);
                },
            };
            terminated = t;
            i = i + 1;
        }
        self.exit_scope();
        proof {
            assert(self.stack_scopes@ =~= old(self).stack_scopes@);
        }
        Result::Ok(terminated)
    }
}

} // verus!

verus! {

/// The header discipline: for each parameter, the body's entry block first
/// reserves a typed stack slot and then stores the incoming parameter value
/// into it.
pub open spec fn params_spilled(instrs: Seq<Instruction>, params: Seq<ParameterNode>) -> bool {
    &&& instrs.len() >= 2 * params.len()
    &&& (forall|i: int|
        0 <= i < params.len() ==> ((#[trigger] instrs[2 * i]) matches Instruction::Alloca {
            dst,
            ty,
        } && ty.matches(params[i].typ.typ) && (instrs[2 * i + 1] matches Instruction::Store {
            ptr,
            value,
        } && ptr == dst && value == i)))
}

/// How many method bodies the first `upto` classes declare.
pub open spec fn sum_methods(classes: Seq<ClassNode>, upto: int) -> int
    decreases upto,
{
    if upto <= 0 {
        0
    } else {
        sum_methods(classes, upto - 1) + classes[upto - 1].methods@.len()
    }
}

impl Codegen {
    /// Starts a fresh body: one entry block, and for every parameter a
    /// stack slot bound to the parameter's name, holding the incoming
    /// value.
    fn codegen_function_header(
        &mut self,
        name: String,
        parameters: &Vec<ParameterNode>,
        return_type: &Type,
    )
        requires
            old(self).stack_scopes@.len() > 0,
        ensures
            final(self).builder.wf(),
            final(self).builder.spec_open(),
            final(self).builder.current == 0,
            final(self).builder.blocks@.len() == 1,
            params_spilled(final(self).builder.blocks@[0].instructions@, parameters@),
            final(self).builder.name == name,
            final(self).builder.params@.len() == parameters@.len(),
            forall|t: int|
                0 <= t < parameters@.len() ==> (#[trigger] final(self).builder.params@[t]).matches(
                    parameters@[t].typ.typ,
                ),
            final(self).builder.return_type.matches(*return_type),
            final(self).sm == old(self).sm,
            final(self).signatures == old(self).signatures,
            final(self).loop_stack == old(self).loop_stack,
            scope_extends(old(self).stack_scopes@, final(self).stack_scopes@),
    {
        let mut tys: Vec<Type> = Vec::new();
        let np = parameters.len();
        let mut k: usize = 0;
        while k < np
            invariant
                k <= np,
                np == parameters@.len(),
                tys@.len() == k,
                forall|t: int| 0 <= t < k ==> (#[trigger] tys@[t]).matches(parameters@[t].typ.typ),
            decreases np - k,
        {
            let t = parameters[k].typ.typ.clone();
            tys.push(t);
            k = k + 1;
        }
        let rt = return_type.clone();
        self.builder = FunctionBuilder::new(name, tys, rt);
        let mut i: usize = 0;
        while i < np
            invariant
                i <= np,
                np == parameters@.len(),
                self.builder.wf(),
                self.builder.spec_open(),
                self.builder.current == 0,
                self.builder.blocks@.len() == 1,
                self.builder.blocks@[0].instructions@.len() == 2 * i,
                forall|t: int|
                    0 <= t < i ==> ((#[trigger] self.builder.blocks@[0].instructions@[2 * t])
                        matches Instruction::Alloca { dst, ty } && ty.matches(
                        parameters@[t].typ.typ,
                    ) && (self.builder.blocks@[0].instructions@[2 * t + 1] matches
                        Instruction::Store { ptr, value } && ptr == dst && value == t)),
                self.builder.name == name,
                self.builder.params@.len() == parameters@.len(),
                forall|t: int|
                    0 <= t < parameters@.len() ==> (#[trigger] self.builder.params@[t]).matches(
                        parameters@[t].typ.typ,
                    ),
                self.builder.return_type.matches(*return_type),
                self.sm == old(self).sm,
                self.signatures == old(self).signatures,
                self.loop_stack == old(self).loop_stack,
                self.stack_scopes@.len() == old(self).stack_scopes@.len(),
                forall|j: int|
                    0 <= j < old(self).stack_scopes@.len() - 1 ==> self.stack_scopes@[j] == old(self).stack_scopes@[j],
                pair_prefix(old(self).stack_scopes@.last()@, self.stack_scopes@.last()@),
                (i as int) <= self.builder.value_count(),
            decreases np - i,
        {
            let ty = parameters[i].typ.typ.clone();
            let alloca = self.builder.fresh_value(true);
            self.builder.emit(Instruction::Alloca { dst: alloca, ty });
            self.add_variable(parameters[i].name.as_str(), alloca);
            self.builder.emit(Instruction::Store { ptr: alloca, value: i });
            i = i + 1;
        }
    }

    /// Lowers one free function body into a finished control-flow graph in
    /// which every block carries exactly one terminator.
    pub fn codegen_function(&mut self, function: &FunctionNode) -> (r: Result<
        IrFunction,
        CodegenError,
    >)
        requires
            old(self).sm.wf(),
        ensures
            final(self).sm == old(self).sm,
            final(self).signatures == old(self).signatures,
            match r {
                Result::Ok(f) => {
                    &&& f.name@ == function.name@
                    &&& f.params@.len() == function.parameters@.len()
                    &&& (forall|t: int|
                        0 <= t < function.parameters@.len() ==> (#[trigger] f.params@[t]).matches(
                            function.parameters@[t].typ.typ,
                        ))
                    &&& f.return_type.matches(function.return_type.typ)
                    &&& f.blocks@.len() >= 1
                    &&& params_spilled(f.blocks@[0].instructions@, function.parameters@)
                    &&& (forall|b: int|
                        0 <= b < f.blocks@.len() ==> (#[trigger] f.blocks@[b]).terminator is Some)
                    &&& (function.return_type.typ is Void ==> exists|
                        mid: Seq<BasicBlock>,
                        cur: int,
                    |
                        #![trigger mid[cur]]
                        {
                            &&& mid.len() == f.blocks@.len()
                            &&& 0 <= cur < mid.len()
                            &&& (mid[cur].terminator is None ==> f.blocks@[cur].terminator
                                == Option::Some(Terminator::Return { value: Option::None }) && (
                            forall|b: int|
                                0 <= b < mid.len() && b != cur ==> f.blocks@[b] == mid[b]))
                            &&& (mid[cur].terminator is Some ==> f.blocks@ == mid)
                        })
                    &&& final(self).stack_scopes@ == old(self).stack_scopes@
                },
                Result::Err(_) => true,
            },
            (function.return_type.typ is Void && function.block.statements@.len() == 0) ==> r
                is Ok,
        decreases *function,
    {
        self.enter_scope();
        let name = function.name.clone();
        self.codegen_function_header(name, &function.parameters, &function.return_type.typ);
        let flag = match self.codegen_block(&function.block) {
            Result::Ok(t) => t,
            Result::Err(e) => {
                return Result::Err(e);
            },
        };
        let ghost mid = self.builder.blocks@;
        let ghost cur = self.builder.current as int;
        let is_void = match &function.return_type.typ {
            Type::Void => true,
            _ => false,
        };
        if is_void && !flag {
            self.builder.terminate(Terminator::Return { value: Option::None });
        } else if !flag {
            // A value-producing body fell off its end; structural
            // verification rejects the module.
            return Result::Err(CodegenError::MissingReturn);
        }
        self.exit_scope();
        if !self.builder.all_terminated() {
            return Result::Err(CodegenError::MissingReturn);
        }
        let mut taken = FunctionBuilder::new(String::new(), Vec::new(), Type::Void);
        core::mem::swap(&mut taken, &mut self.builder);
        proof {
            assert(self.stack_scopes@ =~= old(self).stack_scopes@);
            assert(0 <= cur < mid.len());
            if is_void {
                if mid[cur].terminator is None {
                    assert(taken.blocks@[cur].terminator == Option::Some(
                        Terminator::Return { value: Option::None },
                    ));
                } else {
                    assert(taken.blocks@ =~= mid);
                }
            }
        }
        Result::Ok(taken.finish())
    }

    /// Lowers one method body under its composite key, with the receiver
    /// already present as the first parameter.
    pub fn codegen_method(&mut self, method: &MethodNode) -> (r: Result<IrFunction, CodegenError>)
        requires
            old(self).sm.wf(),
        ensures
            final(self).sm == old(self).sm,
            final(self).signatures == old(self).signatures,
            match r {
                Result::Ok(f) => {
                    &&& f.name@ == composite_name(method.class_name@, method.name@)
                    &&& f.params@.len() == method.parameters@.len()
                    &&& (forall|t: int|
                        0 <= t < method.parameters@.len() ==> (#[trigger] f.params@[t]).matches(
                            method.parameters@[t].typ.typ,
                        ))
                    &&& f.return_type.matches(method.return_type.typ)
                    &&& f.blocks@.len() >= 1
                    &&& params_spilled(f.blocks@[0].instructions@, method.parameters@)
                    &&& (forall|b: int|
                        0 <= b < f.blocks@.len() ==> (#[trigger] f.blocks@[b]).terminator is Some)
                    &&& (method.return_type.typ is Void ==> exists|
                        mid: Seq<BasicBlock>,
                        cur: int,
                    |
                        #![trigger mid[cur]]
                        {
                            &&& mid.len() == f.blocks@.len()
                            &&& 0 <= cur < mid.len()
                            &&& (mid[cur].terminator is None ==> f.blocks@[cur].terminator
                                == Option::Some(Terminator::Return { value: Option::None }) && (
                            forall|b: int|
                                0 <= b < mid.len() && b != cur ==> f.blocks@[b] == mid[b]))
                            &&& (mid[cur].terminator is Some ==> f.blocks@ == mid)
                        })
                    &&& final(self).stack_scopes@ == old(self).stack_scopes@
                },
                Result::Err(_) => true,
            },
            (method.return_type.typ is Void && method.block.statements@.len() == 0) ==> r is Ok,
        decreases *method,
    {
        self.enter_scope();
        let name = make_composite_name(&method.class_name, &method.name);
        self.codegen_function_header(name, &method.parameters, &method.return_type.typ);
        let flag = match self.codegen_block(&method.block) {
            Result::Ok(t) => t,
            Result::Err(e) => {
                return Result::Err(e);
            },
        };
        let ghost mid = self.builder.blocks@;
        let ghost cur = self.builder.current as int;
        let is_void = match &method.return_type.typ {
            Type::Void => true,
            _ => false,
        };
        if is_void && !flag {
            self.builder.terminate(Terminator::Return { value: Option::None });
        } else if !flag {
            return Result::Err(CodegenError::MissingReturn);
        }
        self.exit_scope();
        if !self.builder.all_terminated() {
            return Result::Err(CodegenError::MissingReturn);
        }
        let mut taken = FunctionBuilder::new(String::new(), Vec::new(), Type::Void);
        core::mem::swap(&mut taken, &mut self.builder);
        proof {
            assert(self.stack_scopes@ =~= old(self).stack_scopes@);
            assert(0 <= cur < mid.len());
            if is_void {
                if mid[cur].terminator is None {
                    assert(taken.blocks@[cur].terminator == Option::Some(
                        Terminator::Return { value: Option::None },
                    ));
                } else {
                    assert(taken.blocks@ =~= mid);
                }
            }
        }
        Result::Ok(taken.finish())
    }

    /// Lowers every method of one struct, appending one finished body per
    /// method.
    pub fn codegen_struct(&mut self, strukt: &ClassNode, out: &mut Vec<IrFunction>) -> (r: Result<
        (),
        CodegenError,
    >)
        requires
            old(self).sm.wf(),
        ensures
            final(self).sm == old(self).sm,
            final(self).signatures == old(self).signatures,
            strukt.methods@.len() == 0 ==> r is Ok,
            r is Ok ==> final(out)@.len() == old(out)@.len() + strukt.methods@.len(),
            r is Ok ==> forall|k: int|
                0 <= k < old(out)@.len() ==> final(out)@[k] == old(out)@[k],
            r is Ok ==> forall|m: int|
                0 <= m < strukt.methods@.len() ==> {
                    let f = final(out)@[old(out)@.len() + m];
                    &&& f.name@ == composite_name(
                        (#[trigger] strukt.methods@[m]).class_name@,
                        strukt.methods@[m].name@,
                    )
                    &&& (forall|b: int|
                        0 <= b < f.blocks@.len() ==> (#[trigger] f.blocks@[b]).terminator is Some)
                },
        decreases *strukt,
    {
        let nm = strukt.methods.len();
        let mut m: usize = 0;
        while m < nm
            invariant
                nm == strukt.methods@.len(),
                m <= nm,
                old(self).sm.wf(),
                self.sm == old(self).sm,
                self.signatures == old(self).signatures,
                out@.len() == old(out)@.len() + m,
                forall|k: int| 0 <= k < old(out)@.len() ==> out@[k] == old(out)@[k],
                forall|m2: int|
                    0 <= m2 < m ==> {
                        let f = out@[old(out)@.len() + m2];
                        &&& f.name@ == composite_name(
                            (#[trigger] strukt.methods@[m2]).class_name@,
                            strukt.methods@[m2].name@,
                        )
                        &&& (forall|b: int|
                            0 <= b < f.blocks@.len() ==> (#[trigger] f.blocks@[b]).terminator
                                is Some)
                    },
            decreases nm - m,
        {
            let f = match self.codegen_method(&strukt.methods[m]) {
                Result::Ok(f) => f,
                Result::Err(e) => {
                    return Result::Err(e);
                },
            };
            out.push(f);
            m = m + 1;
        }
        Result::Ok(())
    }

    /// Lowers every body of the file; runs strictly after the registration
    /// pass, so any callable may reference any other regardless of
    /// declaration order.
    pub fn codegen_file(&mut self, file: &FileNode) -> (r: Result<IrModule, CodegenError>)
        requires
            old(self).sm.wf(),
        ensures
            final(self).sm == old(self).sm,
            final(self).signatures == old(self).signatures,
            r is Ok ==> {
                let m = r->Ok_0;
                let nm = sum_methods(file.classes@, file.classes@.len() as int);
                &&& m.functions@.len() == nm + file.functions@.len()
                &&& (forall|i: int|
                    0 <= i < file.functions@.len() ==> (#[trigger] m.functions@[nm + i]).name@
                        == file.functions@[i].name@)
                &&& (forall|k: int, b: int|
                    0 <= k < m.functions@.len() && 0 <= b < m.functions@[k].blocks@.len() ==> (
                    #[trigger] m.functions@[k].blocks@[b]).terminator is Some)
            },
            (file.classes@.len() == 0 && file.functions@.len() == 0) ==> r is Ok,
        decreases *file,
    {
        let mut functions: Vec<IrFunction> = Vec::new();
        let nc = file.classes.len();
        let mut c: usize = 0;
        while c < nc
            invariant
                nc == file.classes@.len(),
                c <= nc,
                old(self).sm.wf(),
                self.sm == old(self).sm,
                self.signatures == old(self).signatures,
                functions@.len() == sum_methods(file.classes@, c as int),
                forall|k: int, b: int|
                    0 <= k < functions@.len() && 0 <= b < functions@[k].blocks@.len() ==> (
                    #[trigger] functions@[k].blocks@[b]).terminator is Some,
            decreases nc - c,
        {
            let ghost pre = functions@;
            match self.codegen_struct(&file.classes[c], &mut functions) {
                Result::Ok(_) => {},
                Result::Err(e) => {
                    return Result::Err(e);
                },
            }
            proof {
                assert forall|k: int, b: int|
                    0 <= k < functions@.len() && 0 <= b
                        < functions@[k].blocks@.len() implies (
                    #[trigger] functions@[k].blocks@[b]).terminator is Some by {
                    if k < pre.len() {
                        assert(functions@[k] == pre[k]);
                    } else {
                        let m2 = k - pre.len();
                        assert(functions@[pre.len() + m2].name@ == composite_name(
                            file.classes@[c as int].methods@[m2].class_name@,
                            file.classes@[c as int].methods@[m2].name@,
                        ));
                    }
                }
            }
            c = c + 1;
        }
        let ghost base = functions@.len() as int;
        proof {
            assert(base == sum_methods(file.classes@, file.classes@.len() as int));
        }
        let nf = file.functions.len();
        let mut i: usize = 0;
        while i < nf
            invariant
                nf == file.functions@.len(),
                i <= nf,
                old(self).sm.wf(),
                self.sm == old(self).sm,
                self.signatures == old(self).signatures,
                functions@.len() == base + i,
                forall|t: int|
                    0 <= t < i ==> (#[trigger] functions@[base + t]).name@ == file.functions@[
                        t].name@,
                forall|k: int, b: int|
                    0 <= k < functions@.len() && 0 <= b < functions@[k].blocks@.len() ==> (
                    #[trigger] functions@[k].blocks@[b]).terminator is Some,
            decreases nf - i,
        {
            let ghost pre = functions@;
            let f = match self.codegen_function(&file.functions[i]) {
                Result::Ok(f) => f,
                Result::Err(e) => {
                    return Result::Err(e);
                },
            };
            functions.push(f);
            proof {
                assert forall|t: int|
                    0 <= t < i + 1 implies (#[trigger] functions@[base + t]).name@
                        == file.functions@[t].name@ by {
                    if t < i {
                        assert(functions@[base + t] == pre[base + t]);
                    }
                }
                assert forall|k: int, b: int|
                    0 <= k < functions@.len() && 0 <= b
                        < functions@[k].blocks@.len() implies (
                    #[trigger] functions@[k].blocks@[b]).terminator is Some by {
                    if k < pre.len() {
                        assert(functions@[k] == pre[k]);
                    } else {
                        assert(functions@[k] == f);
                    }
                }
            }
            i = i + 1;
        }
        Result::Ok(IrModule { functions })
    }

    /// Two-pass orchestration: register every struct layout and callable
    /// signature, then lower every body. Fails exactly at registration for
    /// a cyclic by-value containment graph; a failure while lowering marks
    /// a compiler bug surfaced by a structural violation.
    pub fn generate_code(&mut self, file: &FileNode) -> (r: Result<IrModule, CodegenError>)
        requires
            old(self).sm.structs@.len() == 0,
            old(self).signatures@.len() == 0,
            class_names_unique(file.classes@),
            classes_closed(file.classes@),
            fields_unique(file.classes@),
            callables_unique(*file),
        ensures
            !acyclic(file.classes@) ==> r == Result::<IrModule, CodegenError>::Err(
                CodegenError::CyclicDependency,
            ),
            r is Ok ==> acyclic(file.classes@),
            r is Ok ==> final(self).sm.wf() && final(self).sm.structs@.len()
                == file.classes@.len() && (forall|c: int|
                0 <= c < file.classes@.len() ==> final(self).sm.spec_contains_struct(
                    (#[trigger] file.classes@[c]).name@,
                ) && layout_matches(
                    final(self).sm.spec_info_of(file.classes@[c].name@),
                    file.classes@[c],
                )),
            r is Ok ==> sig_names_unique(final(self).signatures@) && (forall|i: int|
                0 <= i < file.functions@.len() ==> has_sig(
                    final(self).signatures@,
                    (#[trigger] file.functions@[i]).name@,
                    file.functions@[i].parameters@,
                    file.functions@[i].return_type.typ,
                )),
            r is Ok ==> {
                let m = r->Ok_0;
                let nm = sum_methods(file.classes@, file.classes@.len() as int);
                &&& m.functions@.len() == nm + file.functions@.len()
                &&& (forall|i: int|
                    0 <= i < file.functions@.len() ==> (#[trigger] m.functions@[nm + i]).name@
                        == file.functions@[i].name@)
                &&& (forall|k: int, b: int|
                    0 <= k < m.functions@.len() && 0 <= b < m.functions@[k].blocks@.len() ==> (
                    #[trigger] m.functions@[k].blocks@[b]).terminator is Some)
            },
            (file.classes@.len() == 0 && file.functions@.len() == 0) ==> r is Ok,
    {
        proof {
            if file.classes@.len() == 0 {
                assert(edges_ranked(file.classes@, Map::<int, int>::empty())) by {
                    assert(forall|i: int, j: int| !dep_edge(file.classes@, i, j));
                }
                assert(acyclic(file.classes@));
            }
        }
        match self.fill_lookup(file) {
            Result::Ok(_) => {},
            Result::Err(e) => {
                return Result::Err(e);
            },
        }
        self.codegen_file(file)
    }
}

} // verus!
