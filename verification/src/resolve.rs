//! Name resolution: whether a name is a local of the current function, a
//! variable captured from an enclosing one, or a global.

use vstd::prelude::*;
use crate::cast::usize_to_u8;
use crate::descriptor::{ExprDescriptor, VariableDescriptor};
use crate::error::{CompileError, CompilerLimit};
use crate::function::UpValueDescriptor;
use crate::opcode::{RegisterIndex, UpValueIndex};
use crate::state::{
    captures_from, env_name, environment_only, lemma_nest_grows_transitive, make_env_name,
    nest_grows, nest_wf, prefix, Compiler, CompilerFunction,
};
use crate::model::{
    agrees, binding_frame, frame_local, frame_upvalue, local_in, named_views, described,
    resolved_as, resolved_frame, upvalue_in,
};
use crate::scope::{lemma_named_bound, lemma_named_resolved, named};
use crate::value::{bytes_equal, copy_bytes};

verus! {

/// The register of the local named `name` that was declared last among the
/// first `n` locals.
pub open spec fn innermost_local(
    locals: Seq<(Vec<u8>, RegisterIndex)>,
    name: Seq<u8>,
    n: int,
) -> Option<RegisterIndex>
    decreases n,
{
    if n <= 0 {
        None
    } else if locals[n - 1].0@ == name {
        Some(locals[n - 1].1)
    } else {
        innermost_local(locals, name, n - 1)
    }
}

/// The index of the first upvalue named `name` at or after `from`.
pub open spec fn first_upvalue(
    upvalues: Seq<(Vec<u8>, UpValueDescriptor)>,
    name: Seq<u8>,
    from: int,
) -> Option<int>
    decreases upvalues.len() - from,
{
    if from < 0 || from >= upvalues.len() {
        None
    } else if upvalues[from].0@ == name {
        Some(from)
    } else {
        first_upvalue(upvalues, name, from + 1)
    }
}

/// The local of function `i` that `name` refers to, if it has one.
pub open spec fn local_at(functions: Seq<CompilerFunction>, name: Seq<u8>, i: int) -> Option<
    RegisterIndex,
> {
    innermost_local(functions[i].locals@, name, functions[i].locals@.len() as int)
}

/// The upvalue of function `i` that `name` refers to, if it has one. The
/// outermost function has the upvalue `_ENV` from the moment it is asked for.
pub open spec fn upvalue_at(functions: Seq<CompilerFunction>, name: Seq<u8>, i: int) -> Option<
    int,
> {
    if i == 0 && name == env_name() && functions[0].upvalues@.len() == 0 {
        Some(0)
    } else {
        first_upvalue(functions[i].upvalues@, name, 0)
    }
}

/// Whether function `i` has a local or an upvalue named `name`.
pub open spec fn binds(functions: Seq<CompilerFunction>, name: Seq<u8>, i: int) -> bool {
    local_at(functions, name, i).is_some() || upvalue_at(functions, name, i).is_some()
}

/// The innermost function among those up to `i` that has a local or an
/// upvalue named `name`, or -1 if none has.
pub open spec fn binding_depth(functions: Seq<CompilerFunction>, name: Seq<u8>, i: int) -> int
    decreases i + 1,
{
    if i < 0 {
        -1
    } else if binds(functions, name, i) {
        i
    } else {
        binding_depth(functions, name, i - 1)
    }
}

/// The function in which `name` is bound, seen from the innermost one.
pub open spec fn binder(functions: Seq<CompilerFunction>, name: Seq<u8>) -> int {
    binding_depth(functions, name, functions.len() - 1)
}

/// Whether resolving `name` makes the outermost function capture the global
/// environment: the name is `_ENV`, nothing binds it, and the outermost
/// function has no upvalue yet.
pub open spec fn creates_environment(functions: Seq<CompilerFunction>, name: Seq<u8>) -> bool {
    &&& name == env_name()
    &&& functions[0].upvalues@.len() == 0
    &&& binder(functions, name) == 0
    &&& local_at(functions, name, 0).is_none()
}

/// How function `k`, which lies inside the binder of `name`, captures the
/// variable: the function just inside the binder takes the binder's local
/// or upvalue, and each further one takes the upvalue that the function
/// around it has just got.
pub open spec fn capture_of(
    functions: Seq<CompilerFunction>,
    name: Seq<u8>,
    k: int,
) -> UpValueDescriptor {
    let d = binder(functions, name);
    if k == d + 1 {
        match local_at(functions, name, d) {
            Some(register) => UpValueDescriptor::ParentLocal(register),
            None => UpValueDescriptor::Outer(
                UpValueIndex(upvalue_at(functions, name, d).unwrap() as u8),
            ),
        }
    } else {
        UpValueDescriptor::Outer(UpValueIndex(functions[k - 1].upvalues@.len() as u8))
    }
}

/// Whether `b` is `a` with one more upvalue at its end, of the given name
/// and kind.
pub open spec fn appended(
    a: Seq<(Vec<u8>, UpValueDescriptor)>,
    b: Seq<(Vec<u8>, UpValueDescriptor)>,
    name: Seq<u8>,
    descriptor: UpValueDescriptor,
) -> bool {
    &&& b.len() == a.len() + 1
    &&& prefix(a, b)
    &&& b[b.len() - 1].0@ == name
    &&& b[b.len() - 1].1 == descriptor
}

impl CompilerFunction {
    /// Looks for a local by its name, the one declared last first.
    pub fn find_local(&self, name: &Vec<u8>) -> (r: Option<RegisterIndex>)
        ensures
            r == innermost_local(self.locals@, name@, self.locals@.len() as int),
    {
        let mut j: usize = self.locals.len();
        while j > 0
            invariant
                j <= self.locals@.len(),
                innermost_local(self.locals@, name@, self.locals@.len() as int) == innermost_local(
                    self.locals@,
                    name@,
                    j as int,
                ),
            decreases j,
        {
            j -= 1;
            if bytes_equal(&self.locals[j].0, name) {
                return Some(self.locals[j].1);
            }
        }
        None
    }

    /// Looks for an upvalue by its name, the one captured first first.
    pub fn find_upvalue(&self, name: &Vec<u8>) -> (r: Option<usize>)
        ensures
            match r {
                Some(j) => first_upvalue(self.upvalues@, name@, 0) == Some(j as int) && j
                    < self.upvalues@.len(),
                None => first_upvalue(self.upvalues@, name@, 0).is_none(),
            },
    {
        let mut j: usize = 0;
        while j < self.upvalues.len()
            invariant
                j <= self.upvalues@.len(),
                first_upvalue(self.upvalues@, name@, 0) == first_upvalue(
                    self.upvalues@,
                    name@,
                    j as int,
                ),
            decreases self.upvalues@.len() - j,
        {
            if bytes_equal(&self.upvalues[j].0, name) {
                return Some(j);
            }
            j += 1;
        }
        None
    }
}

/// Whether `after` is function `k` of the nest once `name` has been
/// resolved: the function is as before but for its upvalues, where the
/// functions inside the binder of `name` have one more each.
pub open spec fn function_resolved(
    functions: Seq<CompilerFunction>,
    name: Seq<u8>,
    k: int,
    after: CompilerFunction,
) -> bool {
    let d = binder(functions, name);
    &&& functions[k].same_but_upvalues(after)
    &&& if k == 0 && creates_environment(functions, name) {
        &&& after.upvalues@.len() == 1
        &&& after.upvalues@[0].0@ == env_name()
        &&& after.upvalues@[0].1 == UpValueDescriptor::Environment
    } else if 0 <= d < k {
        appended(functions[k].upvalues@, after.upvalues@, name, capture_of(functions, name, k))
    } else {
        after.upvalues == functions[k].upvalues
    }
}

/// Whether `after` is the nest `functions` once `name` has been resolved.
pub open spec fn nest_resolved(
    functions: Seq<CompilerFunction>,
    name: Seq<u8>,
    after: Seq<CompilerFunction>,
) -> bool {
    &&& after.len() == functions.len()
    &&& forall|k: int|
        0 <= k < functions.len() ==> function_resolved(functions, name, k, #[trigger] after[k])
}

/// Whether each function inside the binder of `name` has room for one more
/// upvalue.
pub open spec fn capture_fits(functions: Seq<CompilerFunction>, name: Seq<u8>) -> bool {
    forall|k: int|
        binder(functions, name) < k < functions.len() ==> (#[trigger] functions[k]).upvalues@.len()
            < 256
}

/// The upvalue of the innermost function under which `name` is found once
/// it is resolved, where a function binds it.
pub open spec fn resolved_upvalue(functions: Seq<CompilerFunction>, name: Seq<u8>) -> int {
    let t = functions.len() - 1;
    if binder(functions, name) == t {
        upvalue_at(functions, name, t).unwrap()
    } else {
        functions[t].upvalues@.len() as int
    }
}

pub proof fn lemma_binding_depth_range(functions: Seq<CompilerFunction>, name: Seq<u8>, i: int)
    requires
        -1 <= i < functions.len(),
    ensures
        -1 <= binding_depth(functions, name, i) <= i,
        binding_depth(functions, name, i) >= 0 ==> binds(
            functions,
            name,
            binding_depth(functions, name, i),
        ),
    decreases i + 1,
{
    if i >= 0 && !binds(functions, name, i) {
        lemma_binding_depth_range(functions, name, i - 1);
    }
}

/// The name `_ENV` is bound in every consistent nest.
pub proof fn lemma_environment_bound(functions: Seq<CompilerFunction>, i: int)
    requires
        nest_wf(functions),
        0 <= i < functions.len(),
    ensures
        binding_depth(functions, env_name(), i) >= 0,
    decreases i,
{
    if binds(functions, env_name(), i) {
    } else if i == 0 {
        assert(environment_only(functions[0].upvalues@));
        assert(upvalue_at(functions, env_name(), 0).is_some());
    } else {
        lemma_environment_bound(functions, i - 1);
    }
}

pub proof fn lemma_first_upvalue_range(
    upvalues: Seq<(Vec<u8>, UpValueDescriptor)>,
    name: Seq<u8>,
    from: int,
)
    requires
        0 <= from,
    ensures
        first_upvalue(upvalues, name, from) matches Some(j) ==> from <= j < upvalues.len()
            && upvalues[j].0@ == name,
    decreases upvalues.len() - from,
{
    if from < upvalues.len() && upvalues[from].0@ != name {
        lemma_first_upvalue_range(upvalues, name, from + 1);
    }
}

pub proof fn lemma_innermost_local_range(
    locals: Seq<(Vec<u8>, RegisterIndex)>,
    name: Seq<u8>,
    n: int,
)
    requires
        n <= locals.len(),
    ensures
        innermost_local(locals, name, n) matches Some(r) ==> exists|j: int|
            0 <= j < n && (#[trigger] locals[j]).1 == r,
    decreases n,
{
    if n > 0 && locals[n - 1].0@ != name {
        lemma_innermost_local_range(locals, name, n - 1);
    }
}

/// How function `k` captures a variable that the functions from `start`
/// inwards capture in a chain, the first of them by `first`.
pub open spec fn chain_capture(
    functions: Seq<CompilerFunction>,
    start: int,
    first: UpValueDescriptor,
    k: int,
) -> UpValueDescriptor {
    if k == start {
        first
    } else {
        UpValueDescriptor::Outer(UpValueIndex(functions[k - 1].upvalues@.len() as u8))
    }
}

/// Whether `after` is the nest `functions` in which each function from
/// `start` inwards has got one more upvalue, named `name`, that captures
/// the variable from the function around it.
pub open spec fn nest_captured(
    functions: Seq<CompilerFunction>,
    name: Seq<u8>,
    start: int,
    first: UpValueDescriptor,
    after: Seq<CompilerFunction>,
) -> bool {
    &&& after.len() == functions.len()
    &&& forall|k: int| 0 <= k < start && k < functions.len() ==> #[trigger] after[k] == functions[k]
    &&& forall|k: int|
        start <= k < functions.len() ==> {
            &&& functions[k].same_but_upvalues(#[trigger] after[k])
            &&& appended(
                functions[k].upvalues@,
                after[k].upvalues@,
                name,
                chain_capture(functions, start, first, k),
            )
        }
}

/// Whether each function from `start` inwards has room for one more
/// upvalue.
pub open spec fn chain_fits(functions: Seq<CompilerFunction>, start: int) -> bool {
    forall|k: int| start <= k < functions.len() ==> (#[trigger] functions[k]).upvalues@.len() < 256
}

proof fn lemma_captured_wf(
    functions: Seq<CompilerFunction>,
    name: Seq<u8>,
    start: int,
    first: UpValueDescriptor,
    after: Seq<CompilerFunction>,
)
    requires
        nest_wf(functions),
        1 <= start <= functions.len(),
        first.captures_from(
            functions[start - 1].stack_size(),
            functions[start - 1].upvalues@.len() as int,
        ),
        nest_captured(functions, name, start, first, after),
        chain_fits(functions, start),
    ensures
        nest_wf(after),
        nest_grows(functions, after),
{
    assert forall|i: int| 0 <= i < after.len() implies (#[trigger] after[i]).wf() by {
        assert(functions[i].wf());
        if i >= start {
            let f = functions[i];
            let g = after[i];
            assert(f.same_but_upvalues(g));
            assert forall|m: int| 0 <= m < g.opcodes@.len() implies g.admits(
                #[trigger] g.opcodes@[m],
            ) by {
                assert(f.admits(f.opcodes@[m]));
            }
            assert forall|m: int| 0 <= m < g.prototypes@.len() implies {
                &&& (#[trigger] g.prototypes@[m]).wf()
                &&& g.prototypes@[m].captures_from(g.stack_size(), g.upvalues@.len() as int)
            } by {
                assert(f.prototypes@[m].wf());
                assert(f.prototypes@[m].captures_from(f.stack_size(), f.upvalues@.len() as int));
            }
            assert forall|m: int| 0 <= m < g.locals@.len() implies (#[trigger] g.locals@[m]).1.0
                < g.stack_size() by {
                assert(f.locals@[m].1.0 < f.stack_size());
            }
        }
    }
    assert(after[0] == functions[0]);
    assert forall|i: int| 1 <= i < after.len() implies captures_from(
        #[trigger] after[i],
        after[i - 1],
    ) by {
        assert(captures_from(functions[i], functions[i - 1]));
        let inner = after[i];
        let outer = after[i - 1];
        assert(functions[i - 1].wf());
        if i - 1 >= start {
            assert(functions[i - 1].same_but_upvalues(outer));
        } else {
            assert(outer == functions[i - 1]);
        }
        assert forall|j: int| 0 <= j < inner.upvalues@.len() implies (
        #[trigger] inner.upvalues@[j]).1.captures_from(
            outer.stack_size(),
            outer.upvalues@.len() as int,
        ) by {
            if i >= start {
                assert(functions[i].same_but_upvalues(inner));
                if j < functions[i].upvalues@.len() {
                    assert(inner.upvalues@[j] == functions[i].upvalues@[j]);
                    assert(functions[i].upvalues@[j].1.captures_from(
                        functions[i - 1].stack_size(),
                        functions[i - 1].upvalues@.len() as int,
                    ));
                } else {
                    assert(inner.upvalues@[j].1 == chain_capture(functions, start, first, i));
                }
            } else {
                assert(inner == functions[i]);
                assert(functions[i].upvalues@[j].1.captures_from(
                    functions[i - 1].stack_size(),
                    functions[i - 1].upvalues@.len() as int,
                ));
            }
        }
    }
    assert forall|i: int| 0 <= i < functions.len() implies (#[trigger] functions[i]).grows_to(
        after[i],
    ) by {
        if i >= start {
            assert(functions[i].same_but_upvalues(after[i]));
        } else {
            assert(after[i] == functions[i]);
        }
    }
}

impl Compiler {
    /// The register of the local of the innermost function that `name`
    /// refers to, if it has one.
    pub open spec fn local_named(self, name: Seq<u8>) -> Option<RegisterIndex> {
        local_at(self.functions@, name, self.functions@.len() - 1)
    }

    /// Makes each function from `start` inwards capture a variable of the
    /// function `start - 1`: the first by `first`, each further one by the
    /// upvalue that the function around it has just got. Returns the upvalue
    /// under which the innermost function has the variable.
    pub fn capture(&mut self, name: &Vec<u8>, start: usize, first: UpValueDescriptor) -> (r: Result<
        UpValueIndex,
        CompileError,
    >)
        requires
            old(self).wf(),
            1 <= start < old(self).functions@.len(),
            first.captures_from(
                old(self).functions@[start - 1].stack_size(),
                old(self).functions@[start - 1].upvalues@.len() as int,
            ),
        ensures
            match r {
                Ok(index) => {
                    &&& final(self).wf()
                    &&& old(self).extends_to(*final(self))
                    &&& chain_fits(old(self).functions@, start as int)
                    &&& nest_captured(
                        old(self).functions@,
                        name@,
                        start as int,
                        first,
                        final(self).functions@,
                    )
                    &&& index.0 == old(self).functions.top.upvalues@.len()
                },
                Err(e) => {
                    &&& e == CompileError::Limit(CompilerLimit::UpValues)
                    &&& !chain_fits(old(self).functions@, start as int)
                },
            },
    {
        proof {
            reveal(Compiler::wf);
            reveal(Compiler::extends_to);
        }
        let ghost init = old(self).functions@;
        let ghost depth: int = init.len() as int;
        let top_index: usize = self.functions.lower.len();
        let mut remaining: usize = top_index - start + 1;
        let ghost mut k: int = start as int;
        let mut descriptor = first;
        let mut last: u8 = 0;
        while remaining > 0
            invariant
                nest_wf(init),
                init == old(self).functions@,
                1 <= start <= k <= depth,
                depth == init.len(),
                depth == top_index + 1,
                k == depth - remaining,
                self.functions@.len() == depth,
                forall|m: int| 0 <= m < start ==> #[trigger] self.functions@[m] == init[m],
                forall|m: int| k <= m < depth ==> #[trigger] self.functions@[m] == init[m],
                forall|m: int|
                    start <= m < k ==> {
                        &&& init[m].same_but_upvalues(#[trigger] self.functions@[m])
                        &&& appended(
                            init[m].upvalues@,
                            self.functions@[m].upvalues@,
                            name@,
                            chain_capture(init, start as int, first, m),
                        )
                        &&& init[m].upvalues@.len() < 256
                    },
                descriptor == chain_capture(init, start as int, first, k),
                k > start ==> last == init[k - 1].upvalues@.len(),
            decreases remaining,
        {
            let at: usize = top_index - (remaining - 1);
            let len = self.functions.get(at).upvalues.len();
            let index = match usize_to_u8(len) {
                Some(index) => index,
                None => {
                    assert(init[k].upvalues@.len() >= 256);
                    return Err(CompileError::Limit(CompilerLimit::UpValues));
                },
            };
            let ghost before = self.functions@;
            let function = self.functions.get_mut(at);
            function.upvalues.push((copy_bytes(name), descriptor));
            proof {
                let now = self.functions@;
                assert(now[k].upvalues@ =~= before[k].upvalues@.push(now[k].upvalues@.last()));
                assert forall|m: int| 0 <= m < start implies #[trigger] now[m] == init[m] by {
                    assert(before[m] == init[m]);
                }
                assert forall|m: int| k + 1 <= m < depth implies #[trigger] now[m] == init[m] by {
                    assert(before[m] == init[m]);
                }
                assert forall|m: int| start <= m < k + 1 implies {
                    &&& init[m].same_but_upvalues(#[trigger] now[m])
                    &&& appended(
                        init[m].upvalues@,
                        now[m].upvalues@,
                        name@,
                        chain_capture(init, start as int, first, m),
                    )
                    &&& init[m].upvalues@.len() < 256
                } by {
                    if m < k {
                        assert(now[m] == before[m]);
                        assert(init[m].same_but_upvalues(before[m]));
                    } else {
                        assert(before[m] == init[m]);
                    }
                }
                assert(init[k].wf());
                k = k + 1;
            }
            descriptor = UpValueDescriptor::Outer(UpValueIndex(index));
            last = index;
            remaining -= 1;
        }
        proof {
            assert(nest_captured(init, name@, start as int, first, self.functions@));
            assert(chain_fits(init, start as int)) by {
                assert forall|m: int| start <= m < init.len() implies (
                #[trigger] init[m]).upvalues@.len() < 256 by {
                    assert(init[m].same_but_upvalues(self.functions@[m]));
                }
            }
            lemma_captured_wf(init, name@, start as int, first, self.functions@);
        }
        Ok(UpValueIndex(last))
    }

    /// Resolves a name, seen from the innermost function.
    ///
    /// The functions are searched from the innermost outwards, and in each
    /// its locals, the one declared last first, before its upvalues. A local
    /// of the innermost function is the answer as it is. What an enclosing
    /// function binds is captured by every function inside it, each from the
    /// one around it, and the answer is the upvalue of the innermost. The
    /// outermost function captures the global environment the first time
    /// `_ENV` is asked of it. A name that nothing binds is a global.
    pub fn find_variable(&mut self, name: &Vec<u8>) -> (r: Result<VariableDescriptor, CompileError>)
        requires
            old(self).wf(),
        ensures
            r.is_ok() ==> old(self).steps_to(*final(self)) && final(self).functions.top.locals
                == old(self).functions.top.locals
                    && final(self).functions.top.register_allocator
                        == old(self).functions.top.register_allocator,
            named(old(self).functions@, name@) && r.is_ok() ==> old(self).keeps_outermost(
                *final(self),
            ) && !(r.unwrap() is Global),
            match r {
                Ok(VariableDescriptor::Local(register)) => {
                    &&& binder(old(self).functions@, name@) == old(self).functions@.len() - 1
                    &&& local_at(old(self).functions@, name@, old(self).functions@.len() - 1)
                        == Some(register)
                    &&& *final(self) == *old(self)
                    &&& register.0 < final(self).functions.top.stack_size()
                },
                Ok(VariableDescriptor::UpValue(index)) => {
                    &&& binder(old(self).functions@, name@) >= 0
                    &&& local_at(old(self).functions@, name@, old(self).functions@.len() - 1)
                        .is_none()
                    &&& capture_fits(old(self).functions@, name@)
                    &&& nest_resolved(old(self).functions@, name@, final(self).functions@)
                    &&& index.0 == resolved_upvalue(old(self).functions@, name@)
                    &&& index.0 < final(self).functions.top.upvalues@.len()
                    &&& final(self).wf()
                    &&& old(self).extends_to(*final(self))
                },
                Ok(VariableDescriptor::Global(global)) => {
                    &&& binder(old(self).functions@, name@) < 0
                    &&& global@ == name@
                    &&& name@ != env_name()
                    &&& *final(self) == *old(self)
                },
                Err(e) => {
                    &&& e == CompileError::Limit(CompilerLimit::UpValues)
                    &&& binder(old(self).functions@, name@) >= 0
                    &&& !capture_fits(old(self).functions@, name@)
                },
            },
            agrees(
                crate::model::find_variable(old(self)@, name@),
                resolved_as(r),
                final(self)@,
            ),
    {
        let r = self.search_variable(name);
        proof {
            let before = *old(self);
            let functions = before.functions@;
            let t = functions.len() - 1;
            lemma_binding_frame(before, name@, t);
            lemma_binding_depth_range(functions, name@, t);
            let d = binder(functions, name@);
            match r {
                Ok(VariableDescriptor::UpValue(index)) => {
                    assert forall|k: int| d < k < functions.len() implies (
                    #[trigger] before@[k]).upvalues.len() < 256 by {
                        assert(functions[k].upvalues@.len() < 256);
                    }
                    let after = Seq::new(
                        before@.len(),
                        |k: int| resolved_frame(before@, name@, k),
                    );
                    assert forall|k: int| 0 <= k < functions.len() implies #[trigger] self@[k]
                        == after[k] by {
                        let f = functions[k];
                        let g = self.functions@[k];
                        assert(function_resolved(functions, name@, k, g));
                        if k == 0 && creates_environment(functions, name@) {
                            assert(g@.upvalues =~= seq![
                                (env_name(), UpValueDescriptor::Environment),
                            ]);
                        } else if 0 <= d < k {
                            assert(g@.upvalues =~= f@.upvalues.push(
                                (name@, capture_of(functions, name@, k)),
                            ));
                        }
                    }
                    assert(self@ =~= after);
                },
                Ok(_) => {},
                Err(_) => {
                    let k = choose|k: int|
                        d < k < functions.len() && !((#[trigger] functions[k]).upvalues@.len()
                            < 256);
                    assert(before@[k].upvalues.len() >= 256);
                },
            }
        }
        r
    }

    /// Searches the functions for a name, from the innermost outwards.
    fn search_variable(&mut self, name: &Vec<u8>) -> (r: Result<VariableDescriptor, CompileError>)
        requires
            old(self).wf(),
        ensures
            r.is_ok() ==> old(self).steps_to(*final(self)) && final(self).functions.top.locals
                == old(self).functions.top.locals
                    && final(self).functions.top.register_allocator
                        == old(self).functions.top.register_allocator,
            named(old(self).functions@, name@) && r.is_ok() ==> old(self).keeps_outermost(
                *final(self),
            ) && !(r.unwrap() is Global),
            match r {
                Ok(VariableDescriptor::Local(register)) => {
                    &&& binder(old(self).functions@, name@) == old(self).functions@.len() - 1
                    &&& local_at(old(self).functions@, name@, old(self).functions@.len() - 1)
                        == Some(register)
                    &&& *final(self) == *old(self)
                    &&& register.0 < final(self).functions.top.stack_size()
                },
                Ok(VariableDescriptor::UpValue(index)) => {
                    &&& binder(old(self).functions@, name@) >= 0
                    &&& local_at(old(self).functions@, name@, old(self).functions@.len() - 1)
                        .is_none()
                    &&& capture_fits(old(self).functions@, name@)
                    &&& nest_resolved(old(self).functions@, name@, final(self).functions@)
                    &&& index.0 == resolved_upvalue(old(self).functions@, name@)
                    &&& index.0 < final(self).functions.top.upvalues@.len()
                    &&& final(self).wf()
                    &&& old(self).extends_to(*final(self))
                },
                Ok(VariableDescriptor::Global(global)) => {
                    &&& binder(old(self).functions@, name@) < 0
                    &&& global@ == name@
                    &&& name@ != env_name()
                    &&& *final(self) == *old(self)
                },
                Err(e) => {
                    &&& e == CompileError::Limit(CompilerLimit::UpValues)
                    &&& binder(old(self).functions@, name@) >= 0
                    &&& !capture_fits(old(self).functions@, name@)
                },
            },
    {
        proof {
            reveal(Compiler::wf);
            reveal(Compiler::extends_to);
        }
        let ghost init = old(self).functions@;
        let ghost t: int = init.len() - 1;
        let top_index: usize = self.functions.lower.len();
        let mut i: usize = top_index;
        let mut searching = true;
        while searching
            invariant
                *self == *old(self),
                init == old(self).functions@,
                nest_wf(init),
                t == init.len() - 1,
                t == top_index,
                i <= top_index,
                searching ==> binder(init, name@) == binding_depth(init, name@, i as int),
                !searching ==> binder(init, name@) == -1,
            decreases i + (if searching { 1int } else { 0int }),
        {
            proof {
                reveal(Compiler::wf);
                reveal(Compiler::extends_to);
            }
            let local = self.functions.get(i).find_local(name);
            if let Some(register) = local {
                proof {
                    lemma_innermost_local_range(
                        init[i as int].locals@,
                        name@,
                        init[i as int].locals@.len() as int,
                    );
                    assert(init[i as int].wf());
                }
                if i == top_index {
                    proof {
                        self.lemma_start();
                    }
                    return Ok(VariableDescriptor::Local(register));
                } else {
                    let first = UpValueDescriptor::ParentLocal(register);
                    match self.capture(name, i + 1, first) {
                        Ok(index) => {
                            proof {
                                lemma_captured_resolved(init, name@, first, self.functions@);
                                lemma_resolved_steps(*old(self), *self, name@);
                                if named(init, name@) {
                                    lemma_named_resolved(init, name@, self.functions@);
                                }
                            }
                            return Ok(VariableDescriptor::UpValue(index));
                        },
                        Err(e) => {
                            proof {
                                lemma_capture_fits(init, name@);
                            }
                            return Err(e);
                        },
                    }
                }
            }
            let env = make_env_name();
            if i == 0 && bytes_equal(name, &env) && self.functions.get(0).upvalues.len() == 0 {
                let outermost = self.functions.get_mut(0);
                outermost.upvalues.push((env, UpValueDescriptor::Environment));
                proof {
                    lemma_environment_created(init, self.functions@);
                }
            }
            let ghost mid = self.functions@;
            let upvalue = self.functions.get(i).find_upvalue(name);
            if let Some(j) = upvalue {
                proof {
                    assert(mid[i as int].wf());
                    assert(upvalue_at(init, name@, i as int) == Some(j as int)) by {
                        if mid != init {
                            reveal_with_fuel(first_upvalue, 2);
                        }
                    }
                }
                let index: u8 = j as u8;
                if i == top_index {
                    proof {
                        lemma_found_resolved(init, name@, self.functions@);
                        lemma_resolved_steps(*old(self), *self, name@);
                        if named(init, name@) {
                            lemma_named_resolved(init, name@, self.functions@);
                        }
                    }
                    return Ok(VariableDescriptor::UpValue(UpValueIndex(index)));
                } else {
                    let first = UpValueDescriptor::Outer(UpValueIndex(index));
                    let ghost middle = *self;
                    match self.capture(name, i + 1, first) {
                        Ok(index) => {
                            proof {
                                lemma_captured_after_found(
                                    init,
                                    mid,
                                    name@,
                                    first,
                                    self.functions@,
                                );
                                lemma_nest_grows_transitive(init, mid, self.functions@);
                                lemma_resolved_steps(*old(self), *self, name@);
                                if named(init, name@) {
                                    lemma_named_resolved(init, name@, self.functions@);
                                }
                            }
                            return Ok(VariableDescriptor::UpValue(index));
                        },
                        Err(e) => {
                            proof {
                                lemma_capture_fits_after_found(init, mid, name@);
                            }
                            return Err(e);
                        },
                    }
                }
            }
            proof {
                assert(mid == init) by {
                    if mid != init {
                        reveal_with_fuel(first_upvalue, 2);
                    }
                }
                assert(!binds(init, name@, i as int));
                assert(binding_depth(init, name@, -1) == -1);
            }
            if i == 0 {
                searching = false;
            } else {
                i -= 1;
            }
        }
        proof {
            lemma_environment_bound(init, t);
            self.lemma_start();
            if named(init, name@) {
                lemma_named_bound(init, name@);
            }
        }
        Ok(VariableDescriptor::Global(copy_bytes(name)))
    }

    /// The variable `_ENV` that is in scope: a local or an upvalue of that
    /// name, or else the global environment, which the outermost function
    /// captures.
    pub fn get_environment(&mut self) -> (r: Result<ExprDescriptor<'static>, CompileError>)
        requires
            old(self).wf(),
        ensures
            r matches Ok(descriptor) ==> {
                &&& old(self).steps_to(*final(self))
                &&& final(self).holds(descriptor)
                &&& descriptor.weight() == 1
                &&& final(self).functions.top.locals == old(self).functions.top.locals
                &&& final(self).functions.top.register_allocator
                    == old(self).functions.top.register_allocator
                &&& descriptor.exclusive()
                &&& forall|r: int| !descriptor.holds_temporary(r)
            },
            match r {
                Ok(ExprDescriptor::Register { register, is_temporary }) => {
                    &&& !is_temporary
                    &&& local_at(old(self).functions@, env_name(), old(self).functions@.len() - 1)
                        == Some(register)
                    &&& *final(self) == *old(self)
                    &&& register.0 < final(self).functions.top.stack_size()
                },
                Ok(ExprDescriptor::UpValue(index)) => {
                    &&& local_at(old(self).functions@, env_name(), old(self).functions@.len() - 1)
                        .is_none()
                    &&& capture_fits(old(self).functions@, env_name())
                    &&& nest_resolved(old(self).functions@, env_name(), final(self).functions@)
                    &&& index.0 == resolved_upvalue(old(self).functions@, env_name())
                    &&& index.0 < final(self).functions.top.upvalues@.len()
                    &&& final(self).wf()
                    &&& old(self).extends_to(*final(self))
                },
                Ok(_) => false,
                Err(e) => {
                    &&& e == CompileError::Limit(CompilerLimit::UpValues)
                    &&& !capture_fits(old(self).functions@, env_name())
                },
            },
            agrees(crate::model::get_environment(old(self)@), described(r), final(self)@),
    {
        let env = make_env_name();
        match self.find_variable(&env) {
            Ok(VariableDescriptor::Local(register)) => Ok(
                ExprDescriptor::Register { register, is_temporary: false },
            ),
            Ok(VariableDescriptor::UpValue(index)) => Ok(ExprDescriptor::UpValue(index)),
            Ok(VariableDescriptor::Global(_)) => {
                assert(false);
                Ok(ExprDescriptor::UpValue(UpValueIndex(0)))
            },
            Err(e) => Err(e),
        }
    }
}

/// Resolving a name is a step of the compilation.
proof fn lemma_resolved_steps(before: Compiler, after: Compiler, name: Seq<u8>)
    requires
        before.wf(),
        after.wf(),
        before.extends_to(after),
        nest_resolved(before.functions@, name, after.functions@),
    ensures
        before.steps_to(after),
        after.functions.top.locals == before.functions.top.locals,
        after.functions.top.register_allocator == before.functions.top.register_allocator,
{
    let t = before.functions@.len() - 1;
    assert(function_resolved(before.functions@, name, t, after.functions@[t]));
    assert(before.functions@[t] == before.functions.top);
    assert(after.functions@[t] == after.functions.top);
}

/// Once the outermost function has captured the global environment, the
/// nest is consistent as before.
proof fn lemma_environment_created(functions: Seq<CompilerFunction>, after: Seq<CompilerFunction>)
    requires
        nest_wf(functions),
        functions[0].upvalues@.len() == 0,
        after.len() == functions.len(),
        forall|k: int| 1 <= k < functions.len() ==> #[trigger] after[k] == functions[k],
        functions[0].same_but_upvalues(after[0]),
        after[0].upvalues@.len() == 1,
        after[0].upvalues@[0].0@ == env_name(),
        after[0].upvalues@[0].1 == UpValueDescriptor::Environment,
    ensures
        nest_wf(after),
        nest_grows(functions, after),
{
    let f = functions[0];
    let g = after[0];
    assert(f.wf());
    assert forall|m: int| 0 <= m < g.opcodes@.len() implies g.admits(#[trigger] g.opcodes@[m]) by {
        assert(f.admits(f.opcodes@[m]));
    }
    assert forall|m: int| 0 <= m < g.prototypes@.len() implies {
        &&& (#[trigger] g.prototypes@[m]).wf()
        &&& g.prototypes@[m].captures_from(g.stack_size(), g.upvalues@.len() as int)
    } by {
        assert(f.prototypes@[m].wf());
        assert(f.prototypes@[m].captures_from(f.stack_size(), f.upvalues@.len() as int));
    }
    assert forall|m: int| 0 <= m < g.locals@.len() implies (#[trigger] g.locals@[m]).1.0
        < g.stack_size() by {
        assert(f.locals@[m].1.0 < f.stack_size());
    }
    assert(g.wf());
    assert forall|i: int| 0 <= i < after.len() implies (#[trigger] after[i]).wf() by {
        if i > 0 {
            assert(functions[i].wf());
        }
    }
    assert forall|i: int| 1 <= i < after.len() implies captures_from(
        #[trigger] after[i],
        after[i - 1],
    ) by {
        assert(captures_from(functions[i], functions[i - 1]));
        if i > 1 {
            assert(after[i - 1] == functions[i - 1]);
        }
    }
    assert forall|i: int| 0 <= i < functions.len() implies (#[trigger] functions[i]).grows_to(
        after[i],
    ) by {
        if i > 0 {
            assert(after[i] == functions[i]);
        }
    }
}

/// Capturing a local of the binder from the function just inside it
/// inwards is what resolving the name does.
proof fn lemma_captured_resolved(
    functions: Seq<CompilerFunction>,
    name: Seq<u8>,
    first: UpValueDescriptor,
    after: Seq<CompilerFunction>,
)
    requires
        0 <= binder(functions, name) < functions.len() - 1,
        local_at(functions, name, binder(functions, name)) matches Some(register) && first
            == UpValueDescriptor::ParentLocal(register),
        nest_captured(functions, name, binder(functions, name) + 1, first, after),
        chain_fits(functions, binder(functions, name) + 1),
    ensures
        nest_resolved(functions, name, after),
        capture_fits(functions, name),
        local_at(functions, name, functions.len() - 1).is_none(),
        after[after.len() - 1].upvalues@.len() > functions[functions.len() - 1].upvalues@.len(),
        functions[functions.len() - 1].upvalues@.len() == resolved_upvalue(functions, name),
{
    let d = binder(functions, name);
    lemma_binder_innermost(functions, name, functions.len() - 1);
    assert forall|k: int| 0 <= k < functions.len() implies function_resolved(
        functions,
        name,
        k,
        #[trigger] after[k],
    ) by {
        if k > d {
            assert(chain_capture(functions, d + 1, first, k) == capture_of(functions, name, k));
        }
    }
    assert forall|k: int| d < k < functions.len() implies (#[trigger] functions[k]).upvalues@.len()
        < 256 by {}
    assert(functions[functions.len() - 1].same_but_upvalues(after[functions.len() - 1]));
}

/// No function inside the binder of a name binds the name.
pub proof fn lemma_binder_innermost(functions: Seq<CompilerFunction>, name: Seq<u8>, i: int)
    requires
        -1 <= i < functions.len(),
    ensures
        forall|k: int| binding_depth(functions, name, i) < k <= i ==> !binds(functions, name, k),
    decreases i + 1,
{
    if i >= 0 && !binds(functions, name, i) {
        lemma_binder_innermost(functions, name, i - 1);
    }
}

proof fn lemma_capture_fits(functions: Seq<CompilerFunction>, name: Seq<u8>)
    requires
        !chain_fits(functions, binder(functions, name) + 1),
    ensures
        !capture_fits(functions, name),
{
    if capture_fits(functions, name) {
        assert forall|k: int| binder(functions, name) + 1 <= k < functions.len() implies (
        #[trigger] functions[k]).upvalues@.len() < 256 by {}
    }
}

/// An upvalue of the innermost function, found or just created, is what
/// resolving the name yields.
proof fn lemma_found_resolved(
    functions: Seq<CompilerFunction>,
    name: Seq<u8>,
    after: Seq<CompilerFunction>,
)
    requires
        nest_wf(functions),
        binder(functions, name) == functions.len() - 1,
        local_at(functions, name, functions.len() - 1).is_none(),
        if functions.len() == 1 && name == env_name() && functions[0].upvalues@.len() == 0 {
            &&& after.len() == 1
            &&& functions[0].same_but_upvalues(after[0])
            &&& after[0].upvalues@.len() == 1
            &&& after[0].upvalues@[0].0@ == env_name()
            &&& after[0].upvalues@[0].1 == UpValueDescriptor::Environment
            &&& nest_wf(after)
            &&& nest_grows(functions, after)
        } else {
            after == functions
        },
    ensures
        nest_resolved(functions, name, after),
        capture_fits(functions, name),
        nest_wf(after),
        nest_grows(functions, after),
        upvalue_at(functions, name, functions.len() - 1) matches Some(j) && j < after[after.len()
            - 1].upvalues@.len(),
{
    let t = functions.len() - 1;
    lemma_binding_depth_range(functions, name, t);
    assert(binds(functions, name, t));
    lemma_first_upvalue_range(functions[t].upvalues@, name, 0);
    assert forall|k: int| 0 <= k < functions.len() implies function_resolved(
        functions,
        name,
        k,
        #[trigger] after[k],
    ) by {}
}

/// Capturing an upvalue of the binder, found or just created, from the
/// function just inside it inwards is what resolving the name does.
proof fn lemma_captured_after_found(
    functions: Seq<CompilerFunction>,
    mid: Seq<CompilerFunction>,
    name: Seq<u8>,
    first: UpValueDescriptor,
    after: Seq<CompilerFunction>,
)
    requires
        nest_wf(functions),
        0 <= binder(functions, name) < functions.len() - 1,
        local_at(functions, name, binder(functions, name)).is_none(),
        upvalue_at(functions, name, binder(functions, name)) matches Some(j) && first
            == UpValueDescriptor::Outer(UpValueIndex(j as u8)),
        if binder(functions, name) == 0 && name == env_name() && functions[0].upvalues@.len()
            == 0 {
            &&& mid.len() == functions.len()
            &&& forall|k: int| 1 <= k < functions.len() ==> #[trigger] mid[k] == functions[k]
            &&& functions[0].same_but_upvalues(mid[0])
            &&& mid[0].upvalues@.len() == 1
            &&& mid[0].upvalues@[0].0@ == env_name()
            &&& mid[0].upvalues@[0].1 == UpValueDescriptor::Environment
            &&& nest_grows(functions, mid)
        } else {
            mid == functions
        },
        nest_captured(mid, name, binder(functions, name) + 1, first, after),
        chain_fits(mid, binder(functions, name) + 1),
    ensures
        nest_resolved(functions, name, after),
        capture_fits(functions, name),
        nest_grows(functions, mid),
        local_at(functions, name, functions.len() - 1).is_none(),
        after[after.len() - 1].upvalues@.len() > functions[functions.len() - 1].upvalues@.len(),
        functions[functions.len() - 1].upvalues@.len() == resolved_upvalue(functions, name),
{
    let d = binder(functions, name);
    lemma_binder_innermost(functions, name, functions.len() - 1);
    assert forall|k: int| 0 <= k < functions.len() implies function_resolved(
        functions,
        name,
        k,
        #[trigger] after[k],
    ) by {
        if k > d {
            assert(mid[k] == functions[k]);
            assert(mid[k - 1].upvalues@.len() == functions[k - 1].upvalues@.len() || k - 1 == d);
            assert(chain_capture(mid, d + 1, first, k) == capture_of(functions, name, k));
        } else {
            assert(after[k] == mid[k]);
        }
    }
    assert forall|k: int| d < k < functions.len() implies (#[trigger] functions[k]).upvalues@.len()
        < 256 by {
        assert(mid[k] == functions[k]);
    }
    assert(mid[functions.len() - 1] == functions[functions.len() - 1]);
    assert(mid[functions.len() - 1].same_but_upvalues(after[functions.len() - 1]));
}

proof fn lemma_capture_fits_after_found(
    functions: Seq<CompilerFunction>,
    mid: Seq<CompilerFunction>,
    name: Seq<u8>,
)
    requires
        0 <= binder(functions, name),
        mid.len() == functions.len(),
        forall|k: int| 1 <= k < functions.len() ==> #[trigger] mid[k] == functions[k],
        !chain_fits(mid, binder(functions, name) + 1),
    ensures
        !capture_fits(functions, name),
{
    if capture_fits(functions, name) {
        assert forall|k: int| binder(functions, name) + 1 <= k < mid.len() implies (
        #[trigger] mid[k]).upvalues@.len() < 256 by {
            assert(mid[k] == functions[k]);
        }
    }
}

/// Where a name is a local of an enclosing function, resolving it gives
/// every function inside that one a new upvalue of that name: the function
/// just inside takes the local by its register, and each further one takes
/// the upvalue that the function around it has just got.
pub proof fn lemma_upvalue_chain(
    functions: Seq<CompilerFunction>,
    name: Seq<u8>,
    after: Seq<CompilerFunction>,
    k: int,
)
    requires
        nest_resolved(functions, name, after),
        0 <= binder(functions, name) < k < functions.len(),
        local_at(functions, name, binder(functions, name)).is_some(),
    ensures
        after[k].upvalues@.len() == functions[k].upvalues@.len() + 1,
        after[k].upvalues@.last().0@ == name,
        after[k].upvalues@.last().1 == if k == binder(functions, name) + 1 {
            UpValueDescriptor::ParentLocal(
                local_at(functions, name, binder(functions, name)).unwrap(),
            )
        } else {
            UpValueDescriptor::Outer(UpValueIndex((after[k - 1].upvalues@.len() - 1) as u8))
        },
{
    assert(function_resolved(functions, name, k, after[k]));
    if k > binder(functions, name) + 1 {
        assert(function_resolved(functions, name, k - 1, after[k - 1]));
    }
}

/// The outermost function captures the global environment lazily:
/// resolving a name other than `_ENV` leaves its upvalues as they are, and
/// resolving `_ENV` leaves it with that one upvalue at most.
pub proof fn lemma_environment_lazy(
    functions: Seq<CompilerFunction>,
    name: Seq<u8>,
    after: Seq<CompilerFunction>,
)
    requires
        functions.len() >= 1,
        nest_resolved(functions, name, after),
    ensures
        name != env_name() ==> after[0].upvalues == functions[0].upvalues,
        environment_only(functions[0].upvalues@) ==> environment_only(after[0].upvalues@),
{
    assert(function_resolved(functions, name, 0, after[0]));
    lemma_binding_depth_range(functions, name, functions.len() - 1);
}

/// Where no function of the nest has a local or an upvalue of its own
/// named `_ENV`, resolving that name leaves the outermost function with
/// exactly one upvalue: the global environment, under its name.
pub proof fn lemma_environment_captured(
    functions: Seq<CompilerFunction>,
    after: Seq<CompilerFunction>,
)
    requires
        nest_wf(functions),
        nest_resolved(functions, env_name(), after),
        local_at(functions, env_name(), 0).is_none(),
        forall|i: int| 1 <= i < functions.len() ==> !binds(functions, env_name(), i),
    ensures
        after[0].upvalues@.len() == 1,
        after[0].upvalues@[0].0@ == env_name(),
        after[0].upvalues@[0].1 == UpValueDescriptor::Environment,
{
    let t = functions.len() - 1;
    lemma_environment_bound(functions, t);
    lemma_binding_depth_range(functions, env_name(), t);
    assert(binder(functions, env_name()) == 0);
    assert(function_resolved(functions, env_name(), 0, after[0]));
    assert(environment_only(functions[0].upvalues@));
}

pub proof fn lemma_local_in(locals: Seq<(Vec<u8>, RegisterIndex)>, name: Seq<u8>, n: int)
    requires
        n <= locals.len(),
    ensures
        local_in(named_views(locals), name, n) == innermost_local(locals, name, n),
    decreases n,
{
    if n > 0 {
        lemma_local_in(locals, name, n - 1);
    }
}

pub proof fn lemma_upvalue_in(upvalues: Seq<(Vec<u8>, UpValueDescriptor)>, name: Seq<u8>, from: int)
    ensures
        upvalue_in(named_views(upvalues), name, from) == first_upvalue(upvalues, name, from),
    decreases upvalues.len() - from,
{
    if 0 <= from < upvalues.len() {
        lemma_upvalue_in(upvalues, name, from + 1);
    }
}

/// The functions that say what a name refers to say the same of a nest and
/// of what it holds.
pub proof fn lemma_binding_frame(state: Compiler, name: Seq<u8>, i: int)
    requires
        -1 <= i < state.functions@.len(),
    ensures
        binding_frame(state@, name, i) == binding_depth(state.functions@, name, i),
        forall|k: int|
            0 <= k < state.functions@.len() ==> #[trigger] frame_local(state@, name, k) == local_at(
                state.functions@,
                name,
                k,
            ),
        forall|k: int|
            0 <= k < state.functions@.len() ==> #[trigger] frame_upvalue(state@, name, k)
                == upvalue_at(state.functions@, name, k),
    decreases i + 1,
{
    let functions = state.functions@;
    assert forall|k: int| 0 <= k < functions.len() implies #[trigger] frame_local(state@, name, k)
        == local_at(functions, name, k) && frame_upvalue(state@, name, k) == upvalue_at(
        functions,
        name,
        k,
    ) by {
        lemma_local_in(functions[k].locals@, name, functions[k].locals@.len() as int);
        lemma_upvalue_in(functions[k].upvalues@, name, 0);
    }
    assert forall|k: int| 0 <= k < functions.len() implies #[trigger] frame_upvalue(
        state@,
        name,
        k,
    ) == upvalue_at(functions, name, k) by {
        lemma_upvalue_in(functions[k].upvalues@, name, 0);
    }
    if i >= 0 {
        lemma_binding_frame(state, name, i - 1);
    }
}

} // verus!
