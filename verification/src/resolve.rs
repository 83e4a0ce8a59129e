//! The whole-model resolution pass: walks modules and register groups in
//! model order, resolves each group's flag sets and address-ordered register
//! declarations, and threads the run-wide dedup and auxiliary-address state
//! through the scan in strict iteration order.

use vstd::prelude::*;
use crate::casing::{ascii_lower, pascal_field, snake_field, spec_lower, spec_pascal};
use crate::flags::{
    opt_string_view, register_flags, spec_find_instance, spec_register_flags,
};
use crate::layout::{
    lemma_sort_chain, placement, plan_gaps, sort_registers, spec_gaps, spec_placement, spec_sort,
};
use crate::model::{
    wf_group, wf_instance, wf_mcu, Error, FlagDecl, FlagDeclV, GroupPlan, GroupPlanV, Instance,
    InstanceV, Mcu, McuPlan, McuPlanV, McuV, ModulePlanV, ModuleV, Peripheral, PeripheralV, Register,
    RegisterDecl, RegisterDeclV, RegisterGroup, RegisterGroupV, RegisterV, Signal, ValueGroup,
    ValueGroupV, ModulePlan,
};

verus! {

/// The run-wide mutable state threaded through the scan: the signal-flag
/// type names declared so far, and the two auxiliary allocations.
#[verifier::ext_equal]
pub ghost struct RunState {
    pub defined: Seq<Seq<char>>,
    pub console: Option<u32>,
    pub command: Option<u32>,
}

/// The flag-type name of a register with explicit bitfields.
pub open spec fn spec_flags_name(scope: Seq<char>, reg_name: Seq<char>) -> Seq<char> {
    scope + spec_pascal(spec_lower(reg_name)) + "Flags"@
}

/// The group-wide signal-flag type name.
pub open spec fn spec_signal_name(scope: Seq<char>) -> Seq<char> {
    scope + "SignalFlags"@
}

/// Resolving the first `n` sorted registers of a group: the flag-type
/// declarations emitted, the per-register flag-type names, and the updated
/// set of declared signal-flag names.
pub open spec fn spec_regs_pass(
    sorted: Seq<RegisterV>,
    n: int,
    vgs: Seq<ValueGroupV>,
    scope: Seq<char>,
    inst: Option<InstanceV>,
    defined: Seq<Seq<char>>,
) -> Result<(Seq<FlagDeclV>, Seq<Option<Seq<char>>>, Seq<Seq<char>>), Error>
    decreases n,
{
    if n <= 0 {
        Ok((Seq::<FlagDeclV>::empty(), Seq::<Option<Seq<char>>>::empty(), defined))
    } else {
        match spec_regs_pass(sorted, n - 1, vgs, scope, inst, defined) {
            Err(e) => Err(e),
            Ok(prev) => match spec_register_flags(
                sorted[n - 1],
                vgs,
                scope,
                spec_signal_name(scope),
                spec_flags_name(scope, sorted[n - 1].name),
                inst,
                prev.2,
            ) {
                Err(e) => Err(e),
                Ok(v) => Ok(
                    (
                        match v.decl {
                            Option::Some(d) => prev.0.push(d),
                            Option::None => prev.0,
                        },
                        prev.1.push(v.flag_type),
                        v.defined,
                    ),
                ),
            },
        }
    }
}

/// Once a register has failed, later registers keep the same failure.
pub proof fn lemma_regs_error_persists(
    sorted: Seq<RegisterV>,
    i: int,
    n: int,
    vgs: Seq<ValueGroupV>,
    scope: Seq<char>,
    inst: Option<InstanceV>,
    defined: Seq<Seq<char>>,
    e: Error,
)
    requires
        0 <= i <= n,
        spec_regs_pass(sorted, i, vgs, scope, inst, defined) matches Err(e0) && e0 == e,
    ensures
        spec_regs_pass(sorted, n, vgs, scope, inst, defined) matches Err(e0) && e0 == e,
    decreases n,
{
    if n > i {
        lemma_regs_error_persists(sorted, i, n - 1, vgs, scope, inst, defined, e);
    }
}

/// Every declaration of the sequence keeps its enumerator identifiers
/// pairwise distinct.
pub open spec fn decls_unique(ds: Seq<FlagDeclV>) -> bool {
    forall|k: int| 0 <= k < ds.len() ==> crate::flags::decl_unique(#[trigger] ds[k])
}

/// Every flag declaration a register pass emits keeps its identifiers
/// pairwise distinct.
pub proof fn lemma_regs_pass_decls_unique(
    sorted: Seq<RegisterV>,
    n: int,
    vgs: Seq<ValueGroupV>,
    scope: Seq<char>,
    inst: Option<InstanceV>,
    defined: Seq<Seq<char>>,
)
    requires
        0 <= n,
        spec_regs_pass(sorted, n, vgs, scope, inst, defined) is Ok,
    ensures
        decls_unique(spec_regs_pass(sorted, n, vgs, scope, inst, defined)->Ok_0.0),
    decreases n,
{
    if n > 0 {
        lemma_regs_pass_decls_unique(sorted, n - 1, vgs, scope, inst, defined);
        let prev = spec_regs_pass(sorted, n - 1, vgs, scope, inst, defined)->Ok_0;
        let cur = spec_regs_pass(sorted, n, vgs, scope, inst, defined)->Ok_0;
        crate::flags::lemma_register_flags_unique(
            sorted[n - 1],
            vgs,
            scope,
            spec_signal_name(scope),
            spec_flags_name(scope, sorted[n - 1].name),
            inst,
            prev.2,
        );
        assert forall|k: int| 0 <= k < cur.0.len() implies crate::flags::decl_unique(
            #[trigger] cur.0[k],
        ) by {
            if k < prev.0.len() {
                assert(cur.0[k] == prev.0[k]);
            }
        }
    }
}

/// Law (the flag-set invariant, run-wide): in a resolved plan no flag
/// declaration holds two enumerators with the same identifier.
pub proof fn lemma_plan_flag_idents_unique(mcu: McuV)
    requires
        spec_resolve(mcu) is Ok,
    ensures
        forall|m: int, g: int, d: int|
            0 <= m < spec_resolve(mcu)->Ok_0.modules.len() && 0 <= g < spec_resolve(
                mcu,
            )->Ok_0.modules[m].groups.len() && 0 <= d < spec_resolve(
                mcu,
            )->Ok_0.modules[m].groups[g].flag_decls.len() ==> crate::flags::decl_unique(
                #[trigger] spec_resolve(mcu)->Ok_0.modules[m].groups[g].flag_decls[d],
            ),
{
    let insts = spec_flat_instances(mcu.device.peripherals, mcu.device.peripherals.len() as int);
    let rs = RunState {
        defined: Seq::<Seq<char>>::empty(),
        console: Option::None,
        command: Option::None,
    };
    lemma_modules_pass_decls_unique(mcu.modules, mcu.modules.len() as int, insts, rs);
}

proof fn lemma_groups_pass_decls_unique(
    gs: Seq<RegisterGroupV>,
    n: int,
    vgs: Seq<ValueGroupV>,
    insts: Seq<InstanceV>,
    rs: RunState,
)
    requires
        0 <= n,
        spec_groups_pass(gs, n, vgs, insts, rs) is Ok,
    ensures
        forall|g: int, d: int|
            0 <= g < spec_groups_pass(gs, n, vgs, insts, rs)->Ok_0.0.len() && 0 <= d
                < spec_groups_pass(gs, n, vgs, insts, rs)->Ok_0.0[g].flag_decls.len()
                ==> crate::flags::decl_unique(
                #[trigger] spec_groups_pass(gs, n, vgs, insts, rs)->Ok_0.0[g].flag_decls[d],
            ),
    decreases n,
{
    if n > 0 {
        lemma_groups_pass_decls_unique(gs, n - 1, vgs, insts, rs);
        let prev = spec_groups_pass(gs, n - 1, vgs, insts, rs)->Ok_0;
        let cur = spec_groups_pass(gs, n, vgs, insts, rs)->Ok_0;
        let g0 = gs[n - 1];
        let scope = spec_pascal(spec_lower(g0.name));
        let sorted = spec_sort(g0.registers, g0.registers.len() as int);
        let inst = spec_find_instance(insts, insts.len() as int, g0.name);
        lemma_regs_pass_decls_unique(
            sorted,
            sorted.len() as int,
            vgs,
            scope,
            inst,
            prev.1.defined,
        );
        assert forall|g: int, d: int|
            0 <= g < cur.0.len() && 0 <= d < cur.0[g].flag_decls.len() implies crate::flags::decl_unique(
            #[trigger] cur.0[g].flag_decls[d],
        ) by {
            if g < prev.0.len() {
                assert(cur.0[g] == prev.0[g]);
            } else {
                assert(cur.0[g] == spec_group(g0, vgs, insts, prev.1)->Ok_0.0);
                assert(decls_unique(cur.0[g].flag_decls));
            }
        }
    }
}

proof fn lemma_modules_pass_decls_unique(
    ms: Seq<ModuleV>,
    n: int,
    insts: Seq<InstanceV>,
    rs: RunState,
)
    requires
        0 <= n,
        spec_modules_pass(ms, n, insts, rs) is Ok,
    ensures
        forall|m: int, g: int, d: int|
            0 <= m < spec_modules_pass(ms, n, insts, rs)->Ok_0.0.len() && 0 <= g
                < spec_modules_pass(ms, n, insts, rs)->Ok_0.0[m].groups.len() && 0 <= d
                < spec_modules_pass(ms, n, insts, rs)->Ok_0.0[m].groups[g].flag_decls.len()
                ==> crate::flags::decl_unique(
                #[trigger] spec_modules_pass(ms, n, insts, rs)->Ok_0.0[m].groups[g].flag_decls[d],
            ),
    decreases n,
{
    if n > 0 {
        lemma_modules_pass_decls_unique(ms, n - 1, insts, rs);
        let prev = spec_modules_pass(ms, n - 1, insts, rs)->Ok_0;
        let cur = spec_modules_pass(ms, n, insts, rs)->Ok_0;
        lemma_groups_pass_decls_unique(
            ms[n - 1].register_groups,
            ms[n - 1].register_groups.len() as int,
            ms[n - 1].value_groups,
            insts,
            prev.1,
        );
        assert forall|m: int, g: int, d: int|
            0 <= m < cur.0.len() && 0 <= g < cur.0[m].groups.len() && 0 <= d
                < cur.0[m].groups[g].flag_decls.len() implies crate::flags::decl_unique(
            #[trigger] cur.0[m].groups[g].flag_decls[d],
        ) by {
            if m < prev.0.len() {
                assert(cur.0[m] == prev.0[m]);
            }
        }
    }
}

/// Whether some declaration among the first `d` carries the given type name.
pub open spec fn has_decl_named(decls: Seq<FlagDeclV>, name: Seq<char>) -> bool {
    exists|d: int| 0 <= d < decls.len() && (#[trigger] decls[d]).ty_name == name
}

/// Law: one group's signal-flag type is declared at most once per run —
/// after the first flag-less register declares it, its name is recorded and
/// every later flag-less register reuses the type without a second
/// declaration.  (No explicit flag-type name may collide with the signal
/// name, which holds of every name ending in a different suffix.)
pub proof fn lemma_signal_decl_once(
    sorted: Seq<RegisterV>,
    n: int,
    vgs: Seq<ValueGroupV>,
    scope: Seq<char>,
    inst: Option<InstanceV>,
    defined: Seq<Seq<char>>,
)
    requires
        0 <= n,
        spec_regs_pass(sorted, n, vgs, scope, inst, defined) is Ok,
        forall|i: int|
            0 <= i < n ==> spec_flags_name(scope, (#[trigger] sorted[i]).name)
                != spec_signal_name(scope),
    ensures
        spec_regs_pass(sorted, n, vgs, scope, inst, defined)->Ok_0.2.contains(
            spec_signal_name(scope),
        ) <==> (defined.contains(spec_signal_name(scope)) || has_decl_named(
            spec_regs_pass(sorted, n, vgs, scope, inst, defined)->Ok_0.0,
            spec_signal_name(scope),
        )),
        forall|a: int, b: int|
            0 <= a < b < spec_regs_pass(sorted, n, vgs, scope, inst, defined)->Ok_0.0.len()
                && spec_regs_pass(sorted, n, vgs, scope, inst, defined)->Ok_0.0[a].ty_name
                == spec_signal_name(scope) ==> spec_regs_pass(
                sorted,
                n,
                vgs,
                scope,
                inst,
                defined,
            )->Ok_0.0[b].ty_name != spec_signal_name(scope),
    decreases n,
{
    let signame = spec_signal_name(scope);
    if n > 0 {
        lemma_signal_decl_once(sorted, n - 1, vgs, scope, inst, defined);
        let prev = spec_regs_pass(sorted, n - 1, vgs, scope, inst, defined)->Ok_0;
        let cur = spec_regs_pass(sorted, n, vgs, scope, inst, defined)->Ok_0;
        let v = spec_register_flags(
            sorted[n - 1],
            vgs,
            scope,
            signame,
            spec_flags_name(scope, sorted[n - 1].name),
            inst,
            prev.2,
        )->Ok_0;
        match v.decl {
            Option::Some(d) => {
                assert(cur.0 == prev.0.push(d));
                if d.ty_name == signame {
                    assert(!prev.2.contains(signame));
                    assert(!has_decl_named(prev.0, signame));
                    assert(v.defined == prev.2.push(signame));
                    crate::values::lemma_seq_push_contains(prev.2, signame, signame);
                    assert(cur.0[cur.0.len() - 1] == d);
                    assert(has_decl_named(cur.0, signame));
                    assert forall|a: int, b: int|
                        0 <= a < b < cur.0.len() && cur.0[a].ty_name == signame implies cur.0[b].ty_name
                        != signame by {
                        if b < prev.0.len() {
                            assert(prev.0[a].ty_name == signame);
                        } else {
                            assert(prev.0[a] == cur.0[a]);
                            assert(has_decl_named(prev.0, signame));
                        }
                    }
                } else {
                    assert(v.defined == prev.2);
                    assert forall|id: Seq<char>| #[trigger]
                        cur.2.contains(id) == prev.2.contains(id) by {}
                    assert(has_decl_named(cur.0, signame) == has_decl_named(prev.0, signame)) by {
                        if has_decl_named(cur.0, signame) {
                            let e = choose|e: int|
                                0 <= e < cur.0.len() && (#[trigger] cur.0[e]).ty_name == signame;
                            assert(e < prev.0.len());
                        }
                        if has_decl_named(prev.0, signame) {
                            let e = choose|e: int|
                                0 <= e < prev.0.len() && (#[trigger] prev.0[e]).ty_name == signame;
                            assert(cur.0[e].ty_name == signame);
                        }
                    }
                    assert forall|a: int, b: int|
                        0 <= a < b < cur.0.len() && cur.0[a].ty_name == signame implies cur.0[b].ty_name
                        != signame by {
                        if b < prev.0.len() {
                        } else {
                            assert(cur.0[b] == d);
                        }
                    }
                }
            },
            Option::None => {
                assert(cur.0 == prev.0);
                assert(cur.2 == prev.2);
            },
        }
    }
}

/// The declarations of the placement-eligible registers among the first `n`
/// sorted ones, annotated with their resolved flag types.
pub open spec fn spec_reg_decls(
    sorted: Seq<RegisterV>,
    ftypes: Seq<Option<Seq<char>>>,
    n: int,
) -> Seq<RegisterDeclV>
    decreases n,
{
    if n <= 0 {
        Seq::<RegisterDeclV>::empty()
    } else {
        let prev = spec_reg_decls(sorted, ftypes, n - 1);
        let reg = sorted[n - 1];
        match spec_placement(reg.offset) {
            Option::Some(attr) => prev.push(
                RegisterDeclV {
                    field_name: spec_lower(reg.name),
                    doc_name: reg.name,
                    offset: reg.offset,
                    size: reg.size,
                    attribute: attr,
                    flag_type: ftypes[n - 1],
                },
            ),
            Option::None => prev,
        }
    }
}

/// Resolving one register group: scope name, flag declarations, declarable
/// registers in address order, and the updated run state after scanning the
/// group's gaps.
pub open spec fn spec_group(
    g: RegisterGroupV,
    vgs: Seq<ValueGroupV>,
    insts: Seq<InstanceV>,
    rs: RunState,
) -> Result<(GroupPlanV, RunState), Error> {
    let scope = spec_pascal(spec_lower(g.name));
    let sorted = spec_sort(g.registers, g.registers.len() as int);
    let inst = spec_find_instance(insts, insts.len() as int, g.name);
    match spec_regs_pass(sorted, sorted.len() as int, vgs, scope, inst, rs.defined) {
        Err(e) => Err(e),
        Ok(pass) => {
            let gaps = spec_gaps(sorted, sorted.len() as int, rs.console, rs.command);
            Ok(
                (
                    GroupPlanV {
                        scope_name: scope,
                        group_name: g.name,
                        group_caption: g.caption,
                        flag_decls: pass.0,
                        registers: spec_reg_decls(sorted, pass.1, sorted.len() as int),
                    },
                    RunState { defined: pass.2, console: gaps.0, command: gaps.1 },
                ),
            )
        },
    }
}

/// Law: the auxiliary allocations are run-wide singletons — a group scanned
/// after either address has been taken hands both through unchanged, so the
/// first gap of the whole run wins each slot exactly once.
pub proof fn lemma_group_allocation_singular(
    g: RegisterGroupV,
    vgs: Seq<ValueGroupV>,
    insts: Seq<InstanceV>,
    rs: RunState,
)
    requires
        spec_group(g, vgs, insts, rs) is Ok,
    ensures
        rs.console is Some ==> spec_group(g, vgs, insts, rs)->Ok_0.1.console == rs.console,
        rs.command is Some ==> spec_group(g, vgs, insts, rs)->Ok_0.1.command == rs.command,
{
    let sorted = spec_sort(g.registers, g.registers.len() as int);
    crate::layout::lemma_allocation_singular(sorted, sorted.len() as int, rs.console, rs.command);
}

/// Resolving the first `n` groups of one module.
pub open spec fn spec_groups_pass(
    gs: Seq<RegisterGroupV>,
    n: int,
    vgs: Seq<ValueGroupV>,
    insts: Seq<InstanceV>,
    rs: RunState,
) -> Result<(Seq<GroupPlanV>, RunState), Error>
    decreases n,
{
    if n <= 0 {
        Ok((Seq::<GroupPlanV>::empty(), rs))
    } else {
        match spec_groups_pass(gs, n - 1, vgs, insts, rs) {
            Err(e) => Err(e),
            Ok(prev) => match spec_group(gs[n - 1], vgs, insts, prev.1) {
                Err(e) => Err(e),
                Ok(one) => Ok((prev.0.push(one.0), one.1)),
            },
        }
    }
}

/// Once a group has failed, later groups keep the same failure.
pub proof fn lemma_groups_error_persists(
    gs: Seq<RegisterGroupV>,
    i: int,
    n: int,
    vgs: Seq<ValueGroupV>,
    insts: Seq<InstanceV>,
    rs: RunState,
    e: Error,
)
    requires
        0 <= i <= n,
        spec_groups_pass(gs, i, vgs, insts, rs) matches Err(e0) && e0 == e,
    ensures
        spec_groups_pass(gs, n, vgs, insts, rs) matches Err(e0) && e0 == e,
    decreases n,
{
    if n > i {
        lemma_groups_error_persists(gs, i, n - 1, vgs, insts, rs, e);
    }
}

/// Resolving the first `n` modules, each over its own value groups.
pub open spec fn spec_modules_pass(
    ms: Seq<ModuleV>,
    n: int,
    insts: Seq<InstanceV>,
    rs: RunState,
) -> Result<(Seq<ModulePlanV>, RunState), Error>
    decreases n,
{
    if n <= 0 {
        Ok((Seq::<ModulePlanV>::empty(), rs))
    } else {
        match spec_modules_pass(ms, n - 1, insts, rs) {
            Err(e) => Err(e),
            Ok(prev) => match spec_groups_pass(
                ms[n - 1].register_groups,
                ms[n - 1].register_groups.len() as int,
                ms[n - 1].value_groups,
                insts,
                prev.1,
            ) {
                Err(e) => Err(e),
                Ok(one) => Ok((prev.0.push(ModulePlanV { groups: one.0 }), one.1)),
            },
        }
    }
}

/// Once a module has failed, later modules keep the same failure.
pub proof fn lemma_modules_error_persists(
    ms: Seq<ModuleV>,
    i: int,
    n: int,
    insts: Seq<InstanceV>,
    rs: RunState,
    e: Error,
)
    requires
        0 <= i <= n,
        spec_modules_pass(ms, i, insts, rs) matches Err(e0) && e0 == e,
    ensures
        spec_modules_pass(ms, n, insts, rs) matches Err(e0) && e0 == e,
    decreases n,
{
    if n > i {
        lemma_modules_error_persists(ms, i, n - 1, insts, rs, e);
    }
}

/// All peripheral instances, flattened in model order.
pub open spec fn spec_flat_instances(ps: Seq<PeripheralV>, n: int) -> Seq<InstanceV>
    decreases n,
{
    if n <= 0 {
        Seq::<InstanceV>::empty()
    } else {
        spec_flat_instances(ps, n - 1) + ps[n - 1].instances
    }
}

/// Resolving the whole model, from an empty run state.
pub open spec fn spec_resolve(mcu: McuV) -> Result<McuPlanV, Error> {
    let insts = spec_flat_instances(mcu.device.peripherals, mcu.device.peripherals.len() as int);
    let rs = RunState {
        defined: Seq::<Seq<char>>::empty(),
        console: Option::None,
        command: Option::None,
    };
    match spec_modules_pass(mcu.modules, mcu.modules.len() as int, insts, rs) {
        Err(e) => Err(e),
        Ok(all) => Ok(
            McuPlanV { modules: all.0, console: all.1.console, command: all.1.command },
        ),
    }
}

fn clone_signal(s: &Signal) -> (r: Signal)
    ensures
        r@ == s@,
{
    Signal { pad: s.pad.clone(), index: s.index }
}

#[verifier::loop_isolation(false)]
fn clone_instance(inst: &Instance) -> (r: Instance)
    ensures
        r@ == inst@,
{
    let n = inst.signals.len();
    let mut sigs: Vec<Signal> = Vec::new();
    let mut i: usize = 0;
    while i < n
        invariant
            i <= n,
            n == inst.signals@.len(),
            sigs@.map_values(|s: Signal| s@) =~= inst.signals@.map_values(|s: Signal| s@).take(
                i as int,
            ),
        decreases n - i,
    {
        sigs.push(clone_signal(&inst.signals[i]));
        proof {
            assert(sigs@.map_values(|s: Signal| s@) =~= inst.signals@.map_values(
                |s: Signal| s@,
            ).take(i + 1));
        }
        i = i + 1;
    }
    let r = Instance { name: inst.name.clone(), signals: sigs };
    proof {
        assert(r@ =~= inst@);
    }
    r
}

/// Collects every peripheral instance, in model order, for name lookups.
#[verifier::loop_isolation(false)]
pub fn flat_instances(ps: &Vec<Peripheral>) -> (r: Vec<Instance>)
    requires
        forall|p: int, i: int|
            0 <= p < ps@.len() && 0 <= i < ps@[p]@.instances.len() ==> wf_instance(
                #[trigger] ps@[p]@.instances[i],
            ),
    ensures
        r@.map_values(|x: Instance| x@) == spec_flat_instances(
            ps@.map_values(|p: Peripheral| p@),
            ps@.len() as int,
        ),
        forall|k: int| 0 <= k < r@.len() ==> wf_instance((#[trigger] r@[k])@),
{
    let ghost psv = ps@.map_values(|p: Peripheral| p@);
    let np = ps.len();
    let mut out: Vec<Instance> = Vec::new();
    let mut p: usize = 0;
    while p < np
        invariant
            p <= np,
            np == ps@.len(),
            out@.map_values(|x: Instance| x@) =~= spec_flat_instances(psv, p as int),
            forall|k: int| 0 <= k < out@.len() ==> wf_instance((#[trigger] out@[k])@),
        decreases np - p,
    {
        proof {
            assert(psv[p as int] == ps@[p as int]@);
        }
        let peri = &ps[p];
        let ni = peri.instances.len();
        let mut i: usize = 0;
        while i < ni
            invariant
                i <= ni,
                ni == peri.instances@.len(),
                peri == &ps[p as int],
                p < np,
                np == ps@.len(),
                out@.map_values(|x: Instance| x@) =~= spec_flat_instances(psv, p as int)
                    + psv[p as int].instances.take(i as int),
                forall|k: int| 0 <= k < out@.len() ==> wf_instance((#[trigger] out@[k])@),
            decreases ni - i,
        {
            proof {
                assert(psv[p as int] == ps@[p as int]@);
                assert(psv[p as int].instances[i as int] == peri.instances@[i as int]@);
            }
            let ghost out0 = out@;
            out.push(clone_instance(&peri.instances[i]));
            proof {
                assert(out@.map_values(|x: Instance| x@) =~= out0.map_values(
                    |x: Instance| x@,
                ).push(out@[out0.len() as int]@));
                assert(psv[p as int].instances.take(i + 1) =~= psv[p as int].instances.take(
                    i as int,
                ).push(psv[p as int].instances[i as int]));
                assert(out@.map_values(|x: Instance| x@) =~= spec_flat_instances(psv, p as int)
                    + psv[p as int].instances.take(i + 1));
            }
            i = i + 1;
        }
        proof {
            assert(psv[p as int].instances.take(ni as int) =~= psv[p as int].instances);
            assert(out@.map_values(|x: Instance| x@) =~= spec_flat_instances(psv, p + 1));
        }
        p = p + 1;
    }
    out
}

/// Resolves one register group against its module's value groups, threading
/// the run-wide state.
#[verifier::loop_isolation(false)]
pub fn resolve_group(
    g: &RegisterGroup,
    vgs: &Vec<ValueGroup>,
    insts: &Vec<Instance>,
    defined: &mut Vec<String>,
    console: Option<u32>,
    command: Option<u32>,
) -> (r: Result<(GroupPlan, Option<u32>, Option<u32>), Error>)
    requires
        wf_group(g@),
        forall|k: int| 0 <= k < insts@.len() ==> wf_instance((#[trigger] insts@[k])@),
    ensures
        match spec_group(
            g@,
            vgs@.map_values(|x: ValueGroup| x@),
            insts@.map_values(|x: Instance| x@),
            RunState {
                defined: old(defined)@.map_values(|s: String| s@),
                console,
                command,
            },
        ) {
            Ok(one) => r matches Ok(t) && t.0@ == one.0 && t.1 == one.1.console && t.2
                == one.1.command && final(defined)@.map_values(|s: String| s@) == one.1.defined,
            Err(e) => r == Err::<(GroupPlan, Option<u32>, Option<u32>), Error>(e),
        },
{
    let ghost vgsv = vgs@.map_values(|x: ValueGroup| x@);
    let ghost instsv = insts@.map_values(|x: Instance| x@);
    let ghost defined0 = defined@.map_values(|s: String| s@);
    let lowered = ascii_lower(&g.name);
    let scope = pascal_field(&lowered);
    let mut signame = scope.clone();
    signame.append("SignalFlags");
    proof {
        assert(signame@ =~= spec_signal_name(scope@));
    }
    let sorted = sort_registers(&g.registers);
    let ghost sortedv = spec_sort(g@.registers, g@.registers.len() as int);
    proof {
        assert(g.registers@.map_values(|x: Register| x@) =~= g@.registers);
        lemma_sort_chain(g@.registers, g@.registers.len() as int);
    }
    let inst = find_instance_wf(insts, &g.name);
    let n = sorted.len();
    let mut decls: Vec<FlagDecl> = Vec::new();
    let mut ftypes: Vec<Option<String>> = Vec::new();
    proof {
        assert(decls@.map_values(|d: FlagDecl| d@) =~= Seq::<FlagDeclV>::empty());
        assert(ftypes@.map_values(|o: Option<String>| opt_string_view(o)) =~= Seq::<
            Option<Seq<char>>,
        >::empty());
    }
    let mut i: usize = 0;
    while i < n
        invariant
            i <= n,
            n == sorted@.len(),
            ftypes@.len() == i,
            sorted@.map_values(|x: Register| x@) == sortedv,
            sortedv.len() == n,
            match inst {
                Option::Some(x) => wf_instance(x@),
                Option::None => true,
            },
            crate::flags::opt_inst_view(inst) == spec_find_instance(
                instsv,
                instsv.len() as int,
                g@.name,
            ),
            spec_regs_pass(sortedv, i as int, vgsv, scope@, crate::flags::opt_inst_view(inst), defined0)
                == Ok::<(Seq<FlagDeclV>, Seq<Option<Seq<char>>>, Seq<Seq<char>>), Error>(
                (
                    decls@.map_values(|d: FlagDecl| d@),
                    ftypes@.map_values(|o: Option<String>| opt_string_view(o)),
                    defined@.map_values(|s: String| s@),
                ),
            ),
        decreases n - i,
    {
        proof {
            assert(sortedv[i as int] == sorted@[i as int]@);
        }
        let reg = &sorted[i];
        let reg_lowered = ascii_lower(&reg.name);
        let reg_pascal = pascal_field(&reg_lowered);
        let mut flags_name = scope.clone();
        flags_name.append(reg_pascal.as_str());
        flags_name.append("Flags");
        proof {
            assert(flags_name@ =~= spec_flags_name(scope@, sortedv[i as int].name));
        }
        let ghost prev = spec_regs_pass(
            sortedv,
            i as int,
            vgsv,
            scope@,
            crate::flags::opt_inst_view(inst),
            defined0,
        );
        match register_flags(reg, vgs, &scope, &signame, &flags_name, inst, defined) {
            Ok(one) => {
                let (decl_opt, ftype) = one;
                match decl_opt {
                    Some(d) => decls.push(d),
                    None => {},
                }
                ftypes.push(ftype);
                proof {
                    assert(spec_regs_pass(
                        sortedv,
                        i + 1,
                        vgsv,
                        scope@,
                        crate::flags::opt_inst_view(inst),
                        defined0,
                    ) matches Ok(cur) && cur.0 =~~= decls@.map_values(|d: FlagDecl| d@)
                        && cur.1 =~~= ftypes@.map_values(|o: Option<String>| opt_string_view(o))
                        && cur.2 =~~= defined@.map_values(|s: String| s@));
                }
            },
            Err(e) => {
                proof {
                    lemma_regs_error_persists(
                        sortedv,
                        i + 1,
                        n as int,
                        vgsv,
                        scope@,
                        crate::flags::opt_inst_view(inst),
                        defined0,
                        e,
                    );
                }
                return Err(e);
            },
        }
        i = i + 1;
    }
    let gaps = plan_gaps(&sorted, console, command);
    let ghost ftypesv = ftypes@.map_values(|o: Option<String>| opt_string_view(o));
    let mut regs_out: Vec<RegisterDecl> = Vec::new();
    proof {
        assert(regs_out@.map_values(|d: RegisterDecl| d@) =~= spec_reg_decls(sortedv, ftypesv, 0));
    }
    let mut j: usize = 0;
    while j < n
        invariant
            j <= n,
            n == sorted@.len(),
            n == ftypes@.len(),
            sorted@.map_values(|x: Register| x@) == sortedv,
            sortedv.len() == n,
            ftypesv == ftypes@.map_values(|o: Option<String>| opt_string_view(o)),
            regs_out@.map_values(|d: RegisterDecl| d@) =~= spec_reg_decls(
                sortedv,
                ftypesv,
                j as int,
            ),
        decreases n - j,
    {
        proof {
            assert(sortedv[j as int] == sorted@[j as int]@);
            assert(ftypesv[j as int] == opt_string_view(ftypes@[j as int]));
        }
        let reg = &sorted[j];
        match placement(reg.offset) {
            Some(attr) => {
                let lowered_name = ascii_lower(&reg.name);
                let field_name = snake_field(&lowered_name);
                let decl = RegisterDecl {
                    field_name,
                    doc_name: reg.name.clone(),
                    offset: reg.offset,
                    size: reg.size,
                    attribute: String::from_str(attr),
                    flag_type: crate::layout::clone_string_opt(&ftypes[j]),
                };
                regs_out.push(decl);
            },
            None => {},
        }
        proof {
            assert(regs_out@.map_values(|d: RegisterDecl| d@) =~= spec_reg_decls(
                sortedv,
                ftypesv,
                j + 1,
            ));
        }
        j = j + 1;
    }
    let plan = GroupPlan {
        scope_name: scope,
        group_name: g.name.clone(),
        group_caption: g.caption.clone(),
        flag_decls: decls,
        registers: regs_out,
    };
    proof {
        let rs0 = RunState { defined: defined0, console, command };
        let one = spec_group(g@, vgsv, instsv, rs0)->Ok_0;
        assert(plan@ =~~= one.0);
    }
    Ok((plan, gaps.0, gaps.1))
}

/// A name lookup that also hands back the instance's well-formedness.
#[verifier::loop_isolation(false)]
fn find_instance_wf<'a>(insts: &'a Vec<Instance>, name: &String) -> (r: Option<&'a Instance>)
    requires
        forall|k: int| 0 <= k < insts@.len() ==> wf_instance((#[trigger] insts@[k])@),
    ensures
        crate::flags::opt_inst_view(r) == spec_find_instance(
            insts@.map_values(|x: Instance| x@),
            insts@.len() as int,
            name@,
        ),
        match r {
            Option::Some(x) => wf_instance(x@),
            Option::None => true,
        },
{
    let r = crate::flags::find_instance(insts, name);
    proof {
        match r {
            Option::Some(x) => {
                let s = insts@.map_values(|x2: Instance| x2@);
                lemma_find_instance_element(s, s.len() as int, name@);
            },
            Option::None => {},
        }
    }
    r
}

/// A found instance is one of the sequence's elements.
proof fn lemma_find_instance_element(s: Seq<InstanceV>, n: int, name: Seq<char>)
    requires
        0 <= n <= s.len(),
    ensures
        spec_find_instance(s, n, name) matches Some(iv) ==> exists|k: int|
            0 <= k < n && s[k] == iv,
    decreases n,
{
    if n > 0 {
        lemma_find_instance_element(s, n - 1, name);
        if s[n - 1].name == name {
            assert(0 <= n - 1 < n && s[n - 1] == spec_find_instance(s, n, name)->Some_0);
        }
    }
}

/// Resolves the whole model into its emission plan.
#[verifier::loop_isolation(false)]
pub fn resolve_mcu(mcu: &Mcu) -> (r: Result<McuPlan, Error>)
    requires
        wf_mcu(mcu@),
    ensures
        match spec_resolve(mcu@) {
            Ok(pv) => r matches Ok(p) && p@ == pv,
            Err(e) => r == Err::<McuPlan, Error>(e),
        },
{
    proof {
        assert forall|p: int, i: int|
            0 <= p < mcu.device.peripherals@.len() && 0 <= i < mcu.device.peripherals@[p]@.instances.len()
            implies wf_instance(#[trigger] mcu.device.peripherals@[p]@.instances[i]) by {
            assert(mcu@.device.peripherals[p] == mcu.device.peripherals@[p]@);
        }
    }
    let insts = flat_instances(&mcu.device.peripherals);
    let ghost instsv = insts@.map_values(|x: Instance| x@);
    proof {
        assert(mcu.device.peripherals@.map_values(|p: Peripheral| p@) =~= mcu@.device.peripherals);
    }
    let nm = mcu.modules.len();
    let ghost msv = mcu@.modules;
    let ghost rs0 = RunState {
        defined: Seq::<Seq<char>>::empty(),
        console: Option::None,
        command: Option::None,
    };
    let mut defined: Vec<String> = Vec::new();
    let mut console: Option<u32> = None;
    let mut command: Option<u32> = None;
    let mut modules: Vec<ModulePlan> = Vec::new();
    proof {
        assert(defined@.map_values(|s: String| s@) =~= rs0.defined);
        assert(modules@.map_values(|x: ModulePlan| x@) =~= Seq::<ModulePlanV>::empty());
        assert(RunState { defined: defined@.map_values(|s: String| s@), console, command }
            =~~= rs0);
    }
    let mut m: usize = 0;
    while m < nm
        invariant
            m <= nm,
            nm == mcu.modules@.len(),
            msv == mcu@.modules,
            instsv == insts@.map_values(|x: Instance| x@),
            forall|k: int| 0 <= k < insts@.len() ==> wf_instance((#[trigger] insts@[k])@),
            spec_modules_pass(msv, m as int, instsv, rs0) == Ok::<
                (Seq<ModulePlanV>, RunState),
                Error,
            >(
                (
                    modules@.map_values(|x: ModulePlan| x@),
                    RunState {
                        defined: defined@.map_values(|s: String| s@),
                        console,
                        command,
                    },
                ),
            ),
        decreases nm - m,
    {
        proof {
            assert(msv[m as int] == mcu.modules@[m as int]@);
        }
        let module = &mcu.modules[m];
        let ng = module.register_groups.len();
        let ghost gsv = msv[m as int].register_groups;
        let ghost vgsv = msv[m as int].value_groups;
        let ghost rs_in = RunState {
            defined: defined@.map_values(|s: String| s@),
            console,
            command,
        };
        let mut groups: Vec<GroupPlan> = Vec::new();
        proof {
            assert(groups@.map_values(|x: GroupPlan| x@) =~= Seq::<GroupPlanV>::empty());
        }
        let mut gi: usize = 0;
        while gi < ng
            invariant
                gi <= ng,
                ng == module.register_groups@.len(),
                module == &mcu.modules[m as int],
                m < nm,
                nm == mcu.modules@.len(),
                msv == mcu@.modules,
                gsv == msv[m as int].register_groups,
                vgsv == msv[m as int].value_groups,
                instsv == insts@.map_values(|x: Instance| x@),
                forall|k: int| 0 <= k < insts@.len() ==> wf_instance((#[trigger] insts@[k])@),
                spec_groups_pass(gsv, gi as int, vgsv, instsv, rs_in) == Ok::<
                    (Seq<GroupPlanV>, RunState),
                    Error,
                >(
                    (
                        groups@.map_values(|x: GroupPlan| x@),
                        RunState {
                            defined: defined@.map_values(|s: String| s@),
                            console,
                            command,
                        },
                    ),
                ),
            decreases ng - gi,
        {
            proof {
                assert(gsv[gi as int] == module.register_groups@[gi as int]@);
                assert(vgsv =~= module.value_groups@.map_values(|x: ValueGroup| x@));
                assert(wf_group(gsv[gi as int])) by {
                    assert(wf_mcu(mcu@));
                }
            }
            let group = &module.register_groups[gi];
            match resolve_group(group, &module.value_groups, &insts, &mut defined, console, command) {
                Ok(t) => {
                    let (plan, con2, com2) = t;
                    console = con2;
                    command = com2;
                    groups.push(plan);
                    proof {
                        assert(spec_groups_pass(gsv, gi + 1, vgsv, instsv, rs_in) matches Ok(cur)
                            && cur.0 =~~= groups@.map_values(|x: GroupPlan| x@) && cur.1 =~~= RunState {
                            defined: defined@.map_values(|s: String| s@),
                            console,
                            command,
                        });
                    }
                },
                Err(e) => {
                    proof {
                        lemma_groups_error_persists(gsv, gi + 1, ng as int, vgsv, instsv, rs_in, e);
                        lemma_modules_error_persists(msv, m + 1, nm as int, instsv, rs0, e);
                    }
                    return Err(e);
                },
            }
            gi = gi + 1;
        }
        modules.push(ModulePlan { groups });
        proof {
            assert(spec_modules_pass(msv, m + 1, instsv, rs0) matches Ok(cur) && cur.0
                =~~= modules@.map_values(|x: ModulePlan| x@) && cur.1 =~~= RunState {
                defined: defined@.map_values(|s: String| s@),
                console,
                command,
            });
        }
        m = m + 1;
    }
    let plan = McuPlan { modules, console, command };
    proof {
        assert(plan@ =~~= spec_resolve(mcu@)->Ok_0);
    }
    Ok(plan)
}

} // verus!
