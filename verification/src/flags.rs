//! The bitfield flag builder: assembles, per register, the set of named mask
//! constants — from explicit bitfields, expanded value groups, or, when a
//! register has none, from the matching peripheral instance's bit-indexed
//! signals.  The signal-derived type is declared once per name and reused.

use vstd::prelude::*;
use crate::casing::{screaming_field, spec_upper};
use crate::ident::{or_name, spec_or_name};
use crate::model::{
    BitfieldV, Error, ExpandState, FlagDecl, FlagDeclV, FlagEntry, FlagEntryV, Instance, InstanceV,
    Register, RegisterV, SignalV, ValueGroup, ValueGroupV, wf_instance,
};
use crate::values::{
    contains_str, entries_wf, expand_value_group, lemma_expand_grows, lemma_seq_push_contains,
    spec_expand_values, state_of,
};

verus! {

/// The value group a name resolves to: the last group of that name, as a
/// name-keyed map built by insertion would resolve it.
pub open spec fn spec_find_value_group(vgs: Seq<ValueGroupV>, n: int, name: Seq<char>) -> Option<
    ValueGroupV,
>
    decreases n,
{
    if n <= 0 {
        Option::None
    } else if vgs[n - 1].name == name {
        Option::Some(vgs[n - 1])
    } else {
        spec_find_value_group(vgs, n - 1, name)
    }
}

/// Looks a value group up by name, later entries shadowing earlier ones.
#[verifier::loop_isolation(false)]
pub fn find_value_group<'a>(vgs: &'a Vec<ValueGroup>, name: &String) -> (r: Option<
    &'a ValueGroup,
>)
    ensures
        match spec_find_value_group(vgs@.map_values(|g: ValueGroup| g@), vgs@.len() as int, name@) {
            Option::Some(vgv) => r matches Some(x) && x@ == vgv,
            Option::None => r is None,
        },
{
    let ghost s = vgs@.map_values(|g: ValueGroup| g@);
    let mut i: usize = vgs.len();
    while i > 0
        invariant
            i <= vgs@.len(),
            spec_find_value_group(s, vgs@.len() as int, name@) == spec_find_value_group(
                s,
                i as int,
                name@,
            ),
        decreases i,
    {
        i = i - 1;
        if vgs[i].name == *name {
            proof {
                assert(s[i as int] == vgs@[i as int]@);
            }
            return Some(&vgs[i]);
        }
        proof {
            assert(s[i as int] == vgs@[i as int]@);
        }
    }
    None
}

/// The instance a group name resolves to: the last instance of that name.
pub open spec fn spec_find_instance(insts: Seq<InstanceV>, n: int, name: Seq<char>) -> Option<
    InstanceV,
>
    decreases n,
{
    if n <= 0 {
        Option::None
    } else if insts[n - 1].name == name {
        Option::Some(insts[n - 1])
    } else {
        spec_find_instance(insts, n - 1, name)
    }
}

/// Looks a peripheral instance up by name, later entries shadowing earlier
/// ones.
#[verifier::loop_isolation(false)]
pub fn find_instance<'a>(insts: &'a Vec<Instance>, name: &String) -> (r: Option<&'a Instance>)
    ensures
        match spec_find_instance(
            insts@.map_values(|x: Instance| x@),
            insts@.len() as int,
            name@,
        ) {
            Option::Some(iv) => r matches Some(x) && x@ == iv,
            Option::None => r is None,
        },
{
    let ghost s = insts@.map_values(|x: Instance| x@);
    let mut i: usize = insts.len();
    while i > 0
        invariant
            i <= insts@.len(),
            spec_find_instance(s, insts@.len() as int, name@) == spec_find_instance(
                s,
                i as int,
                name@,
            ),
        decreases i,
    {
        i = i - 1;
        if insts[i].name == *name {
            proof {
                assert(s[i as int] == insts@[i as int]@);
            }
            return Some(&insts[i]);
        }
        proof {
            assert(s[i as int] == insts@[i as int]@);
        }
    }
    None
}

/// What one bitfield contributes: an expanded value group when it references
/// one (a broken reference is fatal), else a single entry under its own
/// name, mask and caption — kept only if that name is fresh, first seen
/// wins, so identifiers stay unique within one flag set.
pub open spec fn spec_bitfield_step(b: BitfieldV, vgs: Seq<ValueGroupV>, st: ExpandState) -> Result<
    ExpandState,
    Error,
> {
    match b.values {
        Option::Some(nm) => match spec_find_value_group(vgs, vgs.len() as int, nm) {
            Option::Some(vg) => spec_expand_values(b.name, b.mask, vg.values, vg.values.len() as int, st),
            Option::None => Err(Error::BrokenModelLink),
        },
        Option::None => {
            if st.done.contains(b.name) {
                Ok(st)
            } else {
                Ok(
                    ExpandState {
                        done: st.done.push(b.name),
                        entries: st.entries.push(
                            FlagEntryV {
                                ident: b.name,
                                const_name: spec_upper(b.name),
                                value: b.mask,
                                caption: spec_or_name(b.caption, b.name),
                            },
                        ),
                    },
                )
            }
        },
    }
}

/// The entries contributed by the first `n` bitfields of a register.
pub open spec fn spec_bitfield_entries(
    bs: Seq<BitfieldV>,
    n: int,
    vgs: Seq<ValueGroupV>,
    st: ExpandState,
) -> Result<ExpandState, Error>
    decreases n,
{
    if n <= 0 {
        Ok(st)
    } else {
        match spec_bitfield_entries(bs, n - 1, vgs, st) {
            Ok(prev) => spec_bitfield_step(bs[n - 1], vgs, prev),
            Err(e) => Err(e),
        }
    }
}

/// Once a bitfield has failed, later bitfields keep the same failure.
pub proof fn lemma_bitfield_error_persists(
    bs: Seq<BitfieldV>,
    i: int,
    n: int,
    vgs: Seq<ValueGroupV>,
    st: ExpandState,
    e: Error,
)
    requires
        0 <= i <= n,
        spec_bitfield_entries(bs, i, vgs, st) == Err::<ExpandState, Error>(e),
    ensures
        spec_bitfield_entries(bs, n, vgs, st) == Err::<ExpandState, Error>(e),
    decreases n,
{
    if n > i {
        lemma_bitfield_error_persists(bs, i, n - 1, vgs, st, e);
    }
}

/// Whether an earlier bit-indexed signal already carries this pad name.
pub open spec fn pad_seen_before(sigs: Seq<SignalV>, n: int, pad: Seq<char>) -> bool {
    exists|k: int| 0 <= k < n && (#[trigger] sigs[k]).index is Some && sigs[k].pad == pad
}

/// The flag entries synthesized from the first `n` signals of an instance:
/// one per bit-indexed signal, named after its pad, masked to its bit; a
/// repeated pad name keeps only its first signal's entry.
pub open spec fn spec_signal_entries(sigs: Seq<SignalV>, n: int) -> Seq<FlagEntryV>
    decreases n,
{
    if n <= 0 {
        Seq::<FlagEntryV>::empty()
    } else {
        let prev = spec_signal_entries(sigs, n - 1);
        match sigs[n - 1].index {
            Option::Some(b) => {
                if pad_seen_before(sigs, n - 1, sigs[n - 1].pad) {
                    prev
                } else {
                    prev.push(
                        FlagEntryV {
                            ident: sigs[n - 1].pad,
                            const_name: spec_upper(sigs[n - 1].pad),
                            value: 1u32 << (b as u32),
                            caption: sigs[n - 1].pad,
                        },
                    )
                }
            },
            Option::None => prev,
        }
    }
}

/// The pad names kept so far, in order of first appearance.
pub open spec fn spec_seen_pads(sigs: Seq<SignalV>, n: int) -> Seq<Seq<char>>
    decreases n,
{
    if n <= 0 {
        Seq::<Seq<char>>::empty()
    } else {
        let prev = spec_seen_pads(sigs, n - 1);
        match sigs[n - 1].index {
            Option::Some(b) => {
                if pad_seen_before(sigs, n - 1, sigs[n - 1].pad) {
                    prev
                } else {
                    prev.push(sigs[n - 1].pad)
                }
            },
            Option::None => prev,
        }
    }
}

/// The kept pad names are exactly those some earlier indexed signal carries.
pub proof fn lemma_seen_pads_iff(sigs: Seq<SignalV>, n: int, pad: Seq<char>)
    requires
        0 <= n <= sigs.len(),
    ensures
        spec_seen_pads(sigs, n).contains(pad) <==> pad_seen_before(sigs, n, pad),
    decreases n,
{
    if n > 0 {
        lemma_seen_pads_iff(sigs, n - 1, pad);
        let prev = spec_seen_pads(sigs, n - 1);
        match sigs[n - 1].index {
            Option::Some(b) => {
                if !pad_seen_before(sigs, n - 1, sigs[n - 1].pad) {
                    crate::values::lemma_seq_push_contains(prev, sigs[n - 1].pad, pad);
                }
                if pad_seen_before(sigs, n, pad) && !pad_seen_before(sigs, n - 1, pad) {
                    let k = choose|k: int|
                        0 <= k < n && (#[trigger] sigs[k]).index is Some && sigs[k].pad == pad;
                    assert(k == n - 1);
                }
            },
            Option::None => {
                if pad_seen_before(sigs, n, pad) && !pad_seen_before(sigs, n - 1, pad) {
                    let k = choose|k: int|
                        0 <= k < n && (#[trigger] sigs[k]).index is Some && sigs[k].pad == pad;
                    assert(k == n - 1);
                }
            },
        }
    }
}

/// Bitfield processing keeps the dedup state consistent: every kept entry's
/// identifier is recorded as seen, and no two entries share one.
pub proof fn lemma_bitfield_entries_wf(
    bs: Seq<BitfieldV>,
    n: int,
    vgs: Seq<ValueGroupV>,
    st: ExpandState,
)
    requires
        entries_wf(st),
        spec_bitfield_entries(bs, n, vgs, st) is Ok,
    ensures
        entries_wf(spec_bitfield_entries(bs, n, vgs, st)->Ok_0),
    decreases n,
{
    if n > 0 {
        lemma_bitfield_entries_wf(bs, n - 1, vgs, st);
        let p = spec_bitfield_entries(bs, n - 1, vgs, st)->Ok_0;
        let cur = spec_bitfield_entries(bs, n, vgs, st)->Ok_0;
        match bs[n - 1].values {
            Option::Some(nm) => {
                let vg = spec_find_value_group(vgs, vgs.len() as int, nm)->Some_0;
                lemma_expand_grows(bs[n - 1].name, bs[n - 1].mask, vg.values, vg.values.len() as int, p);
            },
            Option::None => {
                let id = bs[n - 1].name;
                if p.done.contains(id) {
                } else {
                    assert(cur.entries == p.entries.push(cur.entries.last()));
                    assert(cur.done == p.done.push(id));
                    assert forall|i: int| 0 <= i < cur.entries.len() implies cur.done.contains(
                        (#[trigger] cur.entries[i]).ident,
                    ) by {
                        if i < p.entries.len() {
                            assert(cur.entries[i] == p.entries[i]);
                            lemma_seq_push_contains(p.done, id, p.entries[i].ident);
                        } else {
                            assert(cur.entries[i].ident == id);
                            lemma_seq_push_contains(p.done, id, id);
                        }
                    }
                    assert forall|i: int, j: int|
                        0 <= i < j < cur.entries.len() implies cur.entries[i].ident
                        != cur.entries[j].ident by {
                        if j < p.entries.len() {
                        } else {
                            assert(cur.entries[i] == p.entries[i]);
                            assert(p.done.contains(p.entries[i].ident));
                            assert(cur.entries[j].ident == id);
                        }
                    }
                }
            },
        }
    }
}

/// The synthesized signal entries carry pairwise-distinct pad names, each
/// the pad of some indexed signal.
pub proof fn lemma_signal_entries_unique(sigs: Seq<SignalV>, n: int)
    requires
        0 <= n <= sigs.len(),
    ensures
        forall|k: int|
            0 <= k < spec_signal_entries(sigs, n).len() ==> pad_seen_before(
                sigs,
                n,
                (#[trigger] spec_signal_entries(sigs, n)[k]).ident,
            ),
        forall|i: int, j: int|
            0 <= i < j < spec_signal_entries(sigs, n).len() ==> spec_signal_entries(
                sigs,
                n,
            )[i].ident != spec_signal_entries(sigs, n)[j].ident,
    decreases n,
{
    if n > 0 {
        lemma_signal_entries_unique(sigs, n - 1);
        let prev = spec_signal_entries(sigs, n - 1);
        let cur = spec_signal_entries(sigs, n);
        assert forall|p: Seq<char>| pad_seen_before(sigs, n - 1, p) implies pad_seen_before(
            sigs,
            n,
            p,
        ) by {
            let k = choose|k: int|
                0 <= k < n - 1 && (#[trigger] sigs[k]).index is Some && sigs[k].pad == p;
            assert(0 <= k < n && sigs[k].index is Some && sigs[k].pad == p);
        }
        match sigs[n - 1].index {
            Option::Some(b) => {
                if !pad_seen_before(sigs, n - 1, sigs[n - 1].pad) {
                    assert(cur == prev.push(cur.last()));
                    assert(sigs[n - 1].index is Some && sigs[n - 1].pad == sigs[n - 1].pad);
                    assert(pad_seen_before(sigs, n, sigs[n - 1].pad));
                    assert forall|i: int, j: int|
                        0 <= i < j < cur.len() implies cur[i].ident != cur[j].ident by {
                        if j < prev.len() {
                        } else {
                            assert(cur[i] == prev[i]);
                            assert(pad_seen_before(sigs, n - 1, prev[i].ident));
                            assert(cur[j].ident == sigs[n - 1].pad);
                        }
                    }
                }
            },
            Option::None => {},
        }
    }
}

/// Pairwise-distinct enumerator identifiers within one flag declaration.
pub open spec fn decl_unique(d: FlagDeclV) -> bool {
    forall|i: int, j: int| 0 <= i < j < d.entries.len() ==> d.entries[i].ident != d.entries[j].ident
}

/// Law (the flag-set invariant): a flag declaration a register resolves to
/// never holds two enumerators with the same identifier — the first
/// occurrence of a derived name wins, whether it came from an explicit
/// bitfield, an expanded value group, or a fallback signal.
pub proof fn lemma_register_flags_unique(
    reg: RegisterV,
    vgs: Seq<ValueGroupV>,
    scope: Seq<char>,
    signame: Seq<char>,
    flags_name: Seq<char>,
    inst: Option<InstanceV>,
    defined: Seq<Seq<char>>,
)
    requires
        spec_register_flags(reg, vgs, scope, signame, flags_name, inst, defined) is Ok,
    ensures
        spec_register_flags(reg, vgs, scope, signame, flags_name, inst, defined)->Ok_0.decl
            matches Some(d) ==> decl_unique(d),
{
    let st0 = ExpandState {
        done: Seq::<Seq<char>>::empty(),
        entries: Seq::<FlagEntryV>::empty(),
    };
    let v = spec_register_flags(reg, vgs, scope, signame, flags_name, inst, defined)->Ok_0;
    lemma_bitfield_entries_wf(reg.bitfields, reg.bitfields.len() as int, vgs, st0);
    match inst {
        Option::Some(iv) => {
            lemma_signal_entries_unique(iv.signals, iv.signals.len() as int);
        },
        Option::None => {},
    }
}

/// What resolving one register yields: an optional new flag-type
/// declaration, the register's flag-type name if it has one, and the set of
/// signal-flag type names declared so far.
#[verifier::ext_equal]
pub ghost struct RegFlagsV {
    pub decl: Option<FlagDeclV>,
    pub flag_type: Option<Seq<char>>,
    pub defined: Seq<Seq<char>>,
}

/// Resolving one register: explicit bitfield entries win; a register without
/// any falls back to the group's signal flags — reusing the type if its name
/// was declared before, declaring it if the matching instance contributes
/// bit-indexed signals, and staying a plain integer otherwise.
pub open spec fn spec_register_flags(
    reg: RegisterV,
    vgs: Seq<ValueGroupV>,
    scope: Seq<char>,
    signame: Seq<char>,
    flags_name: Seq<char>,
    inst: Option<InstanceV>,
    defined: Seq<Seq<char>>,
) -> Result<RegFlagsV, Error> {
    match spec_bitfield_entries(
        reg.bitfields,
        reg.bitfields.len() as int,
        vgs,
        ExpandState { done: Seq::<Seq<char>>::empty(), entries: Seq::<FlagEntryV>::empty() },
    ) {
        Err(e) => Err(e),
        Ok(st) => {
            if st.entries.len() > 0 {
                Ok(
                    RegFlagsV {
                        decl: Option::Some(
                            FlagDeclV { ty_name: flags_name, size: reg.size, entries: st.entries },
                        ),
                        flag_type: Option::Some(flags_name),
                        defined,
                    },
                )
            } else if defined.contains(signame) {
                Ok(RegFlagsV { decl: Option::None, flag_type: Option::Some(signame), defined })
            } else {
                match inst {
                    Option::Some(iv) => {
                        let sigs = spec_signal_entries(iv.signals, iv.signals.len() as int);
                        if sigs.len() == 0 {
                            Ok(RegFlagsV { decl: Option::None, flag_type: Option::None, defined })
                        } else {
                            Ok(
                                RegFlagsV {
                                    decl: Option::Some(
                                        FlagDeclV {
                                            ty_name: signame,
                                            size: reg.size,
                                            entries: sigs,
                                        },
                                    ),
                                    flag_type: Option::Some(signame),
                                    defined: defined.push(signame),
                                },
                            )
                        }
                    },
                    Option::None => Ok(
                        RegFlagsV { decl: Option::None, flag_type: Option::None, defined },
                    ),
                }
            }
        },
    }
}

/// The view of an optional borrowed instance.
pub open spec fn opt_inst_view(o: Option<&Instance>) -> Option<InstanceV> {
    match o {
        Option::Some(i) => Option::Some(i@),
        Option::None => Option::None,
    }
}

/// The view of an optional flag declaration.
pub open spec fn opt_decl_view(o: Option<FlagDecl>) -> Option<FlagDeclV> {
    match o {
        Option::Some(d) => Option::Some(d@),
        Option::None => Option::None,
    }
}

/// The view of an optional owned string.
pub open spec fn opt_string_view(o: Option<String>) -> Option<Seq<char>> {
    match o {
        Option::Some(s) => Option::Some(s@),
        Option::None => Option::None,
    }
}

/// Synthesizes the fallback entries from an instance's bit-indexed signals,
/// keeping the first signal of each pad name.
#[verifier::loop_isolation(false)]
fn signal_entries(inst: &Instance) -> (r: Vec<FlagEntry>)
    requires
        wf_instance(inst@),
    ensures
        r@.map_values(|e: FlagEntry| e@) == spec_signal_entries(
            inst@.signals,
            inst@.signals.len() as int,
        ),
{
    let n = inst.signals.len();
    let mut out: Vec<FlagEntry> = Vec::new();
    let mut seen: Vec<String> = Vec::new();
    proof {
        assert(seen@.map_values(|s: String| s@) =~= spec_seen_pads(inst@.signals, 0));
    }
    let mut i: usize = 0;
    while i < n
        invariant
            i <= n,
            n == inst.signals@.len(),
            out@.map_values(|e: FlagEntry| e@) =~= spec_signal_entries(inst@.signals, i as int),
            seen@.map_values(|s: String| s@) =~= spec_seen_pads(inst@.signals, i as int),
        decreases n - i,
    {
        proof {
            assert(inst@.signals[i as int] == inst.signals@[i as int]@);
            lemma_seen_pads_iff(inst@.signals, i as int, inst@.signals[i as int].pad);
        }
        let sig = &inst.signals[i];
        match sig.index {
            Some(b) => {
                if !contains_str(&seen, &sig.pad) {
                    let value: u32 = 1u32 << (b as u32);
                    out.push(
                        FlagEntry {
                            ident: sig.pad.clone(),
                            const_name: screaming_field(&sig.pad),
                            value,
                            caption: sig.pad.clone(),
                        },
                    );
                    seen.push(sig.pad.clone());
                }
            },
            None => {},
        }
        proof {
            assert(out@.map_values(|e: FlagEntry| e@) =~= spec_signal_entries(
                inst@.signals,
                i + 1,
            ));
            assert(seen@.map_values(|s: String| s@) =~= spec_seen_pads(inst@.signals, i + 1));
        }
        i = i + 1;
    }
    out
}

/// Resolves one register's flag set, threading the set of already-declared
/// signal-flag type names.
#[verifier::loop_isolation(false)]
pub fn register_flags(
    reg: &Register,
    vgs: &Vec<ValueGroup>,
    scope: &String,
    signame: &String,
    flags_name: &String,
    inst: Option<&Instance>,
    defined: &mut Vec<String>,
) -> (r: Result<(Option<FlagDecl>, Option<String>), Error>)
    requires
        match inst {
            Option::Some(i) => wf_instance(i@),
            Option::None => true,
        },
    ensures
        match spec_register_flags(
            reg@,
            vgs@.map_values(|g: ValueGroup| g@),
            scope@,
            signame@,
            flags_name@,
            opt_inst_view(inst),
            old(defined)@.map_values(|s: String| s@),
        ) {
            Ok(v) => r matches Ok(p) && opt_decl_view(p.0) == v.decl && opt_string_view(p.1)
                == v.flag_type && final(defined)@.map_values(|s: String| s@) == v.defined,
            Err(e) => r == Err::<(Option<FlagDecl>, Option<String>), Error>(e),
        },
{
    let ghost vgsv = vgs@.map_values(|g: ValueGroup| g@);
    let mut done: Vec<String> = Vec::new();
    let mut entries: Vec<FlagEntry> = Vec::new();
    proof {
        assert(state_of(done@, entries@) =~= ExpandState {
            done: Seq::<Seq<char>>::empty(),
            entries: Seq::<FlagEntryV>::empty(),
        });
    }
    let ghost st0 = state_of(done@, entries@);
    let nb = reg.bitfields.len();
    let mut i: usize = 0;
    while i < nb
        invariant
            i <= nb,
            nb == reg.bitfields@.len(),
            spec_bitfield_entries(reg@.bitfields, i as int, vgsv, st0) == Ok::<ExpandState, Error>(
                state_of(done@, entries@),
            ),
        decreases nb - i,
    {
        proof {
            assert(reg@.bitfields[i as int] == reg.bitfields@[i as int]@);
        }
        let b = &reg.bitfields[i];
        let ghost prev = spec_bitfield_entries(reg@.bitfields, i as int, vgsv, st0);
        match &b.values {
            Some(vg_name) => {
                match find_value_group(vgs, vg_name) {
                    Some(vg) => {
                        match expand_value_group(&b.name, b.mask, vg, &mut done, &mut entries) {
                            Ok(_u) => {},
                            Err(e) => {
                                proof {
                                    assert(spec_bitfield_entries(
                                        reg@.bitfields,
                                        i + 1,
                                        vgsv,
                                        st0,
                                    ) == Err::<ExpandState, Error>(e));
                                    lemma_bitfield_error_persists(
                                        reg@.bitfields,
                                        i + 1,
                                        nb as int,
                                        vgsv,
                                        st0,
                                        e,
                                    );
                                }
                                return Err(e);
                            },
                        }
                    },
                    None => {
                        proof {
                            assert(spec_bitfield_entries(reg@.bitfields, i + 1, vgsv, st0)
                                == Err::<ExpandState, Error>(Error::BrokenModelLink));
                            lemma_bitfield_error_persists(
                                reg@.bitfields,
                                i + 1,
                                nb as int,
                                vgsv,
                                st0,
                                Error::BrokenModelLink,
                            );
                        }
                        return Err(Error::BrokenModelLink);
                    },
                }
            },
            None => {
                if !contains_str(&done, &b.name) {
                    let cap = or_name(&b.caption, &b.name).clone();
                    entries.push(
                        FlagEntry {
                            ident: b.name.clone(),
                            const_name: screaming_field(&b.name),
                            value: b.mask,
                            caption: cap,
                        },
                    );
                    done.push(b.name.clone());
                }
            },
        }
        proof {
            assert(state_of(done@, entries@) =~~= spec_bitfield_step(
                reg@.bitfields[i as int],
                vgsv,
                prev->Ok_0,
            )->Ok_0);
        }
        i = i + 1;
    }
    if entries.len() > 0 {
        let decl = FlagDecl {
            ty_name: flags_name.clone(),
            size: reg.size,
            entries,
        };
        return Ok((Some(decl), Some(flags_name.clone())));
    }
    if contains_str(defined, signame) {
        return Ok((None, Some(signame.clone())));
    }
    match inst {
        Some(instance) => {
            let sigs = signal_entries(instance);
            if sigs.len() == 0 {
                Ok((None, None))
            } else {
                let decl = FlagDecl { ty_name: signame.clone(), size: reg.size, entries: sigs };
                defined.push(signame.clone());
                Ok((Some(decl), Some(signame.clone())))
            }
        },
        None => Ok((None, None)),
    }
}

} // verus!
