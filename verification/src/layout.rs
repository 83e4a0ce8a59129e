//! The address-layout planner: classifies addresses into placement buckets,
//! orders a group's registers by ascending offset, and allocates the two
//! run-wide auxiliary debug addresses into the first gaps with spare room.

use vstd::prelude::*;
use crate::model::{regs_disjoint, wf_register, Bitfield, Register, RegisterV};

verus! {

/// The placement attribute of an address: none below the declarable space,
/// the low-space attribute up to `0x60`, the high-space attribute above.
pub open spec fn spec_placement(addr: u32) -> Option<Seq<char>> {
    if addr < 0x20 {
        Option::None
    } else if addr < 0x60 {
        Option::Some("io"@)
    } else {
        Option::Some("address"@)
    }
}

/// Classifies an address: below `0x20` it is excluded from declaration,
/// `0x20..0x60` carries the low-space attribute, `0x60` and above the
/// high-space attribute.
pub fn placement(addr: u32) -> (r: Option<&'static str>)
    ensures
        addr < 0x20 ==> r is None,
        0x20 <= addr < 0x60 ==> (r matches Some(a) && a@ == "io"@),
        0x60 <= addr ==> (r matches Some(a) && a@ == "address"@),
        opt_placement_view(r) == spec_placement(addr),
{
    if addr < 0x20 {
        None
    } else if addr < 0x60 {
        Some("io")
    } else {
        Some("address")
    }
}

/// The view of an optional placement attribute.
pub open spec fn opt_placement_view(r: Option<&'static str>) -> Option<Seq<char>> {
    match r {
        Option::Some(a) => Option::Some(a@),
        Option::None => Option::None,
    }
}

// ------------------------------------------------------------------
// Address-ordered registers.

/// Inserts a register into an offset-sorted sequence, after any register
/// with the same or a lower offset.
pub open spec fn spec_insert(r: RegisterV, s: Seq<RegisterV>) -> Seq<RegisterV>
    decreases s.len(),
{
    if s.len() == 0 {
        seq![r]
    } else if r.offset < s[0].offset {
        seq![r] + s
    } else {
        seq![s[0]] + spec_insert(r, s.drop_first())
    }
}

/// The first `n` registers, insertion-sorted by ascending offset.
pub open spec fn spec_sort(s: Seq<RegisterV>, n: int) -> Seq<RegisterV>
    decreases n,
{
    if n <= 0 {
        Seq::<RegisterV>::empty()
    } else {
        spec_insert(s[n - 1], spec_sort(s, n - 1))
    }
}

/// Strictly ascending offsets.
pub open spec fn sorted_by_offset(s: Seq<RegisterV>) -> bool {
    forall|i: int, j: int| 0 <= i < j < s.len() ==> s[i].offset < s[j].offset
}

/// When the first `j` elements all have offsets at or below the new
/// register's, insertion happens in the remainder.
proof fn lemma_insert_unfold(r: RegisterV, s: Seq<RegisterV>, j: int)
    requires
        0 <= j <= s.len(),
        forall|k: int| 0 <= k < j ==> s[k].offset <= r.offset,
    ensures
        spec_insert(r, s) =~= s.take(j) + spec_insert(r, s.skip(j)),
    decreases j,
{
    if j == 0 {
        assert(s.skip(0) =~= s);
        assert(s.take(0) + spec_insert(r, s) =~= spec_insert(r, s));
    } else {
        lemma_insert_unfold(r, s.drop_first(), j - 1);
        assert(s.drop_first().take(j - 1) =~= s.take(j).drop_first());
        assert(s.drop_first().skip(j - 1) =~= s.skip(j));
        assert(seq![s[0]] + (s.drop_first().take(j - 1) + spec_insert(r, s.skip(j))) =~= s.take(j)
            + spec_insert(r, s.skip(j)));
    }
}

/// Insertion keeps the order, and every element of the result is the new
/// register or one of the old ones.
proof fn lemma_insert_props(r: RegisterV, s: Seq<RegisterV>)
    requires
        sorted_by_offset(s),
        forall|k: int| 0 <= k < s.len() ==> (#[trigger] s[k]).offset != r.offset,
    ensures
        spec_insert(r, s).len() == s.len() + 1,
        sorted_by_offset(spec_insert(r, s)),
        forall|k: int|
            0 <= k < spec_insert(r, s).len() ==> #[trigger] spec_insert(r, s)[k] == r || s.contains(
                spec_insert(r, s)[k],
            ),
    decreases s.len(),
{
    if s.len() == 0 {
    } else if r.offset < s[0].offset {
    } else {
        assert(sorted_by_offset(s.drop_first()));
        lemma_insert_props(r, s.drop_first());
        let t = spec_insert(r, s);
        assert forall|k: int| 0 <= k < t.len() implies #[trigger] t[k] == r || s.contains(
            t[k],
        ) by {
            if k == 0 {
                assert(s.contains(t[k])) by { assert(t[k] == s[0]); }
            } else {
                let u = spec_insert(r, s.drop_first());
                let x = u[k - 1];
                assert(t[k] == x);
                if x == r {
                } else {
                    let m = choose|m: int|
                        0 <= m < s.drop_first().len() && s.drop_first()[m] == x;
                    assert(s[m + 1] == x);
                }
            }
        }
        assert forall|i: int, j: int| 0 <= i < j < t.len() implies t[i].offset < t[j].offset by {
            let u = spec_insert(r, s.drop_first());
            if i == 0 {
                let x = u[j - 1];
                if x == r {
                } else {
                    let m = choose|m: int|
                        0 <= m < s.drop_first().len() && s.drop_first()[m] == x;
                    assert(s[0].offset < s[m + 1].offset);
                }
            }
        }
    }
}

/// The sorted prefix: ordered, of the same length, and made of the prefix's
/// elements.
pub proof fn lemma_sort_props(s: Seq<RegisterV>, n: int)
    requires
        0 <= n <= s.len(),
        forall|i: int, j: int| 0 <= i < j < n ==> s[i].offset != s[j].offset,
    ensures
        spec_sort(s, n).len() == n,
        sorted_by_offset(spec_sort(s, n)),
        forall|k: int|
            0 <= k < n ==> exists|i: int|
                0 <= i < n && #[trigger] spec_sort(s, n)[k] == s[i],
    decreases n,
{
    if n > 0 {
        lemma_sort_props(s, n - 1);
        assert forall|k: int| 0 <= k < n - 1 implies (#[trigger] spec_sort(s, n - 1)[k]).offset
            != s[n - 1].offset by {
            let i = choose|i: int| 0 <= i < n - 1 && spec_sort(s, n - 1)[k] == s[i];
            assert(s[i].offset != s[n - 1].offset);
        }
        lemma_insert_props(s[n - 1], spec_sort(s, n - 1));
        let t = spec_sort(s, n);
        assert forall|k: int| 0 <= k < n implies exists|i: int|
            0 <= i < n && #[trigger] t[k] == s[i] by {
            if t[k] == s[n - 1] {
                assert(0 <= n - 1 < n && t[k] == s[n - 1]);
            } else {
                assert(spec_sort(s, n - 1).contains(t[k]));
                let m = choose|m: int|
                    0 <= m < spec_sort(s, n - 1).len() && #[trigger] spec_sort(s, n - 1)[m] == t[k];
                let i = choose|i: int| 0 <= i < n - 1 && spec_sort(s, n - 1)[m] == s[i];
                assert(0 <= i < n && t[k] == s[i]);
            }
        }
    }
}

/// In a well-formed group, the sorted registers chain without overlap: each
/// ends at or before the next begins.
pub proof fn lemma_sort_chain(s: Seq<RegisterV>, n: int)
    requires
        0 <= n <= s.len(),
        forall|i: int| 0 <= i < n ==> wf_register(#[trigger] s[i]),
        forall|i: int, j: int| 0 <= i < j < n ==> s[i].offset != s[j].offset,
        forall|i: int, j: int| 0 <= i < j < n ==> regs_disjoint(s[i], s[j]),
    ensures
        chain_ok(spec_sort(s, n)),
        sorted_by_offset(spec_sort(s, n)),
        spec_sort(s, n).len() == n,
{
    lemma_sort_props(s, n);
    let t = spec_sort(s, n);
    assert forall|k: int| 0 <= k < t.len() - 1 implies (#[trigger] t[k]).offset + t[k].size
        <= t[k + 1].offset && t[k].offset + t[k].size <= 0xFFFF_FFFF by {
        let i = choose|i: int| 0 <= i < n && t[k] == s[i];
        let j = choose|j: int| 0 <= j < n && t[k + 1] == s[j];
        assert(t[k].offset < t[k + 1].offset);
        assert(i != j);
        if i < j {
            assert(regs_disjoint(s[i], s[j]));
        } else {
            assert(regs_disjoint(s[j], s[i]));
        }
        assert(wf_register(s[i]));
        assert(wf_register(s[j]));
    }
}

/// Inserts a register into an offset-sorted vector, keeping equal offsets in
/// arrival order.
#[verifier::loop_isolation(false)]
fn insert_sorted(v: &mut Vec<Register>, r: Register)
    ensures
        final(v)@.map_values(|x: Register| x@) =~= spec_insert(
            r@,
            old(v)@.map_values(|x: Register| x@),
        ),
{
    let ghost s = v@.map_values(|x: Register| x@);
    let n = v.len();
    let mut j: usize = 0;
    while j < n && v[j].offset <= r.offset
        invariant
            j <= n,
            n == v@.len(),
            v@ == old(v)@,
            forall|k: int| 0 <= k < j ==> s[k].offset <= r@.offset,
        decreases n - j,
    {
        proof {
            assert(s[j as int] == v@[j as int]@);
        }
        j = j + 1;
    }
    proof {
        lemma_insert_unfold(r@, s, j as int);
        if j < n {
            assert(s[j as int] == v@[j as int]@);
            assert(r@.offset < s.skip(j as int)[0].offset);
        }
        assert(spec_insert(r@, s) =~= s.take(j as int) + seq![r@] + s.skip(j as int));
    }
    v.insert(j, r);
    proof {
        assert(v@.map_values(|x: Register| x@) =~= s.take(j as int) + seq![r@] + s.skip(
            j as int,
        ));
    }
}

pub(crate) fn clone_string_opt(o: &Option<String>) -> (r: Option<String>)
    ensures
        r == *o,
{
    match o {
        Option::Some(s) => Option::Some(s.clone()),
        Option::None => Option::None,
    }
}

fn clone_bitfield(b: &Bitfield) -> (r: Bitfield)
    ensures
        r@ == b@,
{
    Bitfield {
        name: b.name.clone(),
        caption: b.caption.clone(),
        mask: b.mask,
        values: clone_string_opt(&b.values),
    }
}

/// A field-for-field copy of a register.
#[verifier::loop_isolation(false)]
fn clone_register(r: &Register) -> (c: Register)
    ensures
        c@ == r@,
{
    let mut bs: Vec<Bitfield> = Vec::new();
    let n = r.bitfields.len();
    let mut i: usize = 0;
    while i < n
        invariant
            i <= n,
            n == r.bitfields@.len(),
            bs@.map_values(|b: Bitfield| b@) =~= r.bitfields@.map_values(|b: Bitfield| b@).take(
                i as int,
            ),
        decreases n - i,
    {
        bs.push(clone_bitfield(&r.bitfields[i]));
        proof {
            assert(bs@.map_values(|b: Bitfield| b@) =~= r.bitfields@.map_values(
                |b: Bitfield| b@,
            ).take(i + 1));
        }
        i = i + 1;
    }
    let c = Register { name: r.name.clone(), offset: r.offset, size: r.size, bitfields: bs };
    proof {
        assert(c@ =~= r@);
    }
    c
}

/// The registers of a group, copied and ordered by ascending offset.
#[verifier::loop_isolation(false)]
pub fn sort_registers(regs: &Vec<Register>) -> (r: Vec<Register>)
    ensures
        r@.map_values(|x: Register| x@) == spec_sort(
            regs@.map_values(|x: Register| x@),
            regs@.len() as int,
        ),
{
    let ghost s = regs@.map_values(|x: Register| x@);
    let n = regs.len();
    let mut out: Vec<Register> = Vec::new();
    let mut i: usize = 0;
    while i < n
        invariant
            i <= n,
            n == regs@.len(),
            out@.map_values(|x: Register| x@) == spec_sort(s, i as int),
        decreases n - i,
    {
        let c = clone_register(&regs[i]);
        proof {
            assert(c@ == s[i as int]);
        }
        insert_sorted(&mut out, c);
        i = i + 1;
    }
    out
}

// ------------------------------------------------------------------
// Gap detection and auxiliary-address allocation.

/// Consecutive sorted registers leave no negative hole and fit the address
/// type.
pub open spec fn chain_ok(s: Seq<RegisterV>) -> bool {
    forall|i: int|
        0 <= i < s.len() - 1 ==> (#[trigger] s[i]).offset + s[i].size <= s[i + 1].offset
            && s[i].offset + s[i].size <= 0xFFFF_FFFF
}

/// What one hole between two consecutive registers does to the two
/// allocations: the console takes the first free byte of the first hole seen
/// anywhere in the run, the command the next free byte with room left.
pub open spec fn spec_gap_step(
    prior: RegisterV,
    cur: RegisterV,
    console: Option<u32>,
    command: Option<u32>,
) -> (Option<u32>, Option<u32>)
    recommends
        prior.offset + prior.size <= cur.offset,
{
    let start = prior.offset + prior.size;
    let hole = cur.offset - start;
    if hole > 0 {
        if console is None {
            if command is None && hole > 1 {
                (Option::Some(start as u32), Option::Some((start + 1) as u32))
            } else {
                (Option::Some(start as u32), command)
            }
        } else {
            if command is None {
                (console, Option::Some(start as u32))
            } else {
                (console, command)
            }
        }
    } else {
        (console, command)
    }
}

/// The allocations after scanning the consecutive pairs among the first `n`
/// sorted registers.
pub open spec fn spec_gaps(
    s: Seq<RegisterV>,
    n: int,
    console: Option<u32>,
    command: Option<u32>,
) -> (Option<u32>, Option<u32>)
    decreases n,
{
    if n <= 1 {
        (console, command)
    } else {
        let prev = spec_gaps(s, n - 1, console, command);
        spec_gap_step(s[n - 2], s[n - 1], prev.0, prev.1)
    }
}

/// Law: an auxiliary address, once allocated, is never allocated again — a
/// later scan leaves both slots exactly as it found them.
pub proof fn lemma_allocation_singular(
    s: Seq<RegisterV>,
    n: int,
    console: Option<u32>,
    command: Option<u32>,
)
    ensures
        console is Some ==> spec_gaps(s, n, console, command).0 == console,
        command is Some ==> spec_gaps(s, n, console, command).1 == command,
    decreases n,
{
    if n > 1 {
        lemma_allocation_singular(s, n - 1, console, command);
    }
}

/// Law: the command byte is only ever allocated once the console byte is —
/// the console always claims the first spare byte.
pub proof fn lemma_command_after_console(
    s: Seq<RegisterV>,
    n: int,
    console: Option<u32>,
    command: Option<u32>,
)
    requires
        command is Some ==> console is Some,
    ensures
        spec_gaps(s, n, console, command).1 is Some ==> spec_gaps(s, n, console, command).0
            is Some,
    decreases n,
{
    if n > 1 {
        lemma_command_after_console(s, n - 1, console, command);
    }
}

/// An address strictly inside an unused hole between two consecutive
/// registers of the first `n`.
pub open spec fn in_gap(s: Seq<RegisterV>, n: int, a: int) -> bool {
    exists|i: int|
        0 <= i < n - 1 && (#[trigger] s[i]).offset + s[i].size <= a && a < s[i + 1].offset
}

/// Law: every address the scan allocates lies inside a hole between two
/// consecutive registers — never inside a register, and never outside the
/// scanned range.
pub proof fn lemma_allocation_in_gap(
    s: Seq<RegisterV>,
    n: int,
    console: Option<u32>,
    command: Option<u32>,
)
    requires
        0 <= n <= s.len(),
        chain_ok(s),
    ensures
        spec_gaps(s, n, console, command).0 != console ==> (spec_gaps(
            s,
            n,
            console,
            command,
        ).0 matches Some(a) && in_gap(s, n, a as int)),
        spec_gaps(s, n, console, command).1 != command ==> (spec_gaps(
            s,
            n,
            console,
            command,
        ).1 matches Some(a) && in_gap(s, n, a as int)),
    decreases n,
{
    if n > 1 {
        lemma_allocation_in_gap(s, n - 1, console, command);
        assert forall|a: int| in_gap(s, n - 1, a) implies in_gap(s, n, a) by {
            let i = choose|i: int|
                0 <= i < n - 2 && (#[trigger] s[i]).offset + s[i].size <= a && a < s[i + 1].offset;
            assert(0 <= i < n - 1 && s[i].offset + s[i].size <= a && a < s[i + 1].offset);
        }
        let prev = spec_gaps(s, n - 1, console, command);
        let cur = spec_gaps(s, n, console, command);
        let start = s[n - 2].offset + s[n - 2].size;
        let hole = s[n - 1].offset - start;
        assert(start <= s[n - 1].offset);
        if hole > 0 {
            if cur.0 != prev.0 {
                assert(cur.0 == Option::Some(start as u32));
                assert(0 <= n - 2 < n - 1 && s[n - 2].offset + s[n - 2].size <= start && start < s[
                    n - 1].offset);
                assert(in_gap(s, n, start));
            }
            if cur.1 != prev.1 {
                if prev.0 is None && hole > 1 {
                    assert(cur.1 == Option::Some((start + 1) as u32));
                    assert(0 <= n - 2 < n - 1 && s[n - 2].offset + s[n - 2].size <= start + 1
                        && start + 1 < s[n - 1].offset);
                    assert(in_gap(s, n, start + 1));
                } else {
                    assert(cur.1 == Option::Some(start as u32));
                    assert(in_gap(s, n, start));
                }
            }
        }
    }
}

/// Scans the consecutive pairs of an address-ordered register sequence and
/// allocates the run-wide console and command bytes into the first holes
/// with spare room.
#[verifier::loop_isolation(false)]
pub fn plan_gaps(sorted: &Vec<Register>, console: Option<u32>, command: Option<u32>) -> (r: (
    Option<u32>,
    Option<u32>,
))
    requires
        chain_ok(sorted@.map_values(|x: Register| x@)),
    ensures
        r == spec_gaps(
            sorted@.map_values(|x: Register| x@),
            sorted@.len() as int,
            console,
            command,
        ),
{
    let ghost s = sorted@.map_values(|x: Register| x@);
    let n = sorted.len();
    let mut con = console;
    let mut com = command;
    let mut i: usize = 1;
    if n < 2 {
        return (con, com);
    }
    while i < n
        invariant
            1 <= i <= n,
            n == sorted@.len(),
            (con, com) == spec_gaps(s, i as int, console, command),
        decreases n - i,
    {
        proof {
            assert(s[i - 1] == sorted@[i - 1]@);
            assert(s[i as int] == sorted@[i as int]@);
        }
        let prior_end = sorted[i - 1].offset + sorted[i - 1].size;
        let hole = sorted[i].offset - prior_end;
        if hole > 0 {
            let mut space = hole;
            let mut addr = prior_end;
            if con.is_none() {
                con = Some(addr);
                space = space - 1;
                addr = addr + 1;
            }
            if com.is_none() && space > 0 {
                com = Some(addr);
            }
        }
        i = i + 1;
    }
    (con, com)
}

} // verus!
