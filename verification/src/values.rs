//! The value-expansion engine: repositions a value group's raw values into
//! the bit position of the consuming field's mask, and deduplicates the
//! derived enumerator identifiers, first seen wins.

use vstd::prelude::*;
use crate::casing::{screaming_field, spec_upper};
use crate::ident::{caption_to_ident, or_name, spec_caption_to_ident, spec_or_name};
use crate::model::{Error, ExpandState, FlagEntry, FlagEntryV, ValueV, ValueGroup};

verus! {

/// The field-positioned image of `value`: shifted left by the number of
/// trailing zero bits of `mask`.
pub open spec fn spec_positioned(mask: u32, value: u32) -> u32
    decreases mask,
    when mask != 0
    via spec_positioned_decreases
{
    if mask & 1u32 == 1u32 {
        value
    } else {
        spec_positioned(mask >> 1u32, value << 1u32)
    }
}

#[via_fn]
proof fn spec_positioned_decreases(mask: u32, value: u32) {
    assert(mask != 0 && mask & 1u32 != 1u32 ==> mask >> 1u32 < mask) by (bit_vector);
}

/// Repositions one raw value to match the field's mask by shifting mask and
/// value in lock-step; a zero mask is invalid input and fails rather than
/// shifting forever.
#[verifier::loop_isolation(false)]
pub fn positioned_value(mask: u32, value: u32) -> (r: Result<u32, Error>)
    ensures
        mask != 0 ==> r == Ok::<u32, Error>(spec_positioned(mask, value)),
        mask == 0 ==> r == Err::<u32, Error>(Error::InvalidMask),
{
    if mask == 0 {
        return Err(Error::InvalidMask);
    }
    let mut m: u32 = mask;
    let mut v: u32 = value;
    while m & 1 == 0
        invariant
            m != 0,
            spec_positioned(mask, value) == spec_positioned(m, v),
        decreases m,
    {
        proof {
            let m0 = m;
            assert(m0 != 0 && m0 & 1u32 == 0u32 ==> (m0 >> 1u32) != 0 && (m0 >> 1u32) < m0)
                by (bit_vector);
        }
        v = v << 1u32;
        m = m >> 1u32;
    }
    proof {
        let m0 = m;
        assert(m0 & 1u32 != 0 ==> m0 & 1u32 == 1u32) by (bit_vector);
    }
    Ok(v)
}

/// Once expansion has failed, expanding more values keeps the same failure.
pub proof fn lemma_expand_error_persists(
    field_name: Seq<char>,
    mask: u32,
    vals: Seq<ValueV>,
    i: int,
    n: int,
    st: ExpandState,
    e: Error,
)
    requires
        0 <= i <= n,
        spec_expand_values(field_name, mask, vals, i, st) == Err::<ExpandState, Error>(e),
    ensures
        spec_expand_values(field_name, mask, vals, n, st) == Err::<ExpandState, Error>(e),
    decreases n,
{
    if n > i {
        lemma_expand_error_persists(field_name, mask, vals, i, n - 1, st, e);
    }
}

/// The dedup identifier derived for one enumerated value under a field name.
pub open spec fn value_ident(field_name: Seq<char>, v: ValueV) -> Seq<char> {
    spec_caption_to_ident(v.caption, Option::Some(field_name))
}

/// Expanding one enumerated value: skipped when its identifier was already
/// seen, fatal when a fresh value meets a zero mask, otherwise appended.
pub open spec fn spec_expand_step(field_name: Seq<char>, mask: u32, v: ValueV, st: ExpandState) -> Result<
    ExpandState,
    Error,
> {
    let id = value_ident(field_name, v);
    if st.done.contains(id) {
        Ok(st)
    } else if mask == 0 {
        Err(Error::InvalidMask)
    } else {
        Ok(
            ExpandState {
                done: st.done.push(id),
                entries: st.entries.push(
                    FlagEntryV {
                        ident: id,
                        const_name: spec_upper(id),
                        value: spec_positioned(mask, v.value),
                        caption: spec_or_name(v.caption, v.name),
                    },
                ),
            },
        )
    }
}

/// Expanding the first `n` values of a group, threading the dedup state.
pub open spec fn spec_expand_values(
    field_name: Seq<char>,
    mask: u32,
    vals: Seq<ValueV>,
    n: int,
    st: ExpandState,
) -> Result<ExpandState, Error>
    decreases n,
{
    if n <= 0 {
        Ok(st)
    } else {
        match spec_expand_values(field_name, mask, vals, n - 1, st) {
            Ok(prev) => spec_expand_step(field_name, mask, vals[n - 1], prev),
            Err(e) => Err(e),
        }
    }
}

/// Expands a whole value group against the consuming field's mask, appending
/// the fresh entries and recording their identifiers as seen.
#[verifier::loop_isolation(false)]
pub fn expand_value_group(
    field_name: &String,
    mask: u32,
    vg: &ValueGroup,
    done: &mut Vec<String>,
    entries: &mut Vec<FlagEntry>,
) -> (r: Result<(), Error>)
    ensures
        match spec_expand_values(
            field_name@,
            mask,
            vg@.values,
            vg@.values.len() as int,
            state_of(old(done)@, old(entries)@),
        ) {
            Ok(st) => r == Ok::<(), Error>(()) && state_of(final(done)@, final(entries)@) == st,
            Err(e) => r == Err::<(), Error>(e),
        },
{
    let ghost st0 = state_of(done@, entries@);
    let n = vg.values.len();
    let mut i: usize = 0;
    while i < n
        invariant
            i <= n,
            n == vg@.values.len(),
            spec_expand_values(field_name@, mask, vg@.values, i as int, st0) == Ok::<
                ExpandState,
                Error,
            >(state_of(done@, entries@)),
        decreases n - i,
    {
        let v = &vg.values[i];
        let id = caption_to_ident(&v.caption, Some(field_name));
        if !contains_str(done, &id) {
            if mask == 0 {
                proof {
                    let prev = spec_expand_values(field_name@, mask, vg@.values, i as int, st0);
                    assert(spec_expand_values(field_name@, mask, vg@.values, i + 1, st0)
                        == spec_expand_step(field_name@, mask, vg@.values[i as int], prev->Ok_0));
                    assert(id@ == value_ident(field_name@, vg@.values[i as int]));
                    assert(!(prev->Ok_0).done.contains(id@));
                    assert(spec_expand_step(field_name@, mask, vg@.values[i as int], prev->Ok_0)
                        == Err::<ExpandState, Error>(Error::InvalidMask));
                    lemma_expand_error_persists(
                        field_name@,
                        mask,
                        vg@.values,
                        i + 1,
                        n as int,
                        st0,
                        Error::InvalidMask,
                    );
                }
                return Err(Error::InvalidMask);
            }
            let pv = match positioned_value(mask, v.value) {
                Ok(pv) => pv,
                Err(e) => {
                    proof {
                        assert(false);
                    }
                    return Err(e);
                },
            };
            let const_name = screaming_field(&id);
            let cap = or_name(&v.caption, &v.name).clone();
            entries.push(FlagEntry { ident: id.clone(), const_name, value: pv, caption: cap });
            done.push(id);
        }
        proof {
            let prev = spec_expand_values(field_name@, mask, vg@.values, i as int, st0);
            assert(spec_expand_values(field_name@, mask, vg@.values, i + 1, st0)
                == spec_expand_step(field_name@, mask, vg@.values[i as int], prev->Ok_0));
            assert(state_of(done@, entries@) =~~= spec_expand_step(
                field_name@,
                mask,
                vg@.values[i as int],
                prev->Ok_0,
            )->Ok_0);
        }
        i = i + 1;
    }
    Ok(())
}

/// A dedup state is consistent when every kept entry's identifier has been
/// recorded as seen, and no two kept entries share an identifier.
pub open spec fn entries_wf(st: ExpandState) -> bool {
    &&& forall|i: int|
        0 <= i < st.entries.len() ==> st.done.contains((#[trigger] st.entries[i]).ident)
    &&& forall|i: int, j: int|
        0 <= i < j < st.entries.len() ==> st.entries[i].ident != st.entries[j].ident
}

/// With a non-zero mask, expansion never fails.
pub proof fn lemma_expand_ok(field_name: Seq<char>, mask: u32, vals: Seq<ValueV>, n: int, st: ExpandState)
    requires
        mask != 0,
    ensures
        spec_expand_values(field_name, mask, vals, n, st) is Ok,
    decreases n,
{
    if n > 0 {
        lemma_expand_ok(field_name, mask, vals, n - 1, st);
    }
}

/// A pushed element is what membership in the longer sequence adds.
pub proof fn lemma_seq_push_contains<A>(s: Seq<A>, x: A, y: A)
    ensures
        s.push(x).contains(y) <==> (s.contains(y) || y == x),
{
    if s.push(x).contains(y) {
        let i = choose|i: int| 0 <= i < s.push(x).len() && s.push(x)[i] == y;
        if i < s.len() {
            assert(s[i] == y);
        }
    }
    if s.contains(y) {
        let i = choose|i: int| 0 <= i < s.len() && s[i] == y;
        assert(s.push(x)[i] == y);
    }
    assert(s.push(x)[s.len() as int] == x);
}

/// Expansion only appends entries and only grows the seen set, and keeps a
/// consistent state consistent.
pub proof fn lemma_expand_grows(
    field_name: Seq<char>,
    mask: u32,
    vals: Seq<ValueV>,
    n: int,
    st: ExpandState,
)
    requires
        entries_wf(st),
        spec_expand_values(field_name, mask, vals, n, st) is Ok,
    ensures
        entries_wf(spec_expand_values(field_name, mask, vals, n, st)->Ok_0),
        st.entries.len() <= spec_expand_values(field_name, mask, vals, n, st)->Ok_0.entries.len(),
        forall|i: int|
            0 <= i < st.entries.len() ==> spec_expand_values(
                field_name,
                mask,
                vals,
                n,
                st,
            )->Ok_0.entries[i] == st.entries[i],
        forall|id: Seq<char>|
            st.done.contains(id) ==> spec_expand_values(
                field_name,
                mask,
                vals,
                n,
                st,
            )->Ok_0.done.contains(id),
    decreases n,
{
    if n > 0 {
        let prev = spec_expand_values(field_name, mask, vals, n - 1, st);
        lemma_expand_grows(field_name, mask, vals, n - 1, st);
        let p = prev->Ok_0;
        let cur = spec_expand_values(field_name, mask, vals, n, st)->Ok_0;
        let id = value_ident(field_name, vals[n - 1]);
        if p.done.contains(id) {
        } else {
            assert(cur.entries == p.entries.push(cur.entries.last()));
            assert(cur.done == p.done.push(id));
            assert forall|i: int| 0 <= i < cur.entries.len() implies cur.done.contains(
                (#[trigger] cur.entries[i]).ident,
            ) by {
                if i < p.entries.len() {
                    assert(cur.entries[i] == p.entries[i]);
                    assert(p.done.contains(p.entries[i].ident));
                    lemma_seq_push_contains(p.done, id, p.entries[i].ident);
                } else {
                    assert(cur.entries[i].ident == id);
                    lemma_seq_push_contains(p.done, id, id);
                }
            }
            assert forall|i: int, j: int| 0 <= i < j < cur.entries.len() implies cur.entries[i].ident
                != cur.entries[j].ident by {
                if j < p.entries.len() {
                } else {
                    assert(cur.entries[i] == p.entries[i]);
                    assert(p.done.contains(p.entries[i].ident));
                    assert(cur.entries[j].ident == id);
                }
            }
            assert forall|id2: Seq<char>| p.done.contains(id2) implies cur.done.contains(id2) by {
                lemma_seq_push_contains(p.done, id, id2);
            }
        }
    }
}

/// An identifier is seen after expansion exactly when it was seen before or
/// some processed value derives it.
pub proof fn lemma_expand_done_iff(
    field_name: Seq<char>,
    mask: u32,
    vals: Seq<ValueV>,
    n: int,
    st: ExpandState,
    id: Seq<char>,
)
    requires
        0 <= n <= vals.len(),
        spec_expand_values(field_name, mask, vals, n, st) is Ok,
    ensures
        spec_expand_values(field_name, mask, vals, n, st)->Ok_0.done.contains(id) <==> (
        st.done.contains(id) || exists|k: int|
            0 <= k < n && value_ident(field_name, #[trigger] vals[k]) == id),
    decreases n,
{
    if n > 0 {
        lemma_expand_done_iff(field_name, mask, vals, n - 1, st, id);
        let p = spec_expand_values(field_name, mask, vals, n - 1, st)->Ok_0;
        let cur = spec_expand_values(field_name, mask, vals, n, st)->Ok_0;
        let idn = value_ident(field_name, vals[n - 1]);
        if !p.done.contains(idn) && mask != 0 {
            lemma_seq_push_contains(p.done, idn, id);
        }
        if cur.done.contains(id) {
            if !p.done.contains(id) {
                assert(id == idn);
                assert(0 <= n - 1 < n && value_ident(field_name, vals[n - 1]) == id);
            }
        }
        if st.done.contains(id) || exists|k: int|
            0 <= k < n && value_ident(field_name, #[trigger] vals[k]) == id {
            if !st.done.contains(id) {
                let k = choose|k: int|
                    0 <= k < n && value_ident(field_name, #[trigger] vals[k]) == id;
                if k < n - 1 {
                    assert(p.done.contains(id));
                } else {
                    if p.done.contains(idn) {
                    }
                }
            }
        }
    }
}

/// The entry a value contributes when it is kept.
pub open spec fn entry_of(field_name: Seq<char>, mask: u32, v: ValueV) -> FlagEntryV {
    FlagEntryV {
        ident: value_ident(field_name, v),
        const_name: spec_upper(value_ident(field_name, v)),
        value: spec_positioned(mask, v.value),
        caption: spec_or_name(v.caption, v.name),
    }
}

/// The first value to derive a fresh identifier is the one whose entry is
/// kept.
pub proof fn lemma_expand_first_wins(
    field_name: Seq<char>,
    mask: u32,
    vals: Seq<ValueV>,
    n: int,
    st: ExpandState,
    k: int,
)
    requires
        entries_wf(st),
        spec_expand_values(field_name, mask, vals, n, st) is Ok,
        0 <= k < n <= vals.len(),
        !st.done.contains(value_ident(field_name, vals[k])),
        forall|j: int|
            0 <= j < k ==> value_ident(field_name, #[trigger] vals[j]) != value_ident(
                field_name,
                vals[k],
            ),
    ensures
        spec_expand_values(field_name, mask, vals, n, st)->Ok_0.entries.contains(
            entry_of(field_name, mask, vals[k]),
        ),
    decreases n,
{
    let cur = spec_expand_values(field_name, mask, vals, n, st)->Ok_0;
    let p = spec_expand_values(field_name, mask, vals, n - 1, st)->Ok_0;
    if k == n - 1 {
        lemma_expand_done_iff(field_name, mask, vals, n - 1, st, value_ident(field_name, vals[k]));
        assert(!p.done.contains(value_ident(field_name, vals[k])));
        assert(cur.entries.last() == entry_of(field_name, mask, vals[k]));
        assert(cur.entries.contains(cur.entries.last()));
    } else {
        lemma_expand_first_wins(field_name, mask, vals, n - 1, st, k);
        let e = entry_of(field_name, mask, vals[k]);
        let m = choose|m: int| 0 <= m < p.entries.len() && p.entries[m] == e;
        let idn = value_ident(field_name, vals[n - 1]);
        if p.done.contains(idn) {
            assert(cur.entries[m] == e);
        } else {
            assert(cur.entries == p.entries.push(cur.entries.last()));
            assert(cur.entries[m] == e);
        }
        assert(cur.entries.contains(e));
    }
}

/// Law: two values that normalize to the same identifier yield exactly one
/// enumerator, and it carries the first one's shifted value and caption.
pub proof fn lemma_dedup_stability(
    field_name: Seq<char>,
    mask: u32,
    vals: Seq<ValueV>,
    k1: int,
    k2: int,
)
    requires
        mask != 0,
        0 <= k1 < k2 < vals.len(),
        value_ident(field_name, vals[k1]) == value_ident(field_name, vals[k2]),
        forall|j: int|
            0 <= j < k1 ==> value_ident(field_name, #[trigger] vals[j]) != value_ident(
                field_name,
                vals[k1],
            ),
    ensures
        spec_expand_values(
            field_name,
            mask,
            vals,
            vals.len() as int,
            ExpandState { done: Seq::<Seq<char>>::empty(), entries: Seq::<FlagEntryV>::empty() },
        ) matches Ok(st) && st.entries.contains(entry_of(field_name, mask, vals[k1])) && (forall|
            e1: int,
            e2: int,
        |
            0 <= e1 < e2 < st.entries.len() ==> st.entries[e1].ident != st.entries[e2].ident),
{
    let st0 = ExpandState {
        done: Seq::<Seq<char>>::empty(),
        entries: Seq::<FlagEntryV>::empty(),
    };
    lemma_expand_ok(field_name, mask, vals, vals.len() as int, st0);
    lemma_expand_grows(field_name, mask, vals, vals.len() as int, st0);
    lemma_expand_first_wins(field_name, mask, vals, vals.len() as int, st0, k1);
}

/// The abstract dedup state carried by the two vectors.
pub open spec fn state_of(done: Seq<String>, entries: Seq<FlagEntry>) -> ExpandState {
    ExpandState {
        done: done.map_values(|s: String| s@),
        entries: entries.map_values(|e: FlagEntry| e@),
    }
}

/// Whether the vector holds a string with the given characters.
#[verifier::loop_isolation(false)]
pub fn contains_str(v: &Vec<String>, s: &String) -> (r: bool)
    ensures
        r == v@.map_values(|t: String| t@).contains(s@),
{
    let n = v.len();
    let mut i: usize = 0;
    while i < n
        invariant
            i <= n,
            n == v@.len(),
            forall|k: int| 0 <= k < i ==> (#[trigger] v@[k])@ != s@,
        decreases n - i,
    {
        if v[i] == *s {
            proof {
                assert(v@.map_values(|t: String| t@)[i as int] == s@);
            }
            return true;
        }
        i = i + 1;
    }
    proof {
        if v@.map_values(|t: String| t@).contains(s@) {
            let k = choose|k: int| 0 <= k < v@.len() && (#[trigger] v@[k])@ == s@;
            assert(false);
        }
    }
    false
}

} // verus!
