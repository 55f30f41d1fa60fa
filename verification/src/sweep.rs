//! Dead-code elimination: whole-module reachability analysis rooted at
//! exports, the start slot, element-segment entries and globals'
//! initializers, followed by deletion of every import and function the roots
//! cannot reach.

use vstd::prelude::*;

use crate::ir::{
    declares_fn, func_refs, ids_distinct, instr_target, is_import_fn_id, is_local_id, kind_fn_id,
    lemma_filter_step, Func, FuncV, Import, ImportV, Instr, ItemKind, Module, ModuleV,
};

verus! {

/// `id` is referenced by a root: a function-targeted export, the start slot,
/// an element-segment entry, or a global's initializer.
pub open spec fn is_root(v: ModuleV, id: u32) -> bool {
    ||| exists|i: int|
        0 <= i < v.exports.len() && kind_fn_id(#[trigger] v.exports[i].kind) == Some(id)
    ||| v.start == Some(id)
    ||| exists|e: int, k: int|
        0 <= e < v.elements.len() && 0 <= k < v.elements[e].len() && #[trigger] v.elements[e][k]
            == id
    ||| exists|g: int| 0 <= g < v.globals.len() && #[trigger] v.globals[g] == Some(id)
}

/// `id` is reachable from the roots in at most `k` reference steps.
pub open spec fn reach(v: ModuleV, id: u32, k: nat) -> bool
    decreases k,
{
    if k == 0 {
        is_root(v, id)
    } else {
        reach(v, id, (k - 1) as nat) || exists|fi: int|
            0 <= fi < v.funcs.len() && reach(v, v.funcs[fi].id, (k - 1) as nat)
                && #[trigger] func_refs(v.funcs[fi], id)
    }
}

/// `id` is reachable from the roots.
pub open spec fn reachable(v: ModuleV, id: u32) -> bool {
    exists|k: nat| reach(v, id, k)
}

/// A reference held by a reachable function is itself reachable.
pub proof fn lemma_reachable_step(v: ModuleV, fi: int, id: u32)
    requires
        0 <= fi < v.funcs.len(),
        reachable(v, v.funcs[fi].id),
        func_refs(v.funcs[fi], id),
    ensures
        reachable(v, id),
{
    let k = choose|k: nat| reach(v, v.funcs[fi].id, k);
    assert(reach(v, id, k + 1));
}

/// An import survives the sweep if it is not a function import, or its
/// function id is still reachable.
pub open spec fn import_live(v: ModuleV, i: ImportV) -> bool {
    match kind_fn_id(i.kind) {
        Some(id) => reachable(v, id),
        None => true,
    }
}

/// What the sweep does: imports and functions are filtered by reachability,
/// in order; elements, globals, exports and the start slot are untouched.
pub open spec fn sweep_spec(v: ModuleV) -> ModuleV {
    ModuleV {
        imports: v.imports.filter(|i: ImportV| import_live(v, i)),
        funcs: v.funcs.filter(|f: FuncV| reachable(v, f.id)),
        ..v
    }
}

/// `id` is marked: some import or function index carrying `id` has its bit set.
pub open spec fn marked(v: ModuleV, mi: Seq<bool>, mf: Seq<bool>, id: u32) -> bool {
    ||| exists|i: int|
        0 <= i < v.imports.len() && kind_fn_id(#[trigger] v.imports[i].kind) == Some(id) && mi[i]
    ||| exists|i: int| 0 <= i < v.funcs.len() && #[trigger] v.funcs[i].id == id && mf[i]
}

/// Every set bit stands for a reachable id.
pub open spec fn marks_sound(v: ModuleV, mi: Seq<bool>, mf: Seq<bool>) -> bool {
    &&& forall|i: int|
        0 <= i < v.imports.len() && mi[i] ==> match kind_fn_id(#[trigger] v.imports[i].kind) {
            Some(id) => reachable(v, id),
            None => false,
        }
    &&& forall|i: int| 0 <= i < v.funcs.len() && #[trigger] mf[i] ==> reachable(v, v.funcs[i].id)
}

/// Marks persist when bits only go up.
proof fn lemma_marked_mono(
    v: ModuleV,
    mi1: Seq<bool>,
    mf1: Seq<bool>,
    mi2: Seq<bool>,
    mf2: Seq<bool>,
    id: u32,
)
    requires
        mi1.len() == mi2.len(),
        mf1.len() == mf2.len(),
        mi1.len() == v.imports.len(),
        mf1.len() == v.funcs.len(),
        forall|i: int| 0 <= i < mi1.len() && mi1[i] ==> #[trigger] mi2[i],
        forall|i: int| 0 <= i < mf1.len() && mf1[i] ==> #[trigger] mf2[i],
        marked(v, mi1, mf1, id),
    ensures
        marked(v, mi2, mf2, id),
{
    if exists|i: int|
        0 <= i < v.imports.len() && kind_fn_id(#[trigger] v.imports[i].kind) == Some(id) && mi1[i] {
        let i = choose|i: int|
            0 <= i < v.imports.len() && kind_fn_id(#[trigger] v.imports[i].kind) == Some(id)
                && mi1[i];
        assert(mi2[i]);
    } else {
        let i = choose|i: int| 0 <= i < v.funcs.len() && #[trigger] v.funcs[i].id == id && mf1[i];
        assert(mf2[i]);
    }
}

/// A declared id reachable in `k` steps is marked, once the declared roots
/// are marked and the marks are closed under references of marked functions.
proof fn lemma_closed_covers(v: ModuleV, mi: Seq<bool>, mf: Seq<bool>, id: u32, k: nat)
    requires
        ids_distinct(v),
        reach(v, id, k),
        declares_fn(v, id),
        forall|id2: u32| is_root(v, id2) && #[trigger] declares_fn(v, id2) ==> marked(v, mi, mf, id2),
        forall|fi: int, id2: u32|
            0 <= fi < v.funcs.len() && mf[fi] && #[trigger] func_refs(v.funcs[fi], id2)
                && declares_fn(v, id2) ==> marked(v, mi, mf, id2),
        mf.len() == v.funcs.len(),
    ensures
        marked(v, mi, mf, id),
    decreases k,
{
    if k == 0 {
    } else {
        if reach(v, id, (k - 1) as nat) {
            lemma_closed_covers(v, mi, mf, id, (k - 1) as nat);
        } else {
            let fi = choose|fi: int|
                0 <= fi < v.funcs.len() && reach(v, v.funcs[fi].id, (k - 1) as nat)
                    && #[trigger] func_refs(v.funcs[fi], id);
            assert(is_local_id(v, v.funcs[fi].id));
            lemma_closed_covers(v, mi, mf, v.funcs[fi].id, (k - 1) as nat);
            // the mark for funcs[fi].id can only sit at index fi itself
            if exists|i2: int|
                0 <= i2 < v.funcs.len() && #[trigger] v.funcs[i2].id == v.funcs[fi].id && mf[i2] {
                let i2 = choose|i2: int|
                    0 <= i2 < v.funcs.len() && #[trigger] v.funcs[i2].id == v.funcs[fi].id
                        && mf[i2];
                assert(i2 == fi);
                assert(marked(v, mi, mf, id));
            } else {
                // an import bit for this id contradicts id uniqueness
                let i3 = choose|i3: int|
                    0 <= i3 < v.imports.len() && kind_fn_id(#[trigger] v.imports[i3].kind) == Some(
                        v.funcs[fi].id,
                    ) && mi[i3];
                assert(false);
            }
        }
    }
}

/// How many bits of `s` are still unset.
pub open spec fn count_false(s: Seq<bool>) -> nat
    decreases s.len(),
{
    if s.len() == 0 {
        0
    } else {
        count_false(s.drop_last()) + (if s.last() {
            0nat
        } else {
            1nat
        })
    }
}

/// Setting bits never increases the number of unset bits.
proof fn lemma_count_false_le(a: Seq<bool>, b: Seq<bool>)
    requires
        a.len() == b.len(),
        forall|i: int| 0 <= i < a.len() && a[i] ==> #[trigger] b[i],
    ensures
        count_false(b) <= count_false(a),
    decreases a.len(),
{
    if a.len() > 0 {
        assert forall|i: int| 0 <= i < a.len() - 1 && a.drop_last()[i] implies #[trigger] b.drop_last()[i] by {
            assert(a[i]);
            assert(b[i]);
        }
        lemma_count_false_le(a.drop_last(), b.drop_last());
    }
}

/// Setting at least one fresh bit strictly decreases the number of unset bits.
proof fn lemma_count_false_lt(a: Seq<bool>, b: Seq<bool>, w: int)
    requires
        a.len() == b.len(),
        forall|i: int| 0 <= i < a.len() && a[i] ==> #[trigger] b[i],
        0 <= w < a.len(),
        !a[w],
        b[w],
    ensures
        count_false(b) < count_false(a),
    decreases a.len(),
{
    assert forall|i: int| 0 <= i < a.len() - 1 && a.drop_last()[i] implies #[trigger] b.drop_last()[i] by {
        assert(a[i]);
        assert(b[i]);
    }
    if w == a.len() - 1 {
        lemma_count_false_le(a.drop_last(), b.drop_last());
    } else {
        lemma_count_false_lt(a.drop_last(), b.drop_last(), w);
        assert(a.last() ==> b.last());
    }
}

/// A difference against a baseline persists while bits only go up.
proof fn lemma_diff_persists(a: Seq<bool>, b: Seq<bool>, c: Seq<bool>)
    requires
        a.len() == b.len(),
        b.len() == c.len(),
        forall|i: int| 0 <= i < a.len() && a[i] ==> #[trigger] b[i],
        forall|i: int| 0 <= i < b.len() && b[i] ==> #[trigger] c[i],
        a != b,
    ensures
        a != c,
        exists|w: int| 0 <= w < a.len() && !a[w] && #[trigger] c[w],
{
    assert(exists|w: int| 0 <= w < a.len() && !(#[trigger] a[w]) && b[w]) by {
        if forall|w: int| 0 <= w < a.len() ==> #[trigger] a[w] == b[w] {
            assert(a =~= b);
        }
    }
    let w = choose|w: int| 0 <= w < a.len() && !(#[trigger] a[w]) && b[w];
    assert(c[w]);
    assert(a[w] != c[w]);
}

/// Sets the bit of every import and function index whose id is `id`, and
/// raises `changed` when any bit flips.
fn mark_id(m: &Module, mi: &mut Vec<bool>, mf: &mut Vec<bool>, changed: &mut bool, id: u32)
    requires
        old(mi)@.len() == m.imports@.len(),
        old(mf)@.len() == m.funcs@.len(),
    ensures
        final(mi)@.len() == old(mi)@.len(),
        final(mf)@.len() == old(mf)@.len(),
        forall|i: int|
            0 <= i < old(mi)@.len() ==> final(mi)@[i] == (old(mi)@[i] || kind_fn_id(
                #[trigger] m@.imports[i].kind,
            ) == Some(id)),
        forall|i: int|
            0 <= i < old(mf)@.len() ==> final(mf)@[i] == (old(mf)@[i] || (
            #[trigger] m@.funcs[i]).id == id),
        *final(changed) == (*old(changed) || final(mi)@ != old(mi)@ || final(mf)@ != old(mf)@),
{
    let ghost mi0 = old(mi)@;
    let ghost mf0 = old(mf)@;
    let n = m.imports.len();
    let mut i: usize = 0;
    while i < n
        invariant
            0 <= i <= n,
            n == m.imports@.len(),
            mi@.len() == n,
            mi0.len() == n,
            mf@ == mf0,
            forall|i2: int|
                0 <= i2 < i ==> mi@[i2] == (mi0[i2] || kind_fn_id(#[trigger] m@.imports[i2].kind)
                    == Some(id)),
            forall|i2: int| i <= i2 < n ==> mi@[i2] == mi0[i2],
            *changed == (*old(changed) || mi@ != mi0),
        decreases n - i,
    {
        let hit = match m.imports[i].kind {
            ItemKind::Function { func } => func == id,
            _ => false,
        };
        proof {
            assert(m@.imports[i as int] == m.imports@[i as int]@);
        }
        if hit && !mi[i] {
            mi[i] = true;
            *changed = true;
            proof {
                assert(mi@[i as int] != mi0[i as int]);
            }
        }
        i += 1;
    }
    let ghost mi_done = mi@;
    let nf = m.funcs.len();
    let mut j: usize = 0;
    while j < nf
        invariant
            0 <= j <= nf,
            nf == m.funcs@.len(),
            mf@.len() == nf,
            mf0.len() == nf,
            mi@ == mi_done,
            mi@.len() == mi0.len(),
            forall|j2: int|
                0 <= j2 < j ==> mf@[j2] == (mf0[j2] || (#[trigger] m@.funcs[j2]).id == id),
            forall|j2: int| j <= j2 < nf ==> mf@[j2] == mf0[j2],
            *changed == (*old(changed) || mi_done != mi0 || mf@ != mf0),
        decreases nf - j,
    {
        let hit = m.funcs[j].id == id;
        proof {
            assert(m@.funcs[j as int] == m.funcs@[j as int]@);
        }
        if hit && !mf[j] {
            mf[j] = true;
            *changed = true;
            proof {
                assert(mf@[j as int] != mf0[j as int]);
            }
        }
        j += 1;
    }
}

/// Marks every declared id referenced by the instructions of `funcs[fi]`, at
/// every nesting depth of its body.
fn mark_func_refs(m: &Module, fi: usize, mi: &mut Vec<bool>, mf: &mut Vec<bool>, changed: &mut bool)
    requires
        fi < m.funcs@.len(),
        old(mi)@.len() == m.imports@.len(),
        old(mf)@.len() == m.funcs@.len(),
        marks_sound(m@, old(mi)@, old(mf)@),
        reachable(m@, m@.funcs[fi as int].id),
    ensures
        final(mi)@.len() == old(mi)@.len(),
        final(mf)@.len() == old(mf)@.len(),
        forall|i: int| 0 <= i < old(mi)@.len() && old(mi)@[i] ==> #[trigger] final(mi)@[i],
        forall|i: int| 0 <= i < old(mf)@.len() && old(mf)@[i] ==> #[trigger] final(mf)@[i],
        marks_sound(m@, final(mi)@, final(mf)@),
        *final(changed) == (*old(changed) || final(mi)@ != old(mi)@ || final(mf)@ != old(mf)@),
        forall|id: u32|
            #[trigger] func_refs(m@.funcs[fi as int], id) && declares_fn(m@, id) ==> marked(
                m@,
                final(mi)@,
                final(mf)@,
                id,
            ),
{
    let ghost v = m@;
    let ghost mi0 = old(mi)@;
    let ghost mf0 = old(mf)@;
    proof {
        assert(v.funcs[fi as int] == m.funcs@[fi as int]@);
    }
    let ns = m.funcs[fi].seqs.len();
    let mut si: usize = 0;
    while si < ns
        invariant
            v == m@,
            fi < v.funcs.len(),
            fi < m.funcs@.len(),
            v.funcs[fi as int] == m.funcs@[fi as int]@,
            reachable(v, v.funcs[fi as int].id),
            0 <= si <= ns,
            ns == v.funcs[fi as int].seqs.len(),
            mi@.len() == mi0.len(),
            mf@.len() == mf0.len(),
            mi0.len() == v.imports.len(),
            mf0.len() == v.funcs.len(),
            forall|i: int| 0 <= i < mi0.len() && mi0[i] ==> #[trigger] mi@[i],
            forall|i: int| 0 <= i < mf0.len() && mf0[i] ==> #[trigger] mf@[i],
            marks_sound(v, mi@, mf@),
            *changed == (*old(changed) || mi@ != mi0 || mf@ != mf0),
            forall|s2: int, k2: int|
                0 <= s2 < si && 0 <= k2 < v.funcs[fi as int].seqs[s2].len() ==> match instr_target(
                    #[trigger] v.funcs[fi as int].seqs[s2][k2],
                ) {
                    Some(t) => declares_fn(v, t) ==> marked(v, mi@, mf@, t),
                    None => true,
                },
        decreases ns - si,
    {
        let nk = m.funcs[fi].seqs[si].len();
        proof {
            assert(v.funcs[fi as int].seqs[si as int] == m.funcs@[fi as int].seqs@[si as int]@);
        }
        let mut k: usize = 0;
        while k < nk
            invariant
                v == m@,
                fi < v.funcs.len(),
                fi < m.funcs@.len(),
                v.funcs[fi as int] == m.funcs@[fi as int]@,
                v.funcs[fi as int].seqs[si as int] == m.funcs@[fi as int].seqs@[si as int]@,
                reachable(v, v.funcs[fi as int].id),
                0 <= si < v.funcs[fi as int].seqs.len(),
                si < m.funcs@[fi as int].seqs@.len(),
                0 <= k <= nk,
                nk == v.funcs[fi as int].seqs[si as int].len(),
                mi@.len() == mi0.len(),
                mf@.len() == mf0.len(),
                mi0.len() == v.imports.len(),
                mf0.len() == v.funcs.len(),
                forall|i: int| 0 <= i < mi0.len() && mi0[i] ==> #[trigger] mi@[i],
                forall|i: int| 0 <= i < mf0.len() && mf0[i] ==> #[trigger] mf@[i],
                marks_sound(v, mi@, mf@),
                *changed == (*old(changed) || mi@ != mi0 || mf@ != mf0),
                forall|s2: int, k2: int|
                    0 <= s2 < si && 0 <= k2 < v.funcs[fi as int].seqs[s2].len() ==> match instr_target(
                        #[trigger] v.funcs[fi as int].seqs[s2][k2],
                    ) {
                        Some(t) => declares_fn(v, t) ==> marked(v, mi@, mf@, t),
                        None => true,
                    },
                forall|k2: int|
                    0 <= k2 < k ==> match instr_target(
                        #[trigger] v.funcs[fi as int].seqs[si as int][k2],
                    ) {
                        Some(t) => declares_fn(v, t) ==> marked(v, mi@, mf@, t),
                        None => true,
                    },
            decreases nk - k,
        {
            let ins = m.funcs[fi].seqs[si][k];
            proof {
                assert(ins == v.funcs[fi as int].seqs[si as int][k as int]);
            }
            let t_opt = match ins {
                Instr::Call { func } => Some(func),
                Instr::ReturnCall { func } => Some(func),
                Instr::RefFunc { func } => Some(func),
                _ => None,
            };
            match t_opt {
                Some(t) => {
                    proof {
                        assert(func_refs(v.funcs[fi as int], t));
                        lemma_reachable_step(v, fi as int, t);
                    }
                    let ghost pmi = mi@;
                    let ghost pmf = mf@;
                    let ghost pch = *changed;
                    mark_id(m, mi, mf, changed, t);
                    proof {
                        // one mark step only raises bits
                        assert forall|i: int| 0 <= i < pmi.len() && pmi[i] implies #[trigger] mi@[i] by {
                            assert(mi@[i] == (pmi[i] || kind_fn_id(m@.imports[i].kind) == Some(t)));
                        }
                        assert forall|i: int| 0 <= i < pmf.len() && pmf[i] implies #[trigger] mf@[i] by {
                            assert(mf@[i] == (pmf[i] || m@.funcs[i].id == t));
                        }
                        // growth composes
                        assert forall|i: int| 0 <= i < mi0.len() && mi0[i] implies #[trigger] mi@[i] by {
                            assert(pmi[i]);
                        }
                        assert forall|i: int| 0 <= i < mf0.len() && mf0[i] implies #[trigger] mf@[i] by {
                            assert(pmf[i]);
                        }
                        // soundness: fresh bits stand for the reachable id t
                        assert forall|i: int|
                            0 <= i < v.imports.len() && mi@[i] implies match kind_fn_id(
                            #[trigger] v.imports[i].kind,
                        ) {
                            Some(id) => reachable(v, id),
                            None => false,
                        } by {
                            assert(v.imports[i] == m.imports@[i]@);
                            if !pmi[i] {
                                assert(kind_fn_id(v.imports[i].kind) == Some(t));
                            }
                        }
                        assert forall|i: int|
                            0 <= i < v.funcs.len() && #[trigger] mf@[i] implies reachable(
                            v,
                            v.funcs[i].id,
                        ) by {
                            assert(v.funcs[i] == m.funcs@[i]@);
                            if !pmf[i] {
                                assert(v.funcs[i].id == t);
                            }
                        }
                        // the changed flag keeps measuring distance to the entry marks
                        if pch {
                            assert(*changed);
                            if pmi != mi0 {
                                lemma_diff_persists(mi0, pmi, mi@);
                            } else if pmf != mf0 {
                                lemma_diff_persists(mf0, pmf, mf@);
                            }
                        } else {
                            assert(pmi == mi0 && pmf == mf0);
                        }
                        // the fresh target is marked if it is declared
                        assert(declares_fn(v, t) ==> marked(v, mi@, mf@, t)) by {
                            if is_import_fn_id(v, t) {
                                let i = choose|i: int|
                                    0 <= i < v.imports.len() && kind_fn_id(
                                        #[trigger] v.imports[i].kind,
                                    ) == Some(t);
                                assert(v.imports[i] == m.imports@[i]@);
                                assert(mi@[i]);
                            } else if is_local_id(v, t) {
                                let i = choose|i: int|
                                    0 <= i < v.funcs.len() && #[trigger] v.funcs[i].id == t;
                                assert(v.funcs[i] == m.funcs@[i]@);
                                assert(mf@[i]);
                            }
                        }
                        // previously covered targets stay marked
                        assert forall|s2: int, k2: int|
                            0 <= s2 < si && 0 <= k2 < v.funcs[fi as int].seqs[s2].len() implies match instr_target(
                            #[trigger] v.funcs[fi as int].seqs[s2][k2],
                        ) {
                            Some(t2) => declares_fn(v, t2) ==> marked(v, mi@, mf@, t2),
                            None => true,
                        } by {
                            match instr_target(v.funcs[fi as int].seqs[s2][k2]) {
                                Some(t2) => {
                                    if declares_fn(v, t2) {
                                        lemma_marked_mono(v, pmi, pmf, mi@, mf@, t2);
                                    }
                                },
                                None => {},
                            }
                        }
                        assert forall|k2: int|
                            0 <= k2 < k implies match instr_target(
                            #[trigger] v.funcs[fi as int].seqs[si as int][k2],
                        ) {
                            Some(t2) => declares_fn(v, t2) ==> marked(v, mi@, mf@, t2),
                            None => true,
                        } by {
                            match instr_target(v.funcs[fi as int].seqs[si as int][k2]) {
                                Some(t2) => {
                                    if declares_fn(v, t2) {
                                        lemma_marked_mono(v, pmi, pmf, mi@, mf@, t2);
                                    }
                                },
                                None => {},
                            }
                        }
                    }
                },
                None => {},
            }
            k += 1;
        }
        si += 1;
    }
    proof {
        assert forall|id: u32|
            #[trigger] func_refs(v.funcs[fi as int], id) && declares_fn(v, id) implies marked(
            v,
            mi@,
            mf@,
            id,
        ) by {
            let (s2, k2) = choose|s2: int, k2: int|
                0 <= s2 < v.funcs[fi as int].seqs.len() && 0 <= k2 < v.funcs[fi as int].seqs[s2].len()
                    && instr_target(#[trigger] v.funcs[fi as int].seqs[s2][k2]) == Some(id);
        }
    }
}

/// One propagation round: scans every function already marked and marks what
/// it references. Reports whether any bit changed; an unchanged round means
/// the marks are closed.
fn mark_round(m: &Module, mi: &mut Vec<bool>, mf: &mut Vec<bool>) -> (changed: bool)
    requires
        old(mi)@.len() == m.imports@.len(),
        old(mf)@.len() == m.funcs@.len(),
        marks_sound(m@, old(mi)@, old(mf)@),
    ensures
        final(mi)@.len() == old(mi)@.len(),
        final(mf)@.len() == old(mf)@.len(),
        forall|i: int| 0 <= i < old(mi)@.len() && old(mi)@[i] ==> #[trigger] final(mi)@[i],
        forall|i: int| 0 <= i < old(mf)@.len() && old(mf)@[i] ==> #[trigger] final(mf)@[i],
        marks_sound(m@, final(mi)@, final(mf)@),
        changed == (final(mi)@ != old(mi)@ || final(mf)@ != old(mf)@),
        !changed ==> forall|f2: int, id: u32|
            0 <= f2 < m@.funcs.len() && final(mf)@[f2] && #[trigger] func_refs(m@.funcs[f2], id)
                && declares_fn(m@, id) ==> marked(m@, final(mi)@, final(mf)@, id),
{
    let ghost v = m@;
    let ghost mi0 = old(mi)@;
    let ghost mf0 = old(mf)@;
    let mut changed = false;
    let nf = m.funcs.len();
    let mut fi: usize = 0;
    while fi < nf
        invariant
            v == m@,
            0 <= fi <= nf,
            nf == v.funcs.len(),
            nf == m.funcs@.len(),
            mi@.len() == mi0.len(),
            mf@.len() == mf0.len(),
            mi0.len() == v.imports.len(),
            mf0.len() == v.funcs.len(),
            forall|i: int| 0 <= i < mi0.len() && mi0[i] ==> #[trigger] mi@[i],
            forall|i: int| 0 <= i < mf0.len() && mf0[i] ==> #[trigger] mf@[i],
            marks_sound(v, mi@, mf@),
            changed == (mi@ != mi0 || mf@ != mf0),
            !changed ==> forall|f2: int, id: u32|
                0 <= f2 < fi && mf@[f2] && #[trigger] func_refs(v.funcs[f2], id) && declares_fn(
                    v,
                    id,
                ) ==> marked(v, mi@, mf@, id),
        decreases nf - fi,
    {
        let scan = mf[fi];
        if scan {
            proof {
                assert(reachable(v, v.funcs[fi as int].id));
            }
            let ghost pmi = mi@;
            let ghost pmf = mf@;
            let ghost pch = changed;
            mark_func_refs(m, fi, mi, mf, &mut changed);
            proof {
                assert forall|i: int| 0 <= i < mi0.len() && mi0[i] implies #[trigger] mi@[i] by {
                    assert(pmi[i]);
                }
                assert forall|i: int| 0 <= i < mf0.len() && mf0[i] implies #[trigger] mf@[i] by {
                    assert(pmf[i]);
                }
                if pch {
                    assert(changed);
                    if pmi != mi0 {
                        lemma_diff_persists(mi0, pmi, mi@);
                    } else if pmf != mf0 {
                        lemma_diff_persists(mf0, pmf, mf@);
                    }
                } else {
                    assert(pmi == mi0 && pmf == mf0);
                }
                if !changed {
                    assert(mi@ == pmi && mf@ == pmf);
                    assert forall|f2: int, id: u32|
                        0 <= f2 < fi + 1 && mf@[f2] && #[trigger] func_refs(v.funcs[f2], id)
                            && declares_fn(v, id) implies marked(v, mi@, mf@, id) by {
                        if f2 == fi {
                            assert(func_refs(m@.funcs[fi as int], id));
                        }
                    }
                }
            }
        } else {
            proof {
                if !changed {
                    assert forall|f2: int, id: u32|
                        0 <= f2 < fi + 1 && mf@[f2] && #[trigger] func_refs(v.funcs[f2], id)
                            && declares_fn(v, id) implies marked(v, mi@, mf@, id) by {
                        if f2 == fi {
                            assert(!mf@[f2]);
                        }
                    }
                }
            }
        }
        fi += 1;
    }
    changed
}


/// Marks one root id and re-establishes soundness and coverage for it.
fn mark_root_id(m: &Module, mi: &mut Vec<bool>, mf: &mut Vec<bool>, id: u32)
    requires
        old(mi)@.len() == m.imports@.len(),
        old(mf)@.len() == m.funcs@.len(),
        marks_sound(m@, old(mi)@, old(mf)@),
        is_root(m@, id),
    ensures
        final(mi)@.len() == old(mi)@.len(),
        final(mf)@.len() == old(mf)@.len(),
        forall|i: int| 0 <= i < old(mi)@.len() && old(mi)@[i] ==> #[trigger] final(mi)@[i],
        forall|i: int| 0 <= i < old(mf)@.len() && old(mf)@[i] ==> #[trigger] final(mf)@[i],
        marks_sound(m@, final(mi)@, final(mf)@),
        declares_fn(m@, id) ==> marked(m@, final(mi)@, final(mf)@, id),
{
    let ghost v = m@;
    let ghost pmi = old(mi)@;
    let ghost pmf = old(mf)@;
    proof {
        assert(reach(v, id, 0));
        assert(reachable(v, id));
    }
    let mut ch = false;
    mark_id(m, mi, mf, &mut ch, id);
    proof {
        assert forall|i: int| 0 <= i < pmi.len() && pmi[i] implies #[trigger] mi@[i] by {
            assert(mi@[i] == (pmi[i] || kind_fn_id(m@.imports[i].kind) == Some(id)));
        }
        assert forall|i: int| 0 <= i < pmf.len() && pmf[i] implies #[trigger] mf@[i] by {
            assert(mf@[i] == (pmf[i] || m@.funcs[i].id == id));
        }
        assert forall|i: int|
            0 <= i < v.imports.len() && mi@[i] implies match kind_fn_id(
            #[trigger] v.imports[i].kind,
        ) {
            Some(id2) => reachable(v, id2),
            None => false,
        } by {
            assert(v.imports[i] == m.imports@[i]@);
            if !pmi[i] {
                assert(kind_fn_id(v.imports[i].kind) == Some(id));
            }
        }
        assert forall|i: int|
            0 <= i < v.funcs.len() && #[trigger] mf@[i] implies reachable(v, v.funcs[i].id) by {
            assert(v.funcs[i] == m.funcs@[i]@);
            if !pmf[i] {
                assert(v.funcs[i].id == id);
            }
        }
        assert(declares_fn(v, id) ==> marked(v, mi@, mf@, id)) by {
            if is_import_fn_id(v, id) {
                let i = choose|i: int|
                    0 <= i < v.imports.len() && kind_fn_id(#[trigger] v.imports[i].kind) == Some(
                        id,
                    );
                assert(v.imports[i] == m.imports@[i]@);
                assert(mi@[i]);
            } else if is_local_id(v, id) {
                let i = choose|i: int| 0 <= i < v.funcs.len() && #[trigger] v.funcs[i].id == id;
                assert(v.funcs[i] == m.funcs@[i]@);
                assert(mf@[i]);
            }
        }
    }
}

/// Marks every declared root: function-targeted exports, the start slot,
/// element-segment entries, and globals' initializers.
fn mark_roots(m: &Module, mi: &mut Vec<bool>, mf: &mut Vec<bool>)
    requires
        old(mi)@.len() == m.imports@.len(),
        old(mf)@.len() == m.funcs@.len(),
        marks_sound(m@, old(mi)@, old(mf)@),
    ensures
        final(mi)@.len() == old(mi)@.len(),
        final(mf)@.len() == old(mf)@.len(),
        marks_sound(m@, final(mi)@, final(mf)@),
        forall|id: u32|
            is_root(m@, id) && #[trigger] declares_fn(m@, id) ==> marked(
                m@,
                final(mi)@,
                final(mf)@,
                id,
            ),
{
    let ghost v = m@;
    let ne = m.exports.len();
    let mut i: usize = 0;
    while i < ne
        invariant
            v == m@,
            0 <= i <= ne,
            ne == v.exports.len(),
            ne == m.exports@.len(),
            mi@.len() == v.imports.len(),
            mf@.len() == v.funcs.len(),
            mi@.len() == m.imports@.len(),
            mf@.len() == m.funcs@.len(),
            marks_sound(v, mi@, mf@),
            forall|i2: int|
                0 <= i2 < i ==> match kind_fn_id(#[trigger] v.exports[i2].kind) {
                    Some(id) => declares_fn(v, id) ==> marked(v, mi@, mf@, id),
                    None => true,
                },
        decreases ne - i,
    {
        proof {
            assert(v.exports[i as int] == m.exports@[i as int]@);
        }
        match m.exports[i].kind {
            ItemKind::Function { func } => {
                let ghost pmi = mi@;
                let ghost pmf = mf@;
                proof {
                    assert(kind_fn_id(v.exports[i as int].kind) == Some(func));
                    assert(is_root(v, func));
                }
                mark_root_id(m, mi, mf, func);
                proof {
                    assert forall|i2: int|
                        0 <= i2 < i + 1 implies match kind_fn_id(#[trigger] v.exports[i2].kind) {
                        Some(id) => declares_fn(v, id) ==> marked(v, mi@, mf@, id),
                        None => true,
                    } by {
                        match kind_fn_id(v.exports[i2].kind) {
                            Some(id) => {
                                if declares_fn(v, id) && i2 < i {
                                    lemma_marked_mono(v, pmi, pmf, mi@, mf@, id);
                                }
                            },
                            None => {},
                        }
                    }
                }
            },
            _ => {},
        }
        i += 1;
    }
    let ghost mi_a = mi@;
    let ghost mf_a = mf@;
    match m.start {
        Some(s) => {
            proof {
                assert(v.start == Some(s));
                assert(is_root(v, s));
            }
            mark_root_id(m, mi, mf, s);
            proof {
                assert forall|i2: int|
                    0 <= i2 < ne implies match kind_fn_id(#[trigger] v.exports[i2].kind) {
                    Some(id) => declares_fn(v, id) ==> marked(v, mi@, mf@, id),
                    None => true,
                } by {
                    match kind_fn_id(v.exports[i2].kind) {
                        Some(id) => {
                            if declares_fn(v, id) {
                                lemma_marked_mono(v, mi_a, mf_a, mi@, mf@, id);
                            }
                        },
                        None => {},
                    }
                }
            }
        },
        None => {},
    }
    let nel = m.elements.len();
    let mut e: usize = 0;
    while e < nel
        invariant
            v == m@,
            0 <= e <= nel,
            nel == v.elements.len(),
            nel == m.elements@.len(),
            ne == v.exports.len(),
            mi@.len() == v.imports.len(),
            mf@.len() == v.funcs.len(),
            mi@.len() == m.imports@.len(),
            mf@.len() == m.funcs@.len(),
            marks_sound(v, mi@, mf@),
            forall|i2: int|
                0 <= i2 < ne ==> match kind_fn_id(#[trigger] v.exports[i2].kind) {
                    Some(id) => declares_fn(v, id) ==> marked(v, mi@, mf@, id),
                    None => true,
                },
            match v.start {
                Some(s) => declares_fn(v, s) ==> marked(v, mi@, mf@, s),
                None => true,
            },
            forall|e2: int, k2: int|
                0 <= e2 < e && 0 <= k2 < v.elements[e2].len() ==> (declares_fn(
                    v,
                    #[trigger] v.elements[e2][k2],
                ) ==> marked(v, mi@, mf@, v.elements[e2][k2])),
        decreases nel - e,
    {
        proof {
            assert(v.elements[e as int] == m.elements@[e as int]@);
        }
        let nk = m.elements[e].len();
        let mut k: usize = 0;
        while k < nk
            invariant
                v == m@,
                0 <= e < nel,
                nel == v.elements.len(),
                nel == m.elements@.len(),
                v.elements[e as int] == m.elements@[e as int]@,
                0 <= k <= nk,
                nk == v.elements[e as int].len(),
                ne == v.exports.len(),
                mi@.len() == v.imports.len(),
                mf@.len() == v.funcs.len(),
                mi@.len() == m.imports@.len(),
                mf@.len() == m.funcs@.len(),
                marks_sound(v, mi@, mf@),
                forall|i2: int|
                    0 <= i2 < ne ==> match kind_fn_id(#[trigger] v.exports[i2].kind) {
                        Some(id) => declares_fn(v, id) ==> marked(v, mi@, mf@, id),
                        None => true,
                    },
                match v.start {
                    Some(s) => declares_fn(v, s) ==> marked(v, mi@, mf@, s),
                    None => true,
                },
                forall|e2: int, k2: int|
                    0 <= e2 < e && 0 <= k2 < v.elements[e2].len() ==> (declares_fn(
                        v,
                        #[trigger] v.elements[e2][k2],
                    ) ==> marked(v, mi@, mf@, v.elements[e2][k2])),
                forall|k2: int|
                    0 <= k2 < k ==> (declares_fn(v, #[trigger] v.elements[e as int][k2]) ==> marked(
                        v,
                        mi@,
                        mf@,
                        v.elements[e as int][k2],
                    )),
            decreases nk - k,
        {
            let id = m.elements[e][k];
            let ghost pmi = mi@;
            let ghost pmf = mf@;
            proof {
                assert(id == v.elements[e as int][k as int]);
                assert(is_root(v, id));
            }
            mark_root_id(m, mi, mf, id);
            proof {
                assert forall|i2: int|
                    0 <= i2 < ne implies match kind_fn_id(#[trigger] v.exports[i2].kind) {
                    Some(id2) => declares_fn(v, id2) ==> marked(v, mi@, mf@, id2),
                    None => true,
                } by {
                    match kind_fn_id(v.exports[i2].kind) {
                        Some(id2) => {
                            if declares_fn(v, id2) {
                                lemma_marked_mono(v, pmi, pmf, mi@, mf@, id2);
                            }
                        },
                        None => {},
                    }
                }
                match v.start {
                    Some(s) => {
                        if declares_fn(v, s) {
                            lemma_marked_mono(v, pmi, pmf, mi@, mf@, s);
                        }
                    },
                    None => {},
                }
                assert forall|e2: int, k2: int|
                    0 <= e2 < e && 0 <= k2 < v.elements[e2].len() implies (declares_fn(
                    v,
                    #[trigger] v.elements[e2][k2],
                ) ==> marked(v, mi@, mf@, v.elements[e2][k2])) by {
                    if declares_fn(v, v.elements[e2][k2]) {
                        lemma_marked_mono(v, pmi, pmf, mi@, mf@, v.elements[e2][k2]);
                    }
                }
                assert forall|k2: int|
                    0 <= k2 < k + 1 implies (declares_fn(v, #[trigger] v.elements[e as int][k2])
                    ==> marked(v, mi@, mf@, v.elements[e as int][k2])) by {
                    if declares_fn(v, v.elements[e as int][k2]) && k2 < k {
                        lemma_marked_mono(v, pmi, pmf, mi@, mf@, v.elements[e as int][k2]);
                    }
                }
            }
            k += 1;
        }
        e += 1;
    }
    let ng = m.globals.len();
    let mut g: usize = 0;
    while g < ng
        invariant
            v == m@,
            0 <= g <= ng,
            ng == v.globals.len(),
            ng == m.globals@.len(),
            ne == v.exports.len(),
            mi@.len() == v.imports.len(),
            mf@.len() == v.funcs.len(),
            mi@.len() == m.imports@.len(),
            mf@.len() == m.funcs@.len(),
            marks_sound(v, mi@, mf@),
            forall|i2: int|
                0 <= i2 < ne ==> match kind_fn_id(#[trigger] v.exports[i2].kind) {
                    Some(id) => declares_fn(v, id) ==> marked(v, mi@, mf@, id),
                    None => true,
                },
            match v.start {
                Some(s) => declares_fn(v, s) ==> marked(v, mi@, mf@, s),
                None => true,
            },
            forall|e2: int, k2: int|
                0 <= e2 < v.elements.len() && 0 <= k2 < v.elements[e2].len() ==> (declares_fn(
                    v,
                    #[trigger] v.elements[e2][k2],
                ) ==> marked(v, mi@, mf@, v.elements[e2][k2])),
            forall|g2: int|
                0 <= g2 < g ==> match #[trigger] v.globals[g2] {
                    Some(id) => declares_fn(v, id) ==> marked(v, mi@, mf@, id),
                    None => true,
                },
        decreases ng - g,
    {
        proof {
            assert(v.globals[g as int] == m.globals@[g as int]);
        }
        match m.globals[g] {
            Some(id) => {
                let ghost pmi = mi@;
                let ghost pmf = mf@;
                proof {
                    assert(is_root(v, id));
                }
                mark_root_id(m, mi, mf, id);
                proof {
                    assert forall|i2: int|
                        0 <= i2 < ne implies match kind_fn_id(#[trigger] v.exports[i2].kind) {
                        Some(id2) => declares_fn(v, id2) ==> marked(v, mi@, mf@, id2),
                        None => true,
                    } by {
                        match kind_fn_id(v.exports[i2].kind) {
                            Some(id2) => {
                                if declares_fn(v, id2) {
                                    lemma_marked_mono(v, pmi, pmf, mi@, mf@, id2);
                                }
                            },
                            None => {},
                        }
                    }
                    match v.start {
                        Some(s) => {
                            if declares_fn(v, s) {
                                lemma_marked_mono(v, pmi, pmf, mi@, mf@, s);
                            }
                        },
                        None => {},
                    }
                    assert forall|e2: int, k2: int|
                        0 <= e2 < v.elements.len() && 0 <= k2 < v.elements[e2].len() implies (
                    declares_fn(v, #[trigger] v.elements[e2][k2]) ==> marked(
                        v,
                        mi@,
                        mf@,
                        v.elements[e2][k2],
                    )) by {
                        if declares_fn(v, v.elements[e2][k2]) {
                            lemma_marked_mono(v, pmi, pmf, mi@, mf@, v.elements[e2][k2]);
                        }
                    }
                    assert forall|g2: int|
                        0 <= g2 < g + 1 implies match #[trigger] v.globals[g2] {
                        Some(id2) => declares_fn(v, id2) ==> marked(v, mi@, mf@, id2),
                        None => true,
                    } by {
                        match v.globals[g2] {
                            Some(id2) => {
                                if declares_fn(v, id2) && g2 < g {
                                    lemma_marked_mono(v, pmi, pmf, mi@, mf@, id2);
                                }
                            },
                            None => {},
                        }
                    }
                }
            },
            None => {},
        }
        g += 1;
    }
    proof {
        assert forall|id: u32|
            is_root(v, id) && #[trigger] declares_fn(v, id) implies marked(v, mi@, mf@, id) by {
            if exists|i2: int|
                0 <= i2 < v.exports.len() && kind_fn_id(#[trigger] v.exports[i2].kind) == Some(
                    id,
                ) {
                let i2 = choose|i2: int|
                    0 <= i2 < v.exports.len() && kind_fn_id(#[trigger] v.exports[i2].kind) == Some(
                        id,
                    );
            } else if v.start == Some(id) {
            } else if exists|e2: int, k2: int|
                0 <= e2 < v.elements.len() && 0 <= k2 < v.elements[e2].len()
                    && #[trigger] v.elements[e2][k2] == id {
                let (e2, k2) = choose|e2: int, k2: int|
                    0 <= e2 < v.elements.len() && 0 <= k2 < v.elements[e2].len()
                        && #[trigger] v.elements[e2][k2] == id;
            } else {
                let g2 = choose|g2: int|
                    0 <= g2 < v.globals.len() && #[trigger] v.globals[g2] == Some(id);
            }
        }
    }
}

/// Deletes every import and local function not reachable from the roots.
///
/// Imports redirected away from and never re-referenced become unreachable
/// and are pruned; anything still referenced survives, in order.
/// Elements, globals, exports and the start slot are left untouched.
///
/// Unique function ids are part of the module invariant ([`crate::ir::wf`]);
/// a module that violates it should be rejected at load time.
pub fn remove_unused(m: &mut Module)
    requires
        ids_distinct(old(m)@),
    ensures
        final(m)@ == sweep_spec(old(m)@),
{
    let ghost v = old(m)@;
    let n_imp = m.imports.len();
    let n_fun = m.funcs.len();
    let mut mi: Vec<bool> = vec![false; n_imp];
    let mut mf: Vec<bool> = vec![false; n_fun];
    proof {
        assert(marks_sound(v, mi@, mf@));
    }
    mark_roots(&*m, &mut mi, &mut mf);
    let mut changed = true;
    while changed
        invariant
            *m == *old(m),
            v == m@,
            ids_distinct(v),
            n_imp == v.imports.len(),
            n_fun == v.funcs.len(),
            mi@.len() == n_imp,
            mf@.len() == n_fun,
            marks_sound(v, mi@, mf@),
            forall|id: u32|
                is_root(v, id) && #[trigger] declares_fn(v, id) ==> marked(v, mi@, mf@, id),
            !changed ==> forall|f2: int, id: u32|
                0 <= f2 < v.funcs.len() && mf@[f2] && #[trigger] func_refs(v.funcs[f2], id)
                    && declares_fn(v, id) ==> marked(v, mi@, mf@, id),
        decreases count_false(mi@) + count_false(mf@) + (if changed {
            1int
        } else {
            0int
        }),
    {
        let ghost pmi = mi@;
        let ghost pmf = mf@;
        changed = mark_round(&*m, &mut mi, &mut mf);
        proof {
            assert forall|id: u32|
                is_root(v, id) && #[trigger] declares_fn(v, id) implies marked(v, mi@, mf@, id) by {
                lemma_marked_mono(v, pmi, pmf, mi@, mf@, id);
            }
            if changed {
                if mi@ != pmi {
                    lemma_diff_persists(pmi, mi@, mi@);
                    let w = choose|w: int| 0 <= w < pmi.len() && !pmi[w] && #[trigger] mi@[w];
                    lemma_count_false_lt(pmi, mi@, w);
                    lemma_count_false_le(pmf, mf@);
                } else {
                    lemma_diff_persists(pmf, mf@, mf@);
                    let w = choose|w: int| 0 <= w < pmf.len() && !pmf[w] && #[trigger] mf@[w];
                    lemma_count_false_lt(pmf, mf@, w);
                    lemma_count_false_le(pmi, mi@);
                }
            }
        }
    }
    // marked and reachable now agree on every declared id
    proof {
        assert forall|i: int| 0 <= i < n_imp implies mi@[i] == (match kind_fn_id(
            #[trigger] v.imports[i].kind,
        ) {
            Some(id) => reachable(v, id),
            None => false,
        }) by {
            if mi@[i] {
            } else {
                match kind_fn_id(v.imports[i].kind) {
                    Some(id) => {
                        if reachable(v, id) {
                            let k = choose|k: nat| reach(v, id, k);
                            assert(is_import_fn_id(v, id));
                            lemma_closed_covers(v, mi@, mf@, id, k);
                            if exists|i2: int|
                                0 <= i2 < v.imports.len() && kind_fn_id(
                                    #[trigger] v.imports[i2].kind,
                                ) == Some(id) && mi@[i2] {
                                let i2 = choose|i2: int|
                                    0 <= i2 < v.imports.len() && kind_fn_id(
                                        #[trigger] v.imports[i2].kind,
                                    ) == Some(id) && mi@[i2];
                                assert(i2 == i);
                                assert(false);
                            } else {
                                let i2 = choose|i2: int|
                                    0 <= i2 < v.funcs.len() && #[trigger] v.funcs[i2].id == id
                                        && mf@[i2];
                                assert(false);
                            }
                        }
                    },
                    None => {},
                }
            }
        }
        assert forall|i: int| 0 <= i < n_fun implies mf@[i] == reachable(
            v,
            (#[trigger] v.funcs[i]).id,
        ) by {
            if mf@[i] {
            } else {
                if reachable(v, v.funcs[i].id) {
                    let id = v.funcs[i].id;
                    let k = choose|k: nat| reach(v, id, k);
                    assert(is_local_id(v, id));
                    lemma_closed_covers(v, mi@, mf@, id, k);
                    if exists|i2: int|
                        0 <= i2 < v.imports.len() && kind_fn_id(#[trigger] v.imports[i2].kind)
                            == Some(id) && mi@[i2] {
                        let i2 = choose|i2: int|
                            0 <= i2 < v.imports.len() && kind_fn_id(#[trigger] v.imports[i2].kind)
                                == Some(id) && mi@[i2];
                        assert(false);
                    } else {
                        let i2 = choose|i2: int|
                            0 <= i2 < v.funcs.len() && #[trigger] v.funcs[i2].id == id && mf@[i2];
                        assert(i2 == i);
                        assert(false);
                    }
                }
            }
        }
    }
    // sweep the imports
    let mut taken_imports: Vec<Import> = Vec::new();
    core::mem::swap(&mut taken_imports, &mut m.imports);
    let ghost ti = taken_imports@;
    let mut kept_imports: Vec<Import> = Vec::new();
    let mut i: usize = 0;
    while i < n_imp
        invariant
            0 <= i <= n_imp,
            n_imp == v.imports.len(),
            ti.len() == n_imp,
            v.imports == ti.map_values(|x: Import| x@),
            taken_imports@ == ti.subrange(i as int, n_imp as int),
            mi@.len() == n_imp,
            forall|i2: int|
                0 <= i2 < n_imp ==> mi@[i2] == (match kind_fn_id(#[trigger] v.imports[i2].kind) {
                    Some(id) => reachable(v, id),
                    None => false,
                }),
            kept_imports@.map_values(|x: Import| x@) == v.imports.subrange(0, i as int).filter(
                |iv: ImportV| import_live(v, iv),
            ),
        decreases n_imp - i,
    {
        proof {
            assert(taken_imports@[0] == ti[i as int]);
            assert(ti.subrange(i as int, n_imp as int).remove(0) =~= ti.subrange(
                i as int + 1,
                n_imp as int,
            ));
        }
        let imp = taken_imports.remove(0);
        let keep = match imp.kind {
            ItemKind::Function { .. } => mi[i],
            _ => true,
        };
        proof {
            assert(imp@ == v.imports[i as int]);
            assert(keep == import_live(v, v.imports[i as int]));
            lemma_filter_step(v.imports, i as int, |iv: ImportV| import_live(v, iv));
        }
        if keep {
            kept_imports.push(imp);
            proof {
                assert(kept_imports@.map_values(|x: Import| x@) =~= v.imports.subrange(
                    0,
                    i as int + 1,
                ).filter(|iv: ImportV| import_live(v, iv)));
            }
        } else {
            proof {
                assert(kept_imports@.map_values(|x: Import| x@) =~= v.imports.subrange(
                    0,
                    i as int + 1,
                ).filter(|iv: ImportV| import_live(v, iv)));
            }
        }
        i += 1;
    }
    m.imports = kept_imports;
    // sweep the functions
    let mut taken_funcs: Vec<Func> = Vec::new();
    core::mem::swap(&mut taken_funcs, &mut m.funcs);
    let ghost tf = taken_funcs@;
    let mut kept_funcs: Vec<Func> = Vec::new();
    let mut j: usize = 0;
    while j < n_fun
        invariant
            0 <= j <= n_fun,
            n_fun == v.funcs.len(),
            tf.len() == n_fun,
            v.funcs == tf.map_values(|x: Func| x@),
            taken_funcs@ == tf.subrange(j as int, n_fun as int),
            mf@.len() == n_fun,
            forall|j2: int|
                0 <= j2 < n_fun ==> mf@[j2] == reachable(v, (#[trigger] v.funcs[j2]).id),
            kept_funcs@.map_values(|x: Func| x@) == v.funcs.subrange(0, j as int).filter(
                |fv: FuncV| reachable(v, fv.id),
            ),
        decreases n_fun - j,
    {
        proof {
            assert(taken_funcs@[0] == tf[j as int]);
            assert(tf.subrange(j as int, n_fun as int).remove(0) =~= tf.subrange(
                j as int + 1,
                n_fun as int,
            ));
        }
        let f = taken_funcs.remove(0);
        let keep = mf[j];
        proof {
            assert(f@ == v.funcs[j as int]);
            assert(keep == reachable(v, v.funcs[j as int].id));
            lemma_filter_step(v.funcs, j as int, |fv: FuncV| reachable(v, fv.id));
        }
        if keep {
            kept_funcs.push(f);
            proof {
                assert(kept_funcs@.map_values(|x: Func| x@) =~= v.funcs.subrange(
                    0,
                    j as int + 1,
                ).filter(|fv: FuncV| reachable(v, fv.id)));
            }
        } else {
            proof {
                assert(kept_funcs@.map_values(|x: Func| x@) =~= v.funcs.subrange(
                    0,
                    j as int + 1,
                ).filter(|fv: FuncV| reachable(v, fv.id)));
            }
        }
        j += 1;
    }
    m.funcs = kept_funcs;
    proof {
        assert(v.imports.subrange(0, n_imp as int) =~= v.imports);
        assert(v.funcs.subrange(0, n_fun as int) =~= v.funcs);
        assert(m@ =~= sweep_spec(v));
    }
}

/// Conservativeness: an import that something surviving still references —
/// a root, or a function that is itself reachable — stays present after
/// dead-code elimination.
pub proof fn lemma_live_import_kept(v: ModuleV, id: u32)
    requires
        is_import_fn_id(v, id),
        is_root(v, id) || exists|fi: int|
            0 <= fi < v.funcs.len() && reachable(v, (#[trigger] v.funcs[fi]).id) && func_refs(
                v.funcs[fi],
                id,
            ),
    ensures
        is_import_fn_id(sweep_spec(v), id),
{
    if is_root(v, id) {
        assert(reach(v, id, 0));
        assert(reachable(v, id));
    } else {
        let fi = choose|fi: int|
            0 <= fi < v.funcs.len() && reachable(v, (#[trigger] v.funcs[fi]).id) && func_refs(
                v.funcs[fi],
                id,
            );
        lemma_reachable_step(v, fi, id);
    }
    let i = choose|i: int|
        0 <= i < v.imports.len() && kind_fn_id(#[trigger] v.imports[i].kind) == Some(id);
    assert(import_live(v, v.imports[i]));
    v.imports.lemma_filter_contains(|iv: ImportV| import_live(v, iv), i);
    let j = choose|j: int|
        0 <= j < sweep_spec(v).imports.len() && sweep_spec(v).imports[j] == v.imports[i];
    assert(kind_fn_id(sweep_spec(v).imports[j].kind) == Some(id));
}

/// An id that is no root and that no function references is unreachable.
pub proof fn lemma_unreferenced_unreachable(v: ModuleV, id: u32)
    requires
        !is_root(v, id),
        forall|fi: int| 0 <= fi < v.funcs.len() ==> !func_refs(#[trigger] v.funcs[fi], id),
    ensures
        !reachable(v, id),
{
    assert forall|k: nat| !(#[trigger] reach(v, id, k)) by {
        lemma_unreached_at(v, id, k);
    }
}

/// Helper induction for [`lemma_unreferenced_unreachable`].
proof fn lemma_unreached_at(v: ModuleV, id: u32, k: nat)
    requires
        !is_root(v, id),
        forall|fi: int| 0 <= fi < v.funcs.len() ==> !func_refs(#[trigger] v.funcs[fi], id),
    ensures
        !reach(v, id, k),
    decreases k,
{
    if k > 0 {
        lemma_unreached_at(v, id, (k - 1) as nat);
    }
}

/// Dead-import removal: an unreachable import is absent after the sweep.
pub proof fn lemma_unreachable_import_absent(v: ModuleV, id: u32)
    requires
        !reachable(v, id),
    ensures
        !is_import_fn_id(sweep_spec(v), id),
{
    let v2 = sweep_spec(v);
    if is_import_fn_id(v2, id) {
        let j = choose|j: int|
            0 <= j < v2.imports.len() && kind_fn_id(#[trigger] v2.imports[j].kind) == Some(id);
        crate::ir::lemma_filter_member_index(v.imports, |iv: ImportV| import_live(v, iv), j);
        v.imports.lemma_filter_pred(|iv: ImportV| import_live(v, iv), j);
        assert(import_live(v, v2.imports[j]));
    }
}

/// An unreachable local function is absent after the sweep.
pub proof fn lemma_unreachable_func_absent(v: ModuleV, id: u32)
    requires
        !reachable(v, id),
    ensures
        !crate::ir::is_local_id(sweep_spec(v), id),
{
    let v2 = sweep_spec(v);
    if is_local_id(v2, id) {
        let j = choose|j: int| 0 <= j < v2.funcs.len() && #[trigger] v2.funcs[j].id == id;
        v.funcs.lemma_filter_pred(|fv: FuncV| reachable(v, fv.id), j);
        assert(reachable(v, v2.funcs[j].id));
    }
}

} // verus!
