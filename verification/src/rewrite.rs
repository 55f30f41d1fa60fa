//! The call-graph rewriter: builds the name-keyed correspondence between
//! redirectable host imports and embedded replacement functions, and
//! substitutes every use site — calls, tail calls, function references and
//! element-segment entries — at every nesting depth.

use vstd::prelude::*;

use crate::ir::{
    func_refs, kind_fn_id, ids_distinct, instr_target, Func, FuncV, Import, ImportV, Instr,
    ItemKind, Module, ModuleV,
};
use crate::names::{is_recognized_namespace, recognized_namespace, replacement_name, strip_marker};

verus! {

/// Why the correspondence between imports and replacements is ambiguous.
#[derive(Debug)]
pub enum StripError {
    /// Two redirectable imports share one field name.
    DuplicateImportName { name: String },
    /// Two local functions carry marker names for the same operation.
    DuplicateReplacementName { name: String },
}

/// The view of an `Option`al debug name.
pub open spec fn opt_name_view(n: Option<String>) -> Option<Seq<char>> {
    match n {
        Some(s) => Some(s@),
        None => None,
    }
}

/// A function import from a recognized namespace: a candidate for redirection.
pub open spec fn import_candidate(i: ImportV) -> bool {
    recognized_namespace(i.namespace) && kind_fn_id(i.kind) is Some
}

/// Import `i` and local function `j` correspond: the import is redirectable
/// and the function's bare replacement name equals the import's field name.
pub open spec fn pair_at(v: ModuleV, prefixes: Seq<Seq<char>>, i: int, j: int) -> bool {
    &&& 0 <= i < v.imports.len()
    &&& 0 <= j < v.funcs.len()
    &&& import_candidate(v.imports[i])
    &&& replacement_name(prefixes, v.funcs[j].name) == Some(v.imports[i].name)
}

/// The use of import id `a` is to be redirected to local function id `b`.
pub open spec fn redirects(v: ModuleV, prefixes: Seq<Seq<char>>, a: u32, b: u32) -> bool {
    exists|i: int, j: int|
        #[trigger] pair_at(v, prefixes, i, j) && kind_fn_id(v.imports[i].kind) == Some(a)
            && v.funcs[j].id == b
}

/// Some replacement exists for import id `a`.
pub open spec fn redirected(v: ModuleV, prefixes: Seq<Seq<char>>, a: u32) -> bool {
    exists|b: u32| redirects(v, prefixes, a, b)
}

/// The id-to-id redirect map built once per rewrite.
pub open spec fn redirect_map(v: ModuleV, prefixes: Seq<Seq<char>>) -> Map<u32, u32> {
    Map::new(
        |a: u32| redirected(v, prefixes, a),
        |a: u32| choose|b: u32| redirects(v, prefixes, a, b),
    )
}

/// Two distinct redirectable imports share the field name `n`.
pub open spec fn is_dup_import_name(imports: Seq<ImportV>, n: Seq<char>) -> bool {
    exists|i: int, j: int|
        0 <= i < j < imports.len() && import_candidate(#[trigger] imports[i]) && import_candidate(
            #[trigger] imports[j],
        ) && imports[i].name == n && imports[j].name == n
}

/// Some field name is shared by two redirectable imports.
pub open spec fn dup_import_names(imports: Seq<ImportV>) -> bool {
    exists|n: Seq<char>| is_dup_import_name(imports, n)
}

/// Two distinct local functions both carry marker names for operation `n`.
pub open spec fn is_dup_replacement_name(
    funcs: Seq<FuncV>,
    prefixes: Seq<Seq<char>>,
    n: Seq<char>,
) -> bool {
    exists|i: int, j: int|
        0 <= i < j < funcs.len() && replacement_name(prefixes, #[trigger] funcs[i].name) == Some(n)
            && replacement_name(prefixes, #[trigger] funcs[j].name) == Some(n)
}

/// Some operation name has two replacement functions.
pub open spec fn dup_replacement_names(funcs: Seq<FuncV>, prefixes: Seq<Seq<char>>) -> bool {
    exists|n: Seq<char>| is_dup_replacement_name(funcs, prefixes, n)
}

/// The correspondence is unambiguous, so the rewrite goes through.
pub open spec fn rewrite_ok(v: ModuleV, prefixes: Seq<Seq<char>>) -> bool {
    !dup_import_names(v.imports) && !dup_replacement_names(v.funcs, prefixes)
}

/// Where the redirect map applies, the replacement id; elsewhere the id itself.
pub open spec fn subst_id(rm: Map<u32, u32>, id: u32) -> u32 {
    if rm.dom().contains(id) {
        rm[id]
    } else {
        id
    }
}

/// Substitution of one instruction: only the three referencing variants change.
pub open spec fn subst_instr(rm: Map<u32, u32>, i: Instr) -> Instr {
    match i {
        Instr::Call { func } => Instr::Call { func: subst_id(rm, func) },
        Instr::ReturnCall { func } => Instr::ReturnCall { func: subst_id(rm, func) },
        Instr::RefFunc { func } => Instr::RefFunc { func: subst_id(rm, func) },
        _ => i,
    }
}

/// Substitution over one instruction sequence.
pub open spec fn subst_seq(rm: Map<u32, u32>, s: Seq<Instr>) -> Seq<Instr> {
    s.map_values(|i: Instr| subst_instr(rm, i))
}

/// Substitution over every sequence of a function body.
pub open spec fn subst_func(rm: Map<u32, u32>, f: FuncV) -> FuncV {
    FuncV { seqs: f.seqs.map_values(|s: Seq<Instr>| subst_seq(rm, s)), ..f }
}

/// What the whole rewriter pass does to a module, given an unambiguous
/// correspondence: every function body and element segment is substituted;
/// imports, globals, exports and the start slot are untouched.
pub open spec fn rewrite_spec(v: ModuleV, prefixes: Seq<Seq<char>>) -> ModuleV {
    let rm = redirect_map(v, prefixes);
    ModuleV {
        funcs: v.funcs.map_values(|f: FuncV| subst_func(rm, f)),
        elements: v.elements.map_values(|e: Seq<u32>| e.map_values(|id: u32| subst_id(rm, id))),
        ..v
    }
}

/// With unique ids and an unambiguous correspondence, at most one replacement
/// exists per import id.
pub proof fn lemma_redirects_functional(
    v: ModuleV,
    prefixes: Seq<Seq<char>>,
    a: u32,
    b1: u32,
    b2: u32,
)
    requires
        ids_distinct(v),
        rewrite_ok(v, prefixes),
        redirects(v, prefixes, a, b1),
        redirects(v, prefixes, a, b2),
    ensures
        b1 == b2,
{
    let (i1, j1) = choose|i: int, j: int|
        #[trigger] pair_at(v, prefixes, i, j) && kind_fn_id(v.imports[i].kind) == Some(a)
            && v.funcs[j].id == b1;
    let (i2, j2) = choose|i: int, j: int|
        #[trigger] pair_at(v, prefixes, i, j) && kind_fn_id(v.imports[i].kind) == Some(a)
            && v.funcs[j].id == b2;
    assert(i1 == i2);
    if j1 != j2 {
        let n = v.imports[i1].name;
        if j1 < j2 {
            assert(is_dup_replacement_name(v.funcs, prefixes, n));
        } else {
            assert(is_dup_replacement_name(v.funcs, prefixes, n));
        }
    }
}

/// A redirect leads from an import id to a local function id.
pub proof fn lemma_redirect_endpoints(v: ModuleV, prefixes: Seq<Seq<char>>, a: u32, b: u32)
    requires
        redirects(v, prefixes, a, b),
    ensures
        crate::ir::is_import_fn_id(v, a),
        crate::ir::is_local_id(v, b),
{
    let (i, j) = choose|i: int, j: int|
        #[trigger] pair_at(v, prefixes, i, j) && kind_fn_id(v.imports[i].kind) == Some(a)
            && v.funcs[j].id == b;
    assert(0 <= i < v.imports.len() && kind_fn_id(v.imports[i].kind) == Some(a));
    assert(0 <= j < v.funcs.len() && v.funcs[j].id == b);
}

/// A substituted id is never itself a key of the redirect map: substitution
/// leaves no use site still aimed at a redirected import.
pub proof fn lemma_subst_leaves_no_key(v: ModuleV, prefixes: Seq<Seq<char>>, id: u32)
    requires
        ids_distinct(v),
    ensures
        !redirected(v, prefixes, subst_id(redirect_map(v, prefixes), id)),
{
    let rm = redirect_map(v, prefixes);
    if rm.dom().contains(id) {
        let b = rm[id];
        assert(redirects(v, prefixes, id, b));
        lemma_redirect_endpoints(v, prefixes, id, b);
        if redirected(v, prefixes, b) {
            let b2 = choose|b2: u32| redirects(v, prefixes, b, b2);
            lemma_redirect_endpoints(v, prefixes, b, b2);
        }
    }
}

/// The pairs list the pass builds is sound and complete for the redirect relation.
pub open spec fn pairs_match(v: ModuleV, prefixes: Seq<Seq<char>>, ps: Seq<(u32, u32)>) -> bool {
    &&& forall|k: int| 0 <= k < ps.len() ==> redirects(v, prefixes, (#[trigger] ps[k]).0, ps[k].1)
    &&& forall|a: u32, b: u32| redirects(v, prefixes, a, b) ==> ps.contains((a, b))
}

/// What a lookup in a sound and complete pairs list means for the redirect map.
proof fn lemma_lookup_is_subst(
    v: ModuleV,
    prefixes: Seq<Seq<char>>,
    ps: Seq<(u32, u32)>,
    id: u32,
    r: Option<u32>,
)
    requires
        ids_distinct(v),
        rewrite_ok(v, prefixes),
        pairs_match(v, prefixes, ps),
        match r {
            Some(b) => ps.contains((id, b)),
            None => forall|k: int| 0 <= k < ps.len() ==> (#[trigger] ps[k]).0 != id,
        },
    ensures
        subst_id(redirect_map(v, prefixes), id) == (match r {
            Some(b) => b,
            None => id,
        }),
{
    let rm = redirect_map(v, prefixes);
    match r {
        Some(b) => {
            let k = choose|k: int| 0 <= k < ps.len() && ps[k] == (id, b);
            assert(redirects(v, prefixes, id, b));
            assert(rm.dom().contains(id));
            lemma_redirects_functional(v, prefixes, id, rm[id], b);
        },
        None => {
            if rm.dom().contains(id) {
                let b = choose|b: u32| redirects(v, prefixes, id, b);
                assert(ps.contains((id, b)));
            }
        },
    }
}

/// Whether this import is a candidate for redirection.
fn import_is_candidate(imp: &Import) -> (r: bool)
    ensures
        r == import_candidate(imp@),
{
    match imp.kind {
        ItemKind::Function { .. } => is_recognized_namespace(&imp.namespace),
        _ => false,
    }
}

/// The bare operation name of a possible replacement function.
fn func_replacement_name(prefixes: &Vec<String>, name: &Option<String>) -> (r: Option<String>)
    ensures
        match r {
            Some(b) => replacement_name(prefixes.deep_view(), opt_name_view(*name)) == Some(b@),
            None => replacement_name(prefixes.deep_view(), opt_name_view(*name)) is None,
        },
{
    match name {
        Some(n) => strip_marker(prefixes, n),
        None => None,
    }
}

/// First id in the pairs list that `id` redirects to, if any.
fn lookup_redirect(ps: &Vec<(u32, u32)>, id: u32) -> (r: Option<u32>)
    ensures
        match r {
            Some(b) => ps@.contains((id, b)),
            None => forall|k: int| 0 <= k < ps@.len() ==> (#[trigger] ps@[k]).0 != id,
        },
{
    let mut k: usize = 0;
    while k < ps.len()
        invariant
            0 <= k <= ps@.len(),
            forall|k2: int| 0 <= k2 < k ==> (#[trigger] ps@[k2]).0 != id,
        decreases ps@.len() - k,
    {
        let (a, b) = ps[k];
        if a == id {
            assert(ps@[k as int] == (id, b));
            return Some(b);
        }
        k += 1;
    }
    None
}

/// Rejects a correspondence in which two redirectable imports share one name.
fn check_dup_imports(imports: &Vec<Import>) -> (r: Result<(), StripError>)
    ensures
        match r {
            Ok(()) => !dup_import_names(imports@.map_values(|i: Import| i@)),
            Err(e) => match e {
                StripError::DuplicateImportName { name } => is_dup_import_name(
                    imports@.map_values(|i: Import| i@),
                    name@,
                ),
                _ => false,
            },
        },
{
    let ghost iv = imports@.map_values(|i: Import| i@);
    let n = imports.len();
    let mut i: usize = 0;
    while i < n
        invariant
            0 <= i <= n,
            n == imports@.len(),
            iv == imports@.map_values(|x: Import| x@),
            forall|a: int, b: int|
                0 <= a < i && a < b < n ==> !(import_candidate(#[trigger] iv[a]) && import_candidate(
                    #[trigger] iv[b],
                ) && iv[a].name == iv[b].name),
        decreases n - i,
    {
        if import_is_candidate(&imports[i]) {
            let mut j: usize = i + 1;
            while j < n
                invariant
                    0 <= i < j <= n,
                    n == imports@.len(),
                    iv == imports@.map_values(|x: Import| x@),
                    import_candidate(iv[i as int]),
                    forall|b: int|
                        i < b < j ==> !(import_candidate(#[trigger] iv[b]) && iv[i as int].name
                            == iv[b].name),
                decreases n - j,
            {
                if import_is_candidate(&imports[j]) && imports[i].name.eq(&imports[j].name) {
                    proof {
                        assert(iv[i as int] == imports@[i as int]@);
                        assert(iv[j as int] == imports@[j as int]@);
                        assert(import_candidate(iv[j as int]));
                        assert(iv[j as int].name == iv[i as int].name);
                    }
                    assert(is_dup_import_name(iv, iv[i as int].name));
                    return Err(
                        StripError::DuplicateImportName { name: imports[i].name.clone() },
                    );
                }
                j += 1;
            }
        }
        i += 1;
    }
    proof {
        if dup_import_names(iv) {
            let n0 = choose|n0: Seq<char>| is_dup_import_name(iv, n0);
            let (a, b) = choose|a: int, b: int|
                0 <= a < b < iv.len() && import_candidate(#[trigger] iv[a]) && import_candidate(
                    #[trigger] iv[b],
                ) && iv[a].name == n0 && iv[b].name == n0;
            assert(false);
        }
    }
    Ok(())
}

/// Rejects a correspondence in which two local functions replace one operation.
fn check_dup_replacements(funcs: &Vec<Func>, prefixes: &Vec<String>) -> (r: Result<
    (),
    StripError,
>)
    ensures
        match r {
            Ok(()) => !dup_replacement_names(
                funcs@.map_values(|f: Func| f@),
                prefixes.deep_view(),
            ),
            Err(e) => match e {
                StripError::DuplicateReplacementName { name } => is_dup_replacement_name(
                    funcs@.map_values(|f: Func| f@),
                    prefixes.deep_view(),
                    name@,
                ),
                _ => false,
            },
        },
{
    let ghost fv = funcs@.map_values(|f: Func| f@);
    let ghost pfx = prefixes.deep_view();
    let n = funcs.len();
    let mut i: usize = 0;
    while i < n
        invariant
            0 <= i <= n,
            n == funcs@.len(),
            fv == funcs@.map_values(|f: Func| f@),
            pfx == prefixes.deep_view(),
            forall|a: int, b: int|
                0 <= a < i && a < b < n ==> !(replacement_name(
                    pfx,
                    #[trigger] fv[a].name,
                ) is Some && replacement_name(pfx, fv[a].name) == replacement_name(
                    pfx,
                    #[trigger] fv[b].name,
                )),
        decreases n - i,
    {
        let ri = func_replacement_name(prefixes, &funcs[i].name);
        proof {
            assert(fv[i as int].name == opt_name_view(funcs@[i as int].name));
        }
        match ri {
            Some(ri) => {
                let mut j: usize = i + 1;
                while j < n
                    invariant
                        0 <= i < j <= n,
                        n == funcs@.len(),
                        fv == funcs@.map_values(|f: Func| f@),
                        pfx == prefixes.deep_view(),
                        replacement_name(pfx, fv[i as int].name) == Some(ri@),
                        forall|b: int|
                            i < b < j ==> replacement_name(pfx, #[trigger] fv[b].name) != Some(
                                ri@,
                            ),
                    decreases n - j,
                {
                    let rj = func_replacement_name(prefixes, &funcs[j].name);
                    proof {
                        assert(fv[j as int].name == opt_name_view(funcs@[j as int].name));
                    }
                    match rj {
                        Some(rj) => {
                            if ri.eq(&rj) {
                                assert(is_dup_replacement_name(fv, pfx, ri@));
                                return Err(
                                    StripError::DuplicateReplacementName { name: ri },
                                );
                            }
                        },
                        None => {},
                    }
                    j += 1;
                }
            },
            None => {},
        }
        i += 1;
    }
    proof {
        if dup_replacement_names(fv, pfx) {
            let n0 = choose|n0: Seq<char>| is_dup_replacement_name(fv, pfx, n0);
            let (a, b) = choose|a: int, b: int|
                0 <= a < b < fv.len() && replacement_name(pfx, #[trigger] fv[a].name) == Some(n0)
                    && replacement_name(pfx, #[trigger] fv[b].name) == Some(n0);
            assert(false);
        }
    }
    Ok(())
}

/// Builds the redirect pairs: one entry per corresponding import/replacement pair.
fn build_pairs(
    imports: &Vec<Import>,
    funcs: &Vec<Func>,
    prefixes: &Vec<String>,
    Ghost(v): Ghost<ModuleV>,
) -> (ps: Vec<(u32, u32)>)
    requires
        v.imports == imports@.map_values(|i: Import| i@),
        v.funcs == funcs@.map_values(|f: Func| f@),
    ensures
        pairs_match(v, prefixes.deep_view(), ps@),
{
    let ghost pfx = prefixes.deep_view();
    let mut ps: Vec<(u32, u32)> = Vec::new();
    let ni = imports.len();
    let nf = funcs.len();
    let mut i: usize = 0;
    while i < ni
        invariant
            0 <= i <= ni,
            ni == imports@.len(),
            nf == funcs@.len(),
            v.imports == imports@.map_values(|x: Import| x@),
            v.funcs == funcs@.map_values(|f: Func| f@),
            pfx == prefixes.deep_view(),
            forall|k: int|
                0 <= k < ps@.len() ==> redirects(v, pfx, (#[trigger] ps@[k]).0, ps@[k].1),
            forall|i2: int, j2: int|
                #[trigger] pair_at(v, pfx, i2, j2) && i2 < i ==> ps@.contains(
                    (kind_fn_id(v.imports[i2].kind)->Some_0, v.funcs[j2].id),
                ),
        decreases ni - i,
    {
        let cand = import_is_candidate(&imports[i]);
        if cand {
            let a = match imports[i].kind {
                ItemKind::Function { func } => func,
                _ => 0,
            };
            assert(kind_fn_id(v.imports[i as int].kind) == Some(a));
            let mut j: usize = 0;
            while j < nf
                invariant
                    0 <= i < ni,
                    0 <= j <= nf,
                    ni == imports@.len(),
                    nf == funcs@.len(),
                    v.imports == imports@.map_values(|x: Import| x@),
                    v.funcs == funcs@.map_values(|f: Func| f@),
                    pfx == prefixes.deep_view(),
                    import_candidate(v.imports[i as int]),
                    kind_fn_id(v.imports[i as int].kind) == Some(a),
                    forall|k: int|
                        0 <= k < ps@.len() ==> redirects(v, pfx, (#[trigger] ps@[k]).0, ps@[k].1),
                    forall|i2: int, j2: int|
                        #[trigger] pair_at(v, pfx, i2, j2) && (i2 < i || (i2 == i && j2 < j))
                            ==> ps@.contains(
                            (kind_fn_id(v.imports[i2].kind)->Some_0, v.funcs[j2].id),
                        ),
                decreases nf - j,
            {
                let ghost ps_old = ps@;
                let rn = func_replacement_name(prefixes, &funcs[j].name);
                proof {
                    assert(v.funcs[j as int].name == opt_name_view(funcs@[j as int].name));
                }
                match rn {
                    Some(rn) => {
                        if rn.eq(&imports[i].name) {
                            let b = funcs[j].id;
                            proof {
                                assert(pair_at(v, pfx, i as int, j as int));
                                assert(redirects(v, pfx, a, b));
                            }
                            ps.push((a, b));
                            proof {
                                assert(ps@[ps@.len() - 1] == (a, b));
                                assert forall|t: (u32, u32)| ps_old.contains(t) implies ps@.contains(
                                    t,
                                ) by {
                                    let k = choose|k: int| 0 <= k < ps_old.len() && ps_old[k] == t;
                                    assert(ps@[k] == t);
                                }
                            }
                        }
                    },
                    None => {},
                }
                j += 1;
            }
        }
        i += 1;
    }
    proof {
        assert forall|a: u32, b: u32| redirects(v, pfx, a, b) implies ps@.contains((a, b)) by {
            let (i2, j2) = choose|i2: int, j2: int|
                #[trigger] pair_at(v, pfx, i2, j2) && kind_fn_id(v.imports[i2].kind) == Some(a)
                    && v.funcs[j2].id == b;
        }
    }
    ps
}

/// Rewrites one instruction sequence under the redirect pairs.
fn rewrite_seq(
    s: &Vec<Instr>,
    ps: &Vec<(u32, u32)>,
    Ghost(v): Ghost<ModuleV>,
    Ghost(pfx): Ghost<Seq<Seq<char>>>,
) -> (r: Vec<Instr>)
    requires
        ids_distinct(v),
        rewrite_ok(v, pfx),
        pairs_match(v, pfx, ps@),
    ensures
        r@ == subst_seq(redirect_map(v, pfx), s@),
{
    let ghost rm = redirect_map(v, pfx);
    let mut out: Vec<Instr> = Vec::new();
    let mut k: usize = 0;
    while k < s.len()
        invariant
            0 <= k <= s@.len(),
            ids_distinct(v),
            rewrite_ok(v, pfx),
            pairs_match(v, pfx, ps@),
            rm == redirect_map(v, pfx),
            out@.len() == k,
            forall|k2: int| 0 <= k2 < k ==> out@[k2] == subst_instr(rm, s@[k2]),
        decreases s@.len() - k,
    {
        let ins = s[k];
        let new_ins = match ins {
            Instr::Call { func } => {
                let r = lookup_redirect(ps, func);
                proof {
                    lemma_lookup_is_subst(v, pfx, ps@, func, r);
                }
                match r {
                    Some(b) => Instr::Call { func: b },
                    None => ins,
                }
            },
            Instr::ReturnCall { func } => {
                let r = lookup_redirect(ps, func);
                proof {
                    lemma_lookup_is_subst(v, pfx, ps@, func, r);
                }
                match r {
                    Some(b) => Instr::ReturnCall { func: b },
                    None => ins,
                }
            },
            Instr::RefFunc { func } => {
                let r = lookup_redirect(ps, func);
                proof {
                    lemma_lookup_is_subst(v, pfx, ps@, func, r);
                }
                match r {
                    Some(b) => Instr::RefFunc { func: b },
                    None => ins,
                }
            },
            _ => ins,
        };
        assert(new_ins == subst_instr(rm, s@[k as int]));
        out.push(new_ins);
        k += 1;
    }
    proof {
        assert(out@ =~= subst_seq(rm, s@));
    }
    out
}

/// Rewrites one element segment under the redirect pairs.
fn rewrite_elem(
    e: &Vec<u32>,
    ps: &Vec<(u32, u32)>,
    Ghost(v): Ghost<ModuleV>,
    Ghost(pfx): Ghost<Seq<Seq<char>>>,
) -> (r: Vec<u32>)
    requires
        ids_distinct(v),
        rewrite_ok(v, pfx),
        pairs_match(v, pfx, ps@),
    ensures
        r@ == e@.map_values(|id: u32| subst_id(redirect_map(v, pfx), id)),
{
    let ghost rm = redirect_map(v, pfx);
    let mut out: Vec<u32> = Vec::new();
    let mut k: usize = 0;
    while k < e.len()
        invariant
            0 <= k <= e@.len(),
            ids_distinct(v),
            rewrite_ok(v, pfx),
            pairs_match(v, pfx, ps@),
            rm == redirect_map(v, pfx),
            out@.len() == k,
            forall|k2: int| 0 <= k2 < k ==> out@[k2] == subst_id(rm, e@[k2]),
        decreases e@.len() - k,
    {
        let id = e[k];
        let r = lookup_redirect(ps, id);
        proof {
            lemma_lookup_is_subst(v, pfx, ps@, id, r);
        }
        match r {
            Some(b) => out.push(b),
            None => out.push(id),
        }
        k += 1;
    }
    proof {
        assert(out@ =~= e@.map_values(|id: u32| subst_id(rm, id)));
    }
    out
}

/// Rewrites every sequence of one function body under the redirect pairs.
fn rewrite_func(
    f: &Func,
    ps: &Vec<(u32, u32)>,
    Ghost(v): Ghost<ModuleV>,
    Ghost(pfx): Ghost<Seq<Seq<char>>>,
) -> (r: Func)
    requires
        ids_distinct(v),
        rewrite_ok(v, pfx),
        pairs_match(v, pfx, ps@),
    ensures
        r@ == subst_func(redirect_map(v, pfx), f@),
{
    let ghost rm = redirect_map(v, pfx);
    let mut seqs: Vec<Vec<Instr>> = Vec::new();
    let mut si: usize = 0;
    while si < f.seqs.len()
        invariant
            0 <= si <= f.seqs@.len(),
            ids_distinct(v),
            rewrite_ok(v, pfx),
            pairs_match(v, pfx, ps@),
            rm == redirect_map(v, pfx),
            seqs@.len() == si,
            forall|s2: int| 0 <= s2 < si ==> seqs@[s2]@ == subst_seq(rm, f.seqs@[s2]@),
        decreases f.seqs@.len() - si,
    {
        let ns = rewrite_seq(&f.seqs[si], ps, Ghost(v), Ghost(pfx));
        seqs.push(ns);
        si += 1;
    }
    let name = match &f.name {
        Some(s) => Some(s.clone()),
        None => None,
    };
    let r = Func { id: f.id, name, seqs };
    proof {
        assert(r@.seqs =~= subst_func(rm, f@).seqs);
        assert(r@ =~= subst_func(rm, f@));
    }
    r
}

/// Replaces every use of a redirectable host import with the matching
/// embedded replacement, uniformly across calls, tail calls, function
/// references and element segments, at every nesting depth.
///
/// An ambiguous correspondence (two candidate imports or two replacement
/// functions sharing one name) is a configuration error: the module is left
/// exactly as it was. With no matching name at all the redirect map is empty
/// and the module comes out unchanged.
///
/// Unique function ids are part of the module invariant ([`crate::ir::wf`]);
/// a module that violates it should be rejected at load time.
pub fn call_replace(m: &mut Module, prefixes: &Vec<String>) -> (r: Result<(), StripError>)
    requires
        ids_distinct(old(m)@),
    ensures
        match r {
            Ok(()) => rewrite_ok(old(m)@, prefixes.deep_view()) && final(m)@ == rewrite_spec(
                old(m)@,
                prefixes.deep_view(),
            ),
            Err(e) => ({
                &&& *final(m) == *old(m)
                &&& !rewrite_ok(old(m)@, prefixes.deep_view())
                &&& match e {
                    StripError::DuplicateImportName { name } => is_dup_import_name(
                        old(m)@.imports,
                        name@,
                    ),
                    StripError::DuplicateReplacementName { name } => is_dup_replacement_name(
                        old(m)@.funcs,
                        prefixes.deep_view(),
                        name@,
                    ),
                }
            }),
        },
{
    let ghost v = old(m)@;
    let ghost pfx = prefixes.deep_view();
    let ghost rm = redirect_map(v, pfx);
    match check_dup_imports(&m.imports) {
        Err(e) => {
            return Err(e);
        },
        Ok(()) => {},
    }
    match check_dup_replacements(&m.funcs, prefixes) {
        Err(e) => {
            return Err(e);
        },
        Ok(()) => {},
    }
    let ps = build_pairs(&m.imports, &m.funcs, prefixes, Ghost(v));
    let mut new_funcs: Vec<Func> = Vec::new();
    let mut j: usize = 0;
    while j < m.funcs.len()
        invariant
            *m == *old(m),
            v == old(m)@,
            pfx == prefixes.deep_view(),
            rm == redirect_map(v, pfx),
            ids_distinct(v),
            rewrite_ok(v, pfx),
            pairs_match(v, pfx, ps@),
            0 <= j <= m.funcs@.len(),
            new_funcs@.len() == j,
            forall|j2: int| 0 <= j2 < j ==> (#[trigger] new_funcs@[j2])@ == subst_func(
                rm,
                v.funcs[j2],
            ),
        decreases m.funcs@.len() - j,
    {
        let nf = rewrite_func(&m.funcs[j], &ps, Ghost(v), Ghost(pfx));
        proof {
            assert(v.funcs[j as int] == m.funcs@[j as int]@);
        }
        new_funcs.push(nf);
        j += 1;
    }
    let mut new_elements: Vec<Vec<u32>> = Vec::new();
    let mut k: usize = 0;
    while k < m.elements.len()
        invariant
            *m == *old(m),
            v == old(m)@,
            pfx == prefixes.deep_view(),
            rm == redirect_map(v, pfx),
            ids_distinct(v),
            rewrite_ok(v, pfx),
            pairs_match(v, pfx, ps@),
            0 <= k <= m.elements@.len(),
            new_elements@.len() == k,
            forall|k2: int| 0 <= k2 < k ==> (#[trigger] new_elements@[k2])@ == v.elements[
                k2
            ].map_values(|id: u32| subst_id(rm, id)),
        decreases m.elements@.len() - k,
    {
        let ne = rewrite_elem(&m.elements[k], &ps, Ghost(v), Ghost(pfx));
        proof {
            assert(v.elements[k as int] == m.elements@[k as int]@);
        }
        new_elements.push(ne);
        k += 1;
    }
    m.funcs = new_funcs;
    m.elements = new_elements;
    proof {
        assert(m@.funcs =~= rewrite_spec(v, pfx).funcs);
        assert(m@.elements =~= rewrite_spec(v, pfx).elements);
        assert(m@ =~= rewrite_spec(v, pfx));
    }
    Ok(())
}

/// Some instruction or element-segment entry of `v` targets `id`.
pub open spec fn module_targets(v: ModuleV, id: u32) -> bool {
    ||| exists|fi: int| 0 <= fi < v.funcs.len() && #[trigger] func_refs(v.funcs[fi], id)
    ||| exists|e: int, k: int|
        0 <= e < v.elements.len() && 0 <= k < v.elements[e].len() && #[trigger] v.elements[e][k]
            == id
}

/// No-op on empty correspondence: if no import name matches any local
/// replacement name, the rewriter returns the module exactly as it was.
pub proof fn lemma_rewrite_no_match_noop(v: ModuleV, prefixes: Seq<Seq<char>>)
    requires
        forall|i: int, j: int| !pair_at(v, prefixes, i, j),
    ensures
        rewrite_spec(v, prefixes) == v,
{
    let rm = redirect_map(v, prefixes);
    let v2 = rewrite_spec(v, prefixes);
    assert forall|id: u32| #[trigger] subst_id(rm, id) == id by {
        if rm.dom().contains(id) {
            let b = choose|b: u32| redirects(v, prefixes, id, b);
            let (i, j) = choose|i: int, j: int|
                #[trigger] pair_at(v, prefixes, i, j) && kind_fn_id(v.imports[i].kind) == Some(id)
                    && v.funcs[j].id == b;
        }
    }
    assert forall|fi: int| 0 <= fi < v.funcs.len() implies #[trigger] v2.funcs[fi]
        == v.funcs[fi] by {
        let f = v.funcs[fi];
        assert(v2.funcs[fi] == subst_func(rm, f));
        assert forall|s: int| 0 <= s < f.seqs.len() implies #[trigger] subst_func(
            rm,
            f,
        ).seqs[s] == f.seqs[s] by {
            assert(subst_func(rm, f).seqs[s] == subst_seq(rm, f.seqs[s]));
            assert forall|k: int| 0 <= k < f.seqs[s].len() implies #[trigger] subst_seq(
                rm,
                f.seqs[s],
            )[k] == f.seqs[s][k] by {
                assert(subst_seq(rm, f.seqs[s])[k] == subst_instr(rm, f.seqs[s][k]));
                assert(subst_id(rm, 0) == 0);
                match f.seqs[s][k] {
                    Instr::Call { func } => {
                        assert(subst_id(rm, func) == func);
                    },
                    Instr::ReturnCall { func } => {
                        assert(subst_id(rm, func) == func);
                    },
                    Instr::RefFunc { func } => {
                        assert(subst_id(rm, func) == func);
                    },
                    _ => {},
                }
            }
            assert(subst_func(rm, f).seqs[s] =~= f.seqs[s]);
        }
        assert(subst_func(rm, f).seqs =~= f.seqs);
        assert(subst_func(rm, f) =~= f);
    }
    assert forall|e: int| 0 <= e < v.elements.len() implies #[trigger] v2.elements[e]
        == v.elements[e] by {
        assert(v2.elements[e] == v.elements[e].map_values(|id: u32| subst_id(rm, id)));
        assert forall|k: int| 0 <= k < v.elements[e].len() implies #[trigger] v2.elements[e][k]
            == v.elements[e][k] by {
            assert(subst_id(rm, v.elements[e][k]) == v.elements[e][k]);
        }
        assert(v2.elements[e] =~= v.elements[e]);
    }
    assert(v2.funcs =~= v.funcs);
    assert(v2.elements =~= v.elements);
    assert(v2 =~= v);
}

/// Completeness of substitution: after the rewrite, no call, tail call,
/// function reference or element-segment entry anywhere in the module, at any
/// nesting depth, still targets a redirected import id.
pub proof fn lemma_rewrite_complete(v: ModuleV, prefixes: Seq<Seq<char>>, a: u32)
    requires
        ids_distinct(v),
        redirected(v, prefixes, a),
    ensures
        !module_targets(rewrite_spec(v, prefixes), a),
{
    let rm = redirect_map(v, prefixes);
    let v2 = rewrite_spec(v, prefixes);
    if module_targets(v2, a) {
        if exists|fi: int| 0 <= fi < v2.funcs.len() && #[trigger] func_refs(v2.funcs[fi], a) {
            let fi = choose|fi: int|
                0 <= fi < v2.funcs.len() && #[trigger] func_refs(v2.funcs[fi], a);
            let f = v.funcs[fi];
            assert(v2.funcs[fi] == subst_func(rm, f));
            let (s, k) = choose|s: int, k: int|
                0 <= s < v2.funcs[fi].seqs.len() && 0 <= k < v2.funcs[fi].seqs[s].len()
                    && instr_target(#[trigger] v2.funcs[fi].seqs[s][k]) == Some(a);
            assert(v2.funcs[fi].seqs[s] == subst_seq(rm, f.seqs[s]));
            assert(v2.funcs[fi].seqs[s][k] == subst_instr(rm, f.seqs[s][k]));
            match f.seqs[s][k] {
                Instr::Call { func } => {
                    lemma_subst_leaves_no_key(v, prefixes, func);
                },
                Instr::ReturnCall { func } => {
                    lemma_subst_leaves_no_key(v, prefixes, func);
                },
                Instr::RefFunc { func } => {
                    lemma_subst_leaves_no_key(v, prefixes, func);
                },
                _ => {},
            }
        } else {
            let (e, k) = choose|e: int, k: int|
                0 <= e < v2.elements.len() && 0 <= k < v2.elements[e].len()
                    && #[trigger] v2.elements[e][k] == a;
            assert(v2.elements[e] == v.elements[e].map_values(|id: u32| subst_id(rm, id)));
            assert(v2.elements[e][k] == subst_id(rm, v.elements[e][k]));
            lemma_subst_leaves_no_key(v, prefixes, v.elements[e][k]);
        }
    }
}

/// Builds the id-to-id redirect pairs for a module: one entry per import
/// whose field name matches the bare name of an embedded replacement. An
/// ambiguous correspondence is a configuration error.
pub fn build_redirects(m: &Module, prefixes: &Vec<String>) -> (r: Result<
    Vec<(u32, u32)>,
    StripError,
>)
    ensures
        match r {
            Ok(ps) => rewrite_ok(m@, prefixes.deep_view()) && pairs_match(
                m@,
                prefixes.deep_view(),
                ps@,
            ),
            Err(e) => ({
                &&& !rewrite_ok(m@, prefixes.deep_view())
                &&& match e {
                    StripError::DuplicateImportName { name } => is_dup_import_name(
                        m@.imports,
                        name@,
                    ),
                    StripError::DuplicateReplacementName { name } => is_dup_replacement_name(
                        m@.funcs,
                        prefixes.deep_view(),
                        name@,
                    ),
                }
            }),
        },
{
    match check_dup_imports(&m.imports) {
        Err(e) => {
            return Err(e);
        },
        Ok(()) => {},
    }
    match check_dup_replacements(&m.funcs, prefixes) {
        Err(e) => {
            return Err(e);
        },
        Ok(()) => {},
    }
    Ok(build_pairs(&m.imports, &m.funcs, prefixes, Ghost(m@)))
}

/// Conservativeness of the rewriter: the import list is never touched, and a
/// use site only changes where a replacement actually exists — the pass never
/// invents one.
pub proof fn lemma_rewrite_conservative(v: ModuleV, prefixes: Seq<Seq<char>>, t: u32)
    ensures
        rewrite_spec(v, prefixes).imports == v.imports,
        subst_id(redirect_map(v, prefixes), t) != t ==> redirected(v, prefixes, t),
{
}

} // verus!
