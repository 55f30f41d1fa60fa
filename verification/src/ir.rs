//! The in-memory picture of a WebAssembly module that the rewriter works on,
//! together with its mathematical view and well-formedness conditions.

use vstd::prelude::*;

verus! {

/// One instruction of a function body, reduced to what the rewriter must see.
///
/// Instructions that can reference a function id are kept apart from the three
/// structured instructions that own nested sequences; every other instruction
/// is `Other` and is never touched. A nested sequence is addressed by its
/// index into the owning function's sequence arena ([`Func::seqs`]).
#[derive(Clone, Copy, Debug, PartialEq, Eq, Structural)]
pub enum Instr {
    /// A direct call of the function with the given id.
    Call { func: u32 },
    /// A tail call of the function with the given id.
    ReturnCall { func: u32 },
    /// Takes a reference to the function with the given id.
    RefFunc { func: u32 },
    /// A block owning one nested sequence.
    Block { seq: usize },
    /// A loop owning one nested sequence.
    Loop { seq: usize },
    /// A conditional owning two nested sequences.
    IfElse { consequent: usize, alternative: usize },
    /// Any instruction that references no function id and owns no sequence.
    Other,
}

/// What an import provides or an export targets.
#[derive(Clone, Copy, Debug, PartialEq, Eq, Structural)]
pub enum ItemKind {
    /// A function, identified by the same stable ids that calls use.
    Function { func: u32 },
    Table,
    Memory,
    Global,
    Tag,
}

/// An import: a namespace and name the host is asked to fill at instantiation.
pub struct Import {
    pub namespace: String,
    pub name: String,
    pub kind: ItemKind,
}

/// An export: a public name for one item of the module.
pub struct Export {
    pub name: String,
    pub kind: ItemKind,
}

/// A function defined inside the module.
///
/// `seqs` is the arena of instruction sequences of the body: `seqs[0]` is the
/// root, and `Block`, `Loop` and `IfElse` instructions address their nested
/// sequences by index into the same arena.
pub struct Func {
    /// Stable identity; unchanged by edits to unrelated parts of the module.
    pub id: u32,
    /// The debug name, when the module carries one.
    pub name: Option<String>,
    pub seqs: Vec<Vec<Instr>>,
}

/// The module: the unit every pass transforms in place.
pub struct Module {
    pub imports: Vec<Import>,
    /// The locally defined functions; imported functions live in `imports`.
    pub funcs: Vec<Func>,
    /// Element segments: each is the list of function ids it places in a table.
    pub elements: Vec<Vec<u32>>,
    /// One entry per global: the function id its initializer references, if any.
    pub globals: Vec<Option<u32>>,
    pub exports: Vec<Export>,
    /// The function invoked automatically at instantiation, if any.
    pub start: Option<u32>,
}

/// Mathematical view of an [`Import`].
#[verifier::ext_equal]
pub struct ImportV {
    pub namespace: Seq<char>,
    pub name: Seq<char>,
    pub kind: ItemKind,
}

/// Mathematical view of an [`Export`].
#[verifier::ext_equal]
pub struct ExportV {
    pub name: Seq<char>,
    pub kind: ItemKind,
}

/// Mathematical view of a [`Func`].
#[verifier::ext_equal]
pub struct FuncV {
    pub id: u32,
    pub name: Option<Seq<char>>,
    pub seqs: Seq<Seq<Instr>>,
}

/// Mathematical view of a [`Module`].
#[verifier::ext_equal]
pub struct ModuleV {
    pub imports: Seq<ImportV>,
    pub funcs: Seq<FuncV>,
    pub elements: Seq<Seq<u32>>,
    pub globals: Seq<Option<u32>>,
    pub exports: Seq<ExportV>,
    pub start: Option<u32>,
}

impl View for Import {
    type V = ImportV;

    open spec fn view(&self) -> ImportV {
        ImportV { namespace: self.namespace@, name: self.name@, kind: self.kind }
    }
}

impl View for Export {
    type V = ExportV;

    open spec fn view(&self) -> ExportV {
        ExportV { name: self.name@, kind: self.kind }
    }
}

impl View for Func {
    type V = FuncV;

    open spec fn view(&self) -> FuncV {
        FuncV {
            id: self.id,
            name: match self.name {
                Some(n) => Some(n@),
                None => None,
            },
            seqs: self.seqs@.map_values(|s: Vec<Instr>| s@),
        }
    }
}

impl View for Module {
    type V = ModuleV;

    open spec fn view(&self) -> ModuleV {
        ModuleV {
            imports: self.imports@.map_values(|i: Import| i@),
            funcs: self.funcs@.map_values(|f: Func| f@),
            elements: self.elements@.map_values(|e: Vec<u32>| e@),
            globals: self.globals@,
            exports: self.exports@.map_values(|e: Export| e@),
            start: self.start,
        }
    }
}

/// The function id an import or export is about, if it is about a function.
pub open spec fn kind_fn_id(k: ItemKind) -> Option<u32> {
    match k {
        ItemKind::Function { func } => Some(func),
        _ => None,
    }
}

/// The function id an instruction references, if it references one.
pub open spec fn instr_target(i: Instr) -> Option<u32> {
    match i {
        Instr::Call { func } => Some(func),
        Instr::ReturnCall { func } => Some(func),
        Instr::RefFunc { func } => Some(func),
        _ => None,
    }
}

/// Every nested sequence an instruction owns lies inside an arena of `n` sequences.
pub open spec fn instr_children_ok(i: Instr, n: int) -> bool {
    match i {
        Instr::Block { seq } => seq < n,
        Instr::Loop { seq } => seq < n,
        Instr::IfElse { consequent, alternative } => consequent < n && alternative < n,
        _ => true,
    }
}

/// A function body is a nonempty arena whose nested-sequence indices stay inside it.
pub open spec fn func_wf(f: FuncV) -> bool {
    &&& f.seqs.len() >= 1
    &&& forall|s: int, k: int|
        0 <= s < f.seqs.len() && 0 <= k < f.seqs[s].len() ==> instr_children_ok(
            #[trigger] f.seqs[s][k],
            f.seqs.len() as int,
        )
}

/// Some instruction, at any nesting depth of `f`, references `id`.
pub open spec fn func_refs(f: FuncV, id: u32) -> bool {
    exists|s: int, k: int|
        0 <= s < f.seqs.len() && 0 <= k < f.seqs[s].len() && instr_target(#[trigger] f.seqs[s][k])
            == Some(id)
}

/// `id` is the id of a function-kind import of `v`.
pub open spec fn is_import_fn_id(v: ModuleV, id: u32) -> bool {
    exists|i: int| 0 <= i < v.imports.len() && kind_fn_id(#[trigger] v.imports[i].kind) == Some(id)
}

/// `id` is the id of a locally defined function of `v`.
pub open spec fn is_local_id(v: ModuleV, id: u32) -> bool {
    exists|i: int| 0 <= i < v.funcs.len() && #[trigger] v.funcs[i].id == id
}

/// `id` resolves to an import or a local function of `v`.
pub open spec fn declares_fn(v: ModuleV, id: u32) -> bool {
    is_import_fn_id(v, id) || is_local_id(v, id)
}

/// Function ids are unique: across imports, across local functions, and between the two.
pub open spec fn ids_distinct(v: ModuleV) -> bool {
    &&& forall|i: int, j: int|
        0 <= i < v.imports.len() && 0 <= j < v.imports.len() && i != j && kind_fn_id(
            #[trigger] v.imports[i].kind,
        ) is Some ==> kind_fn_id(v.imports[i].kind) != kind_fn_id(#[trigger] v.imports[j].kind)
    &&& forall|i: int, j: int|
        0 <= i < v.funcs.len() && 0 <= j < v.funcs.len() && i != j ==> #[trigger] v.funcs[i].id
            != #[trigger] v.funcs[j].id
    &&& forall|i: int, j: int|
        0 <= i < v.imports.len() && 0 <= j < v.funcs.len() ==> kind_fn_id(
            #[trigger] v.imports[i].kind,
        ) != Some(#[trigger] v.funcs[j].id)
}

/// Every function id referenced anywhere in `v` resolves inside `v`.
pub open spec fn refs_resolve(v: ModuleV) -> bool {
    &&& forall|fi: int, id: u32|
        0 <= fi < v.funcs.len() && #[trigger] func_refs(v.funcs[fi], id) ==> declares_fn(v, id)
    &&& forall|e: int, k: int|
        0 <= e < v.elements.len() && 0 <= k < v.elements[e].len() ==> declares_fn(
            v,
            #[trigger] v.elements[e][k],
        )
    &&& forall|i: int|
        0 <= i < v.exports.len() ==> match kind_fn_id(#[trigger] v.exports[i].kind) {
            Some(id) => declares_fn(v, id),
            None => true,
        }
    &&& forall|g: int|
        0 <= g < v.globals.len() ==> match #[trigger] v.globals[g] {
            Some(id) => declares_fn(v, id),
            None => true,
        }
    &&& match v.start {
        Some(id) => declares_fn(v, id),
        None => true,
    }
}

/// The module invariant every pass preserves: unique ids, no dangling
/// reference, and well-formed body arenas.
pub open spec fn wf(v: ModuleV) -> bool {
    &&& ids_distinct(v)
    &&& refs_resolve(v)
    &&& forall|fi: int| 0 <= fi < v.funcs.len() ==> func_wf(#[trigger] v.funcs[fi])
}

/// Extending the filtered prefix of a sequence by one element.
pub proof fn lemma_filter_step<A>(s: Seq<A>, i: int, pred: spec_fn(A) -> bool)
    requires
        0 <= i < s.len(),
    ensures
        s.subrange(0, i + 1).filter(pred) == (if pred(s[i]) {
            s.subrange(0, i).filter(pred).push(s[i])
        } else {
            s.subrange(0, i).filter(pred)
        }),
{
    reveal_with_fuel(Seq::filter, 2);
    assert(s.subrange(0, i + 1).drop_last() =~= s.subrange(0, i));
    assert(s.subrange(0, i + 1).last() == s[i]);
}

/// Every element of a filtered sequence sits somewhere in the original.
pub proof fn lemma_filter_member_index<A>(s: Seq<A>, pred: spec_fn(A) -> bool, i: int)
    requires
        0 <= i < s.filter(pred).len(),
    ensures
        exists|i0: int| 0 <= i0 < s.len() && s[i0] == #[trigger] s.filter(pred)[i],
    decreases s.len(),
{
    reveal_with_fuel(Seq::filter, 2);
    if s.len() > 0 {
        let fd = s.drop_last().filter(pred);
        if pred(s.last()) && i == fd.len() {
            assert(s[s.len() - 1] == s.filter(pred)[i]);
        } else {
            lemma_filter_member_index(s.drop_last(), pred, i);
            let i0 = choose|i0: int|
                0 <= i0 < s.drop_last().len() && s.drop_last()[i0] == #[trigger] fd[i];
            assert(s[i0] == s.filter(pred)[i]);
        }
    }
}

/// Two positions of a filtered sequence come from two positions of the
/// original, in the same order.
pub proof fn lemma_filter_two_indices<A>(s: Seq<A>, pred: spec_fn(A) -> bool, i: int, j: int)
    requires
        0 <= i < j < s.filter(pred).len(),
    ensures
        exists|i0: int, j0: int|
            #![trigger s[i0], s[j0]]
            0 <= i0 < j0 < s.len() && s[i0] == s.filter(pred)[i] && s[j0] == s.filter(pred)[j],
    decreases s.len(),
{
    reveal_with_fuel(Seq::filter, 2);
    if s.len() > 0 {
        let fd = s.drop_last().filter(pred);
        if pred(s.last()) && j == fd.len() {
            lemma_filter_member_index(s.drop_last(), pred, i);
            let i0 = choose|i0: int|
                0 <= i0 < s.drop_last().len() && s.drop_last()[i0] == #[trigger] fd[i];
            assert(s[i0] == s.filter(pred)[i] && s[s.len() - 1] == s.filter(pred)[j]);
        } else {
            lemma_filter_two_indices(s.drop_last(), pred, i, j);
            let (i0, j0) = choose|i0: int, j0: int|
                #![trigger s.drop_last()[i0], s.drop_last()[j0]]
                0 <= i0 < j0 < s.drop_last().len() && s.drop_last()[i0] == fd[i]
                    && s.drop_last()[j0] == fd[j];
            assert(s[i0] == s.filter(pred)[i] && s[j0] == s.filter(pred)[j]);
        }
    }
}

/// Filtering twice by one predicate is the same as filtering once.
pub proof fn lemma_filter_idem<A>(s: Seq<A>, pred: spec_fn(A) -> bool)
    ensures
        s.filter(pred).filter(pred) == s.filter(pred),
    decreases s.len(),
{
    reveal_with_fuel(Seq::filter, 2);
    if s.len() > 0 {
        lemma_filter_idem(s.drop_last(), pred);
        let fd = s.drop_last().filter(pred);
        if pred(s.last()) {
            assert(s.filter(pred) == fd.push(s.last()));
            assert(fd.push(s.last()).drop_last() =~= fd);
            assert(fd.push(s.last()).last() == s.last());
        }
    }
}

/// Two predicates that agree on every element filter a sequence alike.
pub proof fn lemma_filter_congruence<A>(s: Seq<A>, p1: spec_fn(A) -> bool, p2: spec_fn(A) -> bool)
    requires
        forall|i: int| 0 <= i < s.len() ==> p1(#[trigger] s[i]) == p2(s[i]),
    ensures
        s.filter(p1) == s.filter(p2),
    decreases s.len(),
{
    reveal_with_fuel(Seq::filter, 2);
    if s.len() > 0 {
        assert forall|i: int| 0 <= i < s.drop_last().len() implies p1(
            #[trigger] s.drop_last()[i],
        ) == p2(s.drop_last()[i]) by {
            assert(s.drop_last()[i] == s[i]);
        }
        lemma_filter_congruence(s.drop_last(), p1, p2);
        assert(p1(s.last()) == p2(s.last()));
    }
}

} // verus!
