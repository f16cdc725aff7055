//! The step-identity classifier: which declared bindings denote step
//! capability objects. Two independent paths feed the result: one
//! reads type annotations, one infers from classes that extend the
//! recognized workflow base class.

use vstd::prelude::*;

use crate::assoc::{assoc_get, assoc_has, find_key, find_str_key, lemma_find_key, str_keyed_view, upsert};
use crate::ast::{Class, ClassElement, Decl, Declarator, Expr, ImportSpecifier, Param, Pattern, Program, Stmt};
use crate::text::str_eq;

verus! {

/// The identity a parameter contributes when its declared type is the
/// recognized step type and it binds one plain name.
pub open spec fn param_step_sym(p: Param) -> Option<u32> {
    match p.type_ref_name {
        Some(t) => if t@ == "WorkflowStep"@ {
            match p.pattern {
                Pattern::Name { sym, .. } => sym,
                Pattern::Other => None,
            }
        } else {
            None
        },
        None => None,
    }
}

/// The step identities declared by a parameter list.
pub open spec fn params_step_syms(ps: Seq<Param>) -> Set<u32>
    decreases ps.len(),
{
    if ps.len() == 0 {
        Set::empty()
    } else {
        let rest = params_step_syms(ps.drop_first());
        match param_step_sym(ps[0]) {
            Some(s) => rest.insert(s),
            None => rest,
        }
    }
}

/// The step identities declared by the methods of a class body.
pub open spec fn class_typed_syms(es: Seq<ClassElement>) -> Set<u32>
    decreases es.len(),
{
    if es.len() == 0 {
        Set::empty()
    } else {
        let head = match es[0] {
            ClassElement::Method { value, .. } => params_step_syms(value.params@),
            _ => Set::empty(),
        };
        head.union(class_typed_syms(es.drop_first()))
    }
}

/// The step identities declared by a function-valued expression.
pub open spec fn expr_fn_typed_syms(e: Expr) -> Set<u32> {
    match e {
        Expr::Arrow { params, .. } => params_step_syms(params@),
        Expr::Func(f) => params_step_syms(f.params@),
        _ => Set::empty(),
    }
}

/// The step identities declared by the initializers of a declarator
/// list.
pub open spec fn declarators_typed_syms(ds: Seq<Declarator>) -> Set<u32>
    decreases ds.len(),
{
    if ds.len() == 0 {
        Set::empty()
    } else {
        let head = match ds[0].init {
            Some(e) => expr_fn_typed_syms(e),
            None => Set::empty(),
        };
        head.union(declarators_typed_syms(ds.drop_first()))
    }
}

/// The step identities one top-level statement contributes through
/// type annotations. Only the statement forms listed here are
/// scanned; function bodies are not entered.
pub open spec fn stmt_typed_syms(s: Stmt) -> Set<u32> {
    match s {
        Stmt::Func(f) => params_step_syms(f.params@),
        Stmt::ExportDefaultFunc(f) => params_step_syms(f.params@),
        Stmt::ExportDefaultClass(c) => class_typed_syms(c.body@),
        Stmt::ExportNamed(d) => match d {
            Some(Decl::Func(f)) => params_step_syms(f.params@),
            Some(Decl::Class(c)) => class_typed_syms(c.body@),
            _ => Set::empty(),
        },
        Stmt::Class(c) => class_typed_syms(c.body@),
        Stmt::Var(ds) => declarators_typed_syms(ds@),
        Stmt::Expr(e) => expr_fn_typed_syms(e),
        _ => Set::empty(),
    }
}

/// Path A: every identity declared by a parameter typed exactly as the
/// recognized step type, over the top-level statements.
pub open spec fn typed_step_syms(body: Seq<Stmt>) -> Set<u32>
    decreases body.len(),
{
    if body.len() == 0 {
        Set::empty()
    } else {
        stmt_typed_syms(body[0]).union(typed_step_syms(body.drop_first()))
    }
}

/// The mathematical content of the import-alias map.
#[verifier::ext_equal]
pub struct ImportsV {
    /// Local name to original exported name.
    pub locals: Seq<(Seq<char>, Seq<char>)>,
    /// Local name to the identity of the imported binding.
    pub syms: Seq<(Seq<char>, u32)>,
}

/// The empty import-alias map.
pub open spec fn imports_empty() -> ImportsV {
    ImportsV { locals: Seq::empty(), syms: Seq::empty() }
}

/// One named import specifier folded into the map.
pub open spec fn imports_add_spec(iv: ImportsV, sp: ImportSpecifier) -> ImportsV {
    match sp {
        ImportSpecifier::Named { imported, local, sym } => {
            let locals = upsert(iv.locals, local@, imported@);
            let syms = match sym {
                Some(s) => upsert(iv.syms, local@, s),
                None => iv.syms,
            };
            ImportsV { locals, syms }
        },
        ImportSpecifier::Other => iv,
    }
}

/// A specifier list folded into the map, left to right.
pub open spec fn imports_add_specs(iv: ImportsV, sps: Seq<ImportSpecifier>) -> ImportsV
    decreases sps.len(),
{
    if sps.len() == 0 {
        iv
    } else {
        imports_add_specs(imports_add_spec(iv, sps[0]), sps.drop_first())
    }
}

/// One top-level statement folded into the map: only import
/// declarations from the recognized module specifier contribute.
pub open spec fn imports_add_stmt(iv: ImportsV, s: Stmt) -> ImportsV {
    match s {
        Stmt::Import { source, specifiers } => if source@ == "cloudflare:workers"@ {
            match specifiers {
                Some(sps) => imports_add_specs(iv, sps@),
                None => iv,
            }
        } else {
            iv
        },
        _ => iv,
    }
}

/// The import-alias map a program's top level builds up.
pub open spec fn imports_fold(iv: ImportsV, body: Seq<Stmt>) -> ImportsV
    decreases body.len(),
{
    if body.len() == 0 {
        iv
    } else {
        imports_fold(imports_add_stmt(iv, body[0]), body.drop_first())
    }
}

/// The import-alias map of a whole program.
pub open spec fn imports_of(body: Seq<Stmt>) -> ImportsV {
    imports_fold(imports_empty(), body)
}

/// Whether a local name is an alias of the recognized base-class
/// export.
pub open spec fn imports_is_entrypoint(iv: ImportsV, local: Seq<char>) -> bool {
    assoc_has(iv.locals, local) && assoc_get(iv.locals, local) == "WorkflowEntrypoint"@
}

/// The identity of the first imported alias of the recognized
/// base-class export, when the binder recorded one for it.
pub open spec fn entrypoint_sym(locals: Seq<(Seq<char>, Seq<char>)>, syms: Seq<(Seq<char>, u32)>) -> Option<u32>
    decreases locals.len(),
{
    if locals.len() == 0 {
        None
    } else if locals[0].1 == "WorkflowEntrypoint"@ {
        if assoc_has(syms, locals[0].0) {
            Some(assoc_get(syms, locals[0].0))
        } else {
            None
        }
    } else {
        entrypoint_sym(locals.drop_first(), syms)
    }
}

/// The view of the local-to-imported name map.
pub open spec fn str_str_view(s: Seq<(String, String)>) -> Seq<(Seq<char>, Seq<char>)> {
    s.map_values(|p: (String, String)| (p.0@, p.1@))
}

/// The index of the first name-map entry for this local name, if any.
fn find_local(m: &Vec<(String, String)>, k: &str) -> (r: Option<usize>)
    ensures
        match r {
            Some(i) => i == find_key(str_str_view(m@), k@),
            None => find_key(str_str_view(m@), k@) == -1,
        },
{
    proof {
        lemma_find_key(str_str_view(m@), k@);
    }
    let mut i: usize = 0;
    while i < m.len()
        invariant
            i <= m.len(),
            str_str_view(m@).len() == m.len(),
            forall|j: int| 0 <= j < i ==> str_str_view(m@)[j].0 != k@,
            find_key(str_str_view(m@), k@) == -1 || 0 <= find_key(str_str_view(m@), k@) < m.len(),
            find_key(str_str_view(m@), k@) >= 0 ==> str_str_view(m@)[find_key(
                str_str_view(m@),
                k@,
            )].0 == k@,
            find_key(str_str_view(m@), k@) >= 0 ==> forall|j: int|
                0 <= j < find_key(str_str_view(m@), k@) ==> str_str_view(m@)[j].0 != k@,
            find_key(str_str_view(m@), k@) == -1 ==> forall|j: int|
                0 <= j < m.len() ==> str_str_view(m@)[j].0 != k@,
        decreases m.len() - i,
    {
        if str_eq(m[i].0.as_str(), k) {
            proof {
                assert(str_str_view(m@)[i as int].0 == k@);
            }
            return Some(i);
        }
        i = i + 1;
    }
    None
}

/// Tracks imports from the workflow module specifier, for the
/// structural-inference path.
#[derive(Debug)]
pub struct CloudflareImports {
    pub local_to_imported: Vec<(String, String)>,
    pub symbol_ids: Vec<(String, u32)>,
}

impl View for CloudflareImports {
    type V = ImportsV;

    open spec fn view(&self) -> ImportsV {
        ImportsV {
            locals: str_str_view(self.local_to_imported@),
            syms: str_keyed_view(self.symbol_ids@),
        }
    }
}

impl CloudflareImports {
    /// Whether this local name is an alias of the recognized
    /// base-class export.
    pub fn is_workflow_entrypoint(&self, local_name: &str) -> (r: bool)
        ensures
            r == imports_is_entrypoint(self@, local_name@),
    {
        proof {
            lemma_find_key(self@.locals, local_name@);
        }
        match find_local(&self.local_to_imported, local_name) {
            Some(i) => str_eq(self.local_to_imported[i].1.as_str(), "WorkflowEntrypoint"),
            None => false,
        }
    }

    /// The identity of the first imported alias of the recognized
    /// base-class export, if the binder recorded one.
    #[verifier::loop_isolation(false)]
    pub fn get_workflow_entrypoint_symbol(&self) -> (r: Option<u32>)
        ensures
            r == entrypoint_sym(self@.locals, self@.syms),
    {
        let ghost locals = self@.locals;
        let ghost syms = self@.syms;
        let mut i: usize = 0;
        proof {
            assert(locals.skip(0) =~= locals);
        }
        while i < self.local_to_imported.len()
            invariant
                i <= self.local_to_imported.len(),
                entrypoint_sym(locals.skip(i as int), syms) == entrypoint_sym(locals, syms),
            decreases self.local_to_imported.len() - i,
        {
            proof {
                assert(locals.skip(i as int)[0] == locals[i as int]);
                assert(locals.skip(i as int).drop_first() =~= locals.skip(i + 1));
            }
            if str_eq(self.local_to_imported[i].1.as_str(), "WorkflowEntrypoint") {
                proof {
                    lemma_find_key(syms, locals[i as int].0);
                }
                return match find_str_key(&self.symbol_ids, self.local_to_imported[i].0.as_str()) {
                    Some(j) => Some(self.symbol_ids[j].1),
                    None => None,
                };
            }
            i = i + 1;
        }
        proof {
            assert(locals.skip(locals.len() as int) =~= Seq::<(Seq<char>, Seq<char>)>::empty());
        }
        None
    }
}

/// Collects the import aliases from the recognized module specifier
/// over the program's top-level statements.
#[verifier::loop_isolation(false)]
pub fn find_cloudflare_imports(program: &Program) -> (r: CloudflareImports)
    ensures
        r@ == imports_of(program.body@),
{
    let mut imports = CloudflareImports { local_to_imported: Vec::new(), symbol_ids: Vec::new() };
    let ghost body = program.body@;
    proof {
        assert(imports@ =~= imports_empty());
        assert(body.skip(0) =~= body);
    }
    let mut i: usize = 0;
    while i < program.body.len()
        invariant
            i <= program.body.len(),
            imports_fold(imports@, body.skip(i as int)) == imports_of(body),
        decreases program.body.len() - i,
    {
        proof {
            assert(body.skip(i as int)[0] == body[i as int]);
            assert(body.skip(i as int).drop_first() =~= body.skip(i + 1));
        }
        let ghost iv0 = imports@;
        match &program.body[i] {
            Stmt::Import { source, specifiers } => {
                if str_eq(source.as_str(), "cloudflare:workers") {
                    match specifiers {
                        Some(specs) => {
                            add_import_specifiers(specs, &mut imports);
                        },
                        None => {},
                    }
                }
            },
            _ => {},
        }
        proof {
            assert(imports@ == imports_add_stmt(iv0, body[i as int]));
        }
        i = i + 1;
    }
    proof {
        assert(body.skip(body.len() as int) =~= Seq::<Stmt>::empty());
    }
    imports
}

/// Folds a specifier list into the import map.
#[verifier::loop_isolation(false)]
fn add_import_specifiers(specs: &Vec<ImportSpecifier>, imports: &mut CloudflareImports)
    ensures
        final(imports)@ == imports_add_specs(old(imports)@, specs@),
{
    let mut i: usize = 0;
    proof {
        assert(specs@.skip(0) =~= specs@);
    }
    while i < specs.len()
        invariant
            i <= specs.len(),
            imports_add_specs(imports@, specs@.skip(i as int)) == imports_add_specs(
                old(imports)@,
                specs@,
            ),
        decreases specs.len() - i,
    {
        proof {
            assert(specs@.skip(i as int)[0] == specs@[i as int]);
            assert(specs@.skip(i as int).drop_first() =~= specs@.skip(i + 1));
        }
        let ghost iv0 = imports@;
        match &specs[i] {
            ImportSpecifier::Named { imported, local, sym } => {
                proof {
                    lemma_find_key(iv0.locals, local@);
                }
                match find_local(&imports.local_to_imported, local.as_str()) {
                    Some(j) => {
                        imports.local_to_imported[j] = (local.clone(), imported.clone());
                    },
                    None => {
                        imports.local_to_imported.push((local.clone(), imported.clone()));
                    },
                }
                proof {
                    assert(str_str_view(imports.local_to_imported@) =~= upsert(
                        iv0.locals,
                        local@,
                        imported@,
                    ));
                }
                match sym {
                    Some(s) => {
                        proof {
                            lemma_find_key(iv0.syms, local@);
                        }
                        match find_str_key(&imports.symbol_ids, local.as_str()) {
                            Some(j) => {
                                imports.symbol_ids[j] = (local.clone(), *s);
                            },
                            None => {
                                imports.symbol_ids.push((local.clone(), *s));
                            },
                        }
                        proof {
                            assert(str_keyed_view(imports.symbol_ids@) =~= upsert(
                                iv0.syms,
                                local@,
                                *s,
                            ));
                        }
                    },
                    None => {},
                }
                proof {
                    assert(imports@ =~= imports_add_spec(iv0, specs@[i as int]));
                }
            },
            ImportSpecifier::Other => {},
        }
        i = i + 1;
    }
    proof {
        assert(specs@.skip(specs@.len() as int) =~= Seq::<ImportSpecifier>::empty());
    }
}

/// Whether a class's `extends` clause names the recognized base-class
/// export, by import alias or by binder resolution.
pub open spec fn class_extends_entrypoint(c: Class, iv: ImportsV) -> bool {
    match c.super_class {
        Some(e) => match *e {
            Expr::Ident { name, sym } => imports_is_entrypoint(iv, name@) || (match entrypoint_sym(
                iv.locals,
                iv.syms,
            ) {
                Some(es) => match sym {
                    Some(s) => s == es,
                    None => false,
                },
                None => false,
            }),
            _ => false,
        },
        None => false,
    }
}

/// The identity bound by the second positional parameter of the first
/// method literally named `run` whose second parameter is one plain
/// bound name.
pub open spec fn run_step_param_sym(es: Seq<ClassElement>) -> Option<u32>
    decreases es.len(),
{
    if es.len() == 0 {
        None
    } else {
        match es[0] {
            ClassElement::Method { name, value } => match name {
                Some(n) => if n@ == "run"@ && value.params@.len() > 1 && (value.params@[1].pattern
                    is Name) {
                    match value.params@[1].pattern {
                        Pattern::Name { sym, .. } => sym,
                        Pattern::Other => None,
                    }
                } else {
                    run_step_param_sym(es.drop_first())
                },
                None => run_step_param_sym(es.drop_first()),
            },
            _ => run_step_param_sym(es.drop_first()),
        }
    }
}

/// The class a top-level statement declares, if any of the scanned
/// statement forms does.
pub open spec fn stmt_class_of(s: Stmt) -> Option<Class> {
    match s {
        Stmt::Class(c) => Some(c),
        Stmt::ExportDefaultClass(c) => Some(c),
        Stmt::ExportNamed(d) => match d {
            Some(Decl::Class(c)) => Some(c),
            _ => None,
        },
        _ => None,
    }
}

/// Path B: the identities inferred from classes extending the
/// recognized base class, over the top-level statements.
pub open spec fn inferred_step_syms(body: Seq<Stmt>, iv: ImportsV) -> Set<u32>
    decreases body.len(),
{
    if body.len() == 0 {
        Set::empty()
    } else {
        let head = match stmt_class_of(body[0]) {
            Some(c) => if class_extends_entrypoint(c, iv) {
                match run_step_param_sym(c.body@) {
                    Some(s) => Set::empty().insert(s),
                    None => Set::empty(),
                }
            } else {
                Set::empty()
            },
            None => Set::empty(),
        };
        head.union(inferred_step_syms(body.drop_first(), iv))
    }
}

/// The whole classification of a program: the union of both paths.
pub open spec fn step_syms_of(body: Seq<Stmt>) -> Set<u32> {
    typed_step_syms(body).union(inferred_step_syms(body, imports_of(body)))
}

/// Whether a declared type annotation is a direct reference to the
/// recognized step type, by literal name.
pub fn is_workflow_step_type(type_ref_name: &Option<String>) -> (r: bool)
    ensures
        r == match *type_ref_name {
            Some(t) => t@ == "WorkflowStep"@,
            None => false,
        },
{
    match type_ref_name {
        Some(t) => str_eq(t.as_str(), "WorkflowStep"),
        None => false,
    }
}

/// Records the step identities a parameter list declares.
#[verifier::loop_isolation(false)]
fn process_params(params: &Vec<Param>, symbols: &mut Vec<u32>)
    ensures
        final(symbols)@.to_set() == old(symbols)@.to_set().union(params_step_syms(params@)),
{
    broadcast use vstd::prelude::Seq::lemma_push_to_set_commute;

    let ghost ps = params@;
    let mut i: usize = 0;
    proof {
        assert(ps.skip(0) =~= ps);
        assert(symbols@.to_set().union(params_step_syms(ps)) =~= old(
            symbols,
        )@.to_set().union(params_step_syms(ps)));
    }
    while i < params.len()
        invariant
            i <= params.len(),
            symbols@.to_set().union(params_step_syms(ps.skip(i as int))) == old(
                symbols,
            )@.to_set().union(params_step_syms(ps)),
        decreases params.len() - i,
    {
        proof {
            assert(ps.skip(i as int)[0] == ps[i as int]);
            assert(ps.skip(i as int).drop_first() =~= ps.skip(i + 1));
        }
        let param = &params[i];
        if is_workflow_step_type(&param.type_ref_name) {
            match &param.pattern {
                Pattern::Name { sym: Some(s), .. } => {
                    let ghost prev = symbols@;
                    symbols.push(*s);
                    proof {
                        assert(symbols@.to_set() =~= prev.to_set().insert(*s));
                        assert(prev.to_set().insert(*s).union(params_step_syms(ps.skip(i + 1)))
                            =~= prev.to_set().union(
                            params_step_syms(ps.skip(i + 1)).insert(*s),
                        ));
                    }
                },
                _ => {},
            }
        }
        i = i + 1;
    }
    proof {
        assert(ps.skip(ps.len() as int) =~= Seq::<Param>::empty());
        assert(symbols@.to_set().union(Set::<u32>::empty()) =~= symbols@.to_set());
        assert(old(symbols)@.to_set().union(params_step_syms(ps)) =~= symbols@.to_set());
    }
}

/// Records the step identities the methods of a class declare through
/// their parameter types.
#[verifier::loop_isolation(false)]
pub fn process_class_methods(class: &Class, symbols: &mut Vec<u32>)
    ensures
        final(symbols)@.to_set() == old(symbols)@.to_set().union(class_typed_syms(class.body@)),
{
    let ghost es = class.body@;
    let mut i: usize = 0;
    proof {
        assert(es.skip(0) =~= es);
    }
    while i < class.body.len()
        invariant
            i <= class.body.len(),
            symbols@.to_set().union(class_typed_syms(es.skip(i as int))) == old(
                symbols,
            )@.to_set().union(class_typed_syms(es)),
        decreases class.body.len() - i,
    {
        proof {
            assert(es.skip(i as int)[0] == es[i as int]);
            assert(es.skip(i as int).drop_first() =~= es.skip(i + 1));
        }
        let ghost prev = symbols@;
        match &class.body[i] {
            ClassElement::Method { value, .. } => {
                process_params(&value.params, symbols);
            },
            _ => {},
        }
        proof {
            assert(symbols@.to_set().union(class_typed_syms(es.skip(i + 1))) =~= prev
                .to_set().union(class_typed_syms(es.skip(i as int))));
        }
        i = i + 1;
    }
    proof {
        assert(es.skip(es.len() as int) =~= Seq::<ClassElement>::empty());
        assert(symbols@.to_set().union(Set::<u32>::empty()) =~= symbols@.to_set());
        assert(old(symbols)@.to_set().union(class_typed_syms(es)) =~= symbols@.to_set());
    }
}

/// Records the step identities a function-valued expression declares
/// through its parameter types.
pub fn process_expression_functions(expr: &Expr, symbols: &mut Vec<u32>)
    ensures
        final(symbols)@.to_set() == old(symbols)@.to_set().union(expr_fn_typed_syms(*expr)),
{
    match expr {
        Expr::Arrow { params, .. } => {
            process_params(params, symbols);
        },
        Expr::Func(f) => {
            process_params(&f.params, symbols);
        },
        _ => {
            proof {
                assert(symbols@.to_set().union(Set::<u32>::empty()) =~= symbols@.to_set());
            }
        },
    }
}

/// Records the step identities the initializers of a declarator list
/// declare.
#[verifier::loop_isolation(false)]
fn process_declarators(decls: &Vec<Declarator>, symbols: &mut Vec<u32>)
    ensures
        final(symbols)@.to_set() == old(symbols)@.to_set().union(declarators_typed_syms(decls@)),
{
    let ghost ds = decls@;
    let mut i: usize = 0;
    proof {
        assert(ds.skip(0) =~= ds);
    }
    while i < decls.len()
        invariant
            i <= decls.len(),
            symbols@.to_set().union(declarators_typed_syms(ds.skip(i as int))) == old(
                symbols,
            )@.to_set().union(declarators_typed_syms(ds)),
        decreases decls.len() - i,
    {
        proof {
            assert(ds.skip(i as int)[0] == ds[i as int]);
            assert(ds.skip(i as int).drop_first() =~= ds.skip(i + 1));
        }
        let ghost prev = symbols@;
        match &decls[i].init {
            Some(init) => {
                process_expression_functions(init, symbols);
            },
            None => {},
        }
        proof {
            assert(symbols@.to_set().union(declarators_typed_syms(ds.skip(i + 1))) =~= prev
                .to_set().union(declarators_typed_syms(ds.skip(i as int))));
        }
        i = i + 1;
    }
    proof {
        assert(ds.skip(ds.len() as int) =~= Seq::<Declarator>::empty());
        assert(symbols@.to_set().union(Set::<u32>::empty()) =~= symbols@.to_set());
        assert(old(symbols)@.to_set().union(declarators_typed_syms(ds)) =~= symbols@.to_set());
    }
}

/// Path A: collects every identity declared by a parameter typed
/// exactly as the recognized step type, scanning the top-level
/// statement forms.
#[verifier::loop_isolation(false)]
pub fn find_typed_workflow_step_symbols(program: &Program) -> (r: Vec<u32>)
    ensures
        r@.to_set() == typed_step_syms(program.body@),
{
    let mut symbols: Vec<u32> = Vec::new();
    let ghost body = program.body@;
    let mut i: usize = 0;
    proof {
        assert(body.skip(0) =~= body);
        assert(symbols@.to_set().union(typed_step_syms(body)) =~= typed_step_syms(body));
    }
    while i < program.body.len()
        invariant
            i <= program.body.len(),
            symbols@.to_set().union(typed_step_syms(body.skip(i as int))) == typed_step_syms(body),
        decreases program.body.len() - i,
    {
        proof {
            assert(body.skip(i as int)[0] == body[i as int]);
            assert(body.skip(i as int).drop_first() =~= body.skip(i + 1));
        }
        let ghost prev = symbols@;
        match &program.body[i] {
            Stmt::Func(f) => {
                process_params(&f.params, &mut symbols);
            },
            Stmt::ExportDefaultFunc(f) => {
                process_params(&f.params, &mut symbols);
            },
            Stmt::ExportDefaultClass(c) => {
                process_class_methods(c, &mut symbols);
            },
            Stmt::ExportNamed(Some(Decl::Func(f))) => {
                process_params(&f.params, &mut symbols);
            },
            Stmt::ExportNamed(Some(Decl::Class(c))) => {
                process_class_methods(c, &mut symbols);
            },
            Stmt::Class(c) => {
                process_class_methods(c, &mut symbols);
            },
            Stmt::Var(decls) => {
                process_declarators(decls, &mut symbols);
            },
            Stmt::Expr(e) => {
                process_expression_functions(e, &mut symbols);
            },
            _ => {},
        }
        proof {
            assert(symbols@.to_set() =~= prev.to_set().union(stmt_typed_syms(body[i as int])));
            assert(symbols@.to_set().union(typed_step_syms(body.skip(i + 1))) =~= prev
                .to_set().union(typed_step_syms(body.skip(i as int))));
        }
        i = i + 1;
    }
    proof {
        assert(body.skip(body.len() as int) =~= Seq::<Stmt>::empty());
        assert(symbols@.to_set().union(Set::<u32>::empty()) =~= symbols@.to_set());
        assert(symbols@.to_set() =~= typed_step_syms(body));
    }
    symbols
}

/// Whether this class's `extends` clause names the recognized base
/// class. `workflow_entrypoint_symbol` is the precomputed identity of
/// its imported alias.
pub fn extends_workflow_entrypoint(
    class: &Class,
    cloudflare_imports: &CloudflareImports,
    workflow_entrypoint_symbol: Option<u32>,
) -> (r: bool)
    requires
        workflow_entrypoint_symbol == entrypoint_sym(
            cloudflare_imports@.locals,
            cloudflare_imports@.syms,
        ),
    ensures
        r == class_extends_entrypoint(*class, cloudflare_imports@),
{
    match &class.super_class {
        Some(e) => match &**e {
            Expr::Ident { name, sym } => {
                if cloudflare_imports.is_workflow_entrypoint(name.as_str()) {
                    true
                } else {
                    match (workflow_entrypoint_symbol, sym) {
                        (Some(es), Some(s)) => *s == es,
                        _ => false,
                    }
                }
            },
            _ => false,
        },
        None => false,
    }
}

/// The identity bound by the second parameter of this class's first
/// eligible `run` method, if any.
#[verifier::loop_isolation(false)]
pub fn get_run_method_step_param(class: &Class) -> (r: Option<u32>)
    ensures
        r == run_step_param_sym(class.body@),
{
    let ghost es = class.body@;
    let mut i: usize = 0;
    proof {
        assert(es.skip(0) =~= es);
    }
    while i < class.body.len()
        invariant
            i <= class.body.len(),
            run_step_param_sym(es.skip(i as int)) == run_step_param_sym(es),
        decreases class.body.len() - i,
    {
        proof {
            assert(es.skip(i as int)[0] == es[i as int]);
            assert(es.skip(i as int).drop_first() =~= es.skip(i + 1));
        }
        match &class.body[i] {
            ClassElement::Method { name: Some(n), value } => {
                if str_eq(n.as_str(), "run") && value.params.len() > 1 {
                    match &value.params[1].pattern {
                        Pattern::Name { sym, .. } => {
                            return *sym;
                        },
                        Pattern::Other => {},
                    }
                }
            },
            _ => {},
        }
        i = i + 1;
    }
    proof {
        assert(es.skip(es.len() as int) =~= Seq::<ClassElement>::empty());
    }
    None
}

/// Path B: collects the identities inferred from classes that extend
/// the recognized base class, scanning the top-level statement forms.
#[verifier::loop_isolation(false)]
pub fn find_inferred_workflow_step_symbols(
    program: &Program,
    cloudflare_imports: &CloudflareImports,
) -> (r: Vec<u32>)
    ensures
        r@.to_set() == inferred_step_syms(program.body@, cloudflare_imports@),
{
    broadcast use vstd::prelude::Seq::lemma_push_to_set_commute;

    let workflow_entrypoint_symbol = cloudflare_imports.get_workflow_entrypoint_symbol();
    let mut symbols: Vec<u32> = Vec::new();
    let ghost body = program.body@;
    let ghost iv = cloudflare_imports@;
    let mut i: usize = 0;
    proof {
        assert(body.skip(0) =~= body);
        assert(symbols@.to_set().union(inferred_step_syms(body, iv)) =~= inferred_step_syms(
            body,
            iv,
        ));
    }
    while i < program.body.len()
        invariant
            i <= program.body.len(),
            symbols@.to_set().union(inferred_step_syms(body.skip(i as int), iv))
                == inferred_step_syms(body, iv),
        decreases program.body.len() - i,
    {
        proof {
            assert(body.skip(i as int)[0] == body[i as int]);
            assert(body.skip(i as int).drop_first() =~= body.skip(i + 1));
        }
        let ghost prev = symbols@;
        let class = match &program.body[i] {
            Stmt::Class(c) => Some(c),
            Stmt::ExportDefaultClass(c) => Some(c),
            Stmt::ExportNamed(Some(Decl::Class(c))) => Some(c),
            _ => None,
        };
        match class {
            Some(c) => {
                if extends_workflow_entrypoint(c, cloudflare_imports, workflow_entrypoint_symbol) {
                    match get_run_method_step_param(c) {
                        Some(s) => {
                            symbols.push(s);
                            proof {
                                assert(symbols@.to_set() =~= prev.to_set().insert(s));
                            }
                        },
                        None => {},
                    }
                }
            },
            None => {},
        }
        proof {
            assert(symbols@.to_set().union(inferred_step_syms(body.skip(i + 1), iv)) =~= prev
                .to_set().union(inferred_step_syms(body.skip(i as int), iv)));
        }
        i = i + 1;
    }
    proof {
        assert(body.skip(body.len() as int) =~= Seq::<Stmt>::empty());
        assert(symbols@.to_set().union(Set::<u32>::empty()) =~= symbols@.to_set());
        assert(symbols@.to_set() =~= inferred_step_syms(body, iv));
    }
    symbols
}

/// The mathematical content of the classification.
#[verifier::ext_equal]
pub struct SymbolsV {
    pub typed: Set<u32>,
    pub inferred: Set<u32>,
}

/// The identities classified as steps: the union of both paths.
pub open spec fn syms_all(sv: SymbolsV) -> Set<u32> {
    sv.typed.union(sv.inferred)
}

/// The identities known to denote step capability objects, by either
/// detection path.
#[derive(Debug)]
pub struct WorkflowStepSymbols {
    pub typed_step_symbols: Vec<u32>,
    pub inferred_step_symbols: Vec<u32>,
}

impl View for WorkflowStepSymbols {
    type V = SymbolsV;

    open spec fn view(&self) -> SymbolsV {
        SymbolsV {
            typed: self.typed_step_symbols@.to_set(),
            inferred: self.inferred_step_symbols@.to_set(),
        }
    }
}

/// Whether the sequence holds this identity.
fn contains_u32(v: &Vec<u32>, x: u32) -> (r: bool)
    ensures
        r == v@.contains(x),
{
    let mut i: usize = 0;
    while i < v.len()
        invariant
            i <= v.len(),
            forall|j: int| 0 <= j < i ==> v@[j] != x,
        decreases v.len() - i,
    {
        if v[i] == x {
            return true;
        }
        i = i + 1;
    }
    false
}

impl WorkflowStepSymbols {
    /// Whether this identity was classified as a step by either path.
    pub fn contains(&self, symbol_id: u32) -> (r: bool)
        ensures
            r == syms_all(self@).contains(symbol_id),
    {
        contains_u32(&self.typed_step_symbols, symbol_id) || contains_u32(
            &self.inferred_step_symbols,
            symbol_id,
        )
    }
}

/// Builds the complete classification of a program: parameters typed
/// as the step type, and inferred parameters of `run` methods in
/// classes extending the recognized base class.
pub fn build_workflow_step_symbols(program: &Program) -> (r: WorkflowStepSymbols)
    ensures
        r@.typed == typed_step_syms(program.body@),
        r@.inferred == inferred_step_syms(program.body@, imports_of(program.body@)),
        syms_all(r@) == step_syms_of(program.body@),
{
    let typed_step_symbols = find_typed_workflow_step_symbols(program);
    let cloudflare_imports = find_cloudflare_imports(program);
    let inferred_step_symbols = find_inferred_workflow_step_symbols(program, &cloudflare_imports);
    WorkflowStepSymbols { typed_step_symbols, inferred_step_symbols }
}

} // verus!
