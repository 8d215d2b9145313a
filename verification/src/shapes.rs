//! The walk over an expression that registers every tuple shape it builds,
//! innermost first, so that each shape's struct is defined before any shape
//! that has it as an element.

use vstd::prelude::*;
use crate::ast::{EnumConstructorData, Expr, Function, Item, MatchArm, Program, Stmt, Type};
use crate::codegen::{
    collision_message, inferred, kind_name, lemma_failed_prefix_fails, locals_after, register_type_shapes,
    register_types_shapes, shape_lookup, tuple_name, CodeGenerator, Env, NO_TYPE_HEAD,
    NO_TYPE_TAIL,
};
use crate::errors::{CompileError, Result};
use crate::text::join_seq;

verus! {

/// A shape table.
pub type Shapes = Seq<(Seq<char>, Seq<Seq<char>>)>;

/// How a walk goes: the shape table after it, or the message it was refused
/// with.
pub type Walk = core::result::Result<Shapes, Seq<char>>;

/// `env` with the shape table `shapes`.
pub open spec fn with_shapes(env: Env, shapes: Shapes) -> Env {
    Env { shapes, ..env }
}

/// The element types of a tuple, each inferred in turn; the first element
/// with no type refuses the tuple, naming its kind.
pub open spec fn element_types(
    env: Env,
    locals: Seq<(Seq<char>, Seq<char>)>,
    es: Seq<Expr>,
) -> core::result::Result<Seq<Seq<char>>, Seq<char>>
    decreases es.len(),
{
    if es.len() == 0 {
        Ok(Seq::empty())
    } else {
        match element_types(env, locals, es.drop_last()) {
            Ok(types) => match inferred(env, locals, es.last()) {
                Some(t) => Ok(types.push(t)),
                None => Err(NO_TYPE_HEAD@ + kind_name(es.last()) + NO_TYPE_TAIL@),
            },
            Err(m) => Err(m),
        }
    }
}

/// Registering the shape with element types `types` in `shapes`: a new name
/// is appended; the same layout again changes nothing; a different layout
/// under a taken name is refused, naming both.
pub open spec fn register_in(shapes: Shapes, types: Seq<Seq<char>>) -> Walk {
    let name = tuple_name(types);
    match shape_lookup(shapes, name) {
        None => Ok(shapes.push((name, types))),
        Some(existing) => if existing == types {
            Ok(shapes)
        } else {
            Err(collision_message(name, join_seq(existing, ", "@), join_seq(types, ", "@)))
        },
    }
}

/// The walk over `e`: every sub-expression in evaluation order, and for a
/// tuple, its elements' shapes first and then its own.
pub open spec fn shapes_in(env: Env, locals: Seq<(Seq<char>, Seq<char>)>, e: Expr) -> Walk
    decreases e,
{
    match e {
        Expr::Tuple { elements, .. } => match shapes_in_all(env, locals, elements@) {
            Ok(after) => match element_types(with_shapes(env, after), locals, elements@) {
                Ok(types) => register_in(after, types),
                Err(m) => Err(m),
            },
            Err(m) => Err(m),
        },
        Expr::TupleIndex { expr, .. } | Expr::Cast { expr, .. } | Expr::Deref { expr, .. }
        | Expr::Reference { expr, .. } | Expr::Question { expr, .. } | Expr::Await { expr, .. } =>
            shapes_in(env, locals, *expr),
        Expr::Unary { operand, .. } => shapes_in(env, locals, *operand),
        Expr::FieldAccess { object, .. } => shapes_in(env, locals, *object),
        Expr::Binary { left, right, .. } => match shapes_in(env, locals, *left) {
            Ok(after) => shapes_in(with_shapes(env, after), locals, *right),
            Err(m) => Err(m),
        },
        Expr::Index { array, index, .. } => match shapes_in(env, locals, *array) {
            Ok(after) => shapes_in(with_shapes(env, after), locals, *index),
            Err(m) => Err(m),
        },
        Expr::Range { start, end, .. } => match shapes_in(env, locals, *start) {
            Ok(after) => shapes_in(with_shapes(env, after), locals, *end),
            Err(m) => Err(m),
        },
        Expr::ArrayRepeat { value, count, .. } => match shapes_in(env, locals, *value) {
            Ok(after) => shapes_in(with_shapes(env, after), locals, *count),
            Err(m) => Err(m),
        },
        Expr::Call { func, args, .. } => match shapes_in(env, locals, *func) {
            Ok(after) => shapes_in_all(with_shapes(env, after), locals, args@),
            Err(m) => Err(m),
        },
        Expr::ArrayLiteral { elements, .. } => shapes_in_all(env, locals, elements@),
        Expr::StructLiteral { fields, .. } => shapes_in_fields(env, locals, fields@),
        Expr::EnumConstructor { data, .. } => match data {
            Some(EnumConstructorData::Tuple(args)) => shapes_in_all(env, locals, args@),
            Some(EnumConstructorData::Struct(fields)) => shapes_in_fields(env, locals, fields@),
            None => Ok(env.shapes),
        },
        Expr::If { condition, then_branch, then_value, else_branch, else_value, .. } => match shapes_in(
            env,
            locals,
            *condition,
        ) {
            Ok(a1) => {
                let env1 = with_shapes(env, a1);
                let then_walk = match then_value {
                    Some(v) => shapes_in(env1, locals_after(env1, locals, then_branch@), *v),
                    None => Ok(a1),
                };
                match then_walk {
                    Ok(a2) => {
                        let env2 = with_shapes(env, a2);
                        match else_value {
                            Some(v) => shapes_in(
                                env2,
                                match else_branch {
                                    Some(stmts) => locals_after(env2, locals, stmts@),
                                    None => locals,
                                },
                                *v,
                            ),
                            None => Ok(a2),
                        }
                    },
                    Err(m) => Err(m),
                }
            },
            Err(m) => Err(m),
        },
        Expr::Block { stmts, value, .. } => match value {
            Some(v) => shapes_in(env, locals_after(env, locals, stmts@), *v),
            None => Ok(env.shapes),
        },
        _ => Ok(env.shapes),
    }
}

/// The walk over each of `es`, in order.
pub open spec fn shapes_in_all(env: Env, locals: Seq<(Seq<char>, Seq<char>)>, es: Seq<Expr>) -> Walk
    decreases es,
{
    if es.len() == 0 {
        Ok(env.shapes)
    } else {
        match shapes_in_all(env, locals, es.drop_last()) {
            Ok(after) => shapes_in(with_shapes(env, after), locals, es.last()),
            Err(m) => Err(m),
        }
    }
}

/// The walk over each field initialiser of `fs`, in order.
pub open spec fn shapes_in_fields(
    env: Env,
    locals: Seq<(Seq<char>, Seq<char>)>,
    fs: Seq<(String, Expr)>,
) -> Walk
    decreases fs,
{
    if fs.len() == 0 {
        Ok(env.shapes)
    } else {
        match shapes_in_fields(env, locals, fs.drop_last()) {
            Ok(after) => shapes_in(with_shapes(env, after), locals, fs.last().1),
            Err(m) => Err(m),
        }
    }
}

proof fn lemma_element_types_stay_refused(
    env: Env,
    locals: Seq<(Seq<char>, Seq<char>)>,
    es: Seq<Expr>,
    k: int,
)
    requires
        0 <= k <= es.len(),
        element_types(env, locals, es.take(k)) is Err,
    ensures
        element_types(env, locals, es) == element_types(env, locals, es.take(k)),
    decreases es.len(),
{
    if k < es.len() {
        assert(es.drop_last().take(k) == es.take(k));
        lemma_element_types_stay_refused(env, locals, es.drop_last(), k);
    } else {
        assert(es.take(k) == es);
    }
}

proof fn lemma_walk_all_stays_refused(
    env: Env,
    locals: Seq<(Seq<char>, Seq<char>)>,
    es: Seq<Expr>,
    k: int,
)
    requires
        0 <= k <= es.len(),
        shapes_in_all(env, locals, es.take(k)) is Err,
    ensures
        shapes_in_all(env, locals, es) == shapes_in_all(env, locals, es.take(k)),
    decreases es.len(),
{
    if k < es.len() {
        assert(es.drop_last().take(k) == es.take(k));
        lemma_walk_all_stays_refused(env, locals, es.drop_last(), k);
    } else {
        assert(es.take(k) == es);
    }
}

proof fn lemma_walk_fields_stays_refused(
    env: Env,
    locals: Seq<(Seq<char>, Seq<char>)>,
    fs: Seq<(String, Expr)>,
    k: int,
)
    requires
        0 <= k <= fs.len(),
        shapes_in_fields(env, locals, fs.take(k)) is Err,
    ensures
        shapes_in_fields(env, locals, fs) == shapes_in_fields(env, locals, fs.take(k)),
    decreases fs.len(),
{
    if k < fs.len() {
        assert(fs.drop_last().take(k) == fs.take(k));
        lemma_walk_fields_stays_refused(env, locals, fs.drop_last(), k);
    } else {
        assert(fs.take(k) == fs);
    }
}

pub open spec fn locals_view(locals: Seq<(String, String)>) -> Seq<(Seq<char>, Seq<char>)> {
    locals.map_values(|v: (String, String)| (v.0@, v.1@))
}

/// Whether `r` reports the walk `w` on `g`: on success the registry is the
/// table the walk ends with; on refusal the error carries its message.
pub open spec fn reports(g: CodeGenerator, r: Result<()>, w: Walk) -> bool {
    match w {
        Ok(after) => r is Ok && g.shapes() == after,
        Err(m) => r matches Err(CompileError::CodegenError { message }) && message@ == m,
    }
}

impl CodeGenerator {
    /// Register every tuple shape `expr` builds, innermost first and in
    /// evaluation order, with `locals` bound over the variables in scope.
    /// Nothing is emitted.
    pub fn register_tuple_shapes_in(&mut self, expr: &Expr, locals: &Vec<(String, String)>) -> (r:
        Result<()>)
        requires
            old(self).well_formed(),
        ensures
            final(self).well_formed(),
            final(self).only_shapes_differ(&*old(self)),
            reports(*final(self), r, shapes_in(old(self).env(), locals_view(locals@), *expr)),
        decreases expr, 1nat,
    {
        let ghost env = self.env();
        let ghost lv = locals_view(locals@);
        match expr {
            Expr::Tuple { elements, span } => {
                proof {
                    assert(decreases_to!(*expr => expr->Tuple_elements));
                }
                let walked = self.register_shapes_in_all(elements, locals);
                if walked.is_err() {
                    return walked;
                }
                let ghost after = self.shapes();
                assert(self.env() == with_shapes(env, after));
                let mut types: Vec<String> = Vec::new();
                let mut i: usize = 0;
                assert(elements@.take(0) =~= Seq::<Expr>::empty());
                assert(types@.map_values(|t: String| t@) =~= Seq::<Seq<char>>::empty());
                while i < elements.len()
                    invariant
                        i <= elements.len(),
                        self.well_formed(),
                        self.only_shapes_differ(&*old(self)),
                        self.shapes() == after,
                        *expr == (Expr::Tuple { elements: *elements, span: *span }),
                        env == old(self).env(),
                        shapes_in_all(env, lv, elements@) == Ok::<Shapes, Seq<char>>(after),
                        self.env() == with_shapes(env, after),
                        lv == locals_view(locals@),
                        element_types(with_shapes(env, after), lv, elements@.take(i as int)) == Ok::<
                            Seq<Seq<char>>,
                            Seq<char>,
                        >(types@.map_values(|t: String| t@)),
                    decreases elements.len() - i,
                {
                    proof {
                        assert(elements@.take(i + 1).drop_last() == elements@.take(i as int));
                        assert(elements@.take(i + 1).last() == elements@[i as int]);
                    }
                    match self.expr_c_type(&elements[i], locals, *span) {
                        Ok(t) => {
                            let ghost before = types@.map_values(|t: String| t@);
                            let ghost tv = t@;
                            types.push(t);
                            assert(types@.map_values(|t: String| t@) =~= before.push(tv));
                        },
                        Err(e) => {
                            proof {
                                lemma_element_types_stay_refused(
                                    with_shapes(env, after),
                                    lv,
                                    elements@,
                                    i + 1,
                                );
                            }
                            return Err(e);
                        },
                    }
                    i = i + 1;
                }
                assert(elements@.take(i as int) == elements@);
                match self.register_tuple(types.as_slice()) {
                    Ok(_) => Ok(()),
                    Err(e) => Err(e),
                }
            },
            Expr::TupleIndex { expr: inner, .. } | Expr::Cast { expr: inner, .. } | Expr::Deref {
                expr: inner,
                ..
            } | Expr::Reference { expr: inner, .. } | Expr::Question { expr: inner, .. }
            | Expr::Await { expr: inner, .. } => self.register_tuple_shapes_in(inner, locals),
            Expr::Unary { operand, .. } => self.register_tuple_shapes_in(operand, locals),
            Expr::FieldAccess { object, .. } => self.register_tuple_shapes_in(object, locals),
            Expr::Binary { left: a, right: b, .. } | Expr::Index { array: a, index: b, .. }
            | Expr::Range { start: a, end: b, .. } | Expr::ArrayRepeat { value: a, count: b, .. } => {
                let first = self.register_tuple_shapes_in(a, locals);
                if first.is_err() {
                    return first;
                }
                assert(self.env() == with_shapes(env, self.shapes()));
                self.register_tuple_shapes_in(b, locals)
            },
            Expr::Call { func, args, .. } => {
                let first = self.register_tuple_shapes_in(func, locals);
                if first.is_err() {
                    return first;
                }
                assert(self.env() == with_shapes(env, self.shapes()));
                proof {
                    assert(decreases_to!(*expr => expr->Call_args));
                }
                self.register_shapes_in_all(args, locals)
            },
            Expr::ArrayLiteral { elements, .. } => {
                proof {
                    assert(decreases_to!(*expr => expr->ArrayLiteral_elements));
                }
                self.register_shapes_in_all(elements, locals)
            },
            Expr::StructLiteral { fields, .. } => {
                proof {
                    assert(decreases_to!(*expr => expr->StructLiteral_fields));
                }
                self.register_shapes_in_fields(fields, locals)
            },
            Expr::EnumConstructor { data, .. } => match data {
                Some(EnumConstructorData::Tuple(args)) => {
                    proof {
                        assert(decreases_to!(*expr => expr->EnumConstructor_data));
                    }
                    self.register_shapes_in_all(args, locals)
                },
                Some(EnumConstructorData::Struct(fields)) => {
                    proof {
                        assert(decreases_to!(*expr => expr->EnumConstructor_data));
                    }
                    self.register_shapes_in_fields(fields, locals)
                },
                None => Ok(()),
            },
            Expr::If { condition, then_branch, then_value, else_branch, else_value, .. } => {
                let first = self.register_tuple_shapes_in(condition, locals);
                if first.is_err() {
                    return first;
                }
                assert(self.env() == with_shapes(env, self.shapes()));
                match then_value {
                    Some(v) => {
                        proof {
                            assert(decreases_to!(*expr => expr->If_then_value));
                        }
                        let branch_locals = self.locals_of(then_branch, locals);
                        let second = self.register_tuple_shapes_in(v, &branch_locals);
                        if second.is_err() {
                            return second;
                        }
                    },
                    None => {},
                }
                assert(self.env() == with_shapes(env, self.shapes()));
                match else_value {
                    Some(v) => {
                        proof {
                            assert(decreases_to!(*expr => expr->If_else_value));
                        }
                        match else_branch {
                            Some(stmts) => {
                                let branch_locals = self.locals_of(stmts, locals);
                                self.register_tuple_shapes_in(v, &branch_locals)
                            },
                            None => self.register_tuple_shapes_in(v, locals),
                        }
                    },
                    None => Ok(()),
                }
            },
            Expr::Block { stmts, value, .. } => match value {
                Some(v) => {
                    proof {
                        assert(decreases_to!(*expr => expr->Block_value));
                    }
                    let block_locals = self.locals_of(stmts, locals);
                    self.register_tuple_shapes_in(v, &block_locals)
                },
                None => Ok(()),
            },
            _ => Ok(()),
        }
    }

    /// Register the tuple shapes of each of `es`, in order.
    fn register_shapes_in_all(&mut self, es: &Vec<Expr>, locals: &Vec<(String, String)>) -> (r:
        Result<()>)
        requires
            old(self).well_formed(),
        ensures
            final(self).well_formed(),
            final(self).only_shapes_differ(&*old(self)),
            reports(*final(self), r, shapes_in_all(old(self).env(), locals_view(locals@), es@)),
        decreases es, 0nat,
    {
        let ghost env = self.env();
        let ghost lv = locals_view(locals@);
        let mut i: usize = 0;
        assert(es@.take(0) =~= Seq::<Expr>::empty());
        while i < es.len()
            invariant
                i <= es.len(),
                self.well_formed(),
                self.only_shapes_differ(&*old(self)),
                env == old(self).env(),
                lv == locals_view(locals@),
                self.env() == with_shapes(env, self.shapes()),
                shapes_in_all(env, lv, es@.take(i as int)) == Ok::<Shapes, Seq<char>>(self.shapes()),
            decreases es.len() - i,
        {
            proof {
                assert(es@.take(i + 1).drop_last() == es@.take(i as int));
                assert(es@.take(i + 1).last() == es@[i as int]);
                assert(decreases_to!(*es => es@));
                assert(decreases_to!(es@ => es@[i as int]));
            }
            let step = self.register_tuple_shapes_in(&es[i], locals);
            if step.is_err() {
                proof {
                    lemma_walk_all_stays_refused(env, lv, es@, i + 1);
                }
                return step;
            }
            assert(self.env() == with_shapes(env, self.shapes()));
            i = i + 1;
        }
        assert(es@.take(i as int) == es@);
        Ok(())
    }

    /// Register the tuple shapes of each field initialiser of `fs`, in order.
    fn register_shapes_in_fields(&mut self, fs: &Vec<(String, Expr)>, locals: &Vec<(String, String)>) -> (r:
        Result<()>)
        requires
            old(self).well_formed(),
        ensures
            final(self).well_formed(),
            final(self).only_shapes_differ(&*old(self)),
            reports(*final(self), r, shapes_in_fields(old(self).env(), locals_view(locals@), fs@)),
        decreases fs, 0nat,
    {
        let ghost env = self.env();
        let ghost lv = locals_view(locals@);
        let mut i: usize = 0;
        assert(fs@.take(0) =~= Seq::<(String, Expr)>::empty());
        while i < fs.len()
            invariant
                i <= fs.len(),
                self.well_formed(),
                self.only_shapes_differ(&*old(self)),
                env == old(self).env(),
                lv == locals_view(locals@),
                self.env() == with_shapes(env, self.shapes()),
                shapes_in_fields(env, lv, fs@.take(i as int)) == Ok::<Shapes, Seq<char>>(self.shapes()),
            decreases fs.len() - i,
        {
            proof {
                assert(fs@.take(i + 1).drop_last() == fs@.take(i as int));
                assert(fs@.take(i + 1).last() == fs@[i as int]);
                let ghost field = fs@[i as int];
                assert(decreases_to!(*fs => fs@));
                assert(decreases_to!(fs@ => field));
                assert(decreases_to!(field => field.1));
            }
            let step = self.register_tuple_shapes_in(&fs[i].1, locals);
            if step.is_err() {
                proof {
                    lemma_walk_fields_stays_refused(env, lv, fs@, i + 1);
                }
                return step;
            }
            assert(self.env() == with_shapes(env, self.shapes()));
            i = i + 1;
        }
        assert(fs@.take(i as int) == fs@);
        Ok(())
    }
}

// ---------------------------------------------------------------------------
// The written types of a program
// ---------------------------------------------------------------------------

/// The types written in `let` annotations in a statement, nested blocks
/// included, in order.
pub open spec fn stmt_types(s: Stmt) -> Seq<Type>
    decreases s,
{
    match s {
        Stmt::Let { ty: Some(t), .. } => seq![t],
        Stmt::If { then_branch, else_branch, .. } => stmts_types(then_branch@) + match else_branch {
            Some(e) => stmts_types(e@),
            None => Seq::empty(),
        },
        Stmt::While { body, .. } | Stmt::For { body, .. } | Stmt::Unsafe { body, .. } => stmts_types(
            body@,
        ),
        Stmt::Match { arms, .. } => arms_types(arms@),
        _ => Seq::empty(),
    }
}

/// `stmt_types` over a list of statements, in order.
pub open spec fn stmts_types(ss: Seq<Stmt>) -> Seq<Type>
    decreases ss,
{
    if ss.len() == 0 {
        Seq::empty()
    } else {
        stmts_types(ss.drop_last()) + stmt_types(ss.last())
    }
}

/// `stmt_types` over the bodies of match arms, in order.
pub open spec fn arms_types(arms: Seq<MatchArm>) -> Seq<Type>
    decreases arms,
{
    if arms.len() == 0 {
        Seq::empty()
    } else {
        arms_types(arms.drop_last()) + stmts_types(arms.last().body@)
    }
}

/// The types a function writes: each parameter's, its return type, then the
/// annotations in its body.
pub open spec fn function_types(f: Function) -> Seq<Type> {
    f.params@.map_values(|p: crate::ast::Param| p.ty) + return_types(f) + stmts_types(f.body@)
}

/// The return type a function writes, if it writes one.
pub open spec fn return_types(f: Function) -> Seq<Type> {
    match f.return_type {
        Some(t) => seq![t],
        None => Seq::empty(),
    }
}

/// The types the functions of a program write, item by item.
pub open spec fn program_types(items: Seq<Item>) -> Seq<Type>
    decreases items.len(),
{
    if items.len() == 0 {
        Seq::empty()
    } else {
        program_types(items.drop_last()) + match items.last() {
            Item::Function(f) => function_types(f),
            _ => Seq::empty(),
        }
    }
}


proof fn lemma_stmts_types_split(ss: Seq<Stmt>, k: int)
    requires
        0 <= k <= ss.len(),
    ensures
        stmts_types(ss) == stmts_types(ss.take(k)) + stmts_types(ss.skip(k)),
    decreases ss.len(),
{
    if k == ss.len() {
        assert(ss.take(k) == ss);
        assert(ss.skip(k) =~= Seq::<Stmt>::empty());
        assert(stmts_types(ss) + Seq::<Type>::empty() == stmts_types(ss));
    } else {
        let init = ss.drop_last();
        lemma_stmts_types_split(init, k);
        assert(init.take(k) == ss.take(k));
        assert(init.skip(k) == ss.skip(k).drop_last());
        assert(ss.skip(k).last() == ss.last());
        assert(stmts_types(ss.skip(k)) == stmts_types(init.skip(k)) + stmt_types(ss.last()));
        assert(stmts_types(ss) =~= stmts_types(ss.take(k)) + stmts_types(ss.skip(k)));
    }
}

proof fn lemma_arms_types_split(arms: Seq<MatchArm>, k: int)
    requires
        0 <= k <= arms.len(),
    ensures
        arms_types(arms) == arms_types(arms.take(k)) + arms_types(arms.skip(k)),
    decreases arms.len(),
{
    if k == arms.len() {
        assert(arms.take(k) == arms);
        assert(arms.skip(k) =~= Seq::<MatchArm>::empty());
        assert(arms_types(arms) + Seq::<Type>::empty() == arms_types(arms));
    } else {
        let init = arms.drop_last();
        lemma_arms_types_split(init, k);
        assert(init.take(k) == arms.take(k));
        assert(init.skip(k) == arms.skip(k).drop_last());
        assert(arms.skip(k).last() == arms.last());
        assert(arms_types(arms.skip(k)) == arms_types(init.skip(k)) + stmts_types(arms.last().body@));
        assert(arms_types(arms) =~= arms_types(arms.take(k)) + arms_types(arms.skip(k)));
    }
}

proof fn lemma_program_types_split(items: Seq<Item>, k: int)
    requires
        0 <= k <= items.len(),
    ensures
        program_types(items) == program_types(items.take(k)) + program_types(items.skip(k)),
    decreases items.len(),
{
    if k == items.len() {
        assert(items.take(k) == items);
        assert(items.skip(k) =~= Seq::<Item>::empty());
        assert(program_types(items) + Seq::<Type>::empty() == program_types(items));
    } else {
        let init = items.drop_last();
        lemma_program_types_split(init, k);
        assert(init.take(k) == items.take(k));
        assert(init.skip(k) == items.skip(k).drop_last());
        assert(items.skip(k).last() == items.last());
        assert(program_types(items) =~= program_types(items.take(k)) + program_types(items.skip(k)));
    }
}

/// A failure to register a prefix of `whole` is a failure to register
/// `whole`.
proof fn lemma_prefix_fails(start: Shapes, part: Seq<Type>, rest: Seq<Type>, whole: Seq<Type>)
    requires
        register_types_shapes(start, part) is None,
        whole =~= part + rest,
    ensures
        register_types_shapes(start, whole) is None,
{
    lemma_register_concat(start, part, rest);
}

/// Registering two lists of types one after the other is registering their
/// concatenation.
pub proof fn lemma_register_concat(shapes: Shapes, a: Seq<Type>, b: Seq<Type>)
    ensures
        register_types_shapes(shapes, a + b) == match register_types_shapes(shapes, a) {
            Some(after) => register_types_shapes(after, b),
            None => None,
        },
    decreases b.len(),
{
    if b.len() == 0 {
        assert(a + b == a);
    } else {
        assert((a + b).drop_last() == a + b.drop_last());
        assert((a + b).last() == b.last());
        lemma_register_concat(shapes, a, b.drop_last());
        if register_types_shapes(shapes, a) is None {
            assert((a + b).take(a.len() as int) =~= a);
            lemma_failed_prefix_fails(shapes, a + b, a.len() as int);
        }
    }
}

/// Whether `r` reports registering the types `ts` from the registry of
/// `old` into `new`.
pub open spec fn reports_types(old: Shapes, new: CodeGenerator, r: Result<()>, ts: Seq<Type>) -> bool {
    match register_types_shapes(old, ts) {
        Some(after) => r is Ok && new.shapes() == after,
        None => r is Err,
    }
}

impl CodeGenerator {
    /// Register one more written type after `ts`, keeping track of the whole.
    fn register_one_more(&mut self, ty: &Type, Ghost(start): Ghost<Shapes>, Ghost(ts): Ghost<
        Seq<Type>,
    >) -> (r: Result<()>)
        requires
            old(self).well_formed(),
            register_types_shapes(start, ts) == Some(old(self).shapes()),
        ensures
            final(self).well_formed(),
            final(self).only_shapes_differ(&*old(self)),
            reports_types(start, *final(self), r, ts.push(*ty)),
    {
        proof {
            assert(ts.push(*ty).drop_last() == ts);
            assert(ts.push(*ty).last() == *ty);
        }
        self.register_tuple_type(ty)
    }

    /// Register the tuple shapes of the types written in `let` annotations of
    /// `stmts`, nested blocks included, in order.
    fn register_types_in_stmts(&mut self, stmts: &Vec<Stmt>, Ghost(start): Ghost<Shapes>, Ghost(ts): Ghost<
        Seq<Type>,
    >) -> (r: Result<()>)
        requires
            old(self).well_formed(),
            register_types_shapes(start, ts) == Some(old(self).shapes()),
        ensures
            final(self).well_formed(),
            final(self).only_shapes_differ(&*old(self)),
            reports_types(start, *final(self), r, ts + stmts_types(stmts@)),
        decreases stmts, 0nat,
    {
        let ghost mut acc = ts;
        let mut i: usize = 0;
        assert(stmts@.take(0) =~= Seq::<Stmt>::empty());
        assert(ts + stmts_types(Seq::<Stmt>::empty()) == ts);
        while i < stmts.len()
            invariant
                i <= stmts.len(),
                self.well_formed(),
                self.only_shapes_differ(&*old(self)),
                acc == ts + stmts_types(stmts@.take(i as int)),
                register_types_shapes(start, acc) == Some(self.shapes()),
            decreases stmts.len() - i,
        {
            proof {
                assert(stmts@.take(i + 1).drop_last() == stmts@.take(i as int));
                assert(stmts@.take(i + 1).last() == stmts@[i as int]);
                assert(decreases_to!(*stmts => stmts@));
                assert(decreases_to!(stmts@ => stmts@[i as int]));
            }
            let step = self.register_types_in_stmt(&stmts[i], Ghost(start), Ghost(acc));
            proof {
                assert(acc + stmt_types(stmts@[i as int]) == ts + stmts_types(stmts@.take(i + 1)));
            }
            if step.is_err() {
                proof {
                    lemma_stmts_types_split(stmts@, i + 1);
                    assert(ts + stmts_types(stmts@) =~= (ts + stmts_types(stmts@.take(i + 1)))
                        + stmts_types(stmts@.skip(i + 1)));
                    lemma_prefix_fails(
                        start,
                        ts + stmts_types(stmts@.take(i + 1)),
                        stmts_types(stmts@.skip(i + 1)),
                        ts + stmts_types(stmts@),
                    );
                }
                return step;
            }
            proof {
                acc = acc + stmt_types(stmts@[i as int]);
            }
            i = i + 1;
        }
        assert(stmts@.take(i as int) == stmts@);
        Ok(())
    }

    fn register_types_in_stmt(&mut self, stmt: &Stmt, Ghost(start): Ghost<Shapes>, Ghost(ts): Ghost<
        Seq<Type>,
    >) -> (r: Result<()>)
        requires
            old(self).well_formed(),
            register_types_shapes(start, ts) == Some(old(self).shapes()),
        ensures
            final(self).well_formed(),
            final(self).only_shapes_differ(&*old(self)),
            reports_types(start, *final(self), r, ts + stmt_types(*stmt)),
        decreases stmt, 1nat,
    {
        match stmt {
            Stmt::Let { ty: Some(t), .. } => {
                assert(ts + seq![*t] == ts.push(*t));
                self.register_one_more(t, Ghost(start), Ghost(ts))
            },
            Stmt::If { then_branch, else_branch, .. } => {
                proof {
                    assert(decreases_to!(*stmt => stmt->If_then_branch));
                }
                let first = self.register_types_in_stmts(then_branch, Ghost(start), Ghost(ts));
                let ghost mid = ts + stmts_types(then_branch@);
                let ghost rest = match else_branch {
                    Some(e) => stmts_types(e@),
                    None => Seq::<Type>::empty(),
                };
                proof {
                    assert(ts + stmt_types(*stmt) == mid + rest);
                    lemma_register_concat(start, mid, rest);
                }
                if first.is_err() {
                    return first;
                }
                match else_branch {
                    Some(e) => {
                        proof {
                            assert(decreases_to!(*stmt => stmt->If_else_branch));
                        }
                        self.register_types_in_stmts(e, Ghost(start), Ghost(mid))
                    },
                    None => {
                        assert(mid + rest == mid);
                        Ok(())
                    },
                }
            },
            Stmt::While { body, .. } => {
                proof {
                    assert(decreases_to!(*stmt => stmt->While_body));
                }
                self.register_types_in_stmts(body, Ghost(start), Ghost(ts))
            },
            Stmt::For { body, .. } => {
                proof {
                    assert(decreases_to!(*stmt => stmt->For_body));
                }
                self.register_types_in_stmts(body, Ghost(start), Ghost(ts))
            },
            Stmt::Unsafe { body, .. } => {
                proof {
                    assert(decreases_to!(*stmt => stmt->Unsafe_body));
                }
                self.register_types_in_stmts(body, Ghost(start), Ghost(ts))
            },
            Stmt::Match { arms, .. } => {
                let ghost mut acc = ts;
                let mut i: usize = 0;
                assert(arms@.take(0) =~= Seq::<MatchArm>::empty());
                assert(ts + arms_types(Seq::<MatchArm>::empty()) == ts);
                while i < arms.len()
                    invariant
                        i <= arms.len(),
                        *stmt matches Stmt::Match { arms: a, .. } && a == *arms,
                        self.well_formed(),
                        self.only_shapes_differ(&*old(self)),
                        acc == ts + arms_types(arms@.take(i as int)),
                        register_types_shapes(start, acc) == Some(self.shapes()),
                    decreases arms.len() - i,
                {
                    proof {
                        assert(arms@.take(i + 1).drop_last() == arms@.take(i as int));
                        assert(arms@.take(i + 1).last() == arms@[i as int]);
                        let ghost arm = arms@[i as int];
                        assert(decreases_to!(*stmt => stmt->Match_arms));
                        assert(decreases_to!(*arms => arms@));
                        assert(decreases_to!(arms@ => arm));
                        assert(decreases_to!(arm => arm.body));
                    }
                    let step = self.register_types_in_stmts(&arms[i].body, Ghost(start), Ghost(acc));
                    proof {
                        assert(acc + stmts_types(arms@[i as int].body@) == ts + arms_types(
                            arms@.take(i + 1),
                        ));
                    }
                    if step.is_err() {
                        proof {
                            lemma_arms_types_split(arms@, i + 1);
                            assert(ts + arms_types(arms@) =~= (ts + arms_types(arms@.take(i + 1)))
                                + arms_types(arms@.skip(i + 1)));
                            lemma_prefix_fails(
                                start,
                                ts + arms_types(arms@.take(i + 1)),
                                arms_types(arms@.skip(i + 1)),
                                ts + arms_types(arms@),
                            );
                        }
                        return step;
                    }
                    proof {
                        acc = acc + stmts_types(arms@[i as int].body@);
                    }
                    i = i + 1;
                }
                assert(arms@.take(i as int) == arms@);
                Ok(())
            },
            _ => {
                assert(ts + Seq::<Type>::empty() == ts);
                Ok(())
            },
        }
    }

    /// Register the tuple shapes of every type the program's functions
    /// write, in order: each function's parameters, its return type, then the
    /// annotations in its body.
    pub fn register_tuple_types_in(&mut self, program: &Program) -> (r: Result<()>)
        requires
            old(self).well_formed(),
        ensures
            final(self).well_formed(),
            final(self).only_shapes_differ(&*old(self)),
            reports_types(old(self).shapes(), *final(self), r, program_types(program.items@)),
    {
        let ghost start = self.shapes();
        let ghost mut acc = Seq::<Type>::empty();
        let items = &program.items;
        let mut k: usize = 0;
        assert(items@.take(0) =~= Seq::<Item>::empty());
        while k < items.len()
            invariant
                k <= items.len(),
                items@ == program.items@,
                self.well_formed(),
                self.only_shapes_differ(&*old(self)),
                start == old(self).shapes(),
                acc == program_types(items@.take(k as int)),
                register_types_shapes(start, acc) == Some(self.shapes()),
            decreases items.len() - k,
        {
            proof {
                assert(items@.take(k + 1).drop_last() == items@.take(k as int));
                assert(items@.take(k + 1).last() == items@[k as int]);
            }
            match &items[k] {
                Item::Function(f) => {
                    let ghost before = acc;
                    assert(program_types(items@.take(k + 1)) == before + function_types(*f));
                    let mut j: usize = 0;
                    assert(f.params@.take(0).map_values(|p: crate::ast::Param| p.ty) =~= Seq::<
                        Type,
                    >::empty());
                    while j < f.params.len()
                        invariant
                            j <= f.params.len(),
                            k < items.len(),
                            items@ == program.items@,
                            items@[k as int] == Item::Function(*f),
                            before == program_types(items@.take(k as int)),
                            program_types(items@.take(k + 1)) == before + function_types(*f),
                            start == old(self).shapes(),
                            self.well_formed(),
                            self.only_shapes_differ(&*old(self)),
                            acc == before + f.params@.take(j as int).map_values(
                                |p: crate::ast::Param| p.ty,
                            ),
                            register_types_shapes(start, acc) == Some(self.shapes()),
                        decreases f.params.len() - j,
                    {
                        let step = self.register_one_more(&f.params[j].ty, Ghost(start), Ghost(acc));
                        proof {
                            assert(acc.push(f.params@[j as int].ty) == before + f.params@.take(
                                j + 1,
                            ).map_values(|p: crate::ast::Param| p.ty));
                        }
                        if step.is_err() {
                            proof {
                                let ps = f.params@.map_values(|p: crate::ast::Param| p.ty);
                                let tail = return_types(*f) + stmts_types(f.body@);
                                lemma_program_types_split(items@, k + 1);
                                let later = program_types(items@.skip(k + 1));
                                assert(ps =~= ps.take(j + 1) + ps.skip(j + 1));
                                assert(f.params@.take(j + 1).map_values(|p: crate::ast::Param| p.ty)
                                    =~= ps.take(j + 1));
                                assert(program_types(items@) =~= (before + ps.take(j + 1)) + (
                                ps.skip(j + 1) + tail + later));
                                lemma_prefix_fails(
                                    start,
                                    before + ps.take(j + 1),
                                    ps.skip(j + 1) + tail + later,
                                    program_types(items@),
                                );
                            }
                            return step;
                        }
                        proof {
                            acc = acc.push(f.params@[j as int].ty);
                        }
                        j = j + 1;
                    }
                    assert(f.params@.take(j as int) == f.params@);
                    match &f.return_type {
                        Some(t) => {
                            let step = self.register_one_more(t, Ghost(start), Ghost(acc));
                            if step.is_err() {
                                proof {
                                    let ps = f.params@.map_values(|p: crate::ast::Param| p.ty);
                                    lemma_program_types_split(items@, k + 1);
                                    let later = program_types(items@.skip(k + 1));
                                    assert(acc == before + ps);
                                    assert(program_types(items@) =~= acc.push(*t) + (stmts_types(
                                        f.body@,
                                    ) + later));
                                    lemma_prefix_fails(
                                        start,
                                        acc.push(*t),
                                        stmts_types(f.body@) + later,
                                        program_types(items@),
                                    );
                                }
                                return step;
                            }
                            proof {
                                acc = acc.push(*t);
                            }
                        },
                        None => {},
                    }
                    let ghost head = acc;
                    let step = self.register_types_in_stmts(&f.body, Ghost(start), Ghost(acc));
                    proof {
                        assert(head + stmts_types(f.body@) == before + function_types(*f));
                        assert(program_types(items@.take(k + 1)) == before + function_types(*f));
                    }
                    if step.is_err() {
                        proof {
                            lemma_program_types_split(items@, k + 1);
                            lemma_prefix_fails(
                                start,
                                program_types(items@.take(k + 1)),
                                program_types(items@.skip(k + 1)),
                                program_types(items@),
                            );
                        }
                        return step;
                    }
                    proof {
                        acc = before + function_types(*f);
                    }
                },
                _ => {
                    proof {
                        assert(program_types(items@.take(k + 1)) == acc + Seq::<Type>::empty());
                        assert(acc + Seq::<Type>::empty() == acc);
                    }
                },
            }
            k = k + 1;
        }
        assert(items@.take(k as int) == items@);
        Ok(())
    }
}

/// `b` is `a` with entries appended: the walk never replaces or reorders a
/// registered shape.
pub open spec fn extends(a: Shapes, b: Shapes) -> bool {
    a.len() <= b.len() && b.subrange(0, a.len() as int) == a
}

/// A walk that succeeds ends with the table it started from, extended.
pub open spec fn walk_extends(start: Shapes, w: Walk) -> bool {
    match w {
        Ok(after) => extends(start, after),
        Err(_) => true,
    }
}

proof fn lemma_extends_trans(a: Shapes, b: Shapes, c: Shapes)
    requires
        extends(a, b),
        extends(b, c),
    ensures
        extends(a, c),
{
    assert(c.subrange(0, a.len() as int) =~= c.subrange(0, b.len() as int).subrange(0, a.len() as int));
}

proof fn lemma_extends_refl(a: Shapes)
    ensures
        extends(a, a),
{
    assert(a.subrange(0, a.len() as int) =~= a);
}

proof fn lemma_register_extends(shapes: Shapes, types: Seq<Seq<char>>)
    ensures
        walk_extends(shapes, register_in(shapes, types)),
{
    lemma_extends_refl(shapes);
    let name = tuple_name(types);
    assert(shapes.push((name, types)).subrange(0, shapes.len() as int) =~= shapes);
}

/// Walking then walking on: each step extends the table, so both do.
proof fn lemma_then_extends(start: Shapes, mid: Shapes, w: Walk)
    requires
        extends(start, mid),
        walk_extends(mid, w),
    ensures
        walk_extends(start, w),
{
    if let Ok(after) = w {
        lemma_extends_trans(start, mid, after);
    }
}

/// The walk over an expression only appends shapes: every shape registered
/// before it stays, at the position it had.
pub proof fn lemma_walk_keeps_earlier_shapes(
    env: Env,
    locals: Seq<(Seq<char>, Seq<char>)>,
    e: Expr,
)
    ensures
        walk_extends(env.shapes, shapes_in(env, locals, e)),
    decreases e,
{
    lemma_extends_refl(env.shapes);
    match e {
        Expr::Tuple { elements, .. } => {
            lemma_walk_all_keeps_earlier_shapes(env, locals, elements@);
            if let Ok(after) = shapes_in_all(env, locals, elements@) {
                if let Ok(types) = element_types(with_shapes(env, after), locals, elements@) {
                    lemma_register_extends(after, types);
                    lemma_then_extends(env.shapes, after, register_in(after, types));
                }
            }
        },
        Expr::TupleIndex { expr, .. } | Expr::Cast { expr, .. } | Expr::Deref { expr, .. }
        | Expr::Reference { expr, .. } | Expr::Question { expr, .. } | Expr::Await { expr, .. } => {
            lemma_walk_keeps_earlier_shapes(env, locals, *expr);
        },
        Expr::Unary { operand, .. } => lemma_walk_keeps_earlier_shapes(env, locals, *operand),
        Expr::FieldAccess { object, .. } => lemma_walk_keeps_earlier_shapes(env, locals, *object),
        Expr::Binary { left: a, right: b, .. } | Expr::Index { array: a, index: b, .. }
        | Expr::Range { start: a, end: b, .. } | Expr::ArrayRepeat { value: a, count: b, .. } => {
            lemma_walk_keeps_earlier_shapes(env, locals, *a);
            if let Ok(after) = shapes_in(env, locals, *a) {
                lemma_walk_keeps_earlier_shapes(with_shapes(env, after), locals, *b);
                lemma_then_extends(env.shapes, after, shapes_in(with_shapes(env, after), locals, *b));
            }
        },
        Expr::Call { func, args, .. } => {
            lemma_walk_keeps_earlier_shapes(env, locals, *func);
            if let Ok(after) = shapes_in(env, locals, *func) {
                lemma_walk_all_keeps_earlier_shapes(with_shapes(env, after), locals, args@);
                lemma_then_extends(
                    env.shapes,
                    after,
                    shapes_in_all(with_shapes(env, after), locals, args@),
                );
            }
        },
        Expr::ArrayLiteral { elements, .. } => lemma_walk_all_keeps_earlier_shapes(
            env,
            locals,
            elements@,
        ),
        Expr::StructLiteral { fields, .. } => lemma_walk_fields_keeps_earlier_shapes(
            env,
            locals,
            fields@,
        ),
        Expr::EnumConstructor { data, .. } => match data {
            Some(EnumConstructorData::Tuple(args)) => lemma_walk_all_keeps_earlier_shapes(
                env,
                locals,
                args@,
            ),
            Some(EnumConstructorData::Struct(fields)) => lemma_walk_fields_keeps_earlier_shapes(
                env,
                locals,
                fields@,
            ),
            None => {},
        },
        Expr::If { condition, then_branch, then_value, else_branch, else_value, .. } => {
            lemma_walk_keeps_earlier_shapes(env, locals, *condition);
            if let Ok(a1) = shapes_in(env, locals, *condition) {
                let env1 = with_shapes(env, a1);
                let then_walk = match then_value {
                    Some(v) => shapes_in(env1, locals_after(env1, locals, then_branch@), *v),
                    None => Ok(a1),
                };
                lemma_extends_refl(a1);
                if let Some(v) = then_value {
                    lemma_walk_keeps_earlier_shapes(env1, locals_after(env1, locals, then_branch@), *v);
                }
                lemma_then_extends(env.shapes, a1, then_walk);
                if let Ok(a2) = then_walk {
                    let env2 = with_shapes(env, a2);
                    lemma_extends_refl(a2);
                    if let Some(v) = else_value {
                        let l2 = match else_branch {
                            Some(stmts) => locals_after(env2, locals, stmts@),
                            None => locals,
                        };
                        lemma_walk_keeps_earlier_shapes(env2, l2, *v);
                        lemma_then_extends(env.shapes, a2, shapes_in(env2, l2, *v));
                    }
                }
            }
        },
        Expr::Block { stmts, value, .. } => {
            if let Some(v) = value {
                lemma_walk_keeps_earlier_shapes(env, locals_after(env, locals, stmts@), *v);
            }
        },
        _ => {},
    }
}

/// The walk over several expressions only appends shapes.
pub proof fn lemma_walk_all_keeps_earlier_shapes(
    env: Env,
    locals: Seq<(Seq<char>, Seq<char>)>,
    es: Seq<Expr>,
)
    ensures
        walk_extends(env.shapes, shapes_in_all(env, locals, es)),
    decreases es,
{
    lemma_extends_refl(env.shapes);
    if es.len() > 0 {
        lemma_walk_all_keeps_earlier_shapes(env, locals, es.drop_last());
        if let Ok(after) = shapes_in_all(env, locals, es.drop_last()) {
            lemma_walk_keeps_earlier_shapes(with_shapes(env, after), locals, es.last());
            lemma_then_extends(env.shapes, after, shapes_in(with_shapes(env, after), locals, es.last()));
        }
    }
}

/// The walk over field initialisers only appends shapes.
pub proof fn lemma_walk_fields_keeps_earlier_shapes(
    env: Env,
    locals: Seq<(Seq<char>, Seq<char>)>,
    fs: Seq<(String, Expr)>,
)
    ensures
        walk_extends(env.shapes, shapes_in_fields(env, locals, fs)),
    decreases fs,
{
    lemma_extends_refl(env.shapes);
    if fs.len() > 0 {
        lemma_walk_fields_keeps_earlier_shapes(env, locals, fs.drop_last());
        if let Ok(after) = shapes_in_fields(env, locals, fs.drop_last()) {
            lemma_walk_keeps_earlier_shapes(with_shapes(env, after), locals, fs.last().1);
            lemma_then_extends(env.shapes, after, shapes_in(with_shapes(env, after), locals, fs.last().1));
        }
    }
}

/// The table after walking the first `k` of `es`.
pub open spec fn walked_prefix(env: Env, locals: Seq<(Seq<char>, Seq<char>)>, es: Seq<Expr>, k: int) -> Walk {
    shapes_in_all(env, locals, es.take(k))
}

proof fn lemma_walk_all_prefixes(env: Env, locals: Seq<(Seq<char>, Seq<char>)>, es: Seq<Expr>, k: int)
    requires
        0 <= k < es.len(),
        shapes_in_all(env, locals, es) is Ok,
    ensures
        walked_prefix(env, locals, es, k) is Ok,
        shapes_in(with_shapes(env, walked_prefix(env, locals, es, k)->Ok_0), locals, es[k]) is Ok,
        extends(
            shapes_in(with_shapes(env, walked_prefix(env, locals, es, k)->Ok_0), locals, es[k])->Ok_0,
            shapes_in_all(env, locals, es)->Ok_0,
        ),
    decreases es.len(),
{
    let a = shapes_in_all(env, locals, es)->Ok_0;
    if k == es.len() - 1 {
        assert(es.take(k) == es.drop_last());
        lemma_extends_refl(a);
    } else {
        assert(es.drop_last().take(k) == es.take(k));
        assert(es.drop_last()[k] == es[k]);
        let mid = shapes_in_all(env, locals, es.drop_last())->Ok_0;
        lemma_walk_all_prefixes(env, locals, es.drop_last(), k);
        lemma_walk_keeps_earlier_shapes(with_shapes(env, mid), locals, es.last());
        let b = shapes_in(with_shapes(env, walked_prefix(env, locals, es, k)->Ok_0), locals, es[k])->Ok_0;
        lemma_extends_trans(b, mid, a);
    }
}

/// Inner tuples first: when the walk over a tuple succeeds, every element
/// was walked before the tuple's own shape was registered, each element's
/// walk ending in a prefix of the table the tuple is registered in; so a
/// shape the tuple adds comes after every shape its elements registered.
pub proof fn lemma_inner_shapes_first(env: Env, locals: Seq<(Seq<char>, Seq<char>)>, e: Expr)
    requires
        e is Tuple,
        shapes_in(env, locals, e) is Ok,
    ensures
        ({
            let es = e->Tuple_elements@;
            let walked = shapes_in_all(env, locals, es);
            let after = shapes_in(env, locals, e)->Ok_0;
            &&& walked is Ok
            &&& extends(env.shapes, walked->Ok_0)
            &&& extends(walked->Ok_0, after)
            &&& after.len() > walked->Ok_0.len() ==> after.len() == walked->Ok_0.len() + 1
                && after.last().0 == tuple_name(after.last().1)
            &&& forall|k: int|
                0 <= k < es.len() ==> #[trigger] walked_prefix(env, locals, es, k) is Ok && extends(
                    shapes_in(
                        with_shapes(env, walked_prefix(env, locals, es, k)->Ok_0),
                        locals,
                        es[k],
                    )->Ok_0,
                    walked->Ok_0,
                )
        }),
{
    let es = e->Tuple_elements@;
    lemma_walk_all_keeps_earlier_shapes(env, locals, es);
    let a = shapes_in_all(env, locals, es)->Ok_0;
    let types = element_types(with_shapes(env, a), locals, es)->Ok_0;
    lemma_register_extends(a, types);
    assert forall|k: int| 0 <= k < es.len() implies #[trigger] walked_prefix(env, locals, es, k) is Ok
        && extends(
        shapes_in(with_shapes(env, walked_prefix(env, locals, es, k)->Ok_0), locals, es[k])->Ok_0,
        a,
    ) by {
        lemma_walk_all_prefixes(env, locals, es, k);
    }
}

} // verus!
