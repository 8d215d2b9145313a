//! The effect system: which observable effects a function can have.

use vstd::prelude::*;
use crate::ast::{EnumConstructorData, Expr, Function, MatchArm, Stmt};
use crate::errors::Result;
use crate::text::str_eq;

verus! {

/// The kinds of effect a function can have.
#[derive(Debug, Clone, Copy, PartialEq, Eq, Structural, Hash)]
pub enum Effect {
    /// IO operations (file, network, console)
    IO,
    /// Memory allocation/deallocation
    Memory,
    /// Can panic or throw exceptions
    Panic,
    /// Asynchronous operations
    Async,
    /// Unsafe operations
    Unsafe,
    /// Pure - no side effects
    Pure,
}

// ---------------------------------------------------------------------------
// Effect sets
// ---------------------------------------------------------------------------

/// `s` without `Pure`.
pub open spec fn without_pure(s: Seq<Effect>) -> Seq<Effect>
    decreases s.len(),
{
    if s.len() == 0 {
        Seq::empty()
    } else if s.last() == Effect::Pure {
        without_pure(s.drop_last())
    } else {
        without_pure(s.drop_last()).push(s.last())
    }
}

/// Adding an effect: any effect other than `Pure` evicts `Pure`; the effect
/// is then present exactly once.
pub open spec fn add_effect(s: Seq<Effect>, e: Effect) -> Seq<Effect> {
    let t = if e != Effect::Pure {
        without_pure(s)
    } else {
        s
    };
    if t.contains(e) {
        t
    } else {
        t.push(e)
    }
}

/// Adding every effect of `other`, in its order.
pub open spec fn union_effects(s: Seq<Effect>, other: Seq<Effect>) -> Seq<Effect>
    decreases other.len(),
{
    if other.len() == 0 {
        s
    } else {
        add_effect(union_effects(s, other.drop_last()), other.last())
    }
}

/// An effect set is pure when it is empty or says `Pure`.
pub open spec fn pure_effects(s: Seq<Effect>) -> bool {
    s.len() == 0 || s.contains(Effect::Pure)
}

/// Effect set for a function or expression. Its value is the sequence of its
/// effects in the order they were added.
#[derive(Debug, Clone)]
pub struct EffectSet {
    effects: Vec<Effect>,
}

impl View for EffectSet {
    type V = Seq<Effect>;

    closed spec fn view(&self) -> Seq<Effect> {
        self.effects@
    }
}

impl Default for EffectSet {
    fn default() -> (s: Self)
        ensures
            s@ == Seq::<Effect>::empty(),
    {
        EffectSet { effects: Vec::new() }
    }
}

fn vec_contains(v: &Vec<Effect>, e: Effect) -> (r: bool)
    ensures
        r == v@.contains(e),
{
    let mut i: usize = 0;
    while i < v.len()
        invariant
            i <= v.len(),
            forall|k: int| 0 <= k < i ==> v@[k] != e,
        decreases v.len() - i,
    {
        if v[i] == e {
            return true;
        }
        i = i + 1;
    }
    false
}

impl EffectSet {
    /// An empty effect set (pure).
    pub fn new() -> (s: Self)
        ensures
            s@ == Seq::<Effect>::empty(),
    {
        EffectSet { effects: Vec::new() }
    }

    /// An effect set with a single effect.
    pub fn singleton(effect: Effect) -> (s: Self)
        ensures
            s@ == seq![effect],
    {
        let mut effects = Vec::new();
        effects.push(effect);
        EffectSet { effects }
    }

    /// Add an effect: any effect other than `Pure` removes `Pure`.
    pub fn add(&mut self, effect: Effect)
        ensures
            final(self)@ == add_effect(old(self)@, effect),
    {
        if effect != Effect::Pure {
            let mut kept: Vec<Effect> = Vec::new();
            let mut i: usize = 0;
            while i < self.effects.len()
                invariant
                    i <= self.effects.len(),
                    self.effects@ == old(self)@,
                    kept@ == without_pure(old(self)@.take(i as int)),
                decreases self.effects.len() - i,
            {
                proof {
                    assert(old(self)@.take(i + 1).drop_last() == old(self)@.take(i as int));
                    assert(old(self)@.take(i + 1).last() == old(self)@[i as int]);
                }
                if self.effects[i] != Effect::Pure {
                    kept.push(self.effects[i]);
                }
                i = i + 1;
            }
            assert(old(self)@.take(self.effects.len() as int) == old(self)@);
            self.effects = kept;
        }
        if !vec_contains(&self.effects, effect) {
            self.effects.push(effect);
        }
    }

    /// Add every effect of `other`.
    pub fn union(&mut self, other: &EffectSet)
        ensures
            final(self)@ == union_effects(old(self)@, other@),
    {
        let mut i: usize = 0;
        while i < other.effects.len()
            invariant
                i <= other.effects.len(),
                self@ == union_effects(old(self)@, other@.take(i as int)),
            decreases other.effects.len() - i,
        {
            proof {
                assert(other@.take(i + 1).drop_last() == other@.take(i as int));
                assert(other@.take(i + 1).last() == other@[i as int]);
            }
            self.add(other.effects[i]);
            i = i + 1;
        }
        assert(other@.take(other.effects.len() as int) == other@);
    }

    /// Whether the effect set is pure.
    pub fn is_pure(&self) -> (r: bool)
        ensures
            r == pure_effects(self@),
    {
        self.effects.len() == 0 || vec_contains(&self.effects, Effect::Pure)
    }

    /// Whether the effect set contains `effect`.
    pub fn contains(&self, effect: &Effect) -> (r: bool)
        ensures
            r == self@.contains(*effect),
    {
        vec_contains(&self.effects, *effect)
    }

    /// All effects, in the order they were added.
    pub fn effects(&self) -> (r: &Vec<Effect>)
        ensures
            r@ == self@,
    {
        &self.effects
    }

    /// A copy of this set.
    pub fn duplicate(&self) -> (r: Self)
        ensures
            r@ == self@,
    {
        let mut effects: Vec<Effect> = Vec::new();
        let mut i: usize = 0;
        while i < self.effects.len()
            invariant
                i <= self.effects.len(),
                effects@ == self.effects@.take(i as int),
            decreases self.effects.len() - i,
        {
            effects.push(self.effects[i]);
            i = i + 1;
            assert(self.effects@.take(i as int) == self.effects@.take(i - 1).push(
                self.effects@[i - 1],
            ));
        }
        assert(self.effects@.take(self.effects.len() as int) == self.effects@);
        EffectSet { effects }
    }
}

// ---------------------------------------------------------------------------
// The analysis
// ---------------------------------------------------------------------------

/// A table from function names to effect sets; the first entry for a name
/// is the one that counts.
pub open spec fn lookup(table: Seq<(Seq<char>, Seq<Effect>)>, name: Seq<char>) -> Option<
    Seq<Effect>,
>
    decreases table.len(),
{
    if table.len() == 0 {
        None
    } else if table[0].0 == name {
        Some(table[0].1)
    } else {
        lookup(table.drop_first(), name)
    }
}

/// What the analysis knows: the built-in functions' effects and the effects
/// of every function analysed so far.
pub ghost struct AnalyzerState {
    pub builtins: Seq<(Seq<char>, Seq<Effect>)>,
    pub functions: Seq<(Seq<char>, Seq<Effect>)>,
}

/// The effects a call to `name` adds: a built-in's own, otherwise an
/// analysed function's, otherwise none (unknown functions count as pure).
pub open spec fn callee_effects(st: AnalyzerState, name: Seq<char>) -> Seq<Effect> {
    match lookup(st.builtins, name) {
        Some(b) => b,
        None => match lookup(st.functions, name) {
            Some(f) => f,
            None => Seq::empty(),
        },
    }
}

/// The effects of an expression.
pub open spec fn expr_effects(st: AnalyzerState, e: Expr) -> Seq<Effect>
    decreases e,
{
    match e {
        Expr::Integer(_) | Expr::String(_) | Expr::Bool(_) | Expr::Char(_) | Expr::Ident(_) => Seq::empty(),
        Expr::Tuple { elements, .. } => exprs_effects(st, Seq::empty(), elements@),
        Expr::TupleIndex { expr, .. } | Expr::Cast { expr, .. } => expr_effects(st, *expr),
        Expr::If { condition, then_branch, then_value, else_branch, else_value, .. } => {
            let after_then = value_effects(
                st,
                stmts_effects(st, expr_effects(st, *condition), then_branch@),
                then_value,
            );
            let after_else = match else_branch {
                Some(else_stmts) => stmts_effects(st, after_then, else_stmts@),
                None => after_then,
            };
            value_effects(st, after_else, else_value)
        },
        Expr::Block { stmts, value, .. } => value_effects(
            st,
            stmts_effects(st, Seq::empty(), stmts@),
            value,
        ),
        Expr::Loop { body, .. } => stmts_effects(st, Seq::empty(), body@),
        Expr::Call { func, args, .. } => {
            let base = union_effects(Seq::empty(), expr_effects(st, *func));
            let with_args = exprs_effects(st, base, args@);
            match *func {
                Expr::Ident(name) => union_effects(with_args, callee_effects(st, name@)),
                _ => with_args,
            }
        },
        Expr::Binary { left, right, .. } => union_effects(
            expr_effects(st, *left),
            expr_effects(st, *right),
        ),
        Expr::Unary { operand, .. } => expr_effects(st, *operand),
        Expr::ArrayLiteral { elements, .. } => exprs_effects(st, Seq::empty(), elements@),
        Expr::ArrayRepeat { value, count, .. } => union_effects(
            expr_effects(st, *value),
            expr_effects(st, *count),
        ),
        Expr::Index { array, index, .. } => union_effects(
            expr_effects(st, *array),
            expr_effects(st, *index),
        ),
        Expr::StructLiteral { fields, .. } => fields_effects(st, Seq::empty(), fields@),
        Expr::FieldAccess { object, .. } => expr_effects(st, *object),
        Expr::EnumConstructor { data, .. } => match data {
            Some(EnumConstructorData::Tuple(exprs)) => exprs_effects(st, Seq::empty(), exprs@),
            Some(EnumConstructorData::Struct(fields)) => fields_effects(
                st,
                Seq::empty(),
                fields@,
            ),
            None => Seq::empty(),
        },
        Expr::Range { start, end, .. } => union_effects(
            union_effects(Seq::empty(), expr_effects(st, *start)),
            expr_effects(st, *end),
        ),
        Expr::Reference { expr, .. } => expr_effects(st, *expr),
        Expr::Deref { expr, .. } => expr_effects(st, *expr),
        Expr::Question { expr, .. } => add_effect(expr_effects(st, *expr), Effect::Panic),
        Expr::Await { expr, .. } => add_effect(expr_effects(st, *expr), Effect::Async),
        Expr::MacroInvocation { .. } => Seq::empty(),
    }
}

/// `acc` with the effects of a block's value added, if it has one.
pub open spec fn value_effects(st: AnalyzerState, acc: Seq<Effect>, value: Option<Box<Expr>>) -> Seq<
    Effect,
>
    decreases value,
{
    match value {
        Some(v) => union_effects(acc, expr_effects(st, *v)),
        None => acc,
    }
}

/// `acc` with the effects of each expression of `es` added, in order.
pub open spec fn exprs_effects(st: AnalyzerState, acc: Seq<Effect>, es: Seq<Expr>) -> Seq<Effect>
    decreases es,
{
    if es.len() == 0 {
        acc
    } else {
        union_effects(exprs_effects(st, acc, es.drop_last()), expr_effects(st, es.last()))
    }
}

/// `acc` with the effects of each field initialiser of `fs` added, in order.
pub open spec fn fields_effects(
    st: AnalyzerState,
    acc: Seq<Effect>,
    fs: Seq<(String, Expr)>,
) -> Seq<Effect>
    decreases fs,
{
    if fs.len() == 0 {
        acc
    } else {
        union_effects(fields_effects(st, acc, fs.drop_last()), expr_effects(st, fs.last().1))
    }
}

/// The effects of a statement.
pub open spec fn stmt_effects(st: AnalyzerState, s: Stmt) -> Seq<Effect>
    decreases s,
{
    match s {
        Stmt::Expr(e) => expr_effects(st, e),
        Stmt::Let { value, .. } => expr_effects(st, value),
        Stmt::Return(Some(e)) => expr_effects(st, e),
        Stmt::Return(None) => Seq::empty(),
        Stmt::If { condition, then_branch, else_branch, .. } => {
            let after_then = stmts_effects(st, expr_effects(st, condition), then_branch@);
            match else_branch {
                Some(else_stmts) => stmts_effects(st, after_then, else_stmts@),
                None => after_then,
            }
        },
        Stmt::While { condition, body, .. } => stmts_effects(
            st,
            expr_effects(st, condition),
            body@,
        ),
        Stmt::For { iter, body, .. } => stmts_effects(st, expr_effects(st, iter), body@),
        Stmt::Match { expr, arms, .. } => arms_effects(st, expr_effects(st, expr), arms@),
        Stmt::Break { .. } | Stmt::Continue { .. } => Seq::empty(),
        Stmt::Unsafe { body, .. } => stmts_effects(st, seq![Effect::Unsafe], body@),
        Stmt::Assign { value, .. } => expr_effects(st, value),
    }
}

/// `acc` with the effects of each statement of `ss` added, in order.
pub open spec fn stmts_effects(st: AnalyzerState, acc: Seq<Effect>, ss: Seq<Stmt>) -> Seq<Effect>
    decreases ss,
{
    if ss.len() == 0 {
        acc
    } else {
        union_effects(stmts_effects(st, acc, ss.drop_last()), stmt_effects(st, ss.last()))
    }
}

/// `acc` with the effects of every arm body added, arm by arm. Matching a
/// pattern is pure.
pub open spec fn arms_effects(st: AnalyzerState, acc: Seq<Effect>, arms: Seq<MatchArm>) -> Seq<
    Effect,
>
    decreases arms,
{
    if arms.len() == 0 {
        acc
    } else {
        stmts_effects(st, arms_effects(st, acc, arms.drop_last()), arms.last().body@)
    }
}

/// The effects of a function: `Async` when it is declared `async`, then the
/// effects of its body.
pub open spec fn function_effects(st: AnalyzerState, f: Function) -> Seq<Effect> {
    let start = if f.is_async {
        add_effect(Seq::empty(), Effect::Async)
    } else {
        Seq::empty()
    };
    stmts_effects(st, start, f.body@)
}

/// `table` with `name` bound to `effects`: an existing entry is replaced,
/// otherwise one is appended.
pub open spec fn bind(table: Seq<(Seq<char>, Seq<Effect>)>, name: Seq<char>, effects: Seq<Effect>) -> Seq<
    (Seq<char>, Seq<Effect>),
>
    decreases table.len(),
{
    if table.len() == 0 {
        seq![(name, effects)]
    } else if table[0].0 == name {
        table.update(0, (name, effects))
    } else {
        seq![table[0]] + bind(table.drop_first(), name, effects)
    }
}

pub open spec fn entries_view(v: Seq<(String, EffectSet)>) -> Seq<(Seq<char>, Seq<Effect>)> {
    v.map_values(|p: (String, EffectSet)| (p.0@, p.1@))
}

/// Effect analyzer for tracking effects in code.
pub struct EffectAnalyzer {
    /// Function names and their effect sets.
    function_effects: Vec<(String, EffectSet)>,
    /// Built-in functions and their effect sets.
    builtin_effects: Vec<(String, EffectSet)>,
}

impl View for EffectAnalyzer {
    type V = AnalyzerState;

    closed spec fn view(&self) -> AnalyzerState {
        AnalyzerState {
            builtins: entries_view(self.builtin_effects@),
            functions: entries_view(self.function_effects@),
        }
    }
}

pub const IO_BUILTINS: [&'static str; 8] = [
    "print",
    "print_int",
    "file_open",
    "file_read_all",
    "file_read_line",
    "file_write",
    "file_close",
    "file_exists",
];

pub const PURE_BUILTINS: [&'static str; 11] = [
    "string_len",
    "string_concat",
    "string_eq",
    "string_char_at",
    "string_substring",
    "string_from_char",
    "char_is_digit",
    "char_is_alpha",
    "char_is_whitespace",
    "string_to_int",
    "int_to_string",
];

/// The built-in table: the IO built-ins with `{IO}`, then the pure ones with
/// the empty set.
pub open spec fn builtin_table() -> Seq<(Seq<char>, Seq<Effect>)> {
    IO_BUILTINS@.map_values(|n: &'static str| (n@, seq![Effect::IO])) + PURE_BUILTINS@.map_values(
        |n: &'static str| (n@, Seq::<Effect>::empty()),
    )
}

fn entry_lookup<'a>(table: &'a Vec<(String, EffectSet)>, name: &str) -> (r: Option<&'a EffectSet>)
    ensures
        r matches Some(s) ==> lookup(entries_view(table@), name@) == Some(s@),
        r is None ==> lookup(entries_view(table@), name@) is None,
{
    let ghost t = entries_view(table@);
    let mut i: usize = 0;
    assert(t.skip(0) == t);
    while i < table.len()
        invariant
            i <= table.len(),
            t == entries_view(table@),
            lookup(t, name@) == lookup(t.skip(i as int), name@),
        decreases table.len() - i,
    {
        proof {
            assert(t.skip(i as int)[0] == (table@[i as int].0@, table@[i as int].1@));
            assert(t.skip(i as int).drop_first() == t.skip(i + 1));
        }
        if str_eq(table[i].0.as_str(), name) {
            return Some(&table[i].1);
        }
        i = i + 1;
    }
    assert(t.skip(i as int).len() == 0);
    None
}

fn entry_bind(table: &mut Vec<(String, EffectSet)>, name: String, effects: EffectSet)
    ensures
        entries_view(final(table)@) == bind(entries_view(old(table)@), name@, effects@),
{
    let ghost t = entries_view(old(table)@);
    let mut i: usize = 0;
    assert(t.skip(0) == t);
    assert(t.take(0) + bind(t, name@, effects@) == bind(t, name@, effects@));
    while i < table.len()
        invariant
            i <= table.len(),
            table@ == old(table)@,
            t == entries_view(old(table)@),
            forall|k: int| 0 <= k < i ==> t[k].0 != name@,
            bind(t, name@, effects@) == t.take(i as int) + bind(t.skip(i as int), name@, effects@),
        decreases table.len() - i,
    {
        let ghost rest = t.skip(i as int);
        proof {
            assert(rest[0] == t[i as int]);
            assert(rest.drop_first() == t.skip(i + 1));
        }
        if str_eq(table[i].0.as_str(), name.as_str()) {
            let ghost before = table@;
            table.set(i, (name, effects));
            proof {
                assert(bind(rest, name@, effects@) == rest.update(0, (name@, effects@)));
                assert(entries_view(table@) =~= t.take(i as int) + rest.update(0, (name@, effects@)));
            }
            return;
        }
        proof {
            assert(bind(rest, name@, effects@) == seq![rest[0]] + bind(t.skip(i + 1), name@, effects@));
            assert(t.take(i + 1) == t.take(i as int) + seq![rest[0]]);
            assert(t.take(i as int) + (seq![rest[0]] + bind(t.skip(i + 1), name@, effects@))
                == t.take(i + 1) + bind(t.skip(i + 1), name@, effects@));
        }
        i = i + 1;
    }
    let ghost before = table@;
    table.push((name, effects));
    proof {
        assert(t.skip(i as int).len() == 0);
        assert(t.take(i as int) == t);
        assert(entries_view(table@) =~= t + seq![(name@, effects@)]);
    }
}

impl Default for EffectAnalyzer {
    fn default() -> (a: Self)
        ensures
            a@.builtins == builtin_table(),
            a@.functions == Seq::<(Seq<char>, Seq<Effect>)>::empty(),
    {
        let mut builtin_effects: Vec<(String, EffectSet)> = Vec::new();
        let ghost io_part = IO_BUILTINS@.map_values(|n: &'static str| (n@, seq![Effect::IO]));
        let ghost pure_part = PURE_BUILTINS@.map_values(
            |n: &'static str| (n@, Seq::<Effect>::empty()),
        );
        let io = IO_BUILTINS;
        let pure = PURE_BUILTINS;
        let mut i: usize = 0;
        while i < 8
            invariant
                i <= 8,
                io@ == IO_BUILTINS@,
                io_part == IO_BUILTINS@.map_values(|n: &'static str| (n@, seq![Effect::IO])),
                entries_view(builtin_effects@) == io_part.take(i as int),
            decreases 8 - i,
        {
            let ghost before = builtin_effects@;
            builtin_effects.push((crate::text::string_of(io[i]), EffectSet::singleton(Effect::IO)));
            i = i + 1;
            proof {
                assert(entries_view(builtin_effects@) =~= entries_view(before).push(
                    (io@[i - 1]@, seq![Effect::IO]),
                ));
                assert(io_part.take(i as int) =~= io_part.take(i - 1).push(io_part[i - 1]));
            }
        }
        assert(io_part.take(8) == io_part);
        let mut j: usize = 0;
        while j < 11
            invariant
                j <= 11,
                pure@ == PURE_BUILTINS@,
                io_part.len() == 8,
                pure_part == PURE_BUILTINS@.map_values(
                    |n: &'static str| (n@, Seq::<Effect>::empty()),
                ),
                entries_view(builtin_effects@) == io_part + pure_part.take(j as int),
            decreases 11 - j,
        {
            let ghost before = builtin_effects@;
            builtin_effects.push((crate::text::string_of(pure[j]), EffectSet::new()));
            j = j + 1;
            proof {
                assert(entries_view(builtin_effects@) =~= entries_view(before).push(
                    (pure@[j - 1]@, Seq::<Effect>::empty()),
                ));
                assert(pure_part.take(j as int) =~= pure_part.take(j - 1).push(pure_part[j - 1]));
                assert(io_part + pure_part.take(j as int) =~= (io_part + pure_part.take(j - 1)).push(
                    pure_part[j - 1],
                ));
            }
        }
        assert(pure_part.take(11) == pure_part);
        let a = EffectAnalyzer { function_effects: Vec::new(), builtin_effects };
        assert(a@.functions =~= Seq::<(Seq<char>, Seq<Effect>)>::empty());
        a
    }
}

/// A statement that calls `print` or `print_int` directly.
pub open spec fn prints(s: Stmt) -> bool {
    s matches Stmt::Expr(call) && call matches Expr::Call { func, .. } && *func matches Expr::Ident(
        name,
    ) && (name@ == "print"@ || name@ == "print_int"@)
}

impl EffectAnalyzer {
    /// Every analyzer knows the standard built-ins: construction installs the
    /// built-in table and analysis never changes it.
    #[verifier::type_invariant]
    spec fn knows_builtins(&self) -> bool {
        entries_view(self.builtin_effects@) == builtin_table()
    }

    /// The analyzer knows the standard built-ins.
    pub open spec fn well_formed(&self) -> bool {
        self@.builtins == builtin_table()
    }

    pub fn new() -> (a: Self)
        ensures
            a.well_formed(),
            a@.builtins == builtin_table(),
            a@.functions == Seq::<(Seq<char>, Seq<Effect>)>::empty(),
    {
        Self::default()
    }

    /// Analyze a function's effects, and record them under its name.
    pub fn analyze_function(&mut self, func: &Function) -> (r: Result<EffectSet>)
        ensures
            r matches Ok(s) && s@ == function_effects(old(self)@, *func),
            r matches Ok(s) && (func.is_async ==> s@.contains(Effect::Async)),
            r matches Ok(s) && ((exists|k: int| 0 <= k < func.body@.len() && prints(
                #[trigger] func.body@[k],
            )) ==> s@.contains(Effect::IO)),
            old(self).well_formed(),
            final(self).well_formed(),
            final(self)@.builtins == old(self)@.builtins,
            final(self)@.functions == bind(
                old(self)@.functions,
                func.name@,
                function_effects(old(self)@, *func),
            ),
    {
        proof {
            use_type_invariant(&*self);
            if func.is_async {
                lemma_async_function_is_async(self@, *func);
            }
            if exists|k: int| 0 <= k < func.body@.len() && prints(#[trigger] func.body@[k]) {
                let k = choose|k: int| 0 <= k < func.body@.len() && prints(#[trigger] func.body@[k]);
                lemma_printing_function_is_io(*self, *func, k);
            }
        }
        let mut effects = EffectSet::new();
        if func.is_async {
            effects.add(crate::effects::Effect::Async);
        }
        let body = self.analyze_statements(effects, &func.body);
        let stored = body.duplicate();
        let mut table: Vec<(String, EffectSet)> = Vec::new();
        std::mem::swap(&mut table, &mut self.function_effects);
        entry_bind(&mut table, func.name.clone(), stored);
        self.function_effects = table;
        Ok(body)
    }

    /// `acc` with the effects of every statement of `stmts` added.
    fn analyze_statements(&self, acc: EffectSet, stmts: &Vec<Stmt>) -> (r: EffectSet)
        ensures
            r@ == stmts_effects(self@, acc@, stmts@),
        decreases stmts@,
    {
        let mut effects = acc;
        let mut i: usize = 0;
        while i < stmts.len()
            invariant
                i <= stmts.len(),
                effects@ == stmts_effects(self@, acc@, stmts@.take(i as int)),
            decreases stmts.len() - i,
        {
            proof {
                assert(stmts@.take(i + 1).drop_last() == stmts@.take(i as int));
                assert(stmts@.take(i + 1).last() == stmts@[i as int]);
            }
            let stmt_effects = self.analyze_statement(&stmts[i]);
            effects.union(&stmt_effects);
            i = i + 1;
        }
        assert(stmts@.take(stmts.len() as int) == stmts@);
        effects
    }

    /// The effects of a statement.
    fn analyze_statement(&self, stmt: &Stmt) -> (r: EffectSet)
        ensures
            r@ == stmt_effects(self@, *stmt),
        decreases stmt,
    {
        match stmt {
            Stmt::Expr(expr) => self.analyze_expression(expr),
            Stmt::Let { value, .. } => self.analyze_expression(value),
            Stmt::Return(Some(expr)) => self.analyze_expression(expr),
            Stmt::Return(None) => EffectSet::new(),
            Stmt::If { condition, then_branch, else_branch, .. } => {
                let effects = self.analyze_expression(condition);
                let effects = self.analyze_statements(effects, then_branch);
                match else_branch {
                    Some(else_stmts) => self.analyze_statements(effects, else_stmts),
                    None => effects,
                }
            },
            Stmt::While { condition, body, .. } => {
                let effects = self.analyze_expression(condition);
                self.analyze_statements(effects, body)
            },
            Stmt::For { iter, body, .. } => {
                let effects = self.analyze_expression(iter);
                self.analyze_statements(effects, body)
            },
            Stmt::Match { expr, arms, span } => {
                let mut effects = self.analyze_expression(expr);
                let mut i: usize = 0;
                while i < arms.len()
                    invariant
                        i <= arms.len(),
                        *stmt == (Stmt::Match { expr: *expr, arms: *arms, span: *span }),
                        effects@ == arms_effects(
                            self@,
                            expr_effects(self@, *expr),
                            arms@.take(i as int),
                        ),
                    decreases arms.len() - i,
                {
                    proof {
                        assert(arms@.take(i + 1).drop_last() == arms@.take(i as int));
                        assert(arms@.take(i + 1).last() == arms@[i as int]);
                    }
                    proof {
                        let ghost arm = arms@[i as int];
                        assert(decreases_to!(*stmt => stmt->arms));
                        assert(stmt->arms == *arms);
                        assert(decreases_to!(*arms => arms@));
                        assert(decreases_to!(arms@ => arm));
                        assert(decreases_to!(arm => arm.body));
                        assert(decreases_to!(arm.body => arm.body@));
                    }
                    // Pattern matching is pure.
                    effects = self.analyze_statements(effects, &arms[i].body);
                    i = i + 1;
                }
                assert(arms@.take(arms.len() as int) == arms@);
                effects
            },
            Stmt::Break { .. } | Stmt::Continue { .. } => EffectSet::new(),
            Stmt::Unsafe { body, .. } => {
                let effects = EffectSet::singleton(Effect::Unsafe);
                self.analyze_statements(effects, body)
            },
            Stmt::Assign { value, .. } => self.analyze_expression(value),
        }
    }

    /// `acc` with the effects of every expression of `exprs` added.
    fn analyze_expressions(&self, acc: EffectSet, exprs: &Vec<Expr>) -> (r: EffectSet)
        ensures
            r@ == exprs_effects(self@, acc@, exprs@),
        decreases exprs@,
    {
        let mut effects = acc;
        let mut i: usize = 0;
        while i < exprs.len()
            invariant
                i <= exprs.len(),
                effects@ == exprs_effects(self@, acc@, exprs@.take(i as int)),
            decreases exprs.len() - i,
        {
            proof {
                assert(exprs@.take(i + 1).drop_last() == exprs@.take(i as int));
                assert(exprs@.take(i + 1).last() == exprs@[i as int]);
            }
            let e = self.analyze_expression(&exprs[i]);
            effects.union(&e);
            i = i + 1;
        }
        assert(exprs@.take(exprs.len() as int) == exprs@);
        effects
    }

    /// `acc` with the effects of every field initialiser of `fields` added.
    fn analyze_fields(&self, acc: EffectSet, fields: &Vec<(String, Expr)>) -> (r: EffectSet)
        ensures
            r@ == fields_effects(self@, acc@, fields@),
        decreases fields@,
    {
        let mut effects = acc;
        let mut i: usize = 0;
        while i < fields.len()
            invariant
                i <= fields.len(),
                effects@ == fields_effects(self@, acc@, fields@.take(i as int)),
            decreases fields.len() - i,
        {
            proof {
                assert(fields@.take(i + 1).drop_last() == fields@.take(i as int));
                assert(fields@.take(i + 1).last() == fields@[i as int]);
            }
            let e = self.analyze_expression(&fields[i].1);
            effects.union(&e);
            i = i + 1;
        }
        assert(fields@.take(fields.len() as int) == fields@);
        effects
    }

    /// The effects of an expression.
    fn analyze_expression(&self, expr: &Expr) -> (r: EffectSet)
        ensures
            r@ == expr_effects(self@, *expr),
        decreases expr,
    {
        match expr {
            // Literals and names are pure.
            Expr::Integer(_) | Expr::String(_) | Expr::Bool(_) | Expr::Char(_) | Expr::Ident(_) => {
                EffectSet::new()
            },
            // A tuple has its elements' effects, in order; an element access
            // and a cast have their operand's.
            Expr::Tuple { elements, .. } => self.analyze_expressions(EffectSet::new(), elements),
            Expr::TupleIndex { expr, .. } | Expr::Cast { expr, .. } => self.analyze_expression(expr),
            // A value-producing `if` or block has the effects of its parts,
            // in order, as the statement forms do.
            Expr::If { condition, then_branch, then_value, else_branch, else_value, .. } => {
                proof {
                    reveal_with_fuel(expr_effects, 2);
                }
                let cond = self.analyze_expression(condition);
                let mut effects = self.analyze_statements(cond, then_branch);
                if let Some(v) = then_value {
                    let ve = self.analyze_expression(v);
                    effects.union(&ve);
                }
                if let Some(else_stmts) = else_branch {
                    effects = self.analyze_statements(effects, else_stmts);
                }
                if let Some(v) = else_value {
                    let ve = self.analyze_expression(v);
                    effects.union(&ve);
                }
                effects
            },
            Expr::Block { stmts, value, .. } => {
                proof {
                    reveal_with_fuel(expr_effects, 2);
                }
                let mut effects = self.analyze_statements(EffectSet::new(), stmts);
                if let Some(v) = value {
                    let ve = self.analyze_expression(v);
                    effects.union(&ve);
                }
                effects
            },
            Expr::Loop { body, .. } => self.analyze_statements(EffectSet::new(), body),
            // Function calls may have effects.
            Expr::Call { func, args, .. } => {
                let mut effects = EffectSet::new();
                let func_effects = self.analyze_expression(func);
                effects.union(&func_effects);
                let mut effects = self.analyze_expressions(effects, args);
                if let Expr::Ident(func_name) = &**func {
                    match entry_lookup(&self.builtin_effects, func_name.as_str()) {
                        Some(builtin) => effects.union(builtin),
                        None => match entry_lookup(&self.function_effects, func_name.as_str()) {
                            Some(known) => effects.union(known),
                            // An unknown function is assumed pure.
                            None => {},
                        },
                    }
                }
                effects
            },
            Expr::Binary { left, right, .. } => {
                let mut effects = self.analyze_expression(left);
                let right_effects = self.analyze_expression(right);
                effects.union(&right_effects);
                effects
            },
            Expr::Unary { operand, .. } => self.analyze_expression(operand),
            Expr::ArrayLiteral { elements, .. } => self.analyze_expressions(
                EffectSet::new(),
                elements,
            ),
            Expr::ArrayRepeat { value, count, .. } => {
                let mut effects = self.analyze_expression(value);
                let count_effects = self.analyze_expression(count);
                effects.union(&count_effects);
                effects
            },
            Expr::Index { array, index, .. } => {
                let mut effects = self.analyze_expression(array);
                let index_effects = self.analyze_expression(index);
                effects.union(&index_effects);
                effects
            },
            Expr::StructLiteral { fields, .. } => self.analyze_fields(EffectSet::new(), fields),
            Expr::FieldAccess { object, .. } => self.analyze_expression(object),
            Expr::EnumConstructor { data, .. } => match data {
                Some(EnumConstructorData::Tuple(exprs)) => self.analyze_expressions(
                    EffectSet::new(),
                    exprs,
                ),
                Some(EnumConstructorData::Struct(fields)) => self.analyze_fields(
                    EffectSet::new(),
                    fields,
                ),
                None => EffectSet::new(),
            },
            Expr::Range { start, end, .. } => {
                let mut effects = EffectSet::new();
                let start_effects = self.analyze_expression(start);
                effects.union(&start_effects);
                let end_effects = self.analyze_expression(end);
                effects.union(&end_effects);
                effects
            },
            Expr::Reference { expr, .. } => self.analyze_expression(expr),
            Expr::Deref { expr, .. } => self.analyze_expression(expr),
            // The question mark operator can panic.
            Expr::Question { expr, .. } => {
                let mut effects = self.analyze_expression(expr);
                effects.add(Effect::Panic);
                effects
            },
            // Await is asynchronous.
            Expr::Await { expr, .. } => {
                let mut effects = self.analyze_expression(expr);
                effects.add(Effect::Async);
                effects
            },
            // Macros are assumed pure.
            Expr::MacroInvocation { .. } => EffectSet::new(),
        }
    }

    /// The recorded effects of a function, if it has been analysed.
    pub fn get_function_effects(&self, func_name: &str) -> (r: Option<&EffectSet>)
        ensures
            r matches Some(s) ==> lookup(self@.functions, func_name@) == Some(s@),
            r is None ==> lookup(self@.functions, func_name@) is None,
    {
        entry_lookup(&self.function_effects, func_name)
    }

    /// Whether a function is pure; a function never analysed counts as pure.
    pub fn is_function_pure(&self, func_name: &str) -> (r: bool)
        ensures
            r == match lookup(self@.functions, func_name@) {
                Some(s) => pure_effects(s),
                None => true,
            },
    {
        match entry_lookup(&self.function_effects, func_name) {
            Some(effects) => effects.is_pure(),
            None => true,
        }
    }
}

} // verus!

verus! {

// ---------------------------------------------------------------------------
// Laws of effect sets and of the analysis
// ---------------------------------------------------------------------------

proof fn lemma_push_contains(t: Seq<Effect>, y: Effect)
    ensures
        forall|x: Effect| #[trigger] t.push(y).contains(x) <==> (t.contains(x) || x == y),
{
    assert forall|x: Effect| #[trigger] t.push(y).contains(x) <==> (t.contains(x) || x == y) by {
        if t.contains(x) {
            let k = choose|k: int| 0 <= k < t.len() && t[k] == x;
            assert(t.push(y)[k] == x);
        }
        if x == y {
            assert(t.push(y)[t.len() as int] == x);
        }
        if t.push(y).contains(x) {
            let k = choose|k: int| 0 <= k < t.push(y).len() && t.push(y)[k] == x;
            if k < t.len() {
                assert(t[k] == x);
            }
        }
    }
}

proof fn lemma_without_pure(s: Seq<Effect>)
    ensures
        forall|x: Effect| #[trigger] without_pure(s).contains(x) <==> (s.contains(x) && x != Effect::Pure),
        s.no_duplicates() ==> without_pure(s).no_duplicates(),
    decreases s.len(),
{
    if s.len() > 0 {
        let init = s.drop_last();
        lemma_without_pure(init);
        assert(s == init.push(s.last()));
        lemma_push_contains(init, s.last());
        lemma_push_contains(without_pure(init), s.last());
        if s.no_duplicates() {
            assert(init.no_duplicates()) by {
                assert forall|i: int, j: int| 0 <= i < j < init.len() implies init[i] != init[j] by {
                    assert(init[i] == s[i] && init[j] == s[j]);
                }
            }
            if s.last() != Effect::Pure {
                assert(!init.contains(s.last())) by {
                    if init.contains(s.last()) {
                        let k = choose|k: int| 0 <= k < init.len() && init[k] == s.last();
                        assert(s[k] == s[s.len() - 1]);
                    }
                }
                let w = without_pure(init);
                assert(!w.contains(s.last()));
                assert forall|i: int, j: int| 0 <= i < j < w.push(s.last()).len() implies w.push(
                    s.last(),
                )[i] != w.push(s.last())[j] by {
                    if j == w.len() {
                        assert(w[i] == w.push(s.last())[i]);
                    }
                }
            }
        }
    }
}

/// Adding an effect: afterwards the set holds the added effect and what it
/// held before, except that an effect other than `Pure` evicts `Pure`. So an
/// effect set that gains a real effect is no longer pure, and a set never
/// holds an effect twice.
pub proof fn lemma_add_effect(s: Seq<Effect>, e: Effect)
    ensures
        forall|x: Effect| #[trigger]
            add_effect(s, e).contains(x) <==> (x == e || (s.contains(x) && (e == Effect::Pure
                || x != Effect::Pure))),
        e != Effect::Pure ==> !pure_effects(add_effect(s, e)),
        s.no_duplicates() ==> add_effect(s, e).no_duplicates(),
{
    lemma_without_pure(s);
    let t = if e != Effect::Pure {
        without_pure(s)
    } else {
        s
    };
    lemma_push_contains(t, e);
    if !t.contains(e) && t.no_duplicates() {
        assert forall|i: int, j: int| 0 <= i < j < t.push(e).len() implies t.push(e)[i] != t.push(
            e,
        )[j] by {
            if j == t.len() {
                assert(t[i] == t.push(e)[i]);
            }
        }
    }
    if e != Effect::Pure {
        assert(add_effect(s, e).contains(e));
        assert(add_effect(s, e).len() > 0);
    }
}

/// The union of two effect sets holds every effect other than `Pure` that
/// either holds, and no other; it never holds an effect twice.
pub proof fn lemma_union_effects(s: Seq<Effect>, other: Seq<Effect>)
    ensures
        forall|x: Effect|
            x != Effect::Pure ==> (#[trigger] union_effects(s, other).contains(x) <==> (s.contains(x)
                || other.contains(x))),
        s.no_duplicates() ==> union_effects(s, other).no_duplicates(),
    decreases other.len(),
{
    if other.len() > 0 {
        let init = other.drop_last();
        lemma_union_effects(s, init);
        lemma_add_effect(union_effects(s, init), other.last());
        assert(other == init.push(other.last()));
        lemma_push_contains(init, other.last());
    }
}

/// Recording a function's effects and then asking for them gives back what
/// was recorded; what is recorded for any other name stays as it was.
pub proof fn lemma_recorded_effects_read_back(
    table: Seq<(Seq<char>, Seq<Effect>)>,
    name: Seq<char>,
    effects: Seq<Effect>,
    other: Seq<char>,
)
    ensures
        lookup(bind(table, name, effects), name) == Some(effects),
        other != name ==> lookup(bind(table, name, effects), other) == lookup(table, other),
    decreases table.len(),
{
    if table.len() > 0 && table[0].0 != name {
        lemma_recorded_effects_read_back(table.drop_first(), name, effects, other);
        let rest = bind(table.drop_first(), name, effects);
        let b = seq![table[0]] + rest;
        assert(bind(table, name, effects) == b);
        assert(b[0] == table[0]);
        assert(b.drop_first() == rest);
    } else if table.len() > 0 {
        let b = table.update(0, (name, effects));
        assert(bind(table, name, effects) == b);
        assert(b[0].0 == name);
        assert(b.drop_first() == table.drop_first());
    } else {
        let b = seq![(name, effects)];
        assert(bind(table, name, effects) == b);
        assert(b.drop_first() == Seq::<(Seq<char>, Seq<Effect>)>::empty());
        assert(lookup(b.drop_first(), other) is None);
    }
}

proof fn lemma_stmts_keep(st: AnalyzerState, acc: Seq<Effect>, ss: Seq<Stmt>, x: Effect)
    requires
        x != Effect::Pure,
        acc.contains(x),
    ensures
        stmts_effects(st, acc, ss).contains(x),
    decreases ss.len(),
{
    if ss.len() > 0 {
        lemma_stmts_keep(st, acc, ss.drop_last(), x);
        lemma_union_effects(stmts_effects(st, acc, ss.drop_last()), stmt_effects(st, ss.last()));
    }
}

/// The rules for an expression's effects: `?` can panic, `.await` is
/// asynchronous, a literal or a name has none, and a call of a function that
/// is neither built in nor analysed adds nothing beyond its arguments'
/// effects, in order.
pub proof fn lemma_expression_effect_rules(st: AnalyzerState, e: Expr)
    ensures
        e is Question ==> expr_effects(st, e).contains(Effect::Panic),
        e is Await ==> expr_effects(st, e).contains(Effect::Async),
        (e is Integer || e is String || e is Bool || e is Ident) ==> expr_effects(st, e)
            == Seq::<Effect>::empty(),
        match e {
            Expr::Call { func, args, .. } => match *func {
                Expr::Ident(name) => lookup(st.builtins, name@) is None && lookup(
                    st.functions,
                    name@,
                ) is None ==> expr_effects(st, e) == exprs_effects(st, Seq::empty(), args@),
                _ => true,
            },
            _ => true,
        },
{
    match e {
        Expr::Question { expr, .. } => {
            lemma_add_effect(expr_effects(st, *expr), Effect::Panic);
        },
        Expr::Await { expr, .. } => {
            lemma_add_effect(expr_effects(st, *expr), Effect::Async);
        },
        Expr::Call { func, args, .. } => {
            if let Expr::Ident(name) = *func {
                assert(union_effects(Seq::empty(), expr_effects(st, *func)) == Seq::<Effect>::empty());
            }
        },
        _ => {},
    }
}

/// A function declared `async` has the `Async` effect, whatever its body.
pub proof fn lemma_async_function_is_async(st: AnalyzerState, f: Function)
    requires
        f.is_async,
    ensures
        function_effects(st, f).contains(Effect::Async),
{
    lemma_add_effect(Seq::empty(), Effect::Async);
    lemma_stmts_keep(st, add_effect(Seq::empty(), Effect::Async), f.body@, Effect::Async);
}

/// An effect of any statement of a function's body, other than `Pure`, is
/// an effect of the function: effects flow up from the statement that has
/// them to the function around it.
pub proof fn lemma_statement_effects_reach_function(st: AnalyzerState, f: Function, k: int, x: Effect)
    requires
        0 <= k < f.body@.len(),
        x != Effect::Pure,
        stmt_effects(st, f.body@[k]).contains(x),
    ensures
        function_effects(st, f).contains(x),
{
    let start = if f.is_async {
        add_effect(Seq::empty(), Effect::Async)
    } else {
        Seq::empty()
    };
    lemma_stmt_effects_kept(st, start, f.body@, k, x);
}

proof fn lemma_arms_keep(st: AnalyzerState, acc: Seq<Effect>, arms: Seq<MatchArm>, x: Effect)
    requires
        x != Effect::Pure,
        acc.contains(x),
    ensures
        arms_effects(st, acc, arms).contains(x),
    decreases arms.len(),
{
    if arms.len() > 0 {
        lemma_arms_keep(st, acc, arms.drop_last(), x);
        lemma_stmts_keep(st, arms_effects(st, acc, arms.drop_last()), arms.last().body@, x);
    }
}

proof fn lemma_arm_stmt_kept(
    st: AnalyzerState,
    acc: Seq<Effect>,
    arms: Seq<MatchArm>,
    a: int,
    k: int,
    x: Effect,
)
    requires
        0 <= a < arms.len(),
        0 <= k < arms[a].body@.len(),
        x != Effect::Pure,
        stmt_effects(st, arms[a].body@[k]).contains(x),
    ensures
        arms_effects(st, acc, arms).contains(x),
    decreases arms.len(),
{
    let init = arms.drop_last();
    if a < arms.len() - 1 {
        assert(init[a] == arms[a]);
        lemma_arm_stmt_kept(st, acc, init, a, k, x);
        lemma_stmts_keep(st, arms_effects(st, acc, init), arms.last().body@, x);
    } else {
        lemma_stmt_effects_kept(st, arms_effects(st, acc, init), arms.last().body@, k, x);
    }
}

/// Effects flow up out of nested bodies: every effect other than `Pure` of
/// a statement inside a `while` or `for` body, an `if` branch, a `match` arm
/// or an `unsafe` block, and of the condition, iterated value or scrutinee,
/// is an effect of the enclosing statement. An `unsafe` block is `Unsafe`.
pub proof fn lemma_nested_statement_effects_flow_up(st: AnalyzerState, s: Stmt, k: int, x: Effect)
    requires
        x != Effect::Pure,
    ensures
        s matches Stmt::While { condition, body, .. } ==> ((0 <= k < body@.len() && stmt_effects(
            st,
            body@[k],
        ).contains(x)) || expr_effects(st, condition).contains(x) ==> stmt_effects(st, s).contains(
            x,
        )),
        s matches Stmt::For { iter, body, .. } ==> ((0 <= k < body@.len() && stmt_effects(
            st,
            body@[k],
        ).contains(x)) || expr_effects(st, iter).contains(x) ==> stmt_effects(st, s).contains(x)),
        s matches Stmt::Unsafe { body, .. } ==> stmt_effects(st, s).contains(Effect::Unsafe) && (0
            <= k < body@.len() && stmt_effects(st, body@[k]).contains(x) ==> stmt_effects(
            st,
            s,
        ).contains(x)),
        s matches Stmt::If { condition, then_branch, else_branch, .. } ==> ((0 <= k
            < then_branch@.len() && stmt_effects(st, then_branch@[k]).contains(x)) || expr_effects(
            st,
            condition,
        ).contains(x) || (else_branch matches Some(e) && 0 <= k < e@.len() && stmt_effects(
            st,
            e@[k],
        ).contains(x)) ==> stmt_effects(st, s).contains(x)),
        s matches Stmt::Match { expr, arms, .. } ==> (expr_effects(st, expr).contains(x) ==> stmt_effects(
            st,
            s,
        ).contains(x)),
{
    match s {
        Stmt::While { condition, body, .. } => {
            if 0 <= k < body@.len() && stmt_effects(st, body@[k]).contains(x) {
                lemma_stmt_effects_kept(st, expr_effects(st, condition), body@, k, x);
            }
            if expr_effects(st, condition).contains(x) {
                lemma_stmts_keep(st, expr_effects(st, condition), body@, x);
            }
        },
        Stmt::For { iter, body, .. } => {
            if 0 <= k < body@.len() && stmt_effects(st, body@[k]).contains(x) {
                lemma_stmt_effects_kept(st, expr_effects(st, iter), body@, k, x);
            }
            if expr_effects(st, iter).contains(x) {
                lemma_stmts_keep(st, expr_effects(st, iter), body@, x);
            }
        },
        Stmt::Unsafe { body, .. } => {
            assert(seq![Effect::Unsafe].contains(Effect::Unsafe)) by {
                assert(seq![Effect::Unsafe][0] == Effect::Unsafe);
            }
            lemma_stmts_keep(st, seq![Effect::Unsafe], body@, Effect::Unsafe);
            if 0 <= k < body@.len() && stmt_effects(st, body@[k]).contains(x) {
                lemma_stmt_effects_kept(st, seq![Effect::Unsafe], body@, k, x);
            }
        },
        Stmt::If { condition, then_branch, else_branch, .. } => {
            let c = expr_effects(st, condition);
            let after_then = stmts_effects(st, c, then_branch@);
            if 0 <= k < then_branch@.len() && stmt_effects(st, then_branch@[k]).contains(x) {
                lemma_stmt_effects_kept(st, c, then_branch@, k, x);
            }
            if c.contains(x) {
                lemma_stmts_keep(st, c, then_branch@, x);
            }
            if let Some(e) = else_branch {
                if after_then.contains(x) {
                    lemma_stmts_keep(st, after_then, e@, x);
                }
                if 0 <= k < e@.len() && stmt_effects(st, e@[k]).contains(x) {
                    lemma_stmt_effects_kept(st, after_then, e@, k, x);
                }
            }
        },
        Stmt::Match { expr, arms, .. } => {
            if expr_effects(st, expr).contains(x) {
                lemma_arms_keep(st, expr_effects(st, expr), arms@, x);
            }
        },
        _ => {},
    }
}

/// Effects flow up out of the parts of a statement that evaluates one
/// expression: a `let`, an assignment, a `return` with a value and an
/// expression statement have every effect of that expression.
pub proof fn lemma_statement_has_its_expression_effects(st: AnalyzerState, s: Stmt, x: Effect)
    ensures
        s matches Stmt::Let { value, .. } && expr_effects(st, value).contains(x) ==> stmt_effects(
            st,
            s,
        ).contains(x),
        s matches Stmt::Assign { value, .. } && expr_effects(st, value).contains(x) ==> stmt_effects(
            st,
            s,
        ).contains(x),
        s matches Stmt::Return(Some(e)) && expr_effects(st, e).contains(x) ==> stmt_effects(
            st,
            s,
        ).contains(x),
        s matches Stmt::Expr(e) && expr_effects(st, e).contains(x) ==> stmt_effects(st, s).contains(x),
{
}

/// Effects flow up out of value-producing blocks, loops and `if`s: every
/// effect other than `Pure` of a statement in their bodies, of their
/// condition and of their values is an effect of the expression.
pub proof fn lemma_nested_expression_effects_flow_up(st: AnalyzerState, e: Expr, k: int, x: Effect)
    requires
        x != Effect::Pure,
    ensures
        e matches Expr::Block { stmts, value, .. } ==> ((0 <= k < stmts@.len() && stmt_effects(
            st,
            stmts@[k],
        ).contains(x)) || (value matches Some(v) && expr_effects(st, *v).contains(x))
            ==> expr_effects(st, e).contains(x)),
        e matches Expr::Loop { body, .. } ==> (0 <= k < body@.len() && stmt_effects(
            st,
            body@[k],
        ).contains(x) ==> expr_effects(st, e).contains(x)),
        e matches Expr::If { condition, then_branch, then_value, else_branch, else_value, .. } ==> (
        expr_effects(st, *condition).contains(x) || (0 <= k < then_branch@.len() && stmt_effects(
            st,
            then_branch@[k],
        ).contains(x)) || (then_value matches Some(v) && expr_effects(st, *v).contains(x)) || (
        else_branch matches Some(b) && 0 <= k < b@.len() && stmt_effects(st, b@[k]).contains(x)) || (
        else_value matches Some(v) && expr_effects(st, *v).contains(x)) ==> expr_effects(
            st,
            e,
        ).contains(x)),
{
    match e {
        Expr::Block { stmts, value, .. } => {
            let base = stmts_effects(st, Seq::empty(), stmts@);
            assert(expr_effects(st, e) == value_effects(st, base, value));
            if 0 <= k < stmts@.len() && stmt_effects(st, stmts@[k]).contains(x) {
                lemma_stmt_effects_kept(st, Seq::empty(), stmts@, k, x);
            }
            if let Some(v) = value {
                lemma_union_effects(base, expr_effects(st, *v));
            }
        },
        Expr::Loop { body, .. } => {
            if 0 <= k < body@.len() && stmt_effects(st, body@[k]).contains(x) {
                lemma_stmt_effects_kept(st, Seq::empty(), body@, k, x);
            }
        },
        Expr::If { condition, then_branch, then_value, else_branch, else_value, .. } => {
            let c = expr_effects(st, *condition);
            let s1 = stmts_effects(st, c, then_branch@);
            let s2 = value_effects(st, s1, then_value);
            let s3 = match else_branch {
                Some(b) => stmts_effects(st, s2, b@),
                None => s2,
            };
            if c.contains(x) {
                lemma_stmts_keep(st, c, then_branch@, x);
            }
            if 0 <= k < then_branch@.len() && stmt_effects(st, then_branch@[k]).contains(x) {
                lemma_stmt_effects_kept(st, c, then_branch@, k, x);
            }
            if let Some(v) = then_value {
                lemma_union_effects(s1, expr_effects(st, *v));
            }
            if let Some(b) = else_branch {
                if s2.contains(x) {
                    lemma_stmts_keep(st, s2, b@, x);
                }
                if 0 <= k < b@.len() && stmt_effects(st, b@[k]).contains(x) {
                    lemma_stmt_effects_kept(st, s2, b@, k, x);
                }
            }
            if let Some(v) = else_value {
                lemma_union_effects(s3, expr_effects(st, *v));
            }
            assert(expr_effects(st, e) == value_effects(st, s3, else_value));
        },
        _ => {},
    }
}

/// Effects flow up out of `match` arms: an effect other than `Pure` of any
/// statement of any arm's body is an effect of the `match` statement.
pub proof fn lemma_match_arm_effects_flow_up(st: AnalyzerState, s: Stmt, a: int, k: int, x: Effect)
    requires
        x != Effect::Pure,
        s matches Stmt::Match { arms, .. } && 0 <= a < arms@.len() && 0 <= k < arms@[a].body@.len()
            && stmt_effects(st, arms@[a].body@[k]).contains(x),
    ensures
        stmt_effects(st, s).contains(x),
{
    if let Stmt::Match { expr, arms, .. } = s {
        lemma_arm_stmt_kept(st, expr_effects(st, expr), arms@, a, k, x);
    }
}

/// A function has every effect, other than `Pure`, of a statement nested at
/// any depth inside a loop body of its own body: `fn f() { while c { print(..) } }`
/// does IO.
pub proof fn lemma_loop_body_effects_reach_function(
    st: AnalyzerState,
    f: Function,
    i: int,
    k: int,
    x: Effect,
)
    requires
        0 <= i < f.body@.len(),
        x != Effect::Pure,
        f.body@[i] matches Stmt::While { body, .. } && 0 <= k < body@.len() && stmt_effects(
            st,
            body@[k],
        ).contains(x),
    ensures
        function_effects(st, f).contains(x),
{
    lemma_nested_statement_effects_flow_up(st, f.body@[i], k, x);
    lemma_statement_effects_reach_function(st, f, i, x);
}

proof fn lemma_stmt_effects_kept(st: AnalyzerState, acc: Seq<Effect>, ss: Seq<Stmt>, k: int, x: Effect)
    requires
        0 <= k < ss.len(),
        x != Effect::Pure,
        stmt_effects(st, ss[k]).contains(x),
    ensures
        stmts_effects(st, acc, ss).contains(x),
    decreases ss.len(),
{
    let init = ss.drop_last();
    lemma_union_effects(stmts_effects(st, acc, init), stmt_effects(st, ss.last()));
    if k < ss.len() - 1 {
        assert(init[k] == ss[k]);
        lemma_stmt_effects_kept(st, acc, init, k, x);
    }
}

/// A call by name has every effect, other than `Pure`, of what it calls: a
/// built-in's own effects, or else what was recorded for the function.
pub proof fn lemma_call_inherits_callee_effects(st: AnalyzerState, call: Expr, x: Effect)
    requires
        call matches Expr::Call { func, .. } && *func matches Expr::Ident(name) && callee_effects(
            st,
            name@,
        ).contains(x),
        x != Effect::Pure,
    ensures
        expr_effects(st, call).contains(x),
{
    if let Expr::Call { func, args, .. } = call {
        if let Expr::Ident(name) = *func {
            let base = union_effects(Seq::empty(), expr_effects(st, *func));
            let with_args = exprs_effects(st, base, args@);
            lemma_union_effects(with_args, callee_effects(st, name@));
        }
    }
}

/// The printing built-ins are what an analyzer that knows the standard
/// built-ins looks up for `print` and `print_int`: exactly `{IO}`.
pub proof fn lemma_printing_builtins_are_io(a: EffectAnalyzer)
    requires
        a.well_formed(),
    ensures
        callee_effects(a@, "print"@) == seq![Effect::IO],
        callee_effects(a@, "print_int"@) == seq![Effect::IO],
{
    reveal_strlit("print");
    reveal_strlit("print_int");
    let t = builtin_table();
    assert(t[0] == ("print"@, seq![Effect::IO]));
    assert(t[1] == ("print_int"@, seq![Effect::IO]));
    assert(t.drop_first()[0] == t[1]);
    assert(t[0].0 != "print_int"@) by {
        assert(t[0].0.len() != "print_int"@.len());
    }
    assert(lookup(t, "print_int"@) == lookup(t.drop_first(), "print_int"@));
    assert(lookup(t.drop_first(), "print_int"@) == Some(seq![Effect::IO]));
}

/// A call of `print` or `print_int` has the `IO` effect, for every analyzer
/// that knows the standard built-ins, whatever the arguments and whatever
/// functions were analysed before.
pub proof fn lemma_print_call_is_io(a: EffectAnalyzer, call: Expr)
    requires
        a.well_formed(),
        call matches Expr::Call { func, .. } && *func matches Expr::Ident(name) && (name@
            == "print"@ || name@ == "print_int"@),
    ensures
        expr_effects(a@, call).contains(Effect::IO),
{
    lemma_printing_builtins_are_io(a);
    if let Expr::Call { func, .. } = call {
        if let Expr::Ident(name) = *func {
            assert(callee_effects(a@, name@)[0] == Effect::IO);
        }
    }
    lemma_call_inherits_callee_effects(a@, call, Effect::IO);
}

/// A function with a statement that prints has the `IO` effect, as analysed
/// by any analyzer that knows the standard built-ins.
pub proof fn lemma_printing_function_is_io(a: EffectAnalyzer, f: Function, k: int)
    requires
        a.well_formed(),
        0 <= k < f.body@.len(),
        f.body@[k] matches Stmt::Expr(call) && call matches Expr::Call { func, .. }
            && *func matches Expr::Ident(name) && (name@ == "print"@ || name@ == "print_int"@),
    ensures
        function_effects(a@, f).contains(Effect::IO),
{
    if let Stmt::Expr(call) = f.body@[k] {
        lemma_print_call_is_io(a, call);
    }
    lemma_statement_effects_reach_function(a@, f, k, Effect::IO);
}

// ---------------------------------------------------------------------------
// The analysis never reports `Pure`
// ---------------------------------------------------------------------------

/// No entry of a table lists `Pure` among its effects.
pub open spec fn table_without_pure(t: Seq<(Seq<char>, Seq<Effect>)>) -> bool {
    forall|i: int| 0 <= i < t.len() ==> !(#[trigger] t[i]).1.contains(Effect::Pure)
}

/// Neither the built-ins nor any analysed function lists `Pure`.
pub open spec fn state_without_pure(st: AnalyzerState) -> bool {
    table_without_pure(st.builtins) && table_without_pure(st.functions)
}

proof fn lemma_lookup_without_pure(t: Seq<(Seq<char>, Seq<Effect>)>, name: Seq<char>)
    requires
        table_without_pure(t),
    ensures
        lookup(t, name) matches Some(v) ==> !v.contains(Effect::Pure),
    decreases t.len(),
{
    if t.len() > 0 && t[0].0 != name {
        assert forall|i: int| 0 <= i < t.drop_first().len() implies !(
        #[trigger] t.drop_first()[i]).1.contains(Effect::Pure) by {
            assert(t.drop_first()[i] == t[i + 1]);
        }
        lemma_lookup_without_pure(t.drop_first(), name);
    }
}

proof fn lemma_union_without_pure(s: Seq<Effect>, other: Seq<Effect>)
    requires
        !s.contains(Effect::Pure),
        !other.contains(Effect::Pure),
    ensures
        !union_effects(s, other).contains(Effect::Pure),
    decreases other.len(),
{
    if other.len() > 0 {
        let init = other.drop_last();
        assert(other == init.push(other.last()));
        lemma_push_contains(init, other.last());
        lemma_union_without_pure(s, init);
        lemma_add_effect(union_effects(s, init), other.last());
    }
}

proof fn lemma_expr_without_pure(st: AnalyzerState, e: Expr)
    requires
        state_without_pure(st),
    ensures
        !expr_effects(st, e).contains(Effect::Pure),
    decreases e,
{
    let none = Seq::<Effect>::empty();
    match e {
        Expr::Call { func, args, .. } => {
            lemma_expr_without_pure(st, *func);
            lemma_union_without_pure(none, expr_effects(st, *func));
            let base = union_effects(none, expr_effects(st, *func));
            lemma_exprs_without_pure(st, base, args@);
            if let Expr::Ident(name) = *func {
                lemma_lookup_without_pure(st.builtins, name@);
                lemma_lookup_without_pure(st.functions, name@);
                lemma_union_without_pure(exprs_effects(st, base, args@), callee_effects(st, name@));
            }
        },
        Expr::Binary { left, right, .. } => {
            lemma_expr_without_pure(st, *left);
            lemma_expr_without_pure(st, *right);
            lemma_union_without_pure(expr_effects(st, *left), expr_effects(st, *right));
        },
        Expr::Unary { operand, .. } => lemma_expr_without_pure(st, *operand),
        Expr::TupleIndex { expr, .. } | Expr::Cast { expr, .. } => lemma_expr_without_pure(st, *expr),
        Expr::If { condition, then_branch, then_value, else_branch, else_value, .. } => {
            lemma_expr_without_pure(st, *condition);
            let t = stmts_effects(st, expr_effects(st, *condition), then_branch@);
            lemma_stmts_without_pure(st, expr_effects(st, *condition), then_branch@);
            lemma_value_without_pure(st, t, then_value);
            let after_then = value_effects(st, t, then_value);
            let after_else = match else_branch {
                Some(else_stmts) => stmts_effects(st, after_then, else_stmts@),
                None => after_then,
            };
            if let Some(else_stmts) = else_branch {
                lemma_stmts_without_pure(st, after_then, else_stmts@);
            }
            lemma_value_without_pure(st, after_else, else_value);
        },
        Expr::Block { stmts, value, .. } => {
            lemma_stmts_without_pure(st, Seq::empty(), stmts@);
            lemma_value_without_pure(st, stmts_effects(st, Seq::empty(), stmts@), value);
        },
        Expr::Loop { body, .. } => lemma_stmts_without_pure(st, Seq::empty(), body@),
        Expr::ArrayLiteral { elements, .. } => lemma_exprs_without_pure(st, none, elements@),
        Expr::Tuple { elements, .. } => lemma_exprs_without_pure(st, none, elements@),
        Expr::ArrayRepeat { value, count, .. } => {
            lemma_expr_without_pure(st, *value);
            lemma_expr_without_pure(st, *count);
            lemma_union_without_pure(expr_effects(st, *value), expr_effects(st, *count));
        },
        Expr::Index { array, index, .. } => {
            lemma_expr_without_pure(st, *array);
            lemma_expr_without_pure(st, *index);
            lemma_union_without_pure(expr_effects(st, *array), expr_effects(st, *index));
        },
        Expr::StructLiteral { fields, .. } => lemma_fields_without_pure(st, none, fields@),
        Expr::FieldAccess { object, .. } => lemma_expr_without_pure(st, *object),
        Expr::EnumConstructor { data, .. } => match data {
            Some(EnumConstructorData::Tuple(exprs)) => lemma_exprs_without_pure(st, none, exprs@),
            Some(EnumConstructorData::Struct(fields)) => lemma_fields_without_pure(
                st,
                none,
                fields@,
            ),
            None => {},
        },
        Expr::Range { start, end, .. } => {
            lemma_expr_without_pure(st, *start);
            lemma_expr_without_pure(st, *end);
            lemma_union_without_pure(none, expr_effects(st, *start));
            lemma_union_without_pure(
                union_effects(none, expr_effects(st, *start)),
                expr_effects(st, *end),
            );
        },
        Expr::Reference { expr, .. } => lemma_expr_without_pure(st, *expr),
        Expr::Deref { expr, .. } => lemma_expr_without_pure(st, *expr),
        Expr::Question { expr, .. } => {
            lemma_expr_without_pure(st, *expr);
            lemma_add_effect(expr_effects(st, *expr), Effect::Panic);
        },
        Expr::Await { expr, .. } => {
            lemma_expr_without_pure(st, *expr);
            lemma_add_effect(expr_effects(st, *expr), Effect::Async);
        },
        _ => {},
    }
}

proof fn lemma_value_without_pure(st: AnalyzerState, acc: Seq<Effect>, value: Option<Box<Expr>>)
    requires
        state_without_pure(st),
        !acc.contains(Effect::Pure),
    ensures
        !value_effects(st, acc, value).contains(Effect::Pure),
    decreases value,
{
    if let Some(v) = value {
        lemma_expr_without_pure(st, *v);
        lemma_union_without_pure(acc, expr_effects(st, *v));
    }
}

proof fn lemma_exprs_without_pure(st: AnalyzerState, acc: Seq<Effect>, es: Seq<Expr>)
    requires
        state_without_pure(st),
        !acc.contains(Effect::Pure),
    ensures
        !exprs_effects(st, acc, es).contains(Effect::Pure),
    decreases es,
{
    if es.len() > 0 {
        lemma_exprs_without_pure(st, acc, es.drop_last());
        lemma_expr_without_pure(st, es.last());
        lemma_union_without_pure(exprs_effects(st, acc, es.drop_last()), expr_effects(st, es.last()));
    }
}

proof fn lemma_fields_without_pure(st: AnalyzerState, acc: Seq<Effect>, fs: Seq<(String, Expr)>)
    requires
        state_without_pure(st),
        !acc.contains(Effect::Pure),
    ensures
        !fields_effects(st, acc, fs).contains(Effect::Pure),
    decreases fs,
{
    if fs.len() > 0 {
        lemma_fields_without_pure(st, acc, fs.drop_last());
        lemma_expr_without_pure(st, fs.last().1);
        lemma_union_without_pure(
            fields_effects(st, acc, fs.drop_last()),
            expr_effects(st, fs.last().1),
        );
    }
}

proof fn lemma_stmt_without_pure(st: AnalyzerState, s: Stmt)
    requires
        state_without_pure(st),
    ensures
        !stmt_effects(st, s).contains(Effect::Pure),
    decreases s,
{
    match s {
        Stmt::Expr(e) => lemma_expr_without_pure(st, e),
        Stmt::Let { value, .. } => lemma_expr_without_pure(st, value),
        Stmt::Return(Some(e)) => lemma_expr_without_pure(st, e),
        Stmt::If { condition, then_branch, else_branch, .. } => {
            lemma_expr_without_pure(st, condition);
            lemma_stmts_without_pure(st, expr_effects(st, condition), then_branch@);
            if let Some(else_stmts) = else_branch {
                lemma_stmts_without_pure(
                    st,
                    stmts_effects(st, expr_effects(st, condition), then_branch@),
                    else_stmts@,
                );
            }
        },
        Stmt::While { condition, body, .. } => {
            lemma_expr_without_pure(st, condition);
            lemma_stmts_without_pure(st, expr_effects(st, condition), body@);
        },
        Stmt::For { iter, body, .. } => {
            lemma_expr_without_pure(st, iter);
            lemma_stmts_without_pure(st, expr_effects(st, iter), body@);
        },
        Stmt::Match { expr, arms, .. } => {
            lemma_expr_without_pure(st, expr);
            lemma_arms_without_pure(st, expr_effects(st, expr), arms@);
        },
        Stmt::Unsafe { body, .. } => {
            assert(!seq![Effect::Unsafe].contains(Effect::Pure)) by {
                if seq![Effect::Unsafe].contains(Effect::Pure) {
                    assert(seq![Effect::Unsafe][0] == Effect::Unsafe);
                }
            }
            lemma_stmts_without_pure(st, seq![Effect::Unsafe], body@);
        },
        Stmt::Assign { value, .. } => lemma_expr_without_pure(st, value),
        _ => {},
    }
}

proof fn lemma_stmts_without_pure(st: AnalyzerState, acc: Seq<Effect>, ss: Seq<Stmt>)
    requires
        state_without_pure(st),
        !acc.contains(Effect::Pure),
    ensures
        !stmts_effects(st, acc, ss).contains(Effect::Pure),
    decreases ss,
{
    if ss.len() > 0 {
        lemma_stmts_without_pure(st, acc, ss.drop_last());
        lemma_stmt_without_pure(st, ss.last());
        lemma_union_without_pure(stmts_effects(st, acc, ss.drop_last()), stmt_effects(st, ss.last()));
    }
}

proof fn lemma_arms_without_pure(st: AnalyzerState, acc: Seq<Effect>, arms: Seq<MatchArm>)
    requires
        state_without_pure(st),
        !acc.contains(Effect::Pure),
    ensures
        !arms_effects(st, acc, arms).contains(Effect::Pure),
    decreases arms,
{
    if arms.len() > 0 {
        lemma_arms_without_pure(st, acc, arms.drop_last());
        lemma_stmts_without_pure(st, arms_effects(st, acc, arms.drop_last()), arms.last().body@);
    }
}

/// The analysis never reports `Pure` as an effect: starting from the
/// built-in table, every function it records has effects without `Pure`,
/// so a recorded function is pure exactly when it has no effects at all.
pub proof fn lemma_analysis_never_reports_pure(st: AnalyzerState, f: Function)
    requires
        state_without_pure(st),
    ensures
        !function_effects(st, f).contains(Effect::Pure),
        pure_effects(function_effects(st, f)) <==> function_effects(st, f).len() == 0,
        state_without_pure(
            AnalyzerState {
                builtins: st.builtins,
                functions: bind(st.functions, f.name@, function_effects(st, f)),
            },
        ),
{
    lemma_add_effect(Seq::empty(), Effect::Async);
    let start = if f.is_async {
        add_effect(Seq::empty(), Effect::Async)
    } else {
        Seq::empty()
    };
    lemma_stmts_without_pure(st, start, f.body@);
    lemma_bind_without_pure(st.functions, f.name@, function_effects(st, f));
}

proof fn lemma_bind_without_pure(
    t: Seq<(Seq<char>, Seq<Effect>)>,
    name: Seq<char>,
    effects: Seq<Effect>,
)
    requires
        table_without_pure(t),
        !effects.contains(Effect::Pure),
    ensures
        table_without_pure(bind(t, name, effects)),
    decreases t.len(),
{
    if t.len() == 0 {
        assert(bind(t, name, effects) == seq![(name, effects)]);
    } else if t[0].0 == name {
        assert forall|i: int| 0 <= i < t.len() implies !(#[trigger] t.update(0, (name, effects))[i]).1.contains(
            Effect::Pure,
        ) by {
            if i > 0 {
                assert(t.update(0, (name, effects))[i] == t[i]);
            }
        }
    } else {
        assert forall|i: int| 0 <= i < t.drop_first().len() implies !(
        #[trigger] t.drop_first()[i]).1.contains(Effect::Pure) by {
            assert(t.drop_first()[i] == t[i + 1]);
        }
        lemma_bind_without_pure(t.drop_first(), name, effects);
        let rest = bind(t.drop_first(), name, effects);
        assert forall|i: int| 0 <= i < (seq![t[0]] + rest).len() implies !(#[trigger] (seq![t[0]]
            + rest)[i]).1.contains(Effect::Pure) by {
            if i > 0 {
                assert((seq![t[0]] + rest)[i] == rest[i - 1]);
            }
        }
    }
}

/// The built-in table lists no `Pure`, so a fresh analyzer starts without
/// it.
pub proof fn lemma_builtins_without_pure()
    ensures
        table_without_pure(builtin_table()),
{
    assert forall|i: int| 0 <= i < builtin_table().len() implies !(
    #[trigger] builtin_table()[i]).1.contains(Effect::Pure) by {
        let io = IO_BUILTINS@.map_values(|n: &'static str| (n@, seq![Effect::IO]));
        if i < io.len() {
            assert(builtin_table()[i] == io[i]);
            if seq![Effect::IO].contains(Effect::Pure) {
                assert(seq![Effect::IO][0] == Effect::IO);
            }
        } else {
            assert(builtin_table()[i].1 == Seq::<Effect>::empty());
        }
    }
}

} // verus!
