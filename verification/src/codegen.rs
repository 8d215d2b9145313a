//! The C backend's bookkeeping: the tuple-shape registry, C type strings,
//! declarators, and the decisions about how call arguments are sequenced.

use vstd::prelude::*;
use crate::ast::{
    ArraySize, AssignTarget, BinOp, Expr, Function, MatchArm, Param, Stmt, Type, UnaryOp,
};
use crate::errors::{CompileError, Result, Span};
use crate::text::{chars_of, decimal, push_char, push_str, push_usize, str_eq, string_of};

verus! {

// ---------------------------------------------------------------------------
// The tuple-shape registry
// ---------------------------------------------------------------------------

/// What a shape table says about `name`: the element types registered under
/// it first, if any.
pub open spec fn shape_lookup(entries: Seq<(Seq<char>, Seq<Seq<char>>)>, name: Seq<char>) -> Option<
    Seq<Seq<char>>,
>
    decreases entries.len(),
{
    if entries.len() == 0 {
        None
    } else if entries[0].0 == name {
        Some(entries[0].1)
    } else {
        shape_lookup(entries.drop_first(), name)
    }
}

/// No name occurs twice in a shape table.
pub open spec fn names_distinct(entries: Seq<(Seq<char>, Seq<Seq<char>>)>) -> bool {
    forall|i: int, j: int| 0 <= i < j < entries.len() ==> entries[i].0 != entries[j].0
}

pub open spec fn strings_view(v: Seq<String>) -> Seq<Seq<char>> {
    v.map_values(|s: String| s@)
}

/// A tiny insertion-ordered map from tuple names to their element C types:
/// shapes must be emitted in the order they were registered and looked up by
/// name.
pub struct OrderedMap {
    entries: Vec<(String, Vec<String>)>,
}

impl Default for OrderedMap {
    fn default() -> (m: Self)
        ensures
            m@ == Seq::<(Seq<char>, Seq<Seq<char>>)>::empty(),
            m.well_formed(),
    {
        let m = OrderedMap { entries: Vec::new() };
        assert(m@ =~= Seq::<(Seq<char>, Seq<Seq<char>>)>::empty());
        m
    }
}

impl View for OrderedMap {
    type V = Seq<(Seq<char>, Seq<Seq<char>>)>;

    closed spec fn view(&self) -> Seq<(Seq<char>, Seq<Seq<char>>)> {
        self.entries@.map_values(|e: (String, Vec<String>)| (e.0@, strings_view(e.1@)))
    }
}

/// Whether two string lists are equal, element by element.
fn same_strings(a: &Vec<String>, b: &Vec<String>) -> (r: bool)
    ensures
        r == (strings_view(a@) == strings_view(b@)),
{
    if a.len() != b.len() {
        proof {
            assert(strings_view(a@).len() != strings_view(b@).len());
        }
        return false;
    }
    let mut i: usize = 0;
    while i < a.len()
        invariant
            i <= a.len() == b.len(),
            forall|k: int| 0 <= k < i ==> a@[k]@ == b@[k]@,
        decreases a.len() - i,
    {
        if !str_eq(a[i].as_str(), b[i].as_str()) {
            proof {
                assert(strings_view(a@)[i as int] != strings_view(b@)[i as int]);
            }
            return false;
        }
        i = i + 1;
    }
    assert(strings_view(a@) =~= strings_view(b@));
    true
}

/// The position of the entry named `name`, if there is one.
fn entry_position(entries: &Vec<(String, Vec<String>)>, name: &str) -> (r: Option<usize>)
    ensures
        ({
            let t = entries@.map_values(|e: (String, Vec<String>)| (e.0@, strings_view(e.1@)));
            match r {
                Some(i) => i < entries.len() && shape_lookup(t, name@) == Some(t[i as int].1)
                    && t[i as int].0 == name@,
                None => shape_lookup(t, name@) is None,
            }
        }),
{
    let ghost t = entries@.map_values(|e: (String, Vec<String>)| (e.0@, strings_view(e.1@)));
    let mut i: usize = 0;
    assert(t.skip(0) == t);
    while i < entries.len()
        invariant
            i <= entries.len(),
            t == entries@.map_values(|e: (String, Vec<String>)| (e.0@, strings_view(e.1@))),
            shape_lookup(t, name@) == shape_lookup(t.skip(i as int), name@),
        decreases entries.len() - i,
    {
        proof {
            assert(t.skip(i as int)[0] == t[i as int]);
            assert(t.skip(i as int).drop_first() == t.skip(i + 1));
        }
        if str_eq(entries[i].0.as_str(), name) {
            return Some(i);
        }
        i = i + 1;
    }
    assert(t.skip(i as int).len() == 0);
    None
}

impl OrderedMap {
    /// The entries, in registration order, with no name twice.
    pub open spec fn well_formed(&self) -> bool {
        names_distinct(self@)
    }

    /// No name is registered twice, whatever was done to the map.
    #[verifier::type_invariant]
    closed spec fn names_stay_distinct(&self) -> bool {
        names_distinct(self@)
    }

    /// Record a shape under `name` if it is new. Answers `false`, and changes
    /// nothing, when the name is already taken by a different layout.
    pub fn insert(&mut self, name: String, element_types: Vec<String>) -> (r: bool)
        ensures
            final(self).well_formed(),
            final(self)@ == register_step(old(self)@, (name@, strings_view(element_types@))),
            match shape_lookup(old(self)@, name@) {
                Some(existing) => r == (existing == strings_view(element_types@)) && final(self)@
                    == old(self)@,
                None => r && final(self)@ == old(self)@.push((name@, strings_view(element_types@))),
            },
    {
        proof {
            use_type_invariant(&*self);
        }
        match entry_position(&self.entries, name.as_str()) {
            Some(i) => same_strings(&self.entries[i].1, &element_types),
            None => {
                let ghost before = self@;
                proof {
                    lemma_lookup_none_means_absent(before, name@);
                }
                let ghost added = (name@, strings_view(element_types@));
                let mut entries: Vec<(String, Vec<String>)> = Vec::new();
                std::mem::swap(&mut entries, &mut self.entries);
                entries.push((name, element_types));
                assert(entries@.map_values(|e: (String, Vec<String>)| (e.0@, strings_view(e.1@)))
                    =~= before.push(added));
                self.entries = entries;
                assert(self@ =~= before.push(added));
                true
            },
        }
    }

    /// The element types registered under `name`.
    pub fn element_types(&self, name: &str) -> (r: Option<&Vec<String>>)
        ensures
            match shape_lookup(self@, name@) {
                Some(t) => r matches Some(v) && strings_view(v@) == t,
                None => r is None,
            },
    {
        match entry_position(&self.entries, name) {
            Some(i) => Some(&self.entries[i].1),
            None => None,
        }
    }

    /// Every entry, in registration order.
    pub fn iter(&self) -> (r: &Vec<(String, Vec<String>)>)
        ensures
            r@.map_values(|e: (String, Vec<String>)| (e.0@, strings_view(e.1@))) == self@,
    {
        &self.entries
    }

    /// Whether nothing has been registered.
    pub fn is_empty(&self) -> (r: bool)
        ensures
            r == (self@.len() == 0),
    {
        self.entries.len() == 0
    }
}

/// One registration: a name not yet taken is appended with its layout; a
/// taken name leaves the table as it is.
pub open spec fn register_step(
    entries: Seq<(Seq<char>, Seq<Seq<char>>)>,
    op: (Seq<char>, Seq<Seq<char>>),
) -> Seq<(Seq<char>, Seq<Seq<char>>)> {
    match shape_lookup(entries, op.0) {
        Some(_) => entries,
        None => entries.push(op),
    }
}

/// The table that a sequence of registrations builds from an empty one.
pub open spec fn registered(ops: Seq<(Seq<char>, Seq<Seq<char>>)>) -> Seq<
    (Seq<char>, Seq<Seq<char>>),
>
    decreases ops.len(),
{
    if ops.len() == 0 {
        Seq::empty()
    } else {
        register_step(registered(ops.drop_last()), ops.last())
    }
}

/// The position of the first registration of `name`, if any.
pub open spec fn first_index(ops: Seq<(Seq<char>, Seq<Seq<char>>)>, name: Seq<char>) -> Option<int>
    decreases ops.len(),
{
    if ops.len() == 0 {
        None
    } else {
        match first_index(ops.drop_last(), name) {
            Some(i) => Some(i),
            None => if ops.last().0 == name {
                Some(ops.len() - 1)
            } else {
                None
            },
        }
    }
}

proof fn lemma_lookup_push_other(
    entries: Seq<(Seq<char>, Seq<Seq<char>>)>,
    op: (Seq<char>, Seq<Seq<char>>),
    name: Seq<char>,
)
    requires
        op.0 != name,
    ensures
        shape_lookup(entries.push(op), name) == shape_lookup(entries, name),
    decreases entries.len(),
{
    if entries.len() == 0 {
        assert(entries.push(op).drop_first() =~= Seq::<(Seq<char>, Seq<Seq<char>>)>::empty());
    } else {
        assert(entries.push(op).drop_first() == entries.drop_first().push(op));
        lemma_lookup_push_other(entries.drop_first(), op, name);
    }
}

proof fn lemma_first_index_bounds(ops: Seq<(Seq<char>, Seq<Seq<char>>)>, name: Seq<char>)
    ensures
        first_index(ops, name) matches Some(i) ==> 0 <= i < ops.len() && ops[i].0 == name
            && forall|j: int| 0 <= j < i ==> (#[trigger] ops[j]).0 != name,
        first_index(ops, name) is None ==> forall|j: int| 0 <= j < ops.len() ==> (#[trigger] ops[j]).0
            != name,
    decreases ops.len(),
{
    if ops.len() > 0 {
        let init = ops.drop_last();
        lemma_first_index_bounds(init, name);
        if let Some(i) = first_index(init, name) {
            assert(ops[i] == init[i]);
            assert forall|j: int| 0 <= j < i implies (#[trigger] ops[j]).0 != name by {
                assert(init[j] == ops[j]);
            }
        } else {
            assert forall|j: int| 0 <= j < init.len() implies (#[trigger] ops[j]).0 != name by {
                assert(init[j] == ops[j]);
            }
        }
    }
}

/// Registering layouts one after another, in any order and with any
/// repetitions, builds a table that holds each registered name exactly once,
/// in the order of each name's first registration, with the layout of that
/// first registration; a name never registered is not in it.
pub proof fn lemma_registration_sequence(ops: Seq<(Seq<char>, Seq<Seq<char>>)>)
    ensures
        names_distinct(registered(ops)),
        forall|name: Seq<char>| #[trigger] shape_lookup(registered(ops), name) == match first_index(
            ops,
            name,
        ) {
            Some(i) => Some(ops[i].1),
            None => None,
        },
        forall|k: int| 0 <= k < registered(ops).len() ==> (#[trigger] first_index(
            ops,
            registered(ops)[k].0,
        ) matches Some(i) && registered(ops)[k] == ops[i]),
        forall|k1: int, k2: int| 0 <= k1 < k2 < registered(ops).len() ==> first_index(
            ops,
            #[trigger] registered(ops)[k1].0,
        )->0 < first_index(ops, #[trigger] registered(ops)[k2].0)->0,
    decreases ops.len(),
{
    if ops.len() > 0 {
        let init = ops.drop_last();
        let op = ops.last();
        let n = ops.len() - 1;
        lemma_registration_sequence(init);
        let prev = registered(init);
        let cur = registered(ops);
        assert(op == ops[n]);
        assert forall|j: int| 0 <= j < init.len() implies #[trigger] init[j] == ops[j] by {}
        assert forall|name: Seq<char>| #[trigger] first_index(ops, name) == match first_index(
            init,
            name,
        ) {
            Some(i) => Some(i),
            None => if op.0 == name {
                Some(n)
            } else {
                None
            },
        } by {}
        match shape_lookup(prev, op.0) {
            Some(_) => {
                assert(cur == prev);
                assert forall|name: Seq<char>| #[trigger] shape_lookup(cur, name) == match first_index(
                    ops,
                    name,
                ) {
                    Some(i) => Some(ops[i].1),
                    None => None,
                } by {
                    assert(shape_lookup(prev, name) == match first_index(init, name) {
                        Some(i) => Some(init[i].1),
                        None => None,
                    });
                    if first_index(init, name) is None && op.0 == name {
                        assert(false);
                    }
                    if let Some(i) = first_index(init, name) {
                        lemma_first_index_bounds(init, name);
                    }
                }
                assert forall|k: int| 0 <= k < cur.len() implies (#[trigger] first_index(
                    ops,
                    cur[k].0,
                ) matches Some(i) && cur[k] == ops[i]) by {
                    assert(first_index(init, prev[k].0) is Some);
                    lemma_first_index_bounds(init, prev[k].0);
                }
                assert forall|k1: int, k2: int| 0 <= k1 < k2 < cur.len() implies first_index(
                    ops,
                    #[trigger] cur[k1].0,
                )->0 < first_index(ops, #[trigger] cur[k2].0)->0 by {
                    assert(first_index(init, prev[k1].0) is Some);
                    assert(first_index(init, prev[k2].0) is Some);
                }
            },
            None => {
                assert(cur == prev.push(op));
                lemma_lookup_none_means_absent(prev, op.0);
                assert(first_index(init, op.0) is None);
                assert(first_index(ops, op.0) == Some(n));
                assert forall|i: int, j: int| 0 <= i < j < cur.len() implies cur[i].0 != cur[j].0 by {
                    if j == cur.len() - 1 {
                        assert(cur[i] == prev[i]);
                    } else {
                        assert(cur[i] == prev[i]);
                        assert(cur[j] == prev[j]);
                    }
                }
                assert forall|name: Seq<char>| #[trigger] shape_lookup(cur, name) == match first_index(
                    ops,
                    name,
                ) {
                    Some(i) => Some(ops[i].1),
                    None => None,
                } by {
                    if name == op.0 {
                        lemma_new_registration_reads_back(prev, op.0, op.1);
                    } else {
                        lemma_lookup_push_other(prev, op, name);
                        assert(shape_lookup(prev, name) == match first_index(init, name) {
                            Some(i) => Some(init[i].1),
                            None => None,
                        });
                        if let Some(i) = first_index(init, name) {
                            lemma_first_index_bounds(init, name);
                        }
                    }
                }
                assert forall|k: int| 0 <= k < cur.len() implies (#[trigger] first_index(
                    ops,
                    cur[k].0,
                ) matches Some(i) && cur[k] == ops[i]) by {
                    if k < prev.len() {
                        assert(cur[k] == prev[k]);
                        assert(first_index(init, prev[k].0) is Some);
                        lemma_first_index_bounds(init, prev[k].0);
                    }
                }
                assert forall|k1: int, k2: int| 0 <= k1 < k2 < cur.len() implies first_index(
                    ops,
                    #[trigger] cur[k1].0,
                )->0 < first_index(ops, #[trigger] cur[k2].0)->0 by {
                    assert(cur[k1] == prev[k1]);
                    assert(first_index(init, prev[k1].0) is Some);
                    lemma_first_index_bounds(init, prev[k1].0);
                    if k2 < prev.len() {
                        assert(cur[k2] == prev[k2]);
                        assert(first_index(init, prev[k2].0) is Some);
                    }
                }
            },
        }
    }
}

/// A later registration never changes what an earlier one registered under
/// a name: the layout first recorded is the one looked up ever after.
pub proof fn lemma_first_registration_stays(
    entries: Seq<(Seq<char>, Seq<Seq<char>>)>,
    later: (Seq<char>, Seq<Seq<char>>),
    name: Seq<char>,
)
    requires
        shape_lookup(entries, name) is Some,
    ensures
        shape_lookup(entries.push(later), name) == shape_lookup(entries, name),
    decreases entries.len(),
{
    if entries[0].0 != name {
        assert(entries.push(later).drop_first() == entries.drop_first().push(later));
        lemma_first_registration_stays(entries.drop_first(), later, name);
    }
}

/// A name registered for the first time is looked up as what was
/// registered.
pub proof fn lemma_new_registration_reads_back(
    entries: Seq<(Seq<char>, Seq<Seq<char>>)>,
    name: Seq<char>,
    element_types: Seq<Seq<char>>,
)
    requires
        shape_lookup(entries, name) is None,
    ensures
        shape_lookup(entries.push((name, element_types)), name) == Some(element_types),
    decreases entries.len(),
{
    if entries.len() > 0 {
        assert(entries.push((name, element_types)).drop_first() == entries.drop_first().push(
            (name, element_types),
        ));
        lemma_new_registration_reads_back(entries.drop_first(), name, element_types);
    } else {
        assert(entries.push((name, element_types))[0] == (name, element_types));
    }
}

proof fn lemma_lookup_none_means_absent(entries: Seq<(Seq<char>, Seq<Seq<char>>)>, name: Seq<char>)
    requires
        shape_lookup(entries, name) is None,
    ensures
        forall|i: int| 0 <= i < entries.len() ==> entries[i].0 != name,
    decreases entries.len(),
{
    if entries.len() > 0 {
        lemma_lookup_none_means_absent(entries.drop_first(), name);
        assert forall|i: int| 0 <= i < entries.len() implies entries[i].0 != name by {
            if i > 0 {
                assert(entries[i] == entries.drop_first()[i - 1]);
            }
        }
    }
}

// ---------------------------------------------------------------------------
// Tuple names
// ---------------------------------------------------------------------------

/// An ASCII letter or digit.
pub open spec fn is_ascii_alnum(c: char) -> bool {
    ('a' <= c && c <= 'z') || ('A' <= c && c <= 'Z') || ('0' <= c && c <= '9')
}

/// One element type as it appears inside a tuple's C name: letters and
/// digits are kept, `*` becomes the word `p` (`const char*` is
/// `const_char_p`), and every other run of characters becomes a single `_`
/// (none right after an `_` already written, which `last_us` records).
pub open spec fn sanitize(cs: Seq<char>, last_us: bool) -> Seq<char>
    decreases cs.len(),
{
    if cs.len() == 0 {
        Seq::empty()
    } else if is_ascii_alnum(cs[0]) {
        seq![cs[0]] + sanitize(cs.drop_first(), false)
    } else if cs[0] == '*' {
        (if last_us {
            seq!['p']
        } else {
            seq!['_', 'p']
        }) + sanitize(cs.drop_first(), false)
    } else if !last_us {
        seq!['_'] + sanitize(cs.drop_first(), true)
    } else {
        sanitize(cs.drop_first(), true)
    }
}

/// Every element type, each after a `_` separator.
pub open spec fn mangle_elements(types: Seq<Seq<char>>) -> Seq<char>
    decreases types.len(),
{
    if types.len() == 0 {
        Seq::empty()
    } else {
        mangle_elements(types.drop_last()) + seq!['_'] + sanitize(types.last(), true)
    }
}

/// The C name of the struct that stands for a tuple of the given element C
/// types: `__pd_tuple`, the arity, then the sanitised element types.
pub open spec fn tuple_name(types: Seq<Seq<char>>) -> Seq<char> {
    TUPLE_PREFIX@ + decimal(types.len()) + mangle_elements(types)
}

pub const TUPLE_PREFIX: &'static str = "__pd_tuple";

pub const COLLISION_HEAD: &'static str = "two different tuple shapes mangle to the same C name `";

pub const COLLISION_TAIL: &'static str = ". The name is built by sanitising each element type, so an underscore in a type name can move the boundary between elements. Rename one of the types involved; this is a compiler limitation and not a limit of the language";

/// The refusal of a second layout under a name already given out.
pub open spec fn collision_message(name: Seq<char>, existing: Seq<char>, new: Seq<char>) -> Seq<
    char,
> {
    COLLISION_HEAD@ + name + "`: ("@ + existing + ") and ("@ + new + ")"@ + COLLISION_TAIL@
}

fn push_sanitized(name: &mut String, c_type: &str)
    ensures
        final(name)@ == old(name)@ + sanitize(c_type@, true),
{
    let cs = chars_of(c_type);
    let mut last_us = true;
    let mut j: usize = 0;
    assert(cs@.skip(0) == cs@);
    while j < cs.len()
        invariant
            j <= cs.len(),
            cs@ == c_type@,
            name@ + sanitize(cs@.skip(j as int), last_us) == old(name)@ + sanitize(c_type@, true),
        decreases cs.len() - j,
    {
        let ch = cs[j];
        let ghost rest = cs@.skip(j + 1);
        let ghost before = name@;
        proof {
            assert(cs@.skip(j as int)[0] == ch);
            assert(cs@.skip(j as int).drop_first() == rest);
        }
        if ('a' <= ch && ch <= 'z') || ('A' <= ch && ch <= 'Z') || ('0' <= ch && ch <= '9') {
            push_char(name, ch);
            last_us = false;
            assert(before + (seq![ch] + sanitize(rest, false)) == name@ + sanitize(rest, false));
        } else if ch == '*' {
            if !last_us {
                push_char(name, '_');
            }
            push_char(name, 'p');
            assert(before + ((if last_us {
                seq!['p']
            } else {
                seq!['_', 'p']
            }) + sanitize(rest, false)) == name@ + sanitize(rest, false));
            last_us = false;
        } else if !last_us {
            push_char(name, '_');
            last_us = true;
            assert(before + (seq!['_'] + sanitize(rest, true)) == name@ + sanitize(rest, true));
        }
        j = j + 1;
    }
    assert(cs@.skip(j as int) == Seq::<char>::empty());
    assert(name@ + Seq::<char>::empty() == name@);
}

/// The tuple name for `element_c_types`, as a `String`.
pub fn tuple_name_of(element_c_types: &[String]) -> (r: String)
    ensures
        r@ == tuple_name(element_c_types@.map_values(|s: String| s@)),
{
    let ghost views = element_c_types@.map_values(|s: String| s@);
    let mut name = string_of(TUPLE_PREFIX);
    push_usize(&mut name, element_c_types.len());
    let mut i: usize = 0;
    assert(views.take(0) == Seq::<Seq<char>>::empty());
    while i < element_c_types.len()
        invariant
            i <= element_c_types.len(),
            views == element_c_types@.map_values(|s: String| s@),
            name@ == TUPLE_PREFIX@ + decimal(views.len()) + mangle_elements(views.take(i as int)),
        decreases element_c_types.len() - i,
    {
        push_char(&mut name, '_');
        push_sanitized(&mut name, element_c_types[i].as_str());
        i = i + 1;
        proof {
            assert(views.take(i as int).drop_last() == views.take(i - 1));
            assert(views.take(i as int).last() == element_c_types@[i - 1]@);
        }
    }
    assert(views.take(views.len() as int) == views);
    name
}

// ---------------------------------------------------------------------------
// The generator
// ---------------------------------------------------------------------------

/// The state of the C backend that this library keeps: the module's name,
/// the C types of the variables in scope, the tuple shapes registered so far,
/// and the statements hoisted out of the expression being generated, with
/// the counter that names their temporaries.
pub struct CodeGenerator {
    module_name: String,
    /// Variable names and their C types, latest binding last.
    variables: Vec<(String, String)>,
    /// Every distinct tuple shape, in the order it must be defined.
    tuple_shapes: OrderedMap,
    /// Statements to be spliced in front of the statement being generated.
    pending_hoists: String,
    /// Serial number for hoisted temporaries.
    hoist_counter: usize,
    /// What is known of the arrays in scope, latest binding last; a name
    /// bound to something that is not an array shadows with `None`.
    array_bindings: Vec<(String, Option<ArrayBinding>)>,
    /// The C text generated so far.
    output: String,
    /// The struct tags defined so far.
    defined_structs: Vec<String>,
    /// Each struct declared so far with its fields' C types, latest last.
    struct_fields: Vec<(String, Vec<(String, String)>)>,
    /// Each function declared so far with its signature, latest last.
    functions: Vec<(String, FnSig)>,
    /// Each `impl` method declared so far, under the name its calls use
    /// (`Owner::method`), with its C return type (none where generic),
    /// latest last.
    impl_methods: Vec<(String, Option<String>)>,
    /// The constructor functions of the enums defined so far, emitted after
    /// every type definition.
    enum_constructors: String,
}

impl CodeGenerator {
    /// The module this generator emits.
    pub closed spec fn module(&self) -> Seq<char> {
        self.module_name@
    }

    /// The registered tuple shapes, in registration order.
    pub closed spec fn shapes(&self) -> Seq<(Seq<char>, Seq<Seq<char>>)> {
        self.tuple_shapes@
    }

    /// The variables in scope and their C types.
    pub closed spec fn scope(&self) -> Seq<(Seq<char>, Seq<char>)> {
        self.variables@.map_values(|v: (String, String)| (v.0@, v.1@))
    }

    /// The array bindings in scope, latest last.
    pub closed spec fn arrays(&self) -> Seq<(Seq<char>, Option<BindingView>)> {
        self.array_bindings@.map_values(
            |b: (String, Option<ArrayBinding>)|
                (
                    b.0@,
                    match b.1 {
                        Some(a) => Some(binding_view(a)),
                        None => None,
                    },
                ),
        )
    }

    /// The structs declared so far, each with its fields' C types.
    pub closed spec fn structs(&self) -> Seq<(Seq<char>, Seq<(Seq<char>, Seq<char>)>)> {
        self.struct_fields@.map_values(
            |e: (String, Vec<(String, String)>)|
                (e.0@, e.1@.map_values(|f: (String, String)| (f.0@, f.1@))),
        )
    }

    /// The functions declared so far, each with its signature.
    pub closed spec fn fns(&self) -> Seq<(Seq<char>, FnSig)> {
        self.functions@.map_values(|e: (String, FnSig)| (e.0@, e.1))
    }

    /// What inference reads: the variables in scope and the structs and
    /// functions declared.
    pub open spec fn env(&self) -> Env {
        Env {
            vars: self.scope(),
            structs: self.structs(),
            functions: self.fns(),
            methods: self.methods(),
            shapes: self.shapes(),
        }
    }

    /// Everything but the tuple-shape registry is as in `other`.
    pub open spec fn only_shapes_differ(&self, other: &Self) -> bool {
        &&& self.module() == other.module()
        &&& self.scope() == other.scope()
        &&& self.arrays() == other.arrays()
        &&& self.hoisted() == other.hoisted()
        &&& self.hoist_count() == other.hoist_count()
        &&& self.structs() == other.structs()
        &&& self.fns() == other.fns()
        &&& self.methods() == other.methods()
        &&& self.output() == other.output()
        &&& self.defined() == other.defined()
    }

    /// The `impl` methods declared so far and their C return types.
    pub closed spec fn methods(&self) -> Seq<(Seq<char>, Option<Seq<char>>)> {
        self.impl_methods@.map_values(
            |m: (String, Option<String>)|
                (
                    m.0@,
                    match m.1 {
                        Some(t) => Some(t@),
                        None => None,
                    },
                ),
        )
    }

    /// The enum constructor functions generated so far.
    pub closed spec fn constructors(&self) -> Seq<char> {
        self.enum_constructors@
    }

    /// The C text generated so far.
    pub closed spec fn output(&self) -> Seq<char> {
        self.output@
    }

    /// The struct tags defined so far.
    pub closed spec fn defined(&self) -> Set<Seq<char>> {
        self.defined_structs@.map_values(|n: String| n@).to_set()
    }

    /// The struct tags defined so far, in the order they were defined.
    pub closed spec fn defined_tags(&self) -> Seq<Seq<char>> {
        self.defined_structs@.map_values(|n: String| n@)
    }

    /// The statements hoisted so far.
    pub closed spec fn hoisted(&self) -> Seq<char> {
        self.pending_hoists@
    }

    /// How many temporaries have been named.
    pub closed spec fn hoist_count(&self) -> nat {
        self.hoist_counter as nat
    }

    /// The registry holds no name twice.
    pub closed spec fn well_formed(&self) -> bool {
        self.tuple_shapes.well_formed()
    }

    /// A generator for `module_name` with nothing registered.
    pub fn new(module_name: &str) -> (r: Result<Self>)
        ensures
            r matches Ok(g) && g.well_formed() && g.module() == module_name@ && g.shapes()
                == Seq::<(Seq<char>, Seq<Seq<char>>)>::empty() && g.scope() == Seq::<
                (Seq<char>, Seq<char>),
            >::empty() && g.hoisted() == Seq::<char>::empty() && g.hoist_count() == 0 && g.arrays()
                == Seq::<(Seq<char>, Option<BindingView>)>::empty() && g.output() == Seq::<
                char,
            >::empty() && g.defined() == Set::<Seq<char>>::empty() && g.structs() == Seq::<
                (Seq<char>, Seq<(Seq<char>, Seq<char>)>),
            >::empty() && g.fns() == Seq::<(Seq<char>, FnSig)>::empty() && g.methods() == Seq::<
                (Seq<char>, Option<Seq<char>>),
            >::empty(),
    {
        let g = CodeGenerator {
            module_name: string_of(module_name),
            variables: Vec::new(),
            tuple_shapes: OrderedMap { entries: Vec::new() },
            pending_hoists: String::new(),
            hoist_counter: 0,
            array_bindings: Vec::new(),
            output: String::new(),
            defined_structs: Vec::new(),
            struct_fields: Vec::new(),
            functions: Vec::new(),
            impl_methods: Vec::new(),
            enum_constructors: String::new(),
        };
        assert(g.tuple_shapes@ =~= Seq::<(Seq<char>, Seq<Seq<char>>)>::empty());
        assert(g.scope() =~= Seq::<(Seq<char>, Seq<char>)>::empty());
        assert(g.arrays() =~= Seq::<(Seq<char>, Option<BindingView>)>::empty());
        assert(g.defined() =~= Set::<Seq<char>>::empty());
        assert(g.structs() =~= Seq::<(Seq<char>, Seq<(Seq<char>, Seq<char>)>)>::empty());
        assert(g.fns() =~= Seq::<(Seq<char>, FnSig)>::empty());
        assert(g.methods() =~= Seq::<(Seq<char>, Option<Seq<char>>)>::empty());
        Ok(g)
    }

    /// The C text generated so far.
    pub fn generated_c(&self) -> (r: &str)
        ensures
            r@ == self.output(),
    {
        self.output.as_str()
    }

    /// The struct tags defined so far.
    pub fn defined_structs(&self) -> (r: &Vec<String>)
        ensures
            r@.map_values(|n: String| n@).to_set() == self.defined(),
            r@.map_values(|n: String| n@) == self.defined_tags(),
    {
        &self.defined_structs
    }

    /// The enum constructor functions generated so far.
    pub fn enum_constructors(&self) -> (r: &str)
        ensures
            r@ == self.constructors(),
    {
        self.enum_constructors.as_str()
    }

    /// Append C text to the enum constructors.
    pub(crate) fn emit_constructor(&mut self, text: &str)
        ensures
            final(self).constructors() == old(self).constructors() + text@,
            final(self).output() == old(self).output(),
            final(self).structs() == old(self).structs(),
            final(self).fns() == old(self).fns(),
            final(self).methods() == old(self).methods(),
            final(self).defined() == old(self).defined(),
            final(self).module() == old(self).module(),
            final(self).shapes() == old(self).shapes(),
            final(self).scope() == old(self).scope(),
            final(self).arrays() == old(self).arrays(),
            final(self).hoisted() == old(self).hoisted(),
            final(self).hoist_count() == old(self).hoist_count(),
            final(self).well_formed() == old(self).well_formed(),
    {
        push_str(&mut self.enum_constructors, text);
    }

    /// Append C text to the output.
    pub(crate) fn emit(&mut self, text: &str)
        ensures
            final(self).output() == old(self).output() + text@,
            final(self).constructors() == old(self).constructors(),
            final(self).structs() == old(self).structs(),
            final(self).fns() == old(self).fns(),
            final(self).methods() == old(self).methods(),
            final(self).defined_tags() == old(self).defined_tags(),
            final(self).defined() == old(self).defined(),
            final(self).module() == old(self).module(),
            final(self).shapes() == old(self).shapes(),
            final(self).scope() == old(self).scope(),
            final(self).arrays() == old(self).arrays(),
            final(self).hoisted() == old(self).hoisted(),
            final(self).hoist_count() == old(self).hoist_count(),
            final(self).well_formed() == old(self).well_formed(),
    {
        push_str(&mut self.output, text);
    }

    /// Record a struct tag as defined.
    pub(crate) fn define_struct(&mut self, name: &str)
        ensures
            final(self).defined() == old(self).defined().insert(name@),
            final(self).output() == old(self).output(),
            final(self).constructors() == old(self).constructors(),
            final(self).structs() == old(self).structs(),
            final(self).fns() == old(self).fns(),
            final(self).methods() == old(self).methods(),
            final(self).module() == old(self).module(),
            final(self).shapes() == old(self).shapes(),
            final(self).scope() == old(self).scope(),
            final(self).arrays() == old(self).arrays(),
            final(self).hoisted() == old(self).hoisted(),
            final(self).hoist_count() == old(self).hoist_count(),
            final(self).well_formed() == old(self).well_formed(),
    {
        let ghost before = self.defined_structs@.map_values(|n: String| n@);
        self.defined_structs.push(string_of(name));
        proof {
            let after = self.defined_structs@.map_values(|n: String| n@);
            assert(after =~= before.push(name@));
            assert(after.to_set() =~= before.to_set().insert(name@)) by {
                assert forall|x: Seq<char>| after.to_set().contains(x) == before.to_set().insert(
                    name@,
                ).contains(x) by {
                    if after.contains(x) {
                        let i = choose|i: int| 0 <= i < after.len() && after[i] == x;
                        if i < before.len() {
                            assert(before[i] == x);
                        }
                    }
                    if before.contains(x) {
                        let i = choose|i: int| 0 <= i < before.len() && before[i] == x;
                        assert(after[i] == x);
                    }
                    if x == name@ {
                        assert(after[before.len() as int] == x);
                    }
                }
            }
        }
    }

    /// The C name of the struct standing for a tuple shape.
    pub fn tuple_c_name(element_c_types: &[String]) -> (r: String)
        ensures
            r@ == tuple_name(element_c_types@.map_values(|s: String| s@)),
    {
        tuple_name_of(element_c_types)
    }

    /// Record a tuple shape and answer with its C name. Registering the same
    /// layout again is harmless; a different layout whose name is already
    /// taken is refused, naming both.
    pub fn register_tuple(&mut self, element_c_types: &[String]) -> (r: Result<String>)
        requires
            old(self).well_formed(),
        ensures
            final(self).structs() == old(self).structs(),
            final(self).fns() == old(self).fns(),
            final(self).methods() == old(self).methods(),
            final(self).output() == old(self).output(),
            final(self).defined() == old(self).defined(),
            final(self).arrays() == old(self).arrays(),
            final(self).well_formed(),
            final(self).module() == old(self).module(),
            final(self).scope() == old(self).scope(),
            final(self).hoisted() == old(self).hoisted(),
            final(self).hoist_count() == old(self).hoist_count(),
            ({
                let types = element_c_types@.map_values(|s: String| s@);
                let name = tuple_name(types);
                match shape_lookup(old(self).shapes(), name) {
                    None => r matches Ok(n) && n@ == name && final(self).shapes() == old(
                        self,
                    ).shapes().push((name, types)),
                    Some(existing) => final(self).shapes() == old(self).shapes() && if existing
                        == types {
                        r matches Ok(n) && n@ == name
                    } else {
                        r matches Err(CompileError::CodegenError { message }) && message@
                            == collision_message(
                            name,
                            crate::text::join_seq(existing, ", "@),
                            crate::text::join_seq(types, ", "@),
                        )
                    },
                }
            }),
    {
        let name = tuple_name_of(element_c_types);
        let ghost views = element_c_types@.map_values(|s: String| s@);
        let mut types: Vec<String> = Vec::new();
        let mut i: usize = 0;
        while i < element_c_types.len()
            invariant
                i <= element_c_types.len(),
                views == element_c_types@.map_values(|s: String| s@),
                strings_view(types@) == views.take(i as int),
            decreases element_c_types.len() - i,
        {
            let ghost before = types@;
            let t = element_c_types[i].clone();
            types.push(t);
            i = i + 1;
            assert(strings_view(types@) =~= strings_view(before).push(views[i - 1]));
            assert(views.take(i as int) =~= views.take(i - 1).push(views[i - 1]));
        }
        assert(views.take(i as int) == views);
        let joined = crate::text::join_strings(&types, ", ");
        let fresh = self.tuple_shapes.insert(name.clone(), types);
        if !fresh {
            let existing = match self.tuple_shapes.element_types(name.as_str()) {
                Some(t) => crate::text::join_strings(t, ", "),
                None => String::new(),
            };
            let mut message = string_of(COLLISION_HEAD);
            push_str(&mut message, name.as_str());
            push_str(&mut message, "`: (");
            push_str(&mut message, existing.as_str());
            push_str(&mut message, ") and (");
            push_str(&mut message, joined.as_str());
            push_str(&mut message, ")");
            push_str(&mut message, COLLISION_TAIL);
            return Err(CompileError::CodegenError { message });
        }
        Ok(name)
    }
}

// ---------------------------------------------------------------------------
// C type strings
// ---------------------------------------------------------------------------

pub const C_LONG_LONG: &'static str = "long long";

pub const C_STRING: &'static str = "const char*";

pub const C_INT: &'static str = "int";

pub const C_DOUBLE: &'static str = "double";

pub const C_FLOAT: &'static str = "float";

pub const C_CHAR: &'static str = "char";

pub const C_RANGE: &'static str = "__pd_range";

pub const C_VOID: &'static str = "void";

/// The first position of `c` in `s`.
pub open spec fn index_of(s: Seq<char>, c: char) -> Option<int>
    decreases s.len(),
{
    if s.len() == 0 {
        None
    } else if s.last() == c && index_of(s.drop_last(), c) is None {
        Some(s.len() - 1)
    } else {
        index_of(s.drop_last(), c)
    }
}

/// Number of trailing white-space characters of `s`.
pub open spec fn trailing_white(s: Seq<char>) -> nat
    decreases s.len(),
{
    if s.len() > 0 && crate::text::is_white_space(s.last()) {
        1 + trailing_white(s.drop_last())
    } else {
        0
    }
}

/// `str::trim_end`: `s` without its trailing white space.
pub open spec fn trim_end_seq(s: Seq<char>) -> Seq<char> {
    s.take(s.len() - trailing_white(s))
}

/// `s` without any space character.
pub open spec fn without_spaces(s: Seq<char>) -> Seq<char>
    decreases s.len(),
{
    if s.len() == 0 {
        s
    } else if s.last() == ' ' {
        without_spaces(s.drop_last())
    } else {
        without_spaces(s.drop_last()).push(s.last())
    }
}

/// Split a C type into its base type and its array dimensions:
/// `long long[3][2]` is `long long` and `[3][2]`.
pub open spec fn split_dims(t: Seq<char>) -> (Seq<char>, Seq<char>) {
    match index_of(t, '[') {
        Some(i) => (trim_end_seq(t.take(i)), without_spaces(t.skip(i))),
        None => (t, Seq::empty()),
    }
}

/// `t` with a new outermost dimension of `size` elements.
pub open spec fn array_type(t: Seq<char>, size: nat) -> Seq<char> {
    split_dims(t).0 + "["@ + decimal(size) + "]"@ + split_dims(t).1
}

/// The number of trailing `*` and space characters.
pub open spec fn trailing_stars(s: Seq<char>) -> nat
    decreases s.len(),
{
    if s.len() > 0 && (s.last() == '*' || s.last() == ' ') {
        1 + trailing_stars(s.drop_last())
    } else {
        0
    }
}

/// The struct or enum tag a C type names, if it names one:
/// `struct Point`, `struct Point*` and `Point` all name `Point`.
pub open spec fn struct_name(t: Seq<char>) -> Option<Seq<char>> {
    let bare = t.take(t.len() - trailing_stars(t));
    let name = if crate::text::starts_with_seq(bare, "struct "@) {
        bare.skip(7)
    } else {
        bare
    };
    if name.len() == 0 || name.contains('[') {
        None
    } else {
        Some(name)
    }
}

/// The declarator of a pointer called `name` to `base` with array `dims`.
pub open spec fn pointer_decl(base: Seq<char>, dims: Seq<char>, name: Seq<char>) -> Seq<char> {
    if dims.len() == 0 {
        base + " *"@ + name
    } else {
        base + " (*"@ + name + ")"@ + dims
    }
}

/// The C spelling of a 64-bit integer literal. The most negative value is
/// written as a difference, because its magnitude is not a `long long`.
pub open spec fn i64_literal(v: int) -> Seq<char> {
    if v == i64::MIN {
        "(-9223372036854775807LL - 1)"@
    } else {
        crate::text::signed_decimal(v) + "LL"@
    }
}

/// The scalar C types a plain `0` initialises.
pub open spec fn is_scalar_c_type(t: Seq<char>) -> bool {
    (t.len() > 0 && t.last() == '*') || t == "long long"@ || t == "long"@ || t == "int"@ || t
        == "short"@ || t == "char"@ || t == "unsigned"@ || t == "double"@ || t == "float"@ || t
        == "size_t"@
}

/// The initialiser that writes a zero of `t`.
pub open spec fn zero_initializer(t: Seq<char>) -> Seq<char> {
    if is_scalar_c_type(t) {
        "0"@
    } else {
        "{0}"@
    }
}

fn find_char(cs: &Vec<char>, c: char) -> (r: Option<usize>)
    ensures
        r matches Some(i) ==> i < cs.len() && index_of(cs@, c) == Some(i as int),
        r is None ==> index_of(cs@, c) is None,
{
    let mut i: usize = 0;
    while i < cs.len()
        invariant
            i <= cs.len(),
            index_of(cs@.take(i as int), c) is None,
        decreases cs.len() - i,
    {
        proof {
            assert(cs@.take(i + 1).drop_last() == cs@.take(i as int));
        }
        if cs[i] == c {
            proof {
                lemma_index_of_prefix(cs@, c, i as int);
            }
            return Some(i);
        }
        i = i + 1;
    }
    assert(cs@.take(i as int) == cs@);
    None
}

proof fn lemma_index_of_prefix(s: Seq<char>, c: char, i: int)
    requires
        0 <= i < s.len(),
        s[i] == c,
        index_of(s.take(i), c) is None,
    ensures
        index_of(s, c) == Some(i),
    decreases s.len(),
{
    if i == s.len() - 1 {
        assert(s.drop_last() == s.take(i));
    } else {
        assert(s.drop_last().take(i) == s.take(i));
        lemma_index_of_prefix(s.drop_last(), c, i);
    }
}

/// The length of `cs[..end]` without its trailing white space.
fn trimmed_end(cs: &Vec<char>, end: usize) -> (r: usize)
    requires
        end <= cs.len(),
    ensures
        r == end - trailing_white(cs@.take(end as int)),
{
    let mut k: usize = end;
    while k > 0 && crate::text::char_is_whitespace(cs[k - 1])
        invariant
            k <= end <= cs.len(),
            trailing_white(cs@.take(end as int)) == (end - k) + trailing_white(cs@.take(k as int)),
        decreases k,
    {
        assert(cs@.take(k as int).drop_last() == cs@.take(k - 1));
        k = k - 1;
    }
    k
}

/// Split a C type into base type and dimensions.
pub fn split_array_dims(c_type: &str) -> (r: (String, String))
    ensures
        r.0@ == split_dims(c_type@).0,
        r.1@ == split_dims(c_type@).1,
{
    let cs = chars_of(c_type);
    match find_char(&cs, '[') {
        Some(i) => {
            let k = trimmed_end(&cs, i);
            assert(cs@.take(i as int).take(k as int) == cs@.subrange(0, k as int));
            let base = crate::text::slice_string(&cs, 0, k);
            let mut dims = String::new();
            let mut j: usize = i;
            while j < cs.len()
                invariant
                    i <= j <= cs.len(),
                    cs@ == c_type@,
                    dims@ == without_spaces(cs@.subrange(i as int, j as int)),
                decreases cs.len() - j,
            {
                assert(cs@.subrange(i as int, j + 1).drop_last() == cs@.subrange(i as int, j as int));
                if cs[j] != ' ' {
                    push_char(&mut dims, cs[j]);
                }
                j = j + 1;
            }
            assert(cs@.subrange(i as int, j as int) == cs@.skip(i as int));
            assert(index_of(c_type@, '[') == Some(i as int));
            assert(trim_end_seq(cs@.take(i as int)) == cs@.subrange(0, k as int));
            assert(base@ == split_dims(c_type@).0);
            assert(dims@ == split_dims(c_type@).1);
            (base, dims)
        },
        None => (string_of(c_type), String::new()),
    }
}

/// `s` with every trailing `*` and space removed, as a length.
fn without_trailing_stars(cs: &Vec<char>) -> (r: usize)
    ensures
        r == cs.len() - trailing_stars(cs@),
{
    let mut k: usize = cs.len();
    assert(cs@.take(k as int) == cs@);
    while k > 0 && (cs[k - 1] == '*' || cs[k - 1] == ' ')
        invariant
            k <= cs.len(),
            trailing_stars(cs@) == (cs.len() - k) + trailing_stars(cs@.take(k as int)),
        decreases k,
    {
        assert(cs@.take(k as int).drop_last() == cs@.take(k - 1));
        k = k - 1;
    }
    k
}

fn vec_contains_char(cs: &Vec<char>, from: usize, to: usize, c: char) -> (r: bool)
    requires
        from <= to <= cs.len(),
    ensures
        r == cs@.subrange(from as int, to as int).contains(c),
{
    let mut j: usize = from;
    while j < to
        invariant
            from <= j <= to <= cs.len(),
            forall|k: int| from <= k < j ==> cs@[k] != c,
        decreases to - j,
    {
        if cs[j] == c {
            assert(cs@.subrange(from as int, to as int)[j - from] == c);
            return true;
        }
        j = j + 1;
    }
    assert forall|k: int| 0 <= k < to - from implies cs@.subrange(from as int, to as int)[k]
        != c by {
        assert(cs@.subrange(from as int, to as int)[k] == cs@[from + k]);
    }
    false
}

impl CodeGenerator {
    /// The struct or enum tag named by a C type string.
    pub fn struct_name_of(c_type: &str) -> (r: Option<String>)
        ensures
            match struct_name(c_type@) {
                Some(n) => r matches Some(s) && s@ == n,
                None => r is None,
            },
    {
        let cs = chars_of(c_type);
        let end = without_trailing_stars(&cs);
        let ghost bare = c_type@.take(end as int);
        let prefix = chars_of("struct ");
        proof {
            reveal_strlit("struct ");
        }
        let mut start: usize = 0;
        let mut is_struct = end >= 7;
        if is_struct {
            let mut j: usize = 0;
            while j < 7
                invariant
                    j <= 7 <= end <= cs.len(),
                    cs@ == c_type@,
                    prefix@ == "struct "@,
                    prefix@.len() == 7,
                    is_struct == (forall|k: int| 0 <= k < j ==> cs@[k] == prefix@[k]),
                decreases 7 - j,
            {
                if cs[j] != prefix[j] {
                    is_struct = false;
                }
                j = j + 1;
            }
        }
        proof {
            reveal_strlit("struct ");
            if is_struct {
                assert(bare.subrange(0, 7) =~= "struct "@);
            } else if end >= 7 {
                let k = choose|k: int| 0 <= k < 7 && cs@[k] != prefix@[k];
                assert(bare.subrange(0, 7)[k] != "struct "@[k]);
            }
        }
        if is_struct {
            start = 7;
        }
        assert(cs@.subrange(start as int, end as int) == (if is_struct {
            bare.skip(7)
        } else {
            bare
        }));
        if start == end || vec_contains_char(&cs, start, end, '[') {
            None
        } else {
            Some(crate::text::slice_string(&cs, start, end))
        }
    }

    /// `elem_type` with a new outermost dimension of `size` elements.
    pub fn array_of(elem_type: &str, size: usize) -> (r: String)
        ensures
            r@ == array_type(elem_type@, size as nat),
    {
        let (base, dims) = split_array_dims(elem_type);
        let mut out = base;
        push_char(&mut out, '[');
        push_usize(&mut out, size);
        push_char(&mut out, ']');
        push_str(&mut out, dims.as_str());
        proof {
            reveal_strlit("[");
            reveal_strlit("]");
            assert(out@ =~= array_type(elem_type@, size as nat));
        }
        out
    }

    /// The declarator of a pointer called `name` to `base` with array `dims`:
    /// `long long (*t)[2]` rather than the array of pointers `long long *t[2]`.
    pub fn pointer_declarator(base: &str, dims: &str, name: &str) -> (r: String)
        ensures
            r@ == pointer_decl(base@, dims@, name@),
    {
        let mut out = string_of(base);
        let dcs = chars_of(dims);
        if dcs.len() == 0 {
            push_str(&mut out, " *");
            push_str(&mut out, name);
        } else {
            push_str(&mut out, " (*");
            push_str(&mut out, name);
            push_str(&mut out, ")");
            push_str(&mut out, dims);
        }
        out
    }

    /// The C spelling of a 64-bit integer literal.
    pub fn c_i64_literal(value: i64) -> (r: String)
        ensures
            r@ == i64_literal(value as int),
    {
        if value == i64::MIN {
            string_of("(-9223372036854775807LL - 1)")
        } else {
            let mut out = String::new();
            crate::text::push_i64(&mut out, value);
            push_str(&mut out, "LL");
            out
        }
    }

    /// The C initialiser that writes a zero of `c_type`: `0` for scalars and
    /// pointers, `{0}` for anything aggregate.
    pub fn zero_of(c_type: &str) -> (r: &'static str)
        ensures
            r@ == zero_initializer(c_type@),
    {
        let cs = chars_of(c_type);
        let n = cs.len();
        let ends_with_star = n > 0 && cs[n - 1] == '*';
        let scalar = ends_with_star || str_eq(c_type, "long long") || str_eq(c_type, "long")
            || str_eq(c_type, "int") || str_eq(c_type, "short") || str_eq(c_type, "char")
            || str_eq(c_type, "unsigned") || str_eq(c_type, "double") || str_eq(c_type, "float")
            || str_eq(c_type, "size_t");
        if scalar {
            "0"
        } else {
            "{0}"
        }
    }
}

// ---------------------------------------------------------------------------
// Expressions
// ---------------------------------------------------------------------------

/// Whether evaluating `e` cannot be observed: literals and names, and the
/// operators over them. A call, or anything that can contain one, is not
/// pure.
pub open spec fn pure_expr(e: Expr) -> bool
    decreases e,
{
    match e {
        Expr::String(_) | Expr::Integer(_) | Expr::Bool(_) | Expr::Char(_) | Expr::Ident(_) => true,
        Expr::Index { array, index, .. } => pure_expr(*array) && pure_expr(*index),
        Expr::TupleIndex { expr, .. } | Expr::Cast { expr, .. } => pure_expr(*expr),
        Expr::Tuple { elements, .. } => all_pure(elements@),
        Expr::FieldAccess { object, .. } => pure_expr(*object),
        Expr::Unary { operand, .. } => pure_expr(*operand),
        Expr::Binary { left, right, .. } => pure_expr(*left) && pure_expr(*right),
        Expr::Reference { expr, .. } => pure_expr(*expr),
        Expr::Deref { expr, .. } => pure_expr(*expr),
        Expr::ArrayLiteral { elements, .. } => all_pure(elements@),
        Expr::ArrayRepeat { value, .. } => pure_expr(*value),
        Expr::StructLiteral { fields, .. } => all_fields_pure(fields@),
        Expr::Range { start, end, .. } => pure_expr(*start) && pure_expr(*end),
        _ => false,
    }
}

/// Every expression of `es` is pure.
pub open spec fn all_pure(es: Seq<Expr>) -> bool
    decreases es,
{
    if es.len() == 0 {
        true
    } else {
        all_pure(es.drop_last()) && pure_expr(es.last())
    }
}

/// Every field initialiser of `fs` is pure.
pub open spec fn all_fields_pure(fs: Seq<(String, Expr)>) -> bool
    decreases fs,
{
    if fs.len() == 0 {
        true
    } else {
        all_fields_pure(fs.drop_last()) && pure_expr(fs.last().1)
    }
}

/// The variable at the base of a place expression, if it has one.
pub open spec fn root_ident(e: Expr) -> Option<Seq<char>>
    decreases e,
{
    match e {
        Expr::Ident(name) => Some(name@),
        Expr::Index { array, .. } => root_ident(*array),
        Expr::FieldAccess { object, .. } => root_ident(*object),
        Expr::Deref { expr, .. } => root_ident(*expr),
        _ => None,
    }
}

/// The variable an assignment ultimately writes into.
pub open spec fn target_root(t: AssignTarget) -> Option<Seq<char>> {
    match t {
        AssignTarget::Ident(name) => Some(name@),
        AssignTarget::Index { array, .. } => root_ident(*array),
        AssignTarget::FieldAccess { object, .. } => root_ident(*object),
        AssignTarget::Deref { expr } => root_ident(*expr),
    }
}

/// The name of an expression's kind, as diagnostics spell it.
pub open spec fn kind_name(e: Expr) -> Seq<char> {
    match e {
        Expr::String(_) => "string literal"@,
        Expr::Integer(_) => "integer literal"@,
        Expr::Bool(_) => "boolean literal"@,
        Expr::Ident(_) => "variable reference"@,
        Expr::ArrayLiteral { .. } => "array literal"@,
        Expr::ArrayRepeat { .. } => "array repeat"@,
        Expr::Index { .. } => "array index"@,
        Expr::Call { .. } => "function call"@,
        Expr::Binary { .. } => "binary operation"@,
        Expr::Unary { .. } => "unary operation"@,
        Expr::StructLiteral { .. } => "struct literal"@,
        Expr::FieldAccess { .. } => "field access"@,
        Expr::EnumConstructor { .. } => "enum constructor"@,
        Expr::Range { .. } => "range"@,
        Expr::Reference { .. } => "reference"@,
        Expr::Deref { .. } => "dereference"@,
        Expr::Question { .. } => "`?` operator"@,
        Expr::MacroInvocation { .. } => "macro invocation"@,
        Expr::Await { .. } => "await"@,
        Expr::Char(_) => "char literal"@,
        Expr::Tuple { .. } => "tuple"@,
        Expr::TupleIndex { .. } => "tuple element access"@,
        Expr::Cast { .. } => "`as` cast"@,
        Expr::If { .. } => "`if` expression"@,
        Expr::Block { .. } => "block expression"@,
        Expr::Loop { .. } => "`loop` expression"@,
    }
}

impl CodeGenerator {
    /// Whether evaluating `expr` can be observed; a call is the only leaf
    /// that can.
    pub fn expr_is_pure(expr: &Expr) -> (r: bool)
        ensures
            r == pure_expr(*expr),
        decreases expr,
    {
        match expr {
            Expr::String(_) | Expr::Integer(_) | Expr::Bool(_) | Expr::Char(_) | Expr::Ident(_) => true,
            Expr::TupleIndex { expr: inner, .. } | Expr::Cast { expr: inner, .. } => Self::expr_is_pure(
                inner,
            ),
            Expr::Tuple { elements, span } => {
                let mut all = true;
                let mut i: usize = 0;
                while i < elements.len()
                    invariant
                        i <= elements.len(),
                        *expr == (Expr::Tuple { elements: *elements, span: *span }),
                        all == all_pure(elements@.take(i as int)),
                    decreases elements.len() - i,
                {
                    proof {
                        assert(elements@.take(i + 1).drop_last() == elements@.take(i as int));
                        assert(decreases_to!(*expr => expr->Tuple_elements));
                        assert(decreases_to!(*elements => elements@));
                        assert(decreases_to!(elements@ => elements@[i as int]));
                    }
                    let p = Self::expr_is_pure(&elements[i]);
                    all = all && p;
                    i = i + 1;
                }
                assert(elements@.take(i as int) == elements@);
                all
            },
            Expr::Index { array, index, .. } => Self::expr_is_pure(array) && Self::expr_is_pure(
                index,
            ),
            Expr::FieldAccess { object, .. } => Self::expr_is_pure(object),
            Expr::Unary { operand, .. } => Self::expr_is_pure(operand),
            Expr::Binary { left, right, .. } => Self::expr_is_pure(left) && Self::expr_is_pure(
                right,
            ),
            Expr::Reference { expr: inner, .. } => Self::expr_is_pure(inner),
            Expr::Deref { expr: inner, .. } => Self::expr_is_pure(inner),
            Expr::ArrayLiteral { elements, span } => {
                let mut all = true;
                let mut i: usize = 0;
                while i < elements.len()
                    invariant
                        i <= elements.len(),
                        *expr == (Expr::ArrayLiteral { elements: *elements, span: *span }),
                        all == all_pure(elements@.take(i as int)),
                    decreases elements.len() - i,
                {
                    proof {
                        assert(elements@.take(i + 1).drop_last() == elements@.take(i as int));
                        assert(decreases_to!(*expr => expr->ArrayLiteral_elements));
                        assert(decreases_to!(*elements => elements@));
                        assert(decreases_to!(elements@ => elements@[i as int]));
                    }
                    let p = Self::expr_is_pure(&elements[i]);
                    all = all && p;
                    i = i + 1;
                }
                assert(elements@.take(i as int) == elements@);
                all
            },
            Expr::ArrayRepeat { value, .. } => Self::expr_is_pure(value),
            Expr::StructLiteral { name, fields, span } => {
                let mut all = true;
                let mut i: usize = 0;
                while i < fields.len()
                    invariant
                        i <= fields.len(),
                        *expr == (Expr::StructLiteral { name: *name, fields: *fields, span: *span }),
                        all == all_fields_pure(fields@.take(i as int)),
                    decreases fields.len() - i,
                {
                    proof {
                        assert(fields@.take(i + 1).drop_last() == fields@.take(i as int));
                        let ghost field = fields@[i as int];
                        assert(decreases_to!(*expr => expr->StructLiteral_fields));
                        assert(decreases_to!(*fields => fields@));
                        assert(decreases_to!(fields@ => field));
                        assert(decreases_to!(field => field.1));
                    }
                    let p = Self::expr_is_pure(&fields[i].1);
                    all = all && p;
                    i = i + 1;
                }
                assert(fields@.take(i as int) == fields@);
                all
            },
            Expr::Range { start, end, .. } => Self::expr_is_pure(start) && Self::expr_is_pure(end),
            _ => false,
        }
    }

    /// The variable at the base of a place expression, if it has one.
    pub fn expr_root_ident(expr: &Expr) -> (r: Option<&str>)
        ensures
            match root_ident(*expr) {
                Some(n) => r matches Some(s) && s@ == n,
                None => r is None,
            },
        decreases expr,
    {
        match expr {
            Expr::Ident(name) => Some(name.as_str()),
            Expr::Index { array, .. } => Self::expr_root_ident(array),
            Expr::FieldAccess { object, .. } => Self::expr_root_ident(object),
            Expr::Deref { expr: inner, .. } => Self::expr_root_ident(inner),
            _ => None,
        }
    }

    /// The variable an assignment ultimately writes into: `xs[i].f` writes
    /// `xs`.
    pub fn assign_target_root(target: &AssignTarget) -> (r: Option<&str>)
        ensures
            match target_root(*target) {
                Some(n) => r matches Some(s) && s@ == n,
                None => r is None,
            },
    {
        match target {
            AssignTarget::Ident(name) => Some(name.as_str()),
            AssignTarget::Index { array, .. } => Self::expr_root_ident(array),
            AssignTarget::FieldAccess { object, .. } => Self::expr_root_ident(object),
            AssignTarget::Deref { expr } => Self::expr_root_ident(expr),
        }
    }

    /// The name of an expression's kind, for diagnostics.
    pub fn expr_kind_name(expr: &Expr) -> (r: &'static str)
        ensures
            r@ == kind_name(*expr),
    {
        match expr {
            Expr::String(_) => "string literal",
            Expr::Integer(_) => "integer literal",
            Expr::Bool(_) => "boolean literal",
            Expr::Ident(_) => "variable reference",
            Expr::ArrayLiteral { .. } => "array literal",
            Expr::ArrayRepeat { .. } => "array repeat",
            Expr::Index { .. } => "array index",
            Expr::Call { .. } => "function call",
            Expr::Binary { .. } => "binary operation",
            Expr::Unary { .. } => "unary operation",
            Expr::StructLiteral { .. } => "struct literal",
            Expr::FieldAccess { .. } => "field access",
            Expr::EnumConstructor { .. } => "enum constructor",
            Expr::Range { .. } => "range",
            Expr::Reference { .. } => "reference",
            Expr::Deref { .. } => "dereference",
            Expr::Question { .. } => "`?` operator",
            Expr::MacroInvocation { .. } => "macro invocation",
            Expr::Await { .. } => "await",
            Expr::Char(_) => "char literal",
            Expr::Tuple { .. } => "tuple",
            Expr::TupleIndex { .. } => "tuple element access",
            Expr::Cast { .. } => "`as` cast",
            Expr::If { .. } => "`if` expression",
            Expr::Block { .. } => "block expression",
            Expr::Loop { .. } => "`loop` expression",
        }
    }
}

// ---------------------------------------------------------------------------
// Type inference for C declarations
// ---------------------------------------------------------------------------

/// The C type bound to `name` in `scope`; a later binding shadows an earlier
/// one.
pub open spec fn scope_lookup(scope: Seq<(Seq<char>, Seq<char>)>, name: Seq<char>) -> Option<
    Seq<char>,
>
    decreases scope.len(),
{
    if scope.len() == 0 {
        None
    } else if scope.last().0 == name {
        Some(scope.last().1)
    } else {
        scope_lookup(scope.drop_last(), name)
    }
}

/// The type of an indexed element: the outermost dimension of an array goes,
/// a pointer loses one level, a C string gives a `char`.
pub open spec fn element_type(t: Seq<char>) -> Option<Seq<char>> {
    match index_of(t, '[') {
        Some(i) => match index_of(t.skip(i), ']') {
            Some(c) => Some(trim_end_seq(t.take(i)) + t.skip(i).skip(c + 1)),
            None => None,
        },
        None => if t == C_STRING@ {
            Some(C_CHAR@)
        } else if t.len() > 0 && t.last() == '*' {
            Some(trim_end_seq(t.drop_last()))
        } else {
            None
        },
    }
}

/// The type `+ - * /` produce from the types of their operands.
pub open spec fn arithmetic_type(l: Seq<char>, r: Seq<char>) -> Seq<char> {
    if l == C_STRING@ && r == C_STRING@ {
        C_STRING@
    } else if l == C_DOUBLE@ || r == C_DOUBLE@ {
        C_DOUBLE@
    } else if l == C_FLOAT@ || r == C_FLOAT@ {
        C_FLOAT@
    } else {
        C_LONG_LONG@
    }
}

/// A type or, when there is none, `long long`.
pub open spec fn or_long_long(t: Option<Seq<char>>) -> Seq<char> {
    match t {
        Some(t) => t,
        None => C_LONG_LONG@,
    }
}

/// What inference reads besides the expression: the variables in scope
/// with their C types (latest binding last), the structs, functions and
/// `impl` methods declared so far (latest declaration last), and the tuple
/// shapes registered so far.
pub ghost struct Env {
    pub vars: Seq<(Seq<char>, Seq<char>)>,
    pub structs: Seq<(Seq<char>, Seq<(Seq<char>, Seq<char>)>)>,
    pub functions: Seq<(Seq<char>, FnSig)>,
    pub methods: Seq<(Seq<char>, Option<Seq<char>>)>,
    pub shapes: Seq<(Seq<char>, Seq<Seq<char>>)>,
}

/// What a call of a declared function returns, as far as its C type goes.
#[derive(Debug)]
pub enum FnReturn {
    /// This C type, or none where the declared type is generic.
    Fixed(Option<String>),
    /// Whatever the argument at this position is, for a function that
    /// returns its type parameter; nothing when no parameter has that type.
    Argument(Option<usize>),
}

/// A declared function's signature, as far as typing its calls needs.
#[derive(Debug)]
pub struct FnSig {
    pub is_async: bool,
    pub ret: FnReturn,
}

/// The C return type recorded for the `impl` method `name` by its latest
/// declaration (itself `None` where the method is generic); `None` where no
/// method has that name.
pub open spec fn method_lookup(
    methods: Seq<(Seq<char>, Option<Seq<char>>)>,
    name: Seq<char>,
) -> Option<Option<Seq<char>>>
    decreases methods.len(),
{
    if methods.len() == 0 {
        None
    } else if methods.last().0 == name {
        Some(methods.last().1)
    } else {
        method_lookup(methods.drop_last(), name)
    }
}

/// The signature of the function `name`, by its latest declaration.
pub open spec fn fn_lookup(functions: Seq<(Seq<char>, FnSig)>, name: Seq<char>) -> Option<FnSig>
    decreases functions.len(),
{
    if functions.len() == 0 {
        None
    } else if functions.last().0 == name {
        Some(functions.last().1)
    } else {
        fn_lookup(functions.drop_last(), name)
    }
}

/// Where the first parameter of type parameter `t` stands.
pub open spec fn type_param_position(params: Seq<Param>, t: Seq<char>) -> Option<int>
    decreases params.len(),
{
    if params.len() == 0 {
        None
    } else if params[0].ty matches Type::TypeParam(n) && n@ == t {
        Some(0)
    } else {
        match type_param_position(params.drop_first(), t) {
            Some(i) => Some(i + 1),
            None => None,
        }
    }
}

/// The signature a function declaration gives its calls: an `async`
/// function's call is its future; one returning its type parameter returns
/// what the matching argument is; any other returns its declared C type.
pub open spec fn fn_sig_of(f: Function) -> (bool, Option<Option<int>>, Option<Seq<char>>) {
    match f.return_type {
        Some(Type::TypeParam(t)) => (f.is_async, Some(type_param_position(f.params@, t@)), None),
        _ => (f.is_async, None, return_c_type(f.return_type)),
    }
}

/// A signature as a value: whether the function is `async`, the argument
/// position its result takes its type from (if it returns a type parameter),
/// and otherwise its return C type.
pub open spec fn sig_view(s: FnSig) -> (bool, Option<Option<int>>, Option<Seq<char>>) {
    match s.ret {
        FnReturn::Argument(p) => (
            s.is_async,
            Some(
                match p {
                    Some(i) => Some(i as int),
                    None => None,
                },
            ),
            None,
        ),
        FnReturn::Fixed(c) => (
            s.is_async,
            None,
            match c {
                Some(t) => Some(t@),
                None => None,
            },
        ),
    }
}

/// The fields of the struct `name`, by its latest declaration.
pub open spec fn struct_lookup(
    structs: Seq<(Seq<char>, Seq<(Seq<char>, Seq<char>)>)>,
    name: Seq<char>,
) -> Option<Seq<(Seq<char>, Seq<char>)>>
    decreases structs.len(),
{
    if structs.len() == 0 {
        None
    } else if structs.last().0 == name {
        Some(structs.last().1)
    } else {
        struct_lookup(structs.drop_last(), name)
    }
}

/// The C type of the first field called `name`.
pub open spec fn field_lookup(fields: Seq<(Seq<char>, Seq<char>)>, name: Seq<char>) -> Option<
    Seq<char>,
>
    decreases fields.len(),
{
    if fields.len() == 0 {
        None
    } else if fields[0].0 == name {
        Some(fields[0].1)
    } else {
        field_lookup(fields.drop_first(), name)
    }
}

/// The C type this generator infers for `e` with the variables and structs
/// of `vars` and the block-local bindings `locals` over them; `None` where it
/// has no rule. A field access has the type its struct declares for the
/// field. A call by name has the type its latest declaration gives it: an
/// `async` function's future, the matching argument's type for a function
/// returning its type parameter, or the declared return type; a callee never
/// declared to this generator has no type here.
pub open spec fn inferred(
    vars: Env,
    locals: Seq<(Seq<char>, Seq<char>)>,
    e: Expr,
) -> Option<Seq<char>>
    decreases e,
{
    match e {
        Expr::Integer(_) => Some(C_LONG_LONG@),
        Expr::Char(_) => Some(C_LONG_LONG@),
        Expr::String(_) => Some(C_STRING@),
        Expr::Bool(_) => Some(C_INT@),
        Expr::Cast { ty, .. } => Some(c_type(ty)),
        Expr::Tuple { elements, .. } => match inferred_all(vars, locals, elements@) {
            Some(types) => Some(tuple_name(types)),
            None => None,
        },
        Expr::TupleIndex { expr, index, .. } => match inferred(vars, locals, *expr) {
            Some(base) => match shape_lookup(vars.shapes, base) {
                Some(types) => if index < types.len() {
                    Some(types[index as int])
                } else {
                    None
                },
                None => None,
            },
            None => None,
        },
        Expr::StructLiteral { name, .. } => Some("struct "@ + name@),
        Expr::Ident(name) => match scope_lookup(locals, name@) {
            Some(t) => Some(t),
            None => scope_lookup(vars.vars, name@),
        },
        Expr::Call { func, args, .. } => match *func {
            Expr::Ident(name) => match fn_lookup(vars.functions, name@) {
                Some(sig) => if sig.is_async {
                    Some(name@ + "_Future"@)
                } else {
                    match sig.ret {
                        FnReturn::Argument(Some(i)) => if i < args@.len() {
                            inferred(vars, locals, args@[i as int])
                        } else {
                            None
                        },
                        FnReturn::Argument(None) => None,
                        FnReturn::Fixed(c) => match c {
                            Some(t) => Some(t@),
                            None => None,
                        },
                    }
                },
                None => match method_lookup(vars.methods, name@) {
                    Some(ret) => ret,
                    None => None,
                },
            },
            Expr::FieldAccess { object, field, .. } => match inferred(vars, locals, *object) {
                Some(receiver) => match struct_name(receiver) {
                    Some(owner) => {
                        let qualified = owner + "::"@ + field@;
                        match method_lookup(vars.methods, qualified) {
                            Some(ret) => ret,
                            None => match fn_lookup(vars.functions, qualified) {
                                Some(sig) => match sig.ret {
                                    FnReturn::Fixed(c) => match c {
                                        Some(t) => Some(t@),
                                        None => None,
                                    },
                                    FnReturn::Argument(_) => None,
                                },
                                None => None,
                            },
                        }
                    },
                    None => None,
                },
                None => None,
            },
            _ => None,
        },
        Expr::Binary { left, op, right, .. } => match op {
            BinOp::Eq | BinOp::Ne | BinOp::Lt | BinOp::Gt | BinOp::Le | BinOp::Ge | BinOp::And
            | BinOp::Or => Some(C_INT@),
            BinOp::BitAnd | BinOp::BitOr | BinOp::BitXor | BinOp::Shl | BinOp::Shr => inferred(
                vars,
                locals,
                *left,
            ),
            BinOp::Add | BinOp::Sub | BinOp::Mul | BinOp::Div => Some(
                arithmetic_type(
                    or_long_long(inferred(vars, Seq::empty(), *left)),
                    or_long_long(inferred(vars, Seq::empty(), *right)),
                ),
            ),
            BinOp::Mod => Some(C_LONG_LONG@),
        },
        Expr::Unary { op, operand, .. } => match op {
            UnaryOp::Not => Some(C_INT@),
            _ => inferred(vars, locals, *operand),
        },
        Expr::EnumConstructor { enum_name, .. } => Some("struct "@ + enum_name@),
        Expr::Reference { expr, .. } => match inferred(vars, locals, *expr) {
            Some(t) => if t.contains('[') {
                None
            } else {
                Some(t + "*"@)
            },
            None => None,
        },
        Expr::Deref { expr, .. } => match inferred(vars, locals, *expr) {
            Some(t) => if t.len() > 0 && t.last() == '*' {
                Some(trim_end_seq(t.drop_last()))
            } else {
                Some(t)
            },
            None => None,
        },
        Expr::FieldAccess { object, field, .. } => match inferred(vars, locals, *object) {
            Some(t) => match struct_name(t) {
                Some(n) => match struct_lookup(vars.structs, n) {
                    Some(fields) => field_lookup(fields, field@),
                    None => None,
                },
                None => None,
            },
            None => None,
        },
        Expr::Index { array, .. } => match inferred(vars, locals, *array) {
            Some(t) => element_type(t),
            None => None,
        },
        Expr::ArrayLiteral { elements, .. } => if elements@.len() == 0 {
            Some(array_type(C_LONG_LONG@, 0))
        } else {
            match inferred(vars, locals, elements@[0]) {
                Some(t) => Some(array_type(t, elements@.len())),
                None => None,
            }
        },
        Expr::ArrayRepeat { value, count, .. } => match inferred(vars, locals, *value) {
            Some(t) => Some(
                array_type(
                    t,
                    match *count {
                        Expr::Integer(n) => (n as usize) as nat,
                        _ => 0,
                    },
                ),
            ),
            None => None,
        },
        Expr::Range { .. } => Some(C_RANGE@),
        Expr::If { then_branch, then_value, else_branch, else_value, .. } => {
            let from_then = match then_value {
                Some(v) => {
                    proof {
                        assert(decreases_to!(e => e->If_then_branch));
                        assert(decreases_to!(e->If_then_branch => then_branch@));
                    }
                    inferred(vars, locals_after(vars, locals, then_branch@), *v)
                },
                None => None,
            };
            match from_then {
                Some(t) => Some(t),
                None => match else_value {
                    Some(v) => match else_branch {
                        Some(stmts) => {
                            proof {
                                assert(decreases_to!(e => e->If_else_branch));
                                assert(decreases_to!(e->If_else_branch => stmts));
                                assert(decreases_to!(stmts => stmts@));
                            }
                            inferred(vars, locals_after(vars, locals, stmts@), *v)
                        },
                        None => inferred(vars, locals, *v),
                    },
                    None => None,
                },
            }
        },
        Expr::Block { stmts, value, .. } => match value {
            Some(v) => {
                proof {
                    assert(decreases_to!(e => e->Block_stmts));
                    assert(decreases_to!(e->Block_stmts => stmts@));
                }
                inferred(vars, locals_after(vars, locals, stmts@), *v)
            },
            None => None,
        },
        Expr::Loop { body, .. } => match first_break_value(body@) {
            Some(v) => {
                proof {
                    lemma_break_value_within(body@);
                    assert(decreases_to!(e => e->Loop_body));
                    assert(decreases_to!(e->Loop_body => body@));
                }
                inferred(vars, locals, v)
            },
            None => None,
        },
        Expr::Question { .. } | Expr::MacroInvocation { .. } | Expr::Await { .. } => None,
    }
}

/// The value of the first `break` met in `stmts`, in order and inside
/// `if` branches, `match` arms and `unsafe` blocks, but not inside a nested
/// loop, whose `break`s are its own.
pub open spec fn first_break_value(stmts: Seq<Stmt>) -> Option<Expr>
    decreases stmts,
{
    if stmts.len() == 0 {
        None
    } else {
        proof {
            assert(decreases_to!(stmts => stmts[0]));
            assert(decreases_to!(stmts => stmts.drop_first()));
        }
        let found = match stmts[0] {
            Stmt::Break { value, .. } => value,
            Stmt::If { then_branch, else_branch, .. } => {
                proof {
                    assert(decreases_to!(stmts[0] => stmts[0]->If_then_branch));
                    assert(decreases_to!(stmts[0] => stmts[0]->If_else_branch));
                }
                match first_break_value(then_branch@) {
                    Some(e) => Some(e),
                    None => match else_branch {
                        Some(s) => first_break_value(s@),
                        None => None,
                    },
                }
            },
            Stmt::Match { arms, .. } => {
                proof {
                    assert(decreases_to!(stmts[0] => stmts[0]->Match_arms));
                }
                first_arm_break_value(arms@)
            },
            Stmt::Unsafe { body, .. } => {
                proof {
                    assert(decreases_to!(stmts[0] => stmts[0]->Unsafe_body));
                }
                first_break_value(body@)
            },
            _ => None,
        };
        match found {
            Some(e) => Some(e),
            None => first_break_value(stmts.drop_first()),
        }
    }
}

/// The value of the first `break` met in the bodies of `arms`, in order.
pub open spec fn first_arm_break_value(arms: Seq<MatchArm>) -> Option<Expr>
    decreases arms,
{
    if arms.len() == 0 {
        None
    } else {
        proof {
            assert(decreases_to!(arms => arms[0]));
            assert(decreases_to!(arms[0] => arms[0].body));
            assert(decreases_to!(arms => arms.drop_first()));
        }
        match first_break_value(arms[0].body@) {
            Some(e) => Some(e),
            None => first_arm_break_value(arms.drop_first()),
        }
    }
}

/// A `break` value found in `stmts` is part of them.
pub proof fn lemma_break_value_within(stmts: Seq<Stmt>)
    ensures
        match first_break_value(stmts) {
            Some(v) => decreases_to!(stmts => v),
            None => true,
        },
    decreases stmts,
{
    if stmts.len() > 0 {
        assert(decreases_to!(stmts => stmts[0]));
        assert(decreases_to!(stmts => stmts.drop_first()));
        lemma_break_value_within(stmts.drop_first());
        match stmts[0] {
            Stmt::Break { value, .. } => {
                assert(decreases_to!(stmts[0] => stmts[0]->Break_value));
            },
            Stmt::If { then_branch, else_branch, .. } => {
                assert(decreases_to!(stmts[0] => stmts[0]->If_then_branch));
                assert(decreases_to!(stmts[0] => stmts[0]->If_else_branch));
                lemma_break_value_within(then_branch@);
                if let Some(s) = else_branch {
                    lemma_break_value_within(s@);
                }
            },
            Stmt::Match { arms, .. } => {
                assert(decreases_to!(stmts[0] => stmts[0]->Match_arms));
                lemma_arm_break_value_within(arms@);
            },
            Stmt::Unsafe { body, .. } => {
                assert(decreases_to!(stmts[0] => stmts[0]->Unsafe_body));
                lemma_break_value_within(body@);
            },
            _ => {},
        }
    }
}

/// A `break` value found in the bodies of `arms` is part of them.
pub proof fn lemma_arm_break_value_within(arms: Seq<MatchArm>)
    ensures
        match first_arm_break_value(arms) {
            Some(v) => decreases_to!(arms => v),
            None => true,
        },
    decreases arms,
{
    if arms.len() > 0 {
        assert(decreases_to!(arms => arms[0]));
        assert(decreases_to!(arms[0] => arms[0].body));
        assert(decreases_to!(arms => arms.drop_first()));
        lemma_break_value_within(arms[0].body@);
        lemma_arm_break_value_within(arms.drop_first());
    }
}

/// The C types inferred for each of `es`, when every one has one.
pub open spec fn inferred_all(
    vars: Env,
    locals: Seq<(Seq<char>, Seq<char>)>,
    es: Seq<Expr>,
) -> Option<Seq<Seq<char>>>
    decreases es,
{
    if es.len() == 0 {
        Some(Seq::empty())
    } else {
        match inferred_all(vars, locals, es.drop_last()) {
            Some(types) => match inferred(vars, locals, es.last()) {
                Some(t) => Some(types.push(t)),
                None => None,
            },
            None => None,
        }
    }
}

proof fn lemma_inferred_all_stays_none(
    vars: Env,
    locals: Seq<(Seq<char>, Seq<char>)>,
    es: Seq<Expr>,
    k: int,
)
    requires
        0 <= k <= es.len(),
        inferred_all(vars, locals, es.take(k)) is None,
    ensures
        inferred_all(vars, locals, es) is None,
    decreases es.len(),
{
    if k < es.len() {
        assert(es.drop_last().take(k) == es.take(k));
        lemma_inferred_all_stays_none(vars, locals, es.drop_last(), k);
    } else {
        assert(es.take(k) == es);
    }
}

/// The value of the first `break` met in `stmts` (see `first_break_value`).
fn first_break_value_of(stmts: &Vec<Stmt>) -> (r: Option<&Expr>)
    ensures
        match first_break_value(stmts@) {
            Some(v) => r matches Some(x) && *x == v,
            None => r is None,
        },
    decreases stmts@,
{
    let mut i: usize = 0;
    assert(stmts@.skip(0) == stmts@);
    while i < stmts.len()
        invariant
            i <= stmts.len(),
            first_break_value(stmts@) == first_break_value(stmts@.skip(i as int)),
        decreases stmts.len() - i,
    {
        let ghost rest = stmts@.skip(i as int);
        assert(rest[0] == stmts@[i as int]);
        assert(rest.drop_first() == stmts@.skip(i + 1));
        proof {
            assert(decreases_to!(stmts@ => stmts@[i as int]));
        }
        let found: Option<&Expr> = match &stmts[i] {
            Stmt::Break { value, .. } => match value {
                Some(v) => Some(v),
                None => None,
            },
            Stmt::If { then_branch, else_branch, .. } => {
                proof {
                    assert(decreases_to!(stmts@[i as int] => stmts@[i as int]->If_then_branch));
                    assert(decreases_to!(stmts@[i as int] => stmts@[i as int]->If_else_branch));
                }
                match first_break_value_of(then_branch) {
                    Some(v) => Some(v),
                    None => match else_branch {
                        Some(s) => first_break_value_of(s),
                        None => None,
                    },
                }
            },
            Stmt::Match { arms, .. } => {
                proof {
                    assert(decreases_to!(stmts@[i as int] => stmts@[i as int]->Match_arms));
                }
                first_arm_break_value_of(arms)
            },
            Stmt::Unsafe { body, .. } => {
                proof {
                    assert(decreases_to!(stmts@[i as int] => stmts@[i as int]->Unsafe_body));
                }
                first_break_value_of(body)
            },
            _ => None,
        };
        if found.is_some() {
            return found;
        }
        i = i + 1;
    }
    None
}

/// The value of the first `break` met in the bodies of `arms`.
fn first_arm_break_value_of(arms: &Vec<MatchArm>) -> (r: Option<&Expr>)
    ensures
        match first_arm_break_value(arms@) {
            Some(v) => r matches Some(x) && *x == v,
            None => r is None,
        },
    decreases arms@,
{
    let mut i: usize = 0;
    assert(arms@.skip(0) == arms@);
    while i < arms.len()
        invariant
            i <= arms.len(),
            first_arm_break_value(arms@) == first_arm_break_value(arms@.skip(i as int)),
        decreases arms.len() - i,
    {
        let ghost rest = arms@.skip(i as int);
        assert(rest[0] == arms@[i as int]);
        assert(rest.drop_first() == arms@.skip(i + 1));
        proof {
            assert(decreases_to!(arms@ => arms@[i as int]));
            assert(decreases_to!(arms@[i as int] => arms@[i as int].body));
        }
        let found = first_break_value_of(&arms[i].body);
        if found.is_some() {
            return found;
        }
        i = i + 1;
    }
    None
}

fn type_param_position_of(params: &Vec<Param>, t: &str) -> (r: Option<usize>)
    ensures
        match type_param_position(params@, t@) {
            Some(j) => r matches Some(k) && k as int == j,
            None => r is None,
        },
{
    let ghost ps = params@;
    let mut i: usize = 0;
    assert(ps.skip(0) == ps);
    while i < params.len()
        invariant
            i <= ps.len(),
            ps == params@,
            type_param_position(ps, t@) == match type_param_position(ps.skip(i as int), t@) {
                Some(j) => Some(j + i),
                None => None,
            },
        decreases ps.len() - i,
    {
        proof {
            assert(ps.skip(i as int)[0] == ps[i as int]);
            assert(ps.skip(i as int).drop_first() == ps.skip(i + 1));
        }
        let found = match &params[i].ty {
            Type::TypeParam(n) => str_eq(n.as_str(), t),
            _ => false,
        };
        if found {
            return Some(i);
        }
        i = i + 1;
    }
    assert(ps.skip(i as int).len() == 0);
    None
}

fn field_get(fields: &Vec<(String, String)>, name: &str) -> (r: Option<String>)
    ensures
        match field_lookup(fields@.map_values(|f: (String, String)| (f.0@, f.1@)), name@) {
            Some(t) => r matches Some(s) && s@ == t,
            None => r is None,
        },
{
    let ghost t = fields@.map_values(|f: (String, String)| (f.0@, f.1@));
    let mut i: usize = 0;
    assert(t.skip(0) == t);
    while i < fields.len()
        invariant
            i <= fields.len(),
            t == fields@.map_values(|f: (String, String)| (f.0@, f.1@)),
            field_lookup(t, name@) == field_lookup(t.skip(i as int), name@),
        decreases fields.len() - i,
    {
        proof {
            assert(t.skip(i as int)[0] == t[i as int]);
            assert(t.skip(i as int).drop_first() == t.skip(i + 1));
        }
        if str_eq(fields[i].0.as_str(), name) {
            return Some(fields[i].1.clone());
        }
        i = i + 1;
    }
    assert(t.skip(i as int).len() == 0);
    None
}

impl CodeGenerator {
    /// Where the latest declaration of the function `name` is recorded.
    fn function_index(&self, name: &str) -> (r: Option<usize>)
        ensures
            match fn_lookup(self.fns(), name@) {
                Some(sig) => r matches Some(k) && k < self.functions@.len() && self.functions@[k as int].1
                    == sig,
                None => r is None,
            },
    {
        let ghost t = self.fns();
        let mut k: usize = self.functions.len();
        assert(t.take(k as int) == t);
        while k > 0
            invariant
                k <= self.functions.len(),
                t == self.fns(),
                fn_lookup(t, name@) == fn_lookup(t.take(k as int), name@),
            decreases k,
        {
            proof {
                assert(t.take(k as int).last() == t[k - 1]);
                assert(t.take(k as int).drop_last() == t.take(k - 1));
            }
            if str_eq(self.functions[k - 1].0.as_str(), name) {
                return Some(k - 1);
            }
            k = k - 1;
        }
        None
    }

    /// Where the latest declaration of the `impl` method `name` is recorded.
    fn method_index(&self, name: &str) -> (r: Option<usize>)
        ensures
            match method_lookup(self.methods(), name@) {
                Some(ret) => r matches Some(k) && k < self.impl_methods@.len() && (match self.impl_methods@[k as int].1 {
                    Some(t) => Some(t@),
                    None => None,
                }) == ret,
                None => r is None,
            },
    {
        let ghost t = self.methods();
        let mut k: usize = self.impl_methods.len();
        assert(t.take(k as int) == t);
        while k > 0
            invariant
                k <= self.impl_methods.len(),
                t == self.methods(),
                method_lookup(t, name@) == method_lookup(t.take(k as int), name@),
            decreases k,
        {
            proof {
                assert(t.take(k as int).last() == t[k - 1]);
                assert(t.take(k as int).drop_last() == t.take(k - 1));
            }
            if str_eq(self.impl_methods[k - 1].0.as_str(), name) {
                return Some(k - 1);
            }
            k = k - 1;
        }
        None
    }

    /// The C return type of the `impl` method `name`, where one is declared
    /// and not generic.
    fn method_return_type(&self, name: &str) -> (r: Option<String>)
        ensures
            match method_lookup(self.methods(), name@) {
                Some(Some(t)) => r matches Some(s) && s@ == t,
                _ => r is None,
            },
    {
        match self.method_index(name) {
            Some(k) => match &self.impl_methods[k].1 {
                Some(t) => Some(t.clone()),
                None => None,
            },
            None => None,
        }
    }

    /// Record the return type of a method of the `impl` block for `owner`
    /// (with `Self` already resolved to `owner`) under the name its calls
    /// use, `owner::method`; a later declaration of the name takes
    /// precedence.
    pub fn declare_method(&mut self, owner: &str, method: &Function)
        ensures
            final(self).methods() == old(self).methods().push(
                (owner@ + "::"@ + method.name@, return_c_type(method.return_type)),
            ),
            final(self).fns() == old(self).fns(),
            final(self).structs() == old(self).structs(),
            final(self).output() == old(self).output(),
            final(self).defined() == old(self).defined(),
            final(self).module() == old(self).module(),
            final(self).shapes() == old(self).shapes(),
            final(self).scope() == old(self).scope(),
            final(self).arrays() == old(self).arrays(),
            final(self).hoisted() == old(self).hoisted(),
            final(self).hoist_count() == old(self).hoist_count(),
            final(self).well_formed() == old(self).well_formed(),
    {
        let mut key = string_of(owner);
        push_str(&mut key, "::");
        push_str(&mut key, method.name.as_str());
        let ret = self.return_type_to_c(method.return_type.as_ref());
        let ghost before = self.methods();
        let ghost rv = match &ret {
            Some(t) => Some(t@),
            None => None,
        };
        self.impl_methods.push((key, ret));
        assert(self.methods() =~= before.push((owner@ + "::"@ + method.name@, rv)));
    }

    /// Record a function's signature for typing its calls; a later
    /// declaration of the name takes precedence.
    pub fn declare_function(&mut self, func: &Function)
        ensures
            final(self).fns().len() == old(self).fns().len() + 1,
            final(self).fns().drop_last() == old(self).fns(),
            final(self).fns().last().0 == func.name@,
            sig_view(final(self).fns().last().1) == fn_sig_of(*func),
            final(self).structs() == old(self).structs(),
            final(self).output() == old(self).output(),
            final(self).defined() == old(self).defined(),
            final(self).module() == old(self).module(),
            final(self).shapes() == old(self).shapes(),
            final(self).scope() == old(self).scope(),
            final(self).arrays() == old(self).arrays(),
            final(self).hoisted() == old(self).hoisted(),
            final(self).hoist_count() == old(self).hoist_count(),
            final(self).well_formed() == old(self).well_formed(),
    {
        let ret = match &func.return_type {
            Some(Type::TypeParam(t)) => {
                let p = type_param_position_of(&func.params, t.as_str());
                FnReturn::Argument(p)
            },
            Some(t) => {
                FnReturn::Fixed(self.return_type_to_c(Some(t)))
            },
            None => {
                FnReturn::Fixed(self.return_type_to_c(None))
            },
        };
        let ghost before = self.fns();
        self.functions.push((func.name.clone(), FnSig { is_async: func.is_async, ret }));
        assert(self.fns() =~= before.push((func.name@, self.functions@.last().1)));
    }

    /// The C type of the field `field` of the struct `name`, by the struct's
    /// latest declaration.
    fn field_c_type(&self, name: &str, field: &str) -> (r: Option<String>)
        ensures
            match struct_lookup(self.structs(), name@) {
                Some(fields) => match field_lookup(fields, field@) {
                    Some(t) => r matches Some(s) && s@ == t,
                    None => r is None,
                },
                None => r is None,
            },
    {
        let ghost t = self.structs();
        let mut k: usize = self.struct_fields.len();
        assert(t.take(k as int) == t);
        while k > 0
            invariant
                k <= self.struct_fields.len(),
                t == self.structs(),
                struct_lookup(t, name@) == struct_lookup(t.take(k as int), name@),
            decreases k,
        {
            proof {
                assert(t.take(k as int).last() == t[k - 1]);
                assert(t.take(k as int).drop_last() == t.take(k - 1));
            }
            if str_eq(self.struct_fields[k - 1].0.as_str(), name) {
                return field_get(&self.struct_fields[k - 1].1, field);
            }
            k = k - 1;
        }
        None
    }

    /// Record a struct declaration's fields with their C types; a later
    /// declaration of the name takes precedence.
    pub(crate) fn declare_struct_fields(&mut self, name: &str, fields: Vec<(String, String)>)
        ensures
            final(self).structs() == old(self).structs().push(
                (name@, fields@.map_values(|f: (String, String)| (f.0@, f.1@))),
            ),
            final(self).output() == old(self).output(),
            final(self).defined() == old(self).defined(),
            final(self).module() == old(self).module(),
            final(self).shapes() == old(self).shapes(),
            final(self).scope() == old(self).scope(),
            final(self).arrays() == old(self).arrays(),
            final(self).hoisted() == old(self).hoisted(),
            final(self).hoist_count() == old(self).hoist_count(),
            final(self).well_formed() == old(self).well_formed(),
    {
        let ghost before = self.structs();
        let ghost fv = fields@.map_values(|f: (String, String)| (f.0@, f.1@));
        self.struct_fields.push((string_of(name), fields));
        assert(self.structs() =~= before.push((name@, fv)));
    }
}

fn scope_get(scope: &Vec<(String, String)>, name: &str) -> (r: Option<String>)
    ensures
        match scope_lookup(scope@.map_values(|v: (String, String)| (v.0@, v.1@)), name@) {
            Some(t) => r matches Some(s) && s@ == t,
            None => r is None,
        },
{
    let ghost t = scope@.map_values(|v: (String, String)| (v.0@, v.1@));
    let mut k: usize = scope.len();
    assert(t.take(k as int) == t);
    while k > 0
        invariant
            k <= scope.len(),
            t == scope@.map_values(|v: (String, String)| (v.0@, v.1@)),
            scope_lookup(t, name@) == scope_lookup(t.take(k as int), name@),
        decreases k,
    {
        proof {
            assert(t.take(k as int).last() == t[k - 1]);
            assert(t.take(k as int).drop_last() == t.take(k - 1));
        }
        if str_eq(scope[k - 1].0.as_str(), name) {
            return Some(scope[k - 1].1.clone());
        }
        k = k - 1;
    }
    None
}

/// The characters of `cs` from `from` on.
fn tail_string(cs: &Vec<char>, from: usize) -> (r: String)
    requires
        from <= cs.len(),
    ensures
        r@ == cs@.skip(from as int),
{
    assert(cs@.subrange(from as int, cs.len() as int) == cs@.skip(from as int));
    crate::text::slice_string(cs, from, cs.len())
}

/// The type of an indexed element of a value of type `t`.
fn element_type_of(t: &str) -> (r: Option<String>)
    ensures
        match element_type(t@) {
            Some(e) => r matches Some(s) && s@ == e,
            None => r is None,
        },
{
    let cs = chars_of(t);
    match find_char(&cs, '[') {
        Some(i) => {
            let k = trimmed_end(&cs, i);
            let rest = tail_string(&cs, i);
            let rcs = chars_of(rest.as_str());
            match find_char(&rcs, ']') {
                Some(c) => {
                    let mut out = crate::text::slice_string(&cs, 0, k);
                    let after = tail_string(&rcs, c + 1);
                    push_str(&mut out, after.as_str());
                    assert(trim_end_seq(cs@.take(i as int)) == cs@.subrange(0, k as int));
                    Some(out)
                },
                None => None,
            }
        },
        None => {
            if str_eq(t, C_STRING) {
                Some(string_of(C_CHAR))
            } else if cs.len() > 0 && cs[cs.len() - 1] == '*' {
                let n = cs.len() - 1;
                let k = trimmed_end(&cs, n);
                assert(cs@.drop_last() == cs@.take(n as int));
                assert(trim_end_seq(cs@.take(n as int)) == cs@.subrange(0, k as int));
                Some(crate::text::slice_string(&cs, 0, k))
            } else {
                None
            }
        },
    }
}

impl CodeGenerator {
    /// Infer the C type of an expression, or `None` when this generator has
    /// no rule for it.
    pub fn try_infer_expr_type(&self, expr: &Expr) -> (r: Option<String>)
        ensures
            match inferred(self.env(), Seq::empty(), *expr) {
                Some(t) => r matches Some(s) && s@ == t,
                None => r is None,
            },
        decreases expr, 1nat,
    {
        let empty: Vec<(String, String)> = Vec::new();
        proof {
            assert(empty@.map_values(|v: (String, String)| (v.0@, v.1@)) =~= Seq::<
                (Seq<char>, Seq<char>),
            >::empty());
        }
        self.try_infer_expr_type_in(expr, &empty)
    }

    /// Infer the C type of an expression, defaulting to `long long` where
    /// there is no rule. Only for choices a wrong guess cannot spoil.
    pub fn infer_expr_type(&self, expr: &Expr) -> (r: String)
        ensures
            r@ == or_long_long(inferred(self.env(), Seq::empty(), *expr)),
        decreases expr, 2nat,
    {
        match self.try_infer_expr_type(expr) {
            Some(t) => t,
            None => string_of(C_LONG_LONG),
        }
    }

    /// Infer the C type of `expr` with the block-local bindings `locals`.
    pub fn try_infer_expr_type_in(&self, expr: &Expr, locals: &Vec<(String, String)>) -> (r:
        Option<String>)
        ensures
            match inferred(
                self.env(),
                locals@.map_values(|v: (String, String)| (v.0@, v.1@)),
                *expr,
            ) {
                Some(t) => r matches Some(s) && s@ == t,
                None => r is None,
            },
        decreases expr, 0nat,
    {
        match expr {
            Expr::Integer(_) => Some(string_of(C_LONG_LONG)),
            Expr::Char(_) => Some(string_of(C_LONG_LONG)),
            Expr::String(_) => Some(string_of(C_STRING)),
            Expr::Bool(_) => Some(string_of(C_INT)),
            Expr::Cast { ty, .. } => Some(self.type_to_c(ty)),
            Expr::Tuple { elements, span } => {
                let ghost lv = locals@.map_values(|v: (String, String)| (v.0@, v.1@));
                let mut types: Vec<String> = Vec::new();
                let mut i: usize = 0;
                while i < elements.len()
                    invariant
                        i <= elements.len(),
                        *expr == (Expr::Tuple { elements: *elements, span: *span }),
                        lv == locals@.map_values(|v: (String, String)| (v.0@, v.1@)),
                        inferred_all(self.env(), lv, elements@.take(i as int)) == Some(
                            types@.map_values(|t: String| t@),
                        ),
                    decreases elements.len() - i,
                {
                    proof {
                        assert(elements@.take(i + 1).drop_last() == elements@.take(i as int));
                        assert(elements@.take(i + 1).last() == elements@[i as int]);
                        assert(decreases_to!(*expr => expr->Tuple_elements));
                        assert(decreases_to!(*elements => elements@));
                        assert(decreases_to!(elements@ => elements@[i as int]));
                    }
                    match self.try_infer_expr_type_in(&elements[i], locals) {
                        Some(t) => {
                            let ghost before = types@.map_values(|t: String| t@);
                            let ghost tv = t@;
                            types.push(t);
                            assert(types@.map_values(|t: String| t@) =~= before.push(tv));
                        },
                        None => {
                            proof {
                                lemma_inferred_all_stays_none(
                                    self.env(),
                                    lv,
                                    elements@,
                                    i + 1,
                                );
                            }
                            return None;
                        },
                    }
                    i = i + 1;
                }
                assert(elements@.take(i as int) == elements@);
                Some(tuple_name_of(types.as_slice()))
            },
            Expr::TupleIndex { expr: base, index, .. } => match self.try_infer_expr_type_in(
                base,
                locals,
            ) {
                Some(t) => match self.tuple_shapes.element_types(t.as_str()) {
                    Some(types) => if *index < types.len() {
                        Some(types[*index].clone())
                    } else {
                        None
                    },
                    None => None,
                },
                None => None,
            },
            Expr::StructLiteral { name, .. } => {
                let mut t = string_of("struct ");
                push_str(&mut t, name.as_str());
                Some(t)
            },
            Expr::Ident(name) => match scope_get(locals, name.as_str()) {
                Some(t) => Some(t),
                None => scope_get(&self.variables, name.as_str()),
            },
            Expr::Call { func, args, .. } => match &**func {
                Expr::Ident(name) => match self.function_index(name.as_str()) {
                    Some(k) => {
                        let sig = &self.functions[k].1;
                        if sig.is_async {
                            let mut t = name.clone();
                            push_str(&mut t, "_Future");
                            Some(t)
                        } else {
                            match &sig.ret {
                                FnReturn::Argument(Some(i)) => if *i < args.len() {
                                    proof {
                                        assert(decreases_to!(*expr => expr->Call_args));
                                        assert(decreases_to!(*args => args@));
                                        assert(decreases_to!(args@ => args@[*i as int]));
                                    }
                                    self.try_infer_expr_type_in(&args[*i], locals)
                                } else {
                                    None
                                },
                                FnReturn::Argument(None) => None,
                                FnReturn::Fixed(c) => match c {
                                    Some(t) => Some(t.clone()),
                                    None => None,
                                },
                            }
                        }
                    },
                    None => self.method_return_type(name.as_str()),
                },
                Expr::FieldAccess { object, field, .. } => {
                    proof {
                        assert(decreases_to!(*expr => expr->Call_func));
                    }
                    match self.try_infer_expr_type_in(object, locals) {
                        Some(receiver) => match Self::struct_name_of(receiver.as_str()) {
                            Some(owner) => {
                                let mut qualified = owner;
                                push_str(&mut qualified, "::");
                                push_str(&mut qualified, field.as_str());
                                match self.method_index(qualified.as_str()) {
                                    Some(k) => match &self.impl_methods[k].1 {
                                        Some(t) => Some(t.clone()),
                                        None => None,
                                    },
                                    None => match self.function_index(qualified.as_str()) {
                                        Some(k) => match &self.functions[k].1.ret {
                                            FnReturn::Fixed(c) => match c {
                                                Some(t) => Some(t.clone()),
                                                None => None,
                                            },
                                            FnReturn::Argument(_) => None,
                                        },
                                        None => None,
                                    },
                                }
                            },
                            None => None,
                        },
                        None => None,
                    }
                },
                _ => None,
            },
            Expr::Binary { left, op, right, .. } => match op {
                BinOp::Eq | BinOp::Ne | BinOp::Lt | BinOp::Gt | BinOp::Le | BinOp::Ge | BinOp::And
                | BinOp::Or => Some(string_of(C_INT)),
                BinOp::BitAnd | BinOp::BitOr | BinOp::BitXor | BinOp::Shl | BinOp::Shr => {
                    self.try_infer_expr_type_in(left, locals)
                },
                BinOp::Add | BinOp::Sub | BinOp::Mul | BinOp::Div => {
                    let l = self.infer_expr_type(left);
                    let r = self.infer_expr_type(right);
                    if str_eq(l.as_str(), C_STRING) && str_eq(r.as_str(), C_STRING) {
                        Some(string_of(C_STRING))
                    } else if str_eq(l.as_str(), C_DOUBLE) || str_eq(r.as_str(), C_DOUBLE) {
                        Some(string_of(C_DOUBLE))
                    } else if str_eq(l.as_str(), C_FLOAT) || str_eq(r.as_str(), C_FLOAT) {
                        Some(string_of(C_FLOAT))
                    } else {
                        Some(string_of(C_LONG_LONG))
                    }
                },
                BinOp::Mod => Some(string_of(C_LONG_LONG)),
            },
            Expr::Unary { op, operand, .. } => match op {
                UnaryOp::Not => Some(string_of(C_INT)),
                _ => self.try_infer_expr_type_in(operand, locals),
            },
            Expr::EnumConstructor { enum_name, .. } => {
                let mut t = string_of("struct ");
                push_str(&mut t, enum_name.as_str());
                Some(t)
            },
            Expr::Reference { expr: inner, .. } => match self.try_infer_expr_type_in(
                inner,
                locals,
            ) {
                Some(t) => {
                    let cs = chars_of(t.as_str());
                    if vec_contains_char(&cs, 0, cs.len(), '[') {
                        assert(cs@.subrange(0, cs.len() as int) == cs@);
                        None
                    } else {
                        assert(cs@.subrange(0, cs.len() as int) == cs@);
                        let mut p = t;
                        push_char(&mut p, '*');
                        proof {
                            reveal_strlit("*");
                        }
                        Some(p)
                    }
                },
                None => None,
            },
            Expr::Deref { expr: inner, .. } => match self.try_infer_expr_type_in(inner, locals) {
                Some(t) => {
                    let cs = chars_of(t.as_str());
                    if cs.len() > 0 && cs[cs.len() - 1] == '*' {
                        let n = cs.len() - 1;
                        let k = trimmed_end(&cs, n);
                        assert(cs@.drop_last() == cs@.take(n as int));
                        assert(trim_end_seq(cs@.take(n as int)) == cs@.subrange(0, k as int));
                        Some(crate::text::slice_string(&cs, 0, k))
                    } else {
                        Some(t)
                    }
                },
                None => None,
            },
            Expr::FieldAccess { object, field, .. } => match self.try_infer_expr_type_in(
                object,
                locals,
            ) {
                Some(t) => match Self::struct_name_of(t.as_str()) {
                    Some(n) => self.field_c_type(n.as_str(), field.as_str()),
                    None => None,
                },
                None => None,
            },
            Expr::Index { array, .. } => match self.try_infer_expr_type_in(array, locals) {
                Some(t) => element_type_of(t.as_str()),
                None => None,
            },
            Expr::ArrayLiteral { elements, .. } => {
                if elements.len() == 0 {
                    Some(Self::array_of(C_LONG_LONG, 0))
                } else {
                    match self.try_infer_expr_type_in(&elements[0], locals) {
                        Some(t) => Some(Self::array_of(t.as_str(), elements.len())),
                        None => None,
                    }
                }
            },
            Expr::ArrayRepeat { value, count, .. } => match self.try_infer_expr_type_in(
                value,
                locals,
            ) {
                Some(t) => {
                    let size: usize = match &**count {
                        Expr::Integer(n) => *n as usize,
                        _ => 0,
                    };
                    Some(Self::array_of(t.as_str(), size))
                },
                None => None,
            },
            Expr::Range { .. } => Some(string_of(C_RANGE)),
            Expr::If { then_branch, then_value, else_branch, else_value, .. } => {
                let from_then = match then_value {
                    Some(v) => {
                        proof {
                            assert(decreases_to!(*expr => expr->If_then_branch));
                            assert(decreases_to!(*expr => expr->If_then_value));
                        }
                        let then_locals = self.locals_of(then_branch, locals);
                        self.try_infer_expr_type_in(v, &then_locals)
                    },
                    None => None,
                };
                match from_then {
                    Some(t) => Some(t),
                    None => match else_value {
                        Some(v) => {
                            proof {
                                assert(decreases_to!(*expr => expr->If_else_value));
                            }
                            match else_branch {
                                Some(stmts) => {
                                    proof {
                                        assert(decreases_to!(*expr => expr->If_else_branch));
                                    }
                                    let else_locals = self.locals_of(stmts, locals);
                                    self.try_infer_expr_type_in(v, &else_locals)
                                },
                                None => self.try_infer_expr_type_in(v, locals),
                            }
                        },
                        None => None,
                    },
                }
            },
            Expr::Block { stmts, value, .. } => match value {
                Some(v) => {
                    proof {
                        assert(decreases_to!(*expr => expr->Block_stmts));
                        assert(decreases_to!(*expr => expr->Block_value));
                    }
                    let inner = self.locals_of(stmts, locals);
                    self.try_infer_expr_type_in(v, &inner)
                },
                None => None,
            },
            Expr::Loop { body, .. } => match first_break_value_of(body) {
                Some(v) => {
                    proof {
                        lemma_break_value_within(body@);
                        assert(decreases_to!(*expr => expr->Loop_body));
                        assert(decreases_to!(*body => body@));
                    }
                    self.try_infer_expr_type_in(v, locals)
                },
                None => None,
            },
            Expr::Question { .. } | Expr::MacroInvocation { .. } | Expr::Await { .. } => None,
        }
    }
}

// ---------------------------------------------------------------------------
// Sequencing call arguments
// ---------------------------------------------------------------------------

pub const HOIST_PREFIX: &'static str = "__pd_val";

/// The name of the `n`th hoisted temporary.
pub open spec fn hoist_name(n: nat) -> Seq<char> {
    HOIST_PREFIX@ + decimal(n)
}

pub const SEQUENCE_HEAD: &'static str = "cannot sequence argument ";

pub const SEQUENCE_MIDDLE: &'static str = ": this ";

pub const SEQUENCE_TAIL: &'static str = " can carry an effect, so N13-03 requires it to be read at its own position, and its C type cannot be named for a temporary to read it into. Leaving it inside the call would put the order back in the C compiler's hands";

/// The refusal of an effectful argument whose C type cannot be named.
pub open spec fn unsequenceable_message(index: nat, callee: Seq<char>, kind: Seq<char>) -> Seq<
    char,
> {
    SEQUENCE_HEAD@ + decimal(index + 1) + " of `"@ + callee + "`"@ + SEQUENCE_MIDDLE@ + kind
        + SEQUENCE_TAIL@
}

/// `dims` without its outermost dimension: what an array argument decays to
/// a pointer to.
pub open spec fn inner_dims(dims: Seq<char>) -> Seq<char> {
    match index_of(dims, ']') {
        Some(i) => dims.skip(i + 1),
        None => Seq::empty(),
    }
}

/// The declaration that reads an argument, whose C text is `text`, into the
/// temporary `temp`: a pointer to the caller's storage when the callee needs
/// an address, a copy of a scalar, or a pointer to the first element of an
/// array.
pub open spec fn hoist_declaration(
    base: Seq<char>,
    dims: Seq<char>,
    needs_address: bool,
    temp: Seq<char>,
    text: Seq<char>,
) -> Seq<char> {
    if needs_address {
        "    "@ + pointer_decl(base, dims, temp) + " = &("@ + text + ");\n"@
    } else if dims.len() == 0 {
        "    "@ + base + " "@ + temp + " = "@ + text + ";\n"@
    } else {
        "    "@ + pointer_decl(base, inner_dims(dims), temp) + " = "@ + text + ";\n"@
    }
}

/// How a call argument is passed: in place (`None`), read into a fresh
/// temporary first (`Some`), or refused.
pub ghost enum ArgumentPlan {
    InPlace,
    Temporary { base: Seq<char>, dims: Seq<char> },
    Refused { message: Seq<char> },
}

/// The plan for one call argument, given the type this generator infers for
/// it. A bare name whose address is taken, a pure argument with no nameable
/// type, an argument of `void` or empty type, and a bare name of array type
/// are all passed in place; an effectful argument with no nameable type is
/// refused; everything else is read into a temporary in source order.
pub open spec fn argument_plan(
    vars: Env,
    arg: Expr,
    needs_address: bool,
    index: nat,
    callee: Seq<char>,
) -> ArgumentPlan {
    if arg is Ident && needs_address {
        ArgumentPlan::InPlace
    } else {
        match inferred(vars, Seq::empty(), arg) {
            None => if pure_expr(arg) {
                ArgumentPlan::InPlace
            } else {
                ArgumentPlan::Refused {
                    message: unsequenceable_message(index, callee, kind_name(arg)),
                }
            },
            Some(t) => {
                let (base, dims) = split_dims(t);
                if base == "void"@ || base.len() == 0 || (arg is Ident && dims.len() > 0) {
                    ArgumentPlan::InPlace
                } else {
                    ArgumentPlan::Temporary { base, dims }
                }
            },
        }
    }
}

impl CodeGenerator {
    /// A name no source program can collide with, for one hoisted value.
    pub fn fresh_hoist_name(&mut self) -> (r: String)
        requires
            old(self).hoist_count() < usize::MAX,
        ensures
            final(self).arrays() == old(self).arrays(),
            r@ == hoist_name(old(self).hoist_count()),
            final(self).hoist_count() == old(self).hoist_count() + 1,
            final(self).hoisted() == old(self).hoisted(),
            final(self).scope() == old(self).scope(),
            final(self).shapes() == old(self).shapes(),
            final(self).module() == old(self).module(),
            final(self).well_formed() == old(self).well_formed(),
    {
        let n = self.hoist_counter;
        self.hoist_counter = self.hoist_counter + 1;
        let mut name = string_of(HOIST_PREFIX);
        push_usize(&mut name, n);
        name
    }

    /// The name of a generic function instantiated at `type_args`.
    pub fn mangle_generic_name(&self, func_name: &str, type_args: &Vec<String>) -> (r: String)
        ensures
            r@ == func_name@ + "__"@ + crate::text::join_seq(strings_view(type_args@), "_"@),
    {
        let mut name = string_of(func_name);
        push_str(&mut name, "__");
        let joined = crate::text::join_strings(type_args, "_");
        push_str(&mut name, joined.as_str());
        name
    }

    /// Read one call argument into a temporary, in source order, so that C's
    /// unspecified argument order cannot reorder its effects.
    ///
    /// `arg_text` is the argument's generated C expression and `arg_hoists`
    /// the statements its own generation hoisted; they are written in front
    /// of the temporary's declaration. Answers the temporary's name, `None`
    /// for an argument passed in place, or the refusal of an effectful
    /// argument whose C type cannot be named.
    pub fn hoist_call_argument(
        &mut self,
        arg: &Expr,
        needs_address: bool,
        index: usize,
        callee: &str,
        arg_text: &str,
        arg_hoists: &str,
    ) -> (r: Result<Option<String>>)
        requires
            index < usize::MAX,
            old(self).hoist_count() < usize::MAX,
        ensures
            final(self).arrays() == old(self).arrays(),
            final(self).scope() == old(self).scope(),
            final(self).shapes() == old(self).shapes(),
            final(self).module() == old(self).module(),
            final(self).well_formed() == old(self).well_formed(),
            match argument_plan(old(self).env(), *arg, needs_address, index as nat, callee@) {
                ArgumentPlan::InPlace => r matches Ok(None) && final(self).hoisted() == old(
                    self,
                ).hoisted() && final(self).hoist_count() == old(self).hoist_count(),
                ArgumentPlan::Refused { message } => r matches Err(
                    CompileError::CodegenError { message: m },
                ) && m@ == message && final(self).hoisted() == old(self).hoisted()
                    && final(self).hoist_count() == old(self).hoist_count(),
                ArgumentPlan::Temporary { base, dims } => {
                    let temp = hoist_name(old(self).hoist_count());
                    &&& r matches Ok(Some(t)) && t@ == temp
                    &&& final(self).hoist_count() == old(self).hoist_count() + 1
                    &&& final(self).hoisted() == old(self).hoisted() + arg_hoists@
                        + hoist_declaration(base, dims, needs_address, temp, arg_text@)
                },
            },
    {
        let is_ident = match arg {
            Expr::Ident(_) => true,
            _ => false,
        };
        if is_ident && needs_address {
            return Ok(None);
        }
        let c_type = match self.try_infer_expr_type(arg) {
            Some(t) => t,
            None => {
                if Self::expr_is_pure(arg) {
                    return Ok(None);
                }
                let mut message = string_of(SEQUENCE_HEAD);
                push_usize(&mut message, index + 1);
                push_str(&mut message, " of `");
                push_str(&mut message, callee);
                push_str(&mut message, "`");
                push_str(&mut message, SEQUENCE_MIDDLE);
                push_str(&mut message, Self::expr_kind_name(arg));
                push_str(&mut message, SEQUENCE_TAIL);
                return Err(CompileError::CodegenError { message });
            },
        };
        let (base, dims) = split_array_dims(c_type.as_str());
        let base_cs = chars_of(base.as_str());
        let dims_cs = chars_of(dims.as_str());
        if str_eq(base.as_str(), C_VOID) || base_cs.len() == 0 || (is_ident && dims_cs.len() > 0) {
            return Ok(None);
        }
        let temp = self.fresh_hoist_name();
        let mut decl = string_of("    ");
        if needs_address {
            let d = Self::pointer_declarator(base.as_str(), dims.as_str(), temp.as_str());
            push_str(&mut decl, d.as_str());
            push_str(&mut decl, " = &(");
            push_str(&mut decl, arg_text);
            push_str(&mut decl, ");\n");
        } else if dims_cs.len() == 0 {
            push_str(&mut decl, base.as_str());
            push_str(&mut decl, " ");
            push_str(&mut decl, temp.as_str());
            push_str(&mut decl, " = ");
            push_str(&mut decl, arg_text);
            push_str(&mut decl, ";\n");
        } else {
            let rest = match find_char(&dims_cs, ']') {
                Some(i) => tail_string(&dims_cs, i + 1),
                None => String::new(),
            };
            let d = Self::pointer_declarator(base.as_str(), rest.as_str(), temp.as_str());
            push_str(&mut decl, d.as_str());
            push_str(&mut decl, " = ");
            push_str(&mut decl, arg_text);
            push_str(&mut decl, ";\n");
        }
        push_str(&mut self.pending_hoists, arg_hoists);
        push_str(&mut self.pending_hoists, decl.as_str());
        Ok(Some(temp))
    }
}

// ---------------------------------------------------------------------------
// Tuple struct definitions
// ---------------------------------------------------------------------------

/// The field declarations of a tuple struct: `    <type> f<i>;` per element.
pub open spec fn tuple_fields(types: Seq<Seq<char>>) -> Seq<char>
    decreases types.len(),
{
    if types.len() == 0 {
        Seq::empty()
    } else {
        tuple_fields(types.drop_last()) + "    "@ + types.last() + " f"@ + decimal(
            (types.len() - 1) as nat,
        ) + ";\n"@
    }
}

/// The constructor's parameters: `<type> f<i>` per element.
pub open spec fn tuple_params(types: Seq<Seq<char>>) -> Seq<Seq<char>> {
    Seq::new(types.len(), |i: int| types[i] + " f"@ + decimal(i as nat))
}

/// The constructor's assignments: `    t.f<i> = f<i>;` for each `i < n`.
pub open spec fn tuple_assignments(n: nat) -> Seq<char>
    decreases n,
{
    if n == 0 {
        Seq::empty()
    } else {
        tuple_assignments((n - 1) as nat) + "    t.f"@ + decimal((n - 1) as nat) + " = f"@
            + decimal((n - 1) as nat) + ";\n"@
    }
}

/// The C definition of one tuple shape: its struct and its constructor.
pub open spec fn tuple_definition(name: Seq<char>, types: Seq<Seq<char>>) -> Seq<char> {
    "typedef struct {\n"@ + tuple_fields(types) + "} "@ + name + ";\n"@ + "static "@ + name + " "@
        + name + "_new("@ + crate::text::join_seq(tuple_params(types), ", "@) + ") {\n"@ + "    "@
        + name + " t;\n"@ + tuple_assignments(types.len()) + "    return t;\n"@ + "}\n\n"@
}

/// Every shape's definition, in registration order.
pub open spec fn tuple_definitions_of(shapes: Seq<(Seq<char>, Seq<Seq<char>>)>) -> Seq<char>
    decreases shapes.len(),
{
    if shapes.len() == 0 {
        Seq::empty()
    } else {
        tuple_definitions_of(shapes.drop_last()) + tuple_definition(
            shapes.last().0,
            shapes.last().1,
        )
    }
}

pub const TUPLE_BANNER: &'static str = "// Tuple shapes (N4-12)\n";

#[verifier::rlimit(50)]
#[verifier::spinoff_prover]
fn push_tuple_definition(out: &mut String, name: &str, types: &Vec<String>)
    ensures
        final(out)@ == old(out)@ + tuple_definition(name@, strings_view(types@)),
{
    let ghost views = strings_view(types@);
    let ghost start = out@;
    push_str(out, "typedef struct {\n");
    let mut i: usize = 0;
    while i < types.len()
        invariant
            i <= types.len(),
            views == strings_view(types@),
            out@ == start + "typedef struct {\n"@ + tuple_fields(views.take(i as int)),
        decreases types.len() - i,
    {
        let ghost before = out@;
        push_str(out, "    ");
        push_str(out, types[i].as_str());
        push_str(out, " f");
        push_usize(out, i);
        push_str(out, ";\n");
        i = i + 1;
        proof {
            assert(views.take(i as int).drop_last() == views.take(i - 1));
            assert(views.take(i as int).last() == views[i - 1]);
        }
    }
    assert(views.take(i as int) == views);
    push_str(out, "} ");
    push_str(out, name);
    push_str(out, ";\n");
    push_str(out, "static ");
    push_str(out, name);
    push_str(out, " ");
    push_str(out, name);
    push_str(out, "_new(");
    let mut params: Vec<String> = Vec::new();
    let mut k: usize = 0;
    while k < types.len()
        invariant
            k <= types.len(),
            views == strings_view(types@),
            strings_view(params@) == tuple_params(views).take(k as int),
        decreases types.len() - k,
    {
        let mut p = types[k].clone();
        push_str(&mut p, " f");
        push_usize(&mut p, k);
        assert(p@ == views[k as int] + " f"@ + decimal(k as nat));
        assert(tuple_params(views)[k as int] == p@);
        let ghost before = params@;
        params.push(p);
        k = k + 1;
        assert(strings_view(params@) =~= strings_view(before).push(tuple_params(views)[k - 1]));
        assert(tuple_params(views).take(k as int) =~= tuple_params(views).take(k - 1).push(
            tuple_params(views)[k - 1],
        ));
    }
    assert(tuple_params(views).take(k as int) == tuple_params(views));
    let joined = crate::text::join_strings(&params, ", ");
    push_str(out, joined.as_str());
    push_str(out, ") {\n");
    push_str(out, "    ");
    push_str(out, name);
    push_str(out, " t;\n");
    let mut j: usize = 0;
    let ghost mid = out@;
    while j < types.len()
        invariant
            j <= types.len(),
            out@ == mid + tuple_assignments(j as nat),
        decreases types.len() - j,
    {
        push_str(out, "    t.f");
        push_usize(out, j);
        push_str(out, " = f");
        push_usize(out, j);
        push_str(out, ";\n");
        j = j + 1;
    }
    push_str(out, "    return t;\n");
    push_str(out, "}\n\n");
    assert(out@ =~= start + tuple_definition(name@, views));
}

impl CodeGenerator {
    /// The C definitions of every registered tuple shape, in registration
    /// order: nothing at all when none was registered.
    pub fn tuple_definitions(&self) -> (r: String)
        ensures
            r@ == (if self.shapes().len() == 0 {
                Seq::<char>::empty()
            } else {
                TUPLE_BANNER@ + tuple_definitions_of(self.shapes())
            }),
    {
        if self.tuple_shapes.is_empty() {
            return String::new();
        }
        let entries = self.tuple_shapes.iter();
        let ghost shapes = self.shapes();
        let mut out = string_of(TUPLE_BANNER);
        let mut i: usize = 0;
        while i < entries.len()
            invariant
                i <= entries.len(),
                shapes == entries@.map_values(|e: (String, Vec<String>)| (e.0@, strings_view(e.1@))),
                out@ == TUPLE_BANNER@ + tuple_definitions_of(shapes.take(i as int)),
            decreases entries.len() - i,
        {
            push_tuple_definition(&mut out, entries[i].0.as_str(), &entries[i].1);
            i = i + 1;
            proof {
                assert(shapes.take(i as int).drop_last() == shapes.take(i - 1));
                assert(shapes.take(i as int).last() == shapes[i - 1]);
            }
        }
        assert(shapes.take(i as int) == shapes);
        out
    }
}

// ---------------------------------------------------------------------------
// Re-indenting generated text
// ---------------------------------------------------------------------------

/// A line holds something other than white space.
pub open spec fn has_visible(line: Seq<char>) -> bool {
    exists|k: int| 0 <= k < line.len() && !crate::text::is_white_space(#[trigger] line[k])
}

/// `text` with `indent` in front of every line that holds something other
/// than white space; each line keeps its line break.
pub open spec fn reindent(text: Seq<char>, indent: Seq<char>) -> Seq<char>
    decreases text.len(),
{
    if text.len() == 0 {
        Seq::empty()
    } else {
        match crate::text::first_newline(text) {
            Some(i) => {
                proof {
                    crate::text::lemma_first_newline_bounds(text);
                }
                let line = text.take(i + 1);
                (if has_visible(line) {
                    indent + line
                } else {
                    line
                }) + reindent(text.skip(i + 1), indent)
            },
            None => if has_visible(text) {
                indent + text
            } else {
                text
            },
        }
    }
}

proof fn lemma_first_newline_at(s: Seq<char>, q: int)
    requires
        0 <= q < s.len(),
        s[q] == '\n',
        forall|k: int| 0 <= k < q ==> s[k] != '\n',
    ensures
        crate::text::first_newline(s) == Some(q),
    decreases s.len(),
{
    if q > 0 {
        assert forall|k: int| 0 <= k < q - 1 implies s.drop_first()[k] != '\n' by {
            assert(s.drop_first()[k] == s[k + 1]);
        }
        lemma_first_newline_at(s.drop_first(), q - 1);
    }
}

proof fn lemma_no_newline(s: Seq<char>)
    requires
        forall|k: int| 0 <= k < s.len() ==> s[k] != '\n',
    ensures
        crate::text::first_newline(s) is None,
    decreases s.len(),
{
    if s.len() > 0 {
        assert forall|k: int| 0 <= k < s.len() - 1 implies s.drop_first()[k] != '\n' by {
            assert(s.drop_first()[k] == s[k + 1]);
        }
        lemma_no_newline(s.drop_first());
    }
}

impl CodeGenerator {
    /// Prefix every line of `text` that holds something other than white
    /// space with `indent`.
    #[verifier::rlimit(50)]
    #[verifier::spinoff_prover]
    pub fn reindent_to(text: &str, indent: &str) -> (r: String)
        ensures
            r@ == (if indent@.len() == 0 {
                text@
            } else {
                reindent(text@, indent@)
            }),
    {
        let ics = chars_of(indent);
        if ics.len() == 0 {
            return string_of(text);
        }
        let cs = chars_of(text);
        let mut out = String::new();
        let mut pos: usize = 0;
        assert(cs@.skip(0) == cs@);
        while pos < cs.len()
            invariant
                pos <= cs.len(),
                cs@ == text@,
                reindent(text@, indent@) == out@ + reindent(cs@.skip(pos as int), indent@),
            decreases cs.len() - pos,
        {
            let ghost rest = cs@.skip(pos as int);
            let mut end = pos;
            let mut visible = false;
            while end < cs.len() && cs[end] != '\n'
                invariant
                    pos <= end <= cs.len(),
                    forall|k: int| pos <= k < end ==> cs@[k] != '\n',
                    visible <==> exists|k: int|
                        pos <= k < end && !crate::text::is_white_space(#[trigger] cs@[k]),
                decreases cs.len() - end,
            {
                if !crate::text::char_is_whitespace(cs[end]) {
                    visible = true;
                }
                end = end + 1;
            }
            let stop = if end < cs.len() {
                end + 1
            } else {
                end
            };
            proof {
                if end < cs.len() {
                    assert forall|k: int| 0 <= k < end - pos implies rest[k] != '\n' by {
                        assert(rest[k] == cs@[pos + k]);
                    }
                    lemma_first_newline_at(rest, end - pos);
                } else {
                    assert forall|k: int| 0 <= k < rest.len() implies rest[k] != '\n' by {
                        assert(rest[k] == cs@[pos + k]);
                    }
                    lemma_no_newline(rest);
                    assert(rest.take(rest.len() as int) == rest);
                }
                let line = cs@.subrange(pos as int, stop as int);
                assert(line == rest.take(stop - pos));
                if visible {
                    let k = choose|k: int|
                        pos <= k < end && !crate::text::is_white_space(#[trigger] cs@[k]);
                    assert(line[k - pos] == cs@[k]);
                } else {
                    assert forall|k: int| 0 <= k < line.len() implies crate::text::is_white_space(
                        #[trigger] line[k],
                    ) by {
                        assert(line[k] == cs@[pos + k]);
                        if pos + k == end {
                            assert(cs@[end as int] == '\n');
                        }
                    }
                }
                assert(rest.skip(stop - pos) == cs@.skip(stop as int));
            }
            let ghost before = out@;
            let ghost line_view = cs@.subrange(pos as int, stop as int);
            if visible {
                push_str(&mut out, indent);
            }
            let line = crate::text::slice_string(&cs, pos, stop);
            push_str(&mut out, line.as_str());
            proof {
                let shown = if has_visible(line_view) {
                    indent@ + line_view
                } else {
                    line_view
                };
                assert(has_visible(line_view) == visible);
                assert(out@ == before + shown);
                if end < cs.len() {
                    assert(reindent(rest, indent@) == shown + reindent(cs@.skip(stop as int), indent@));
                } else {
                    assert(cs@.skip(stop as int) == Seq::<char>::empty());
                    assert(reindent(rest, indent@) == shown);
                    assert(shown + reindent(cs@.skip(stop as int), indent@) == shown);
                }
                assert(before + (shown + reindent(cs@.skip(stop as int), indent@)) == out@
                    + reindent(cs@.skip(stop as int), indent@));
            }
            pos = stop;
        }
        assert(cs@.skip(pos as int) == Seq::<char>::empty());
        assert(out@ + Seq::<char>::empty() == out@);
        out
    }
}

// ---------------------------------------------------------------------------
// C spellings of types
// ---------------------------------------------------------------------------

/// One declared array dimension as a declaration prints it: the literal, the
/// const generic's own name, or `0` for a size expression, which is not
/// evaluated.
pub open spec fn array_size_text(size: ArraySize) -> Seq<char> {
    match size {
        ArraySize::Literal(n) => decimal(n as nat),
        ArraySize::ConstParam(name) => name@,
        ArraySize::Expr(_) => "0"@,
    }
}

/// The C spelling of a type. Arrays print their dimensions outermost first,
/// as C declarators read them; a named type is its struct; references are
/// pointers; a tuple is the struct of its shape.
pub open spec fn c_type(t: Type) -> Seq<char>
    decreases t, 0nat,
{
    match t {
        Type::I32 => "int"@,
        Type::I64 => "long long"@,
        Type::U32 => "unsigned int"@,
        Type::U64 => "unsigned long long"@,
        Type::F64 => "double"@,
        Type::F32 => "float"@,
        Type::Char => "long long"@,
        Type::Bool => "int"@,
        Type::String => "const char*"@,
        Type::Unit => "void"@,
        Type::Array(elem, size) => array_base(*elem) + "["@ + array_size_text(size) + "]"@
            + array_dims(*elem),
        Type::Custom(name) => "struct "@ + name@,
        Type::TypeParam(_) | Type::Generic { .. } => "void*"@,
        Type::Reference { inner, .. } => c_type(*inner) + "*"@,
        Type::Future { output } => "Future_"@ + c_type(*output),
        Type::Tuple(types) => tuple_name(c_types(types@)),
    }
}

/// The element type at the bottom of a (possibly nested) array type.
pub open spec fn array_base(t: Type) -> Seq<char>
    decreases t, 1nat,
{
    match t {
        Type::Array(elem, _) => array_base(*elem),
        _ => c_type(t),
    }
}

/// The dimensions of a (possibly nested) array type, outermost first.
pub open spec fn array_dims(t: Type) -> Seq<char>
    decreases t,
{
    match t {
        Type::Array(elem, size) => "["@ + array_size_text(size) + "]"@ + array_dims(*elem),
        _ => Seq::empty(),
    }
}

/// The C spellings of a list of types.
pub open spec fn c_types(ts: Seq<Type>) -> Seq<Seq<char>>
    decreases ts, 0nat,
{
    if ts.len() == 0 {
        Seq::empty()
    } else {
        c_types(ts.drop_last()).push(c_type(ts.last()))
    }
}

impl CodeGenerator {
    /// One declared dimension as a declaration prints it.
    pub fn c_array_size(size: &ArraySize) -> (r: String)
        ensures
            r@ == array_size_text(*size),
    {
        match size {
            ArraySize::Literal(n) => crate::text::usize_to_string(*n),
            ArraySize::ConstParam(name) => name.clone(),
            ArraySize::Expr(_) => string_of("0"),
        }
    }

    /// The C spelling of a type.
    pub fn type_to_c(&self, ty: &Type) -> (r: String)
        ensures
            r@ == c_type(*ty),
        decreases ty, 0nat,
    {
        match ty {
            Type::I32 => string_of("int"),
            Type::I64 => string_of("long long"),
            Type::U32 => string_of("unsigned int"),
            Type::U64 => string_of("unsigned long long"),
            Type::F64 => string_of("double"),
            Type::F32 => string_of("float"),
            Type::Char => string_of("long long"),
            Type::Bool => string_of("int"),
            Type::String => string_of("const char*"),
            Type::Unit => string_of("void"),
            Type::Array(elem, size) => {
                let mut out = self.array_base_to_c(elem);
                push_str(&mut out, "[");
                let n = Self::c_array_size(size);
                push_str(&mut out, n.as_str());
                push_str(&mut out, "]");
                let dims = self.array_dims_to_c(elem);
                push_str(&mut out, dims.as_str());
                out
            },
            Type::Custom(name) => {
                let mut out = string_of("struct ");
                push_str(&mut out, name.as_str());
                out
            },
            Type::TypeParam(_) | Type::Generic { .. } => string_of("void*"),
            Type::Reference { inner, .. } => {
                let mut out = self.type_to_c(inner);
                push_str(&mut out, "*");
                out
            },
            Type::Future { output } => {
                let mut out = string_of("Future_");
                let inner = self.type_to_c(output);
                push_str(&mut out, inner.as_str());
                out
            },
            Type::Tuple(types) => {
                let mut names: Vec<String> = Vec::new();
                let mut i: usize = 0;
                while i < types.len()
                    invariant
                        i <= types.len(),
                        *ty == Type::Tuple(*types),
                        names@.map_values(|s: String| s@) == c_types(types@.take(i as int)),
                    decreases types.len() - i,
                {
                    proof {
                        assert(decreases_to!(*ty => ty->Tuple_0));
                        assert(decreases_to!(*types => types@));
                        assert(decreases_to!(types@ => types@[i as int]));
                        assert(types@.take(i + 1).drop_last() == types@.take(i as int));
                        assert(types@.take(i + 1).last() == types@[i as int]);
                    }
                    let t = self.type_to_c(&types[i]);
                    let ghost before = names@;
                    names.push(t);
                    i = i + 1;
                    assert(names@.map_values(|s: String| s@) =~= before.map_values(
                        |s: String| s@,
                    ).push(c_type(types@[i - 1])));
                }
                assert(types@.take(i as int) == types@);
                tuple_name_of(names.as_slice())
            },
        }
    }

    /// The element type at the bottom of an array type.
    fn array_base_to_c(&self, ty: &Type) -> (r: String)
        ensures
            r@ == array_base(*ty),
        decreases ty, 1nat,
    {
        match ty {
            Type::Array(elem, _) => self.array_base_to_c(elem),
            _ => self.type_to_c(ty),
        }
    }

    /// The dimensions of an array type, outermost first.
    fn array_dims_to_c(&self, ty: &Type) -> (r: String)
        ensures
            r@ == array_dims(*ty),
        decreases ty,
    {
        match ty {
            Type::Array(elem, size) => {
                let mut out = string_of("[");
                let n = Self::c_array_size(size);
                push_str(&mut out, n.as_str());
                push_str(&mut out, "]");
                let inner = self.array_dims_to_c(elem);
                push_str(&mut out, inner.as_str());
                out
            },
            _ => String::new(),
        }
    }
}

// ---------------------------------------------------------------------------
// Declarations
// ---------------------------------------------------------------------------

/// What code generation can prove about an array's outermost length: a
/// literal length (zero included), or a length it cannot evaluate, by how
/// the source spelled it.
#[derive(Debug, Clone, PartialEq, Eq)]
pub enum ArrayLen {
    Proven(usize),
    Unproven(String),
}

/// How an array parameter was declared, which decides whether the function
/// may write through it.
#[derive(Debug, Clone, Copy, PartialEq, Eq, Structural)]
pub enum ArrayParamForm {
    /// `xs: [T; N]`: no declared intent to mutate anything.
    ByValue,
    /// `mut xs: [T; N]`.
    MutByValue,
    /// `xs: &[T; N]`.
    Shared,
    /// `xs: &mut [T; N]`.
    Mutable,
}

/// Where an array binding's storage lives: a local object, or a parameter
/// that reached the callee as a pointer.
#[derive(Debug, Clone, Copy, PartialEq, Eq, Structural)]
pub enum ArrayStorage {
    Object,
    Parameter(ArrayParamForm),
}

/// An array in scope, with the two facts C throws away: its length and where
/// it lives.
#[derive(Debug)]
pub struct ArrayBinding {
    pub len: ArrayLen,
    pub storage: ArrayStorage,
}

/// An array length as a value: proven, or spelled as the source wrote it.
pub ghost enum LenView {
    Proven(nat),
    Unproven(Seq<char>),
}

pub open spec fn len_view(l: ArrayLen) -> LenView {
    match l {
        ArrayLen::Proven(n) => LenView::Proven(n as nat),
        ArrayLen::Unproven(s) => LenView::Unproven(s@),
    }
}

/// An array binding as a value.
pub ghost struct BindingView {
    pub len: LenView,
    pub storage: ArrayStorage,
}

pub open spec fn binding_view(b: ArrayBinding) -> BindingView {
    BindingView { len: len_view(b.len), storage: b.storage }
}

/// The length a declared size states.
pub open spec fn size_len(size: ArraySize) -> LenView {
    match size {
        ArraySize::Literal(n) => LenView::Proven(n as nat),
        ArraySize::ConstParam(name) => LenView::Unproven(name@),
        ArraySize::Expr(_) => LenView::Unproven("<size expression>"@),
    }
}

/// The array binding a parameter brings into its function, if it is an
/// array or a reference to one.
pub open spec fn param_array(p: Param) -> Option<BindingView> {
    match p.ty {
        Type::Array(_, size) => Some(
            BindingView {
                len: size_len(size),
                storage: ArrayStorage::Parameter(
                    if p.mutable {
                        ArrayParamForm::MutByValue
                    } else {
                        ArrayParamForm::ByValue
                    },
                ),
            },
        ),
        Type::Reference { inner, mutable } => match *inner {
            Type::Array(_, size) => Some(
                BindingView {
                    len: size_len(size),
                    storage: ArrayStorage::Parameter(
                        if mutable {
                            ArrayParamForm::Mutable
                        } else {
                            ArrayParamForm::Shared
                        },
                    ),
                },
            ),
            _ => None,
        },
        _ => None,
    }
}

/// The array bindings a function's parameters bring, in order.
pub open spec fn params_arrays(ps: Seq<Param>) -> Seq<(Seq<char>, Option<BindingView>)>
    decreases ps.len(),
{
    if ps.len() == 0 {
        Seq::empty()
    } else {
        let before = params_arrays(ps.drop_last());
        match param_array(ps.last()) {
            Some(b) => before.push((ps.last().name@, Some(b))),
            None => before,
        }
    }
}

/// What is known of `name` as an array: the latest binding of the name, if
/// it binds an array.
pub open spec fn array_lookup(bs: Seq<(Seq<char>, Option<BindingView>)>, name: Seq<char>) -> Option<
    BindingView,
>
    decreases bs.len(),
{
    if bs.len() == 0 {
        None
    } else if bs.last().0 == name {
        bs.last().1
    } else {
        array_lookup(bs.drop_last(), name)
    }
}

pub const SHARED_WRITE_TAIL: &'static str = "`: it is a shared reference parameter, `&[T; N]`, and a shared reference does not permit mutation. Declare it `&mut [T; N]` if this function is meant to modify the caller's array.";

pub const BY_VALUE_WRITE_MIDDLE: &'static str = "`: it is a by-value array parameter, but C decays every array parameter to a pointer, so the write would reach the caller's array rather than a copy. Whether `[T; N]` parameters copy or alias is not decided by the language specification, so this is refused instead of guessing. Declare `";

/// Why writing to `name` is refused, when it is: a shared reference
/// parameter permits no mutation, and a by-value array parameter would write
/// the caller's array.
pub open spec fn write_refusal(binding: Option<BindingView>, name: Seq<char>) -> Option<Seq<char>> {
    match binding {
        Some(b) => match b.storage {
            ArrayStorage::Parameter(ArrayParamForm::Shared) => Some(
                "cannot write to `"@ + name + SHARED_WRITE_TAIL@,
            ),
            ArrayStorage::Parameter(ArrayParamForm::ByValue) => Some(
                "cannot write to `"@ + name + BY_VALUE_WRITE_MIDDLE@ + name + ": &mut [T; N]` (or `mut "@
                    + name + ": [T; N]`) to modify the caller's array."@,
            ),
            _ => None,
        },
        None => None,
    }
}

pub const UNKNOWN_CALLEE_MIDDLE: &'static str = "`: this compiler does not know that callee's parameter list, so it cannot tell whether `";

pub const UNKNOWN_CALLEE_TAIL: &'static str = "` writes through the array - and every array is passed as a pointer into the caller's storage. Allowing it would make the array write rule unenforceable for this call. Call a plain `fn` with a declared array parameter instead; `impl` methods and imported callees cannot take arrays yet.";

pub const UNKNOWN_ORIGIN_MIDDLE: &'static str = "` may write to the caller's array, and this compiler cannot establish where the array came from (";

pub const UNKNOWN_ORIGIN_TAIL: &'static str = "), so it cannot tell whether the write is permitted. Every array is passed as a pointer into the caller's storage, so guessing would silently break the array write rule. Bind the array to a local or a parameter first and pass that name.";

pub const HELD_SHARED: &'static str = "a shared reference parameter, `&[T; N]`";

pub const HELD_BY_VALUE: &'static str = "a by-value array parameter, `[T; N]`";

/// The refusal of a call that hands an array to a callee whose parameters
/// are not known.
pub open spec fn unknown_callee_message(f: Seq<char>) -> Seq<char> {
    "cannot pass an array to `"@ + f + UNKNOWN_CALLEE_MIDDLE@ + f + UNKNOWN_CALLEE_TAIL@
}

/// The refusal of an argument, of kind `kind`, whose array has no origin this
/// generator can state, for a parameter that may write to it.
pub open spec fn unknown_origin_message(f: Seq<char>, param: Seq<char>, kind: Seq<char>) -> Seq<char> {
    "cannot pass this argument to `"@ + f + "`: the parameter `"@ + param + UNKNOWN_ORIGIN_MIDDLE@
        + kind + UNKNOWN_ORIGIN_TAIL@
}

/// The refusal of lending `root`, which is `held`, to a parameter that may
/// write to it.
pub open spec fn lent_message(root: Seq<char>, f: Seq<char>, param: Seq<char>, held: Seq<char>) -> Seq<
    char,
> {
    "cannot pass `"@ + root + "` to `"@ + f + "`: the parameter `"@ + param
        + "` may write to the caller's array, but `"@ + root + "` is "@ + held
        + " here, which does not carry that permission. Passing it on would let `"@ + f
        + "` perform a write that `"@ + root + "` is not allowed to perform itself. Declare `"@
        + root + ": &mut [T; N]`."@
}

/// Why passing `arg` for the parameter `p` of `f` is refused, if it is: a
/// parameter that may write to the caller's array needs an argument whose
/// array is known to carry that permission.
pub open spec fn arg_refusal(
    vars: Env,
    arrays: Seq<(Seq<char>, Option<BindingView>)>,
    f: Seq<char>,
    p: Param,
    arg: Expr,
) -> Option<Seq<char>> {
    if !grants_array_write(p) {
        None
    } else {
        let place = match arg {
            Expr::Reference { expr, .. } => *expr,
            _ => arg,
        };
        let unknown_origin = if array_argument(vars, arrays, arg) {
            Some(unknown_origin_message(f, p.name@, kind_name(place)))
        } else {
            None
        };
        match place {
            Expr::Ident(root) => match array_lookup(arrays, root@) {
                Some(b) => match b.storage {
                    ArrayStorage::Parameter(ArrayParamForm::Shared) => Some(
                        lent_message(root@, f, p.name@, HELD_SHARED@),
                    ),
                    ArrayStorage::Parameter(ArrayParamForm::ByValue) => Some(
                        lent_message(root@, f, p.name@, HELD_BY_VALUE@),
                    ),
                    _ => None,
                },
                None => unknown_origin,
            },
            _ => unknown_origin,
        }
    }
}

/// The first refused argument from position `i` on, over the positions that
/// have both a parameter and an argument.
pub open spec fn params_refusal(
    vars: Env,
    arrays: Seq<(Seq<char>, Option<BindingView>)>,
    f: Seq<char>,
    ps: Seq<Param>,
    args: Seq<Expr>,
    i: int,
) -> Option<Seq<char>>
    decreases ps.len() - i,
{
    if i < 0 || i >= ps.len() || i >= args.len() {
        None
    } else {
        match arg_refusal(vars, arrays, f, ps[i], args[i]) {
            Some(m) => Some(m),
            None => params_refusal(vars, arrays, f, ps, args, i + 1),
        }
    }
}

/// Why a call of `f` with `args` is refused, if it is. With the callee's
/// parameters unknown, any array argument is refused; otherwise each
/// parameter that may write to the caller's array is checked against its
/// argument, in order.
pub open spec fn call_refusal(
    vars: Env,
    arrays: Seq<(Seq<char>, Option<BindingView>)>,
    f: Seq<char>,
    params: Option<Seq<Param>>,
    args: Seq<Expr>,
) -> Option<Seq<char>> {
    match params {
        None => if exists|i: int| 0 <= i < args.len() && array_argument(vars, arrays, #[trigger] args[i]) {
            Some(unknown_callee_message(f))
        } else {
            None
        },
        Some(ps) => params_refusal(vars, arrays, f, ps, args, 0),
    }
}

/// An array parameter is known in its function body as the array it was
/// declared, with its length and form, unless a later parameter takes its
/// name.
pub proof fn lemma_array_parameter_reads_back(ps: Seq<Param>, k: int)
    requires
        0 <= k < ps.len(),
        param_array(ps[k]) is Some,
        forall|j: int| k < j < ps.len() ==> (#[trigger] ps[j]).name@ != ps[k].name@,
    ensures
        array_lookup(params_arrays(ps), ps[k].name@) == param_array(ps[k]),
    decreases ps.len(),
{
    let init = ps.drop_last();
    if k < ps.len() - 1 {
        assert forall|j: int| k < j < init.len() implies (#[trigger] init[j]).name@ != init[k].name@ by {
            assert(init[j] == ps[j]);
        }
        lemma_array_parameter_reads_back(init, k);
        assert(init[k] == ps[k]);
        assert(ps.last() == ps[ps.len() - 1]);
        let a = params_arrays(init);
        if let Some(b) = param_array(ps.last()) {
            assert(a.push((ps.last().name@, Some(b))).drop_last() == a);
        }
    } else {
        assert(ps.last() == ps[k]);
        let a = params_arrays(init);
        if let Some(b) = param_array(ps.last()) {
            assert(a.push((ps.last().name@, Some(b))).last() == (ps.last().name@, Some(b)));
        }
    }
}

/// A name bound to something that is not an array is no array, whatever it
/// was before: writing to it is never refused as an array write.
pub proof fn lemma_non_array_binding_shadows(
    arrays: Seq<(Seq<char>, Option<BindingView>)>,
    name: Seq<char>,
)
    ensures
        array_lookup(arrays.push((name, None)), name) is None,
        write_refusal(array_lookup(arrays.push((name, None)), name), name) is None,
{
    assert(arrays.push((name, None)).last() == (name, None::<BindingView>));
}

/// Whether an argument denotes an array as far as this generator can tell: a
/// name bound to an array, or anything whose inferred C type has dimensions.
pub open spec fn array_argument(
    vars: Env,
    arrays: Seq<(Seq<char>, Option<BindingView>)>,
    e: Expr,
) -> bool {
    let place = match e {
        Expr::Reference { expr, .. } => *expr,
        _ => e,
    };
    (place matches Expr::Ident(name) && array_lookup(arrays, name@) is Some) || (inferred(
        vars,
        Seq::empty(),
        place,
    ) matches Some(t) && index_of(t, '[') is Some)
}

/// The C type of a function's declared return type: `void` for none or the
/// unit type, nothing for a generic return type, which is only known per
/// instantiation.
pub open spec fn return_c_type(ret: Option<Type>) -> Option<Seq<char>> {
    match ret {
        None => Some("void"@),
        Some(Type::Unit) => Some("void"@),
        Some(Type::TypeParam(_)) => None,
        Some(Type::Generic { .. }) => None,
        Some(t) => Some(c_type(t)),
    }
}

/// A parameter that may write into the caller's array through the pointer
/// it receives: `mut xs: [T; N]`, or `xs: &mut [T; N]`.
pub open spec fn grants_array_write(p: Param) -> bool {
    match p.ty {
        Type::Array(_, _) => p.mutable,
        Type::Reference { inner, mutable } => mutable && (*inner is Array),
        _ => false,
    }
}

/// The bindings a block's `let` statements add over `outer`, each typed by
/// its annotation or else inferred from its value in the bindings before
/// it; a `let` whose type cannot be inferred adds nothing.
pub open spec fn locals_after(
    vars: Env,
    outer: Seq<(Seq<char>, Seq<char>)>,
    stmts: Seq<Stmt>,
) -> Seq<(Seq<char>, Seq<char>)>
    decreases stmts,
{
    if stmts.len() == 0 {
        outer
    } else {
        proof {
            assert(decreases_to!(stmts => stmts.drop_last()));
            assert(decreases_to!(stmts => stmts[stmts.len() - 1]));
        }
        let before = locals_after(vars, outer, stmts.drop_last());
        match stmts.last() {
            Stmt::Let { name, ty, value, .. } => {
                let t = match ty {
                    Some(t) => Some(c_type(t)),
                    None => inferred(vars, before, value),
                };
                match t {
                    Some(t) => before.push((name@, t)),
                    None => before,
                }
            },
            _ => before,
        }
    }
}

/// The C type a parameter is known by inside its function: scalars by their
/// C type, a struct by its bare name, an array or a tuple by its full C type,
/// a reference by what it refers to; anything else as `long long`.
pub open spec fn param_var_type(p: Param) -> Seq<char> {
    match p.ty {
        Type::String => "const char*"@,
        Type::I32 => "int"@,
        Type::I64 => "long long"@,
        Type::Char => "long long"@,
        Type::Bool => "int"@,
        Type::Custom(name) => name@,
        Type::Array(_, _) => c_type(p.ty),
        Type::Tuple(_) => c_type(p.ty),
        Type::Reference { inner, .. } => match *inner {
            Type::Custom(name) => name@,
            Type::I32 => "int"@,
            Type::I64 => "long long"@,
            Type::Array(_, _) => c_type(*inner),
            _ => "long long"@,
        },
        _ => "long long"@,
    }
}

/// The scope a function body starts in: its parameters, in order, each with
/// the type it is known by.
pub open spec fn params_scope(ps: Seq<Param>) -> Seq<(Seq<char>, Seq<char>)> {
    ps.map_values(|p: Param| (p.name@, param_var_type(p)))
}

/// A struct just declared is what its name looks up, until it is declared
/// again; so is a function.
/// `char` rides in the same C carrier as `i64`: a C `char` holds 8 bits and
/// a Unicode scalar such as U+D55C needs 21. A `char` declaration, a char
/// literal and an integer literal all have that one type, and a cast has
/// the type it names.
pub proof fn lemma_char_shares_the_integer_carrier(
    vars: Env,
    locals: Seq<(Seq<char>, Seq<char>)>,
    c: char,
    n: i64,
    e: Expr,
    ty: Type,
    span: Span,
)
    ensures
        c_type(Type::Char) == c_type(Type::I64),
        inferred(vars, locals, Expr::Char(c)) == Some(c_type(Type::Char)),
        inferred(vars, locals, Expr::Integer(n)) == Some(c_type(Type::I64)),
        inferred(vars, locals, Expr::Cast { expr: Box::new(e), ty, span }) == Some(c_type(ty)),
{
}

/// Truth values and text have the C types their declarations have: a
/// boolean literal, a comparison, `&&`, `||` and `!` are typed as a `bool`
/// declaration is, and a string literal as a `String` declaration is.
pub proof fn lemma_literal_and_truth_types(
    vars: Env,
    locals: Seq<(Seq<char>, Seq<char>)>,
    b: bool,
    text: String,
    left: Expr,
    op: BinOp,
    right: Expr,
    operand: Expr,
    span: Span,
)
    ensures
        inferred(vars, locals, Expr::Bool(b)) == Some(c_type(Type::Bool)),
        inferred(vars, locals, Expr::String(text)) == Some(c_type(Type::String)),
        (op is Eq || op is Ne || op is Lt || op is Gt || op is Le || op is Ge || op is And
            || op is Or) ==> inferred(
            vars,
            locals,
            Expr::Binary { left: Box::new(left), op, right: Box::new(right), span },
        ) == Some(c_type(Type::Bool)),
        inferred(
            vars,
            locals,
            Expr::Unary { op: UnaryOp::Not, operand: Box::new(operand), span },
        ) == Some(c_type(Type::Bool)),
{
}

/// Whether `t` is a scalar type.
pub open spec fn is_scalar(t: Type) -> bool {
    t is I32 || t is I64 || t is U32 || t is U64 || t is F32 || t is F64 || t is Char || t is Bool
        || t is String || t is Unit
}

/// Scalar types of different width, signedness or kind have different C
/// types; the only scalars that share one are `char` with `i64` (the same
/// 64-bit carrier) and `bool` with `i32` (C's `int` truth value).
pub proof fn lemma_scalar_c_types_distinguish(a: Type, b: Type)
    requires
        is_scalar(a),
        is_scalar(b),
    ensures
        c_type(a) == c_type(b) <==> (a == b || (a is Char && b is I64) || (a is I64 && b is Char) || (
        a is Bool && b is I32) || (a is I32 && b is Bool)),
{
    reveal_strlit("int");
    reveal_strlit("long long");
    reveal_strlit("unsigned int");
    reveal_strlit("unsigned long long");
    reveal_strlit("double");
    reveal_strlit("float");
    reveal_strlit("const char*");
    reveal_strlit("void");
    assert("int"@.len() == 3);
    assert("long long"@.len() == 9);
    assert("unsigned int"@.len() == 12);
    assert("unsigned long long"@.len() == 18);
    assert("double"@.len() == 6);
    assert("float"@.len() == 5);
    assert("const char*"@.len() == 11);
    assert("void"@.len() == 4);
    match a {
        Type::I32 => match b {
                Type::I32 => {},
                Type::I64 => {},
                Type::U32 => {},
                Type::U64 => {},
                Type::F32 => {},
                Type::F64 => {},
                Type::Char => {},
                Type::Bool => {},
                Type::String => {},
                Type::Unit => {},
                _ => {},
            },
        Type::I64 => match b {
                Type::I32 => {},
                Type::I64 => {},
                Type::U32 => {},
                Type::U64 => {},
                Type::F32 => {},
                Type::F64 => {},
                Type::Char => {},
                Type::Bool => {},
                Type::String => {},
                Type::Unit => {},
                _ => {},
            },
        Type::U32 => match b {
                Type::I32 => {},
                Type::I64 => {},
                Type::U32 => {},
                Type::U64 => {},
                Type::F32 => {},
                Type::F64 => {},
                Type::Char => {},
                Type::Bool => {},
                Type::String => {},
                Type::Unit => {},
                _ => {},
            },
        Type::U64 => match b {
                Type::I32 => {},
                Type::I64 => {},
                Type::U32 => {},
                Type::U64 => {},
                Type::F32 => {},
                Type::F64 => {},
                Type::Char => {},
                Type::Bool => {},
                Type::String => {},
                Type::Unit => {},
                _ => {},
            },
        Type::F32 => match b {
                Type::I32 => {},
                Type::I64 => {},
                Type::U32 => {},
                Type::U64 => {},
                Type::F32 => {},
                Type::F64 => {},
                Type::Char => {},
                Type::Bool => {},
                Type::String => {},
                Type::Unit => {},
                _ => {},
            },
        Type::F64 => match b {
                Type::I32 => {},
                Type::I64 => {},
                Type::U32 => {},
                Type::U64 => {},
                Type::F32 => {},
                Type::F64 => {},
                Type::Char => {},
                Type::Bool => {},
                Type::String => {},
                Type::Unit => {},
                _ => {},
            },
        Type::Char => match b {
                Type::I32 => {},
                Type::I64 => {},
                Type::U32 => {},
                Type::U64 => {},
                Type::F32 => {},
                Type::F64 => {},
                Type::Char => {},
                Type::Bool => {},
                Type::String => {},
                Type::Unit => {},
                _ => {},
            },
        Type::Bool => match b {
                Type::I32 => {},
                Type::I64 => {},
                Type::U32 => {},
                Type::U64 => {},
                Type::F32 => {},
                Type::F64 => {},
                Type::Char => {},
                Type::Bool => {},
                Type::String => {},
                Type::Unit => {},
                _ => {},
            },
        Type::String => match b {
                Type::I32 => {},
                Type::I64 => {},
                Type::U32 => {},
                Type::U64 => {},
                Type::F32 => {},
                Type::F64 => {},
                Type::Char => {},
                Type::Bool => {},
                Type::String => {},
                Type::Unit => {},
                _ => {},
            },
        Type::Unit => match b {
                Type::I32 => {},
                Type::I64 => {},
                Type::U32 => {},
                Type::U64 => {},
                Type::F32 => {},
                Type::F64 => {},
                Type::Char => {},
                Type::Bool => {},
                Type::String => {},
                Type::Unit => {},
                _ => {},
            },
        _ => {},
    }
}

/// Arithmetic keeps the widest floating type among its operands: for
/// `+ - * /`, a `double` operand makes the result `double` (so
/// `let d = x / y;` over doubles is not truncated to an integer); with no
/// `double`, a `float` operand makes it `float`; two strings make a string;
/// two integers an integer. Swapping the operands never changes the type.
pub proof fn lemma_arithmetic_result_type(
    vars: Env,
    locals: Seq<(Seq<char>, Seq<char>)>,
    left: Expr,
    op: BinOp,
    right: Expr,
    span: Span,
)
    requires
        op is Add || op is Sub || op is Mul || op is Div,
    ensures
        ({
            let l = inferred(vars, Seq::empty(), left);
            let r = inferred(vars, Seq::empty(), right);
            let t = inferred(
                vars,
                locals,
                Expr::Binary { left: Box::new(left), op, right: Box::new(right), span },
            );
            &&& (l == Some("double"@) || r == Some("double"@)) ==> t == Some("double"@)
            &&& (l == Some("float"@) || r == Some("float"@)) && l != Some("double"@) && r != Some(
                "double"@,
            ) ==> t == Some("float"@)
            &&& l == Some("const char*"@) && r == Some("const char*"@) ==> t == Some("const char*"@)
            &&& (l is None || l == Some("long long"@) || l == Some("int"@)) && (r is None || r
                == Some("long long"@) || r == Some("int"@)) ==> t == Some("long long"@)
            &&& t == inferred(
                vars,
                locals,
                Expr::Binary { left: Box::new(right), op, right: Box::new(left), span },
            )
        }),
{
    reveal_strlit("double");
    reveal_strlit("float");
    reveal_strlit("const char*");
    reveal_strlit("long long");
    reveal_strlit("int");
}

pub proof fn lemma_declarations_read_back(
    structs: Seq<(Seq<char>, Seq<(Seq<char>, Seq<char>)>)>,
    struct_name: Seq<char>,
    fields: Seq<(Seq<char>, Seq<char>)>,
    functions: Seq<(Seq<char>, FnSig)>,
    function_name: Seq<char>,
    sig: FnSig,
)
    ensures
        struct_lookup(structs.push((struct_name, fields)), struct_name) == Some(fields),
        fn_lookup(functions.push((function_name, sig)), function_name) == Some(sig),
{
    assert(structs.push((struct_name, fields)).last() == (struct_name, fields));
    assert(functions.push((function_name, sig)).last() == (function_name, sig));
}

/// A variable just bound is what its name is inferred to be, until it is
/// bound again.
pub proof fn lemma_bound_variable_reads_back(env: Env, name: String, c_type: Seq<char>)
    ensures
        inferred(Env { vars: env.vars.push((name@, c_type)), ..env }, Seq::empty(), Expr::Ident(name))
            == Some(c_type),
{
    assert(env.vars.push((name@, c_type)).last() == (name@, c_type));
}

impl CodeGenerator {
    /// The C type a parameter is known by inside its function.
    pub fn param_var_c_type(&self, param: &Param) -> (r: String)
        ensures
            r@ == param_var_type(*param),
    {
        match &param.ty {
            Type::String => string_of("const char*"),
            Type::I32 => string_of("int"),
            Type::I64 => string_of("long long"),
            Type::Char => string_of("long long"),
            Type::Bool => string_of("int"),
            Type::Custom(name) => name.clone(),
            Type::Array(_, _) => self.type_to_c(&param.ty),
            Type::Tuple(_) => self.type_to_c(&param.ty),
            Type::Reference { inner, .. } => match &**inner {
                Type::Custom(name) => name.clone(),
                Type::I32 => string_of("int"),
                Type::I64 => string_of("long long"),
                Type::Array(_, _) => self.type_to_c(inner),
                _ => string_of("long long"),
            },
            _ => string_of("long long"),
        }
    }

    /// Bind a variable that is not an array to its C type, shadowing any
    /// earlier binding of the name.
    pub fn bind_non_array(&mut self, name: &str, c_type: String)
        ensures
            final(self).scope() == old(self).scope().push((name@, c_type@)),
            final(self).arrays() == old(self).arrays().push((name@, None)),
            final(self).module() == old(self).module(),
            final(self).shapes() == old(self).shapes(),
            final(self).hoisted() == old(self).hoisted(),
            final(self).hoist_count() == old(self).hoist_count(),
            final(self).well_formed() == old(self).well_formed(),
    {
        let ghost before = self.scope();
        let ghost arrays_before = self.arrays();
        self.variables.push((string_of(name), c_type));
        self.array_bindings.push((string_of(name), None));
        assert(self.scope() =~= before.push((name@, c_type@)));
        assert(self.arrays() =~= arrays_before.push((name@, None)));
    }

    /// The array binding a parameter brings into its function.
    fn param_array_binding(param: &Param) -> (r: Option<ArrayBinding>)
        ensures
            match param_array(*param) {
                Some(v) => r matches Some(b) && binding_view(b) == v,
                None => r is None,
            },
    {
        match &param.ty {
            Type::Array(_, size) => Some(
                ArrayBinding {
                    len: Self::array_len_of_size(size),
                    storage: ArrayStorage::Parameter(
                        if param.mutable {
                            ArrayParamForm::MutByValue
                        } else {
                            ArrayParamForm::ByValue
                        },
                    ),
                },
            ),
            Type::Reference { inner, mutable } => match &**inner {
                Type::Array(_, size) => Some(
                    ArrayBinding {
                        len: Self::array_len_of_size(size),
                        storage: ArrayStorage::Parameter(
                            if *mutable {
                                ArrayParamForm::Mutable
                            } else {
                                ArrayParamForm::Shared
                            },
                        ),
                    },
                ),
                _ => None,
            },
            _ => None,
        }
    }

    /// Start a function body: the variables in scope become its parameters,
    /// each with the type it is known by there, and the arrays in scope the
    /// array parameters, each with its declared length and form.
    pub fn bind_parameters(&mut self, func: &Function)
        ensures
            final(self).scope() == params_scope(func.params@),
            final(self).arrays() == params_arrays(func.params@),
            final(self).module() == old(self).module(),
            final(self).shapes() == old(self).shapes(),
            final(self).hoisted() == old(self).hoisted(),
            final(self).hoist_count() == old(self).hoist_count(),
            final(self).well_formed() == old(self).well_formed(),
    {
        self.variables = Vec::new();
        self.array_bindings = Vec::new();
        let mut i: usize = 0;
        let ghost ps = func.params@;
        assert(self.scope() =~= params_scope(ps.take(0)));
        assert(self.arrays() =~= params_arrays(ps.take(0)));
        while i < func.params.len()
            invariant
                i <= func.params.len(),
                ps == func.params@,
                self.scope() == params_scope(ps.take(i as int)),
                self.arrays() == params_arrays(ps.take(i as int)),
                self.module() == old(self).module(),
                self.shapes() == old(self).shapes(),
                self.hoisted() == old(self).hoisted(),
                self.hoist_count() == old(self).hoist_count(),
                self.well_formed() == old(self).well_formed(),
            decreases func.params.len() - i,
        {
            let param = &func.params[i];
            let ghost scope_before = self.scope();
            let ghost arrays_before = self.arrays();
            proof {
                assert(ps.take(i + 1).drop_last() == ps.take(i as int));
                assert(ps.take(i + 1).last() == ps[i as int]);
            }
            match Self::param_array_binding(param) {
                Some(b) => {
                    self.array_bindings.push((param.name.clone(), Some(b)));
                    assert(self.arrays() =~= arrays_before.push((param.name@, Some(binding_view(b)))));
                },
                None => {},
            }
            let c_type = self.param_var_c_type(param);
            self.variables.push((param.name.clone(), c_type));
            assert(self.scope() =~= scope_before.push((param.name@, c_type@)));
            i = i + 1;
            assert(params_scope(ps.take(i as int)) =~= params_scope(ps.take(i - 1)).push(
                (ps[i - 1].name@, param_var_type(ps[i - 1])),
            ));
        }
        assert(ps.take(i as int) == ps);
    }

    fn array_binding_of(&self, name: &str) -> (r: Option<&ArrayBinding>)
        ensures
            match array_lookup(self.arrays(), name@) {
                Some(v) => r matches Some(b) && binding_view(*b) == v,
                None => r is None,
            },
    {
        let ghost t = self.arrays();
        let mut k: usize = self.array_bindings.len();
        assert(t.take(k as int) == t);
        while k > 0
            invariant
                k <= self.array_bindings.len(),
                t == self.arrays(),
                array_lookup(t, name@) == array_lookup(t.take(k as int), name@),
            decreases k,
        {
            proof {
                assert(t.take(k as int).drop_last() == t.take(k - 1));
                assert(t.take(k as int).last() == t[k - 1]);
            }
            if str_eq(self.array_bindings[k - 1].0.as_str(), name) {
                return match &self.array_bindings[k - 1].1 {
                    Some(b) => Some(b),
                    None => None,
                };
            }
            k = k - 1;
        }
        None
    }

    /// Refuse a write to an array this function may not write: a shared
    /// reference parameter, or a by-value array parameter, whose write would
    /// reach the caller's array. Any other name may be written.
    pub fn check_array_write(&self, name: &str) -> (r: Result<()>)
        ensures
            match write_refusal(array_lookup(self.arrays(), name@), name@) {
                Some(m) => r matches Err(CompileError::CodegenError { message }) && message@ == m,
                None => r is Ok,
            },
    {
        match self.array_binding_of(name) {
            Some(binding) => match binding.storage {
                ArrayStorage::Parameter(ArrayParamForm::Shared) => {
                    let mut message = string_of("cannot write to `");
                    push_str(&mut message, name);
                    push_str(&mut message, SHARED_WRITE_TAIL);
                    Err(CompileError::CodegenError { message })
                },
                ArrayStorage::Parameter(ArrayParamForm::ByValue) => {
                    let mut message = string_of("cannot write to `");
                    push_str(&mut message, name);
                    push_str(&mut message, BY_VALUE_WRITE_MIDDLE);
                    push_str(&mut message, name);
                    push_str(&mut message, ": &mut [T; N]` (or `mut ");
                    push_str(&mut message, name);
                    push_str(&mut message, ": [T; N]`) to modify the caller's array.");
                    Err(CompileError::CodegenError { message })
                },
                _ => Ok(()),
            },
            None => Ok(()),
        }
    }

    /// Whether an argument denotes an array, as far as this generator can
    /// tell. Deliberately generous: over-answering costs a refusal, which is
    /// recoverable; under-answering would let a write capability leak.
    pub fn is_array_argument(&self, expr: &Expr) -> (r: bool)
        ensures
            r == array_argument(self.env(), self.arrays(), *expr),
    {
        let place = match expr {
            Expr::Reference { expr, .. } => &**expr,
            other => other,
        };
        if let Expr::Ident(name) = place {
            if self.array_binding_of(name.as_str()).is_some() {
                return true;
            }
        }
        match self.try_infer_expr_type(place) {
            Some(t) => {
                let cs = chars_of(t.as_str());
                find_char(&cs, '[').is_some()
            },
            None => false,
        }
    }

    /// Whether an argument names storage whose address can be taken.
    pub fn expr_is_addressable(arg: &Expr) -> (r: bool)
        ensures
            r == (*arg is Ident || *arg is FieldAccess || *arg is Index || *arg is Deref),
    {
        match arg {
            Expr::Ident(_) | Expr::FieldAccess { .. } | Expr::Index { .. } | Expr::Deref { .. } => true,
            _ => false,
        }
    }

    /// Whether an argument for a parameter of type `ty` must be passed by
    /// address: a reference parameter to anything but an array, given an
    /// argument not already written as a reference.
    pub fn reference_param_needs_address(ty: &Type, arg: &Expr) -> (r: bool)
        ensures
            r == (match *ty {
                Type::Reference { inner, .. } => !((*inner) is Array) && !(*arg is Reference),
                _ => false,
            }),
    {
        match ty {
            Type::Reference { inner, .. } => match &**inner {
                Type::Array(_, _) => false,
                _ => match arg {
                    Expr::Reference { .. } => false,
                    _ => true,
                },
            },
            _ => false,
        }
    }

    /// Why passing `arg` for `param` of `func_name` is refused, if it is.
    fn argument_refusal(&self, func_name: &str, param: &Param, arg: &Expr) -> (r: Option<String>)
        ensures
            match arg_refusal(self.env(), self.arrays(), func_name@, *param, *arg) {
                Some(m) => r matches Some(s) && s@ == m,
                None => r is None,
            },
    {
        if !Self::param_grants_array_write(param) {
            return None;
        }
        let place = match arg {
            Expr::Reference { expr, .. } => &**expr,
            other => other,
        };
        let binding = match place {
            Expr::Ident(root) => match self.array_binding_of(root.as_str()) {
                Some(b) => Some((root, b)),
                None => None,
            },
            _ => None,
        };
        match binding {
            None => {
                if !self.is_array_argument(arg) {
                    return None;
                }
                let mut message = string_of("cannot pass this argument to `");
                push_str(&mut message, func_name);
                push_str(&mut message, "`: the parameter `");
                push_str(&mut message, param.name.as_str());
                push_str(&mut message, UNKNOWN_ORIGIN_MIDDLE);
                push_str(&mut message, Self::expr_kind_name(place));
                push_str(&mut message, UNKNOWN_ORIGIN_TAIL);
                Some(message)
            },
            Some((root, b)) => {
                let held = match b.storage {
                    ArrayStorage::Parameter(ArrayParamForm::Shared) => HELD_SHARED,
                    ArrayStorage::Parameter(ArrayParamForm::ByValue) => HELD_BY_VALUE,
                    _ => {
                        return None;
                    },
                };
                let r = root.as_str();
                let mut message = string_of("cannot pass `");
                push_str(&mut message, r);
                push_str(&mut message, "` to `");
                push_str(&mut message, func_name);
                push_str(&mut message, "`: the parameter `");
                push_str(&mut message, param.name.as_str());
                push_str(&mut message, "` may write to the caller's array, but `");
                push_str(&mut message, r);
                push_str(&mut message, "` is ");
                push_str(&mut message, held);
                push_str(&mut message, " here, which does not carry that permission. Passing it on would let `");
                push_str(&mut message, func_name);
                push_str(&mut message, "` perform a write that `");
                push_str(&mut message, r);
                push_str(&mut message, "` is not allowed to perform itself. Declare `");
                push_str(&mut message, r);
                push_str(&mut message, ": &mut [T; N]`.");
                Some(message)
            },
        }
    }

    /// Refuse a call that hands a callee more write capability over an array
    /// than the caller itself holds. `callee_params` is the callee's
    /// parameter list where it is known; an unknown callee may not be handed
    /// an array at all.
    pub fn check_call_array_capabilities(
        &self,
        func_name: &str,
        callee_params: Option<&Vec<Param>>,
        args: &[Expr],
    ) -> (r: Result<()>)
        ensures
            match call_refusal(
                self.env(),
                self.arrays(),
                func_name@,
                match callee_params {
                    Some(ps) => Some(ps@),
                    None => None,
                },
                args@,
            ) {
                Some(m) => r matches Err(CompileError::CodegenError { message }) && message@ == m,
                None => r is Ok,
            },
    {
        match callee_params {
            None => {
                let mut i: usize = 0;
                while i < args.len()
                    invariant
                        i <= args@.len(),
                        callee_params is None,
                        forall|j: int| 0 <= j < i ==> !array_argument(
                            self.env(),
                            self.arrays(),
                            #[trigger] args@[j],
                        ),
                    decreases args@.len() - i,
                {
                    if self.is_array_argument(&args[i]) {
                        let mut message = string_of("cannot pass an array to `");
                        push_str(&mut message, func_name);
                        push_str(&mut message, UNKNOWN_CALLEE_MIDDLE);
                        push_str(&mut message, func_name);
                        push_str(&mut message, UNKNOWN_CALLEE_TAIL);
                        assert(message@ =~= unknown_callee_message(func_name@));
                        assert(array_argument(self.env(), self.arrays(), args@[i as int]));
                        return Err(CompileError::CodegenError { message });
                    }
                    i = i + 1;
                }
                Ok(())
            },
            Some(params) => {
                let ghost ps = params@;
                let mut i: usize = 0;
                while i < params.len() && i < args.len()
                    invariant
                        i <= params@.len(),
                        ps == params@,
                        callee_params == Some(params),
                        params_refusal(self.env(), self.arrays(), func_name@, ps, args@, 0)
                            == params_refusal(self.env(), self.arrays(), func_name@, ps, args@, i as int),
                    decreases params@.len() - i,
                {
                    match self.argument_refusal(func_name, &params[i], &args[i]) {
                        Some(message) => {
                            assert(params_refusal(
                                self.env(),
                                self.arrays(),
                                func_name@,
                                ps,
                                args@,
                                i as int,
                            ) == Some(message@));
                            return Err(CompileError::CodegenError { message });
                        },
                        None => {},
                    }
                    i = i + 1;
                }
                Ok(())
            },
        }
    }

    /// The length of the array an expression denotes, or `None` when it is
    /// not a known array binding, an array literal or an array repeat.
    pub fn array_len_of_expr(&self, expr: &Expr) -> (r: Option<ArrayLen>)
        ensures
            match *expr {
                Expr::Ident(name) => match array_lookup(self.arrays(), name@) {
                    Some(v) => r matches Some(l) && len_view(l) == v.len,
                    None => r is None,
                },
                Expr::ArrayLiteral { elements, .. } => r == Some(ArrayLen::Proven(elements.len())),
                Expr::ArrayRepeat { count, .. } => match *count {
                    Expr::Integer(n) => if n >= 0 {
                        r == Some(ArrayLen::Proven(n as usize))
                    } else {
                        r matches Some(ArrayLen::Unproven(s)) && s@ == kind_name(*count)
                    },
                    _ => r matches Some(ArrayLen::Unproven(s)) && s@ == kind_name(*count),
                },
                _ => r is None,
            },
    {
        match expr {
            Expr::Ident(name) => match self.array_binding_of(name.as_str()) {
                Some(b) => Some(
                    match &b.len {
                        ArrayLen::Proven(n) => ArrayLen::Proven(*n),
                        ArrayLen::Unproven(s) => ArrayLen::Unproven(s.clone()),
                    },
                ),
                None => None,
            },
            Expr::ArrayLiteral { elements, .. } => Some(ArrayLen::Proven(elements.len())),
            Expr::ArrayRepeat { count, .. } => Some(
                match &**count {
                    Expr::Integer(n) if *n >= 0 => ArrayLen::Proven(*n as usize),
                    other => ArrayLen::Unproven(string_of(Self::expr_kind_name(other))),
                },
            ),
            _ => None,
        }
    }
}

impl CodeGenerator {
    /// The length a declared array size states, keeping "the author wrote 0"
    /// apart from "this pass could not work the length out".
    pub fn array_len_of_size(size: &ArraySize) -> (r: ArrayLen)
        ensures
            match *size {
                ArraySize::Literal(n) => r == ArrayLen::Proven(n),
                ArraySize::ConstParam(name) => r matches ArrayLen::Unproven(s) && s@ == name@,
                ArraySize::Expr(_) => r matches ArrayLen::Unproven(s) && s@ == "<size expression>"@,
            },
    {
        match size {
            ArraySize::Literal(n) => ArrayLen::Proven(*n),
            ArraySize::ConstParam(name) => ArrayLen::Unproven(name.clone()),
            ArraySize::Expr(_) => ArrayLen::Unproven(string_of("<size expression>")),
        }
    }

    /// The C type of a function's declared return type.
    pub fn return_type_to_c(&self, ret_type: Option<&Type>) -> (r: Option<String>)
        ensures
            match ret_type {
                None => r matches Some(s) && s@ == "void"@,
                Some(t) => match return_c_type(Some(*t)) {
                    Some(c) => r matches Some(s) && s@ == c,
                    None => r is None,
                },
            },
    {
        match ret_type {
            None => Some(string_of("void")),
            Some(Type::Unit) => Some(string_of("void")),
            Some(Type::TypeParam(_)) => None,
            Some(Type::Generic { .. }) => None,
            Some(ty) => Some(self.type_to_c(ty)),
        }
    }

    /// Whether a parameter may write into the caller's array.
    pub fn param_grants_array_write(param: &Param) -> (r: bool)
        ensures
            r == grants_array_write(*param),
    {
        match &param.ty {
            Type::Array(_, _) => param.mutable,
            Type::Reference { inner, mutable } => *mutable && match &**inner {
                Type::Array(_, _) => true,
                _ => false,
            },
            _ => false,
        }
    }

    /// The bindings a block's statements add over the ones already visible.
    pub fn locals_of(&self, stmts: &Vec<Stmt>, outer: &Vec<(String, String)>) -> (r: Vec<
        (String, String),
    >)
        ensures
            r@.map_values(|v: (String, String)| (v.0@, v.1@)) == locals_after(
                self.env(),
                outer@.map_values(|v: (String, String)| (v.0@, v.1@)),
                stmts@,
            ),
        decreases stmts, 0nat,
    {
        let ghost outer_view = outer@.map_values(|v: (String, String)| (v.0@, v.1@));
        let mut locals: Vec<(String, String)> = Vec::new();
        let mut k: usize = 0;
        while k < outer.len()
            invariant
                k <= outer.len(),
                outer_view == outer@.map_values(|v: (String, String)| (v.0@, v.1@)),
                locals@.map_values(|v: (String, String)| (v.0@, v.1@)) == outer_view.take(k as int),
            decreases outer.len() - k,
        {
            let ghost before = locals@;
            let entry = (outer[k].0.clone(), outer[k].1.clone());
            assert(entry.0@ == outer_view[k as int].0 && entry.1@ == outer_view[k as int].1);
            locals.push(entry);
            k = k + 1;
            assert(locals@.map_values(|v: (String, String)| (v.0@, v.1@)) =~= before.map_values(
                |v: (String, String)| (v.0@, v.1@),
            ).push(outer_view[k - 1]));
            assert(outer_view.take(k as int) =~= outer_view.take(k - 1).push(outer_view[k - 1]));
        }
        assert(outer_view.take(k as int) == outer_view);
        let mut i: usize = 0;
        while i < stmts.len()
            invariant
                i <= stmts.len(),
                outer_view == outer@.map_values(|v: (String, String)| (v.0@, v.1@)),
                locals@.map_values(|v: (String, String)| (v.0@, v.1@)) == locals_after(
                    self.env(),
                    outer_view,
                    stmts@.take(i as int),
                ),
            decreases stmts.len() - i,
        {
            proof {
                assert(stmts@.take(i + 1).drop_last() == stmts@.take(i as int));
                assert(stmts@.take(i + 1).last() == stmts@[i as int]);
            }
            match &stmts[i] {
                Stmt::Let { name, ty, value, .. } => {
                    proof {
                        assert(decreases_to!(*stmts => stmts@));
                        assert(decreases_to!(stmts@ => stmts@[i as int]));
                        assert(decreases_to!(stmts@[i as int] => stmts@[i as int]->Let_value));
                    }
                    let inferred_type = match ty {
                        Some(t) => Some(self.type_to_c(t)),
                        None => self.try_infer_expr_type_in(value, &locals),
                    };
                    match inferred_type {
                        Some(c_type) => {
                            let ghost before = locals@;
                            locals.push((name.clone(), c_type));
                            assert(locals@.map_values(|v: (String, String)| (v.0@, v.1@))
                                =~= before.map_values(|v: (String, String)| (v.0@, v.1@)).push(
                                (name@, locals@.last().1@),
                            ));
                        },
                        None => {},
                    }
                },
                _ => {},
            }
            i = i + 1;
        }
        assert(stmts@.take(i as int) == stmts@);
        locals
    }
}

// ---------------------------------------------------------------------------
// Registering the shapes a type needs
// ---------------------------------------------------------------------------

/// The registry after registering one shape, or `None` when its name is
/// taken by a different layout.
pub open spec fn register_shape(
    shapes: Seq<(Seq<char>, Seq<Seq<char>>)>,
    types: Seq<Seq<char>>,
) -> Option<Seq<(Seq<char>, Seq<Seq<char>>)>> {
    let name = tuple_name(types);
    match shape_lookup(shapes, name) {
        None => Some(shapes.push((name, types))),
        Some(existing) => if existing == types {
            Some(shapes)
        } else {
            None
        },
    }
}

/// The registry after registering every tuple shape a written type needs,
/// innermost first and left to right, or `None` at the first collision.
pub open spec fn register_type_shapes(shapes: Seq<(Seq<char>, Seq<Seq<char>>)>, t: Type) -> Option<
    Seq<(Seq<char>, Seq<Seq<char>>)>,
>
    decreases t, 0nat,
{
    match t {
        Type::Tuple(types) => match register_types_shapes(shapes, types@) {
            None => None,
            Some(after) => register_shape(after, c_types(types@)),
        },
        Type::Array(elem, _) => register_type_shapes(shapes, *elem),
        Type::Reference { inner, .. } => register_type_shapes(shapes, *inner),
        Type::Future { output } => register_type_shapes(shapes, *output),
        _ => Some(shapes),
    }
}

/// `register_type_shapes` over a list of types, in order.
pub open spec fn register_types_shapes(
    shapes: Seq<(Seq<char>, Seq<Seq<char>>)>,
    ts: Seq<Type>,
) -> Option<Seq<(Seq<char>, Seq<Seq<char>>)>>
    decreases ts, 0nat,
{
    if ts.len() == 0 {
        Some(shapes)
    } else {
        match register_types_shapes(shapes, ts.drop_last()) {
            None => None,
            Some(after) => register_type_shapes(after, ts.last()),
        }
    }
}

pub proof fn lemma_failed_prefix_fails(
    shapes: Seq<(Seq<char>, Seq<Seq<char>>)>,
    ts: Seq<Type>,
    k: int,
)
    requires
        0 <= k <= ts.len(),
        register_types_shapes(shapes, ts.take(k)) is None,
    ensures
        register_types_shapes(shapes, ts) is None,
    decreases ts.len() - k,
{
    if k < ts.len() {
        assert(ts.take(k + 1).drop_last() == ts.take(k));
        lemma_failed_prefix_fails(shapes, ts, k + 1);
    } else {
        assert(ts.take(k) == ts);
    }
}

pub const NO_TYPE_HEAD: &'static str = "this ";

pub const NO_TYPE_TAIL: &'static str = " has no type code generation can see here, so the tuple it is an element of has no C struct to be built from. If it is a name, it is bound in a scope this pass did not thread through";

pub const NO_TEMP_TYPE_HEAD: &'static str = "cannot infer the type of this ";

pub const NO_TEMP_TYPE_TAIL: &'static str = " expression's value, so the temporary that holds it cannot be declared. Bind the branches to annotated `let`s instead.";

pub const ARRAY_TEMP_HEAD: &'static str = "an array cannot be the value of a ";

pub const ARRAY_TEMP_TAIL: &'static str = " expression: C has no array assignment, so the hoisted temporary could not be written to";

impl CodeGenerator {
    /// Register every tuple shape a written type needs, innermost first.
    pub fn register_tuple_type(&mut self, ty: &Type) -> (r: Result<()>)
        requires
            old(self).well_formed(),
        ensures
            final(self).structs() == old(self).structs(),
            final(self).fns() == old(self).fns(),
            final(self).methods() == old(self).methods(),
            final(self).output() == old(self).output(),
            final(self).defined() == old(self).defined(),
            final(self).arrays() == old(self).arrays(),
            final(self).well_formed(),
            final(self).module() == old(self).module(),
            final(self).scope() == old(self).scope(),
            final(self).hoisted() == old(self).hoisted(),
            final(self).hoist_count() == old(self).hoist_count(),
            match register_type_shapes(old(self).shapes(), *ty) {
                Some(after) => r is Ok && final(self).shapes() == after,
                None => r is Err,
            },
        decreases ty,
    {
        match ty {
            Type::Tuple(types) => {
                let mut element_types: Vec<String> = Vec::new();
                let mut i: usize = 0;
                let ghost start = self.shapes();
                while i < types.len()
                    invariant
                        i <= types.len(),
                        *ty == Type::Tuple(*types),
                        self.well_formed(),
                        self.module() == old(self).module(),
                        self.scope() == old(self).scope(),
                        self.arrays() == old(self).arrays(),
                        self.structs() == old(self).structs(),
                        self.fns() == old(self).fns(),
                        self.methods() == old(self).methods(),
                        self.output() == old(self).output(),
                        self.defined() == old(self).defined(),
                        self.hoisted() == old(self).hoisted(),
                        self.hoist_count() == old(self).hoist_count(),
                        start == old(self).shapes(),
                        register_types_shapes(start, types@.take(i as int)) == Some(self.shapes()),
                        element_types@.map_values(|s: String| s@) == c_types(types@.take(i as int)),
                    decreases types.len() - i,
                {
                    proof {
                        assert(decreases_to!(*ty => ty->Tuple_0));
                        assert(decreases_to!(*types => types@));
                        assert(decreases_to!(types@ => types@[i as int]));
                        assert(types@.take(i + 1).drop_last() == types@.take(i as int));
                        assert(types@.take(i + 1).last() == types@[i as int]);
                    }
                    match self.register_tuple_type(&types[i]) {
                        Ok(()) => {},
                        Err(e) => {
                            proof {
                                lemma_failed_prefix_fails(start, types@, i + 1);
                            }
                            return Err(e);
                        },
                    }
                    let t = self.type_to_c(&types[i]);
                    let ghost before = element_types@;
                    element_types.push(t);
                    i = i + 1;
                    assert(element_types@.map_values(|s: String| s@) =~= before.map_values(
                        |s: String| s@,
                    ).push(c_type(types@[i - 1])));
                }
                assert(types@.take(i as int) == types@);
                match self.register_tuple(element_types.as_slice()) {
                    Ok(_) => Ok(()),
                    Err(e) => Err(e),
                }
            },
            Type::Array(elem, _) => self.register_tuple_type(elem),
            Type::Reference { inner, .. } => self.register_tuple_type(inner),
            Type::Future { output } => self.register_tuple_type(output),
            _ => Ok(()),
        }
    }

    /// The C type of a tuple element, or the refusal naming what has none.
    pub fn expr_c_type(&self, expr: &Expr, locals: &Vec<(String, String)>, span: Span) -> (r:
        Result<String>)
        ensures
            match inferred(
                self.env(),
                locals@.map_values(|v: (String, String)| (v.0@, v.1@)),
                *expr,
            ) {
                Some(t) => r matches Ok(s) && s@ == t,
                None => r matches Err(CompileError::CodegenError { message }) && message@
                    == NO_TYPE_HEAD@ + kind_name(*expr) + NO_TYPE_TAIL@,
            },
    {
        match self.try_infer_expr_type_in(expr, locals) {
            Some(t) => Ok(t),
            None => {
                let mut message = string_of(NO_TYPE_HEAD);
                push_str(&mut message, Self::expr_kind_name(expr));
                push_str(&mut message, NO_TYPE_TAIL);
                Err(CompileError::CodegenError { message })
            },
        }
    }

    /// The C type of a hoisted temporary: the first of the candidate types
    /// that is known. None known, or an array type, is refused, naming the
    /// kind of expression.
    pub fn hoist_temp_type(&self, candidates: [Option<String>; 2], kind: &str) -> (r: Result<
        String,
    >)
        ensures
            ({
                let first = if candidates[0] is Some {
                    candidates[0]
                } else {
                    candidates[1]
                };
                match first {
                    None => r matches Err(CompileError::CodegenError { message }) && message@
                        == NO_TEMP_TYPE_HEAD@ + kind@ + NO_TEMP_TYPE_TAIL@,
                    Some(t) => if t@.contains('[') {
                        r matches Err(CompileError::CodegenError { message }) && message@
                            == ARRAY_TEMP_HEAD@ + kind@ + ARRAY_TEMP_TAIL@
                    } else {
                        r matches Ok(s) && s == t
                    },
                }
            }),
    {
        let inferred = match &candidates[0] {
            Some(t) => t.clone(),
            None => match &candidates[1] {
                Some(t) => t.clone(),
                None => {
                    let mut message = string_of(NO_TEMP_TYPE_HEAD);
                    push_str(&mut message, kind);
                    push_str(&mut message, NO_TEMP_TYPE_TAIL);
                    return Err(CompileError::CodegenError { message });
                },
            },
        };
        let cs = chars_of(inferred.as_str());
        if vec_contains_char(&cs, 0, cs.len(), '[') {
            assert(cs@.subrange(0, cs.len() as int) == cs@);
            let mut message = string_of(ARRAY_TEMP_HEAD);
            push_str(&mut message, kind);
            push_str(&mut message, ARRAY_TEMP_TAIL);
            return Err(CompileError::CodegenError { message });
        }
        assert(cs@.subrange(0, cs.len() as int) == cs@);
        Ok(inferred)
    }
}

// ---------------------------------------------------------------------------
// Laws
// ---------------------------------------------------------------------------

/// A shape registered under a fresh name is found under that name
/// afterwards, and what any other name finds is unchanged.
pub proof fn lemma_registered_shape_reads_back(
    shapes: Seq<(Seq<char>, Seq<Seq<char>>)>,
    name: Seq<char>,
    types: Seq<Seq<char>>,
    other: Seq<char>,
)
    requires
        shape_lookup(shapes, name) is None,
    ensures
        shape_lookup(shapes.push((name, types)), name) == Some(types),
        other != name ==> shape_lookup(shapes.push((name, types)), other) == shape_lookup(
            shapes,
            other,
        ),
    decreases shapes.len(),
{
    let pushed = shapes.push((name, types));
    if shapes.len() == 0 {
        assert(pushed[0] == (name, types));
        assert(pushed.drop_first() == Seq::<(Seq<char>, Seq<Seq<char>>)>::empty());
        assert(shape_lookup(pushed, name) == Some(types));
        if other != name {
            assert(shape_lookup(pushed, other) == shape_lookup(pushed.drop_first(), other));
            assert(shape_lookup(pushed.drop_first(), other) is None);
        }
    } else {
        assert(pushed[0] == shapes[0]);
        assert(pushed.drop_first() == shapes.drop_first().push((name, types)));
        lemma_registered_shape_reads_back(shapes.drop_first(), name, types, other);
        assert(shapes[0].0 != name);
        if other != name && shapes[0].0 != other {
            assert(shape_lookup(pushed, other) == shape_lookup(pushed.drop_first(), other));
            assert(shape_lookup(shapes, other) == shape_lookup(shapes.drop_first(), other));
        }
    }
}

/// Registering a tuple layout is idempotent: once a layout has been
/// accepted, its name finds exactly that layout, so registering it again
/// answers the same name and changes nothing.
pub proof fn lemma_registration_is_idempotent(
    shapes: Seq<(Seq<char>, Seq<Seq<char>>)>,
    types: Seq<Seq<char>>,
)
    requires
        shape_lookup(shapes, tuple_name(types)) is None || shape_lookup(shapes, tuple_name(types))
            == Some(types),
    ensures
        ({
            let name = tuple_name(types);
            let after = if shape_lookup(shapes, name) is None {
                shapes.push((name, types))
            } else {
                shapes
            };
            shape_lookup(after, name) == Some(types)
        }),
{
    let name = tuple_name(types);
    if shape_lookup(shapes, name) is None {
        lemma_registered_shape_reads_back(shapes, name, types, name);
    }
}

proof fn lemma_decimal_len(n: nat)
    ensures
        decimal(n).len() >= 1,
        n < 10 <==> decimal(n).len() == 1,
    decreases n,
{
    if n >= 10 {
        lemma_decimal_len(n / 10);
    }
}

proof fn lemma_digit_injective(a: nat, b: nat)
    requires
        a < 10,
        b < 10,
        crate::text::digit_char(a) == crate::text::digit_char(b),
    ensures
        a == b,
{
    assert(crate::text::digit_char(a) as int == 48 + a);
    assert(crate::text::digit_char(b) as int == 48 + b);
}

proof fn lemma_decimal_injective(n: nat, m: nat)
    requires
        decimal(n) == decimal(m),
    ensures
        n == m,
    decreases n,
{
    lemma_decimal_len(n);
    lemma_decimal_len(m);
    if n < 10 {
        assert(m < 10);
        assert(decimal(n) == seq![crate::text::digit_char(n)]);
        assert(decimal(m) == seq![crate::text::digit_char(m)]);
        assert(decimal(n)[0] == decimal(m)[0]);
        assert(seq![crate::text::digit_char(n)][0] == crate::text::digit_char(n));
        assert(seq![crate::text::digit_char(m)][0] == crate::text::digit_char(m));
        lemma_digit_injective(n, m);
    } else {
        let dn = decimal(n);
        assert(dn.drop_last() == decimal(n / 10));
        assert(decimal(m).drop_last() == decimal(m / 10));
        assert(dn.last() == decimal(m).last());
        lemma_decimal_injective(n / 10, m / 10);
        lemma_digit_injective(n % 10, m % 10);
        assert(n == 10 * (n / 10) + n % 10);
        assert(m == 10 * (m / 10) + m % 10);
    }
}

/// Every hoisted temporary gets a name of its own: two different counter
/// values never spell the same name.
pub proof fn lemma_hoist_names_are_distinct(n: nat, m: nat)
    requires
        n != m,
    ensures
        hoist_name(n) != hoist_name(m),
{
    if hoist_name(n) == hoist_name(m) {
        let p = HOIST_PREFIX@;
        assert(hoist_name(n).skip(p.len() as int) == decimal(n));
        assert(hoist_name(m).skip(p.len() as int) == decimal(m));
        lemma_decimal_injective(n, m);
    }
}

} // verus!
