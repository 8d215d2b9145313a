//! The C definition of an enum declaration: its tag enumeration, the
//! structs its payloads are stored in, the tagged struct itself, and a
//! constructor function per variant.
//!
//! Two things are decided elsewhere and handed in: the C member each
//! variant's payload is stored under in the union, and which payload slots
//! are held through a pointer because the enum contains itself through them.

use vstd::prelude::*;
use crate::ast::{EnumDef, EnumVariant, EnumVariantData, Type};
use crate::codegen::{c_type, CodeGenerator};
use crate::errors::{CompileError, Result};
use crate::signature::{refuses, Refusal};
use crate::text::{decimal, join_seq, join_strings, push_str, push_usize, string_of};

verus! {

pub const TUPLE_PAYLOAD_MIDDLE: &'static str = "` carries a TUPLE in its payload, and code generation emits tuple structs after the enums that would use them, so this type would be referenced before it is defined. Give the variant its elements as separate fields (`";

pub const TUPLE_PAYLOAD_TAIL: &'static str = "(i64, i64)`), or declare a struct whose fields ARE those elements and use that — a struct with a TUPLE field is refused for the mirror reason, so wrapping the tuple is not a way out";

/// The types a variant carries, in order.
pub open spec fn payload_types(d: EnumVariantData) -> Seq<Type> {
    match d {
        EnumVariantData::Unit => Seq::empty(),
        EnumVariantData::Tuple(ts) => ts@,
        EnumVariantData::Struct(fs) => fs@.map_values(|f: (String, Type)| f.1),
    }
}

/// Whether one of `ts` is a tuple.
pub open spec fn has_tuple(ts: Seq<Type>) -> bool {
    exists|i: int| 0 <= i < ts.len() && #[trigger] ts[i] is Tuple
}

/// The first variant of `vs` that carries a tuple.
pub open spec fn first_tuple_payload(vs: Seq<EnumVariant>) -> Option<int>
    decreases vs.len(),
{
    if vs.len() == 0 {
        None
    } else {
        match first_tuple_payload(vs.drop_last()) {
            Some(k) => Some(k),
            None => if has_tuple(payload_types(vs.last().data)) {
                Some(vs.len() - 1)
            } else {
                None
            },
        }
    }
}

/// The refusal of a variant that carries a tuple.
pub open spec fn tuple_payload_message(enum_name: Seq<char>, variant: Seq<char>) -> Seq<char> {
    "`"@ + enum_name + "::"@ + variant + TUPLE_PAYLOAD_MIDDLE@ + variant + TUPLE_PAYLOAD_TAIL@
}

/// The tag of each variant, one line each.
pub open spec fn tag_lines(n: Seq<char>, vs: Seq<EnumVariant>) -> Seq<char>
    decreases vs.len(),
{
    if vs.len() == 0 {
        Seq::empty()
    } else {
        tag_lines(n, vs.drop_last()) + "    __"@ + n + "__"@ + vs.last().name@ + ",\n"@
    }
}

/// The comment naming the enum and its tag enumeration.
pub open spec fn tag_text(n: Seq<char>, vs: Seq<EnumVariant>) -> Seq<char> {
    "// Enum "@ + n + "\n"@ + "typedef enum {\n"@ + tag_lines(n, vs) + "} "@ + n + "Tag;\n\n"@
}

/// The C type of a payload slot: the payload's own type, or a pointer to it.
pub open spec fn slot_c(t: Type, indirect: bool) -> Seq<char> {
    if indirect {
        c_type(t) + "*"@
    } else {
        c_type(t)
    }
}

/// The members of a tuple variant's data struct: `field0`, `field1`, ….
pub open spec fn tuple_field_lines(ts: Seq<Type>, ind: Seq<bool>) -> Seq<char>
    decreases ts.len(),
{
    if ts.len() == 0 {
        Seq::empty()
    } else {
        let i = ts.len() - 1;
        tuple_field_lines(ts.drop_last(), ind) + "    "@ + slot_c(ts[i], ind[i]) + " field"@
            + decimal(i as nat) + ";\n"@
    }
}

/// The members of a struct variant's data struct, by the fields' names.
pub open spec fn struct_field_lines(fs: Seq<(String, Type)>, ind: Seq<bool>) -> Seq<char>
    decreases fs.len(),
{
    if fs.len() == 0 {
        Seq::empty()
    } else {
        let i = fs.len() - 1;
        struct_field_lines(fs.drop_last(), ind) + "    "@ + slot_c(fs[i].1, ind[i]) + " "@
            + fs[i].0@ + ";\n"@
    }
}

/// The name of a variant's data struct.
pub open spec fn data_name(n: Seq<char>, v: Seq<char>) -> Seq<char> {
    n + "__"@ + v + "_Data"@
}

/// The data struct of one variant: none for a unit variant or an empty
/// tuple variant.
pub open spec fn data_struct_text(n: Seq<char>, v: EnumVariant, ind: Seq<bool>) -> Seq<char> {
    match v.data {
        EnumVariantData::Unit => Seq::empty(),
        EnumVariantData::Tuple(ts) => if ts.len() == 0 {
            Seq::empty()
        } else {
            "typedef struct {\n"@ + tuple_field_lines(ts@, ind) + "} "@ + data_name(n, v.name@)
                + ";\n\n"@
        },
        EnumVariantData::Struct(fs) => "typedef struct {\n"@ + struct_field_lines(fs@, ind) + "} "@
            + data_name(n, v.name@) + ";\n\n"@,
    }
}

/// The data structs of all variants, in order.
pub open spec fn data_structs_text(n: Seq<char>, vs: Seq<EnumVariant>, inds: Seq<Seq<bool>>) -> Seq<
    char,
>
    decreases vs.len(),
{
    if vs.len() == 0 {
        Seq::empty()
    } else {
        data_structs_text(n, vs.drop_last(), inds) + data_struct_text(
            n,
            vs.last(),
            inds[vs.len() - 1],
        )
    }
}

/// Whether a variant has a data struct.
pub open spec fn has_data_struct(v: EnumVariant) -> bool {
    match v.data {
        EnumVariantData::Unit => false,
        EnumVariantData::Tuple(ts) => ts.len() > 0,
        EnumVariantData::Struct(_) => true,
    }
}

/// The union members, one per variant with a data struct.
pub open spec fn union_lines(n: Seq<char>, vs: Seq<EnumVariant>, members: Seq<Seq<char>>) -> Seq<char>
    decreases vs.len(),
{
    if vs.len() == 0 {
        Seq::empty()
    } else {
        let i = vs.len() - 1;
        union_lines(n, vs.drop_last(), members) + if has_data_struct(vs[i]) {
            "        "@ + data_name(n, vs[i].name@) + " "@ + members[i] + ";\n"@
        } else {
            Seq::empty()
        }
    }
}

/// Whether some variant carries data (an empty tuple variant counts).
pub open spec fn has_data_variant(vs: Seq<EnumVariant>) -> bool {
    exists|i: int| 0 <= i < vs.len() && !(#[trigger] vs[i].data is Unit)
}

/// The tagged struct: the tag, and a union of the data structs when some
/// variant carries data.
pub open spec fn enum_struct_text(n: Seq<char>, vs: Seq<EnumVariant>, members: Seq<Seq<char>>) -> Seq<
    char,
> {
    "typedef struct "@ + n + " {\n"@ + "    "@ + n + "Tag tag;\n"@ + (if has_data_variant(vs) {
        "    union {\n"@ + union_lines(n, vs, members) + "    } data;\n"@
    } else {
        Seq::empty()
    }) + "} "@ + n + ";\n\n"@
}

/// Storing the constructor argument `src` into the payload slot `slot` of
/// the union member `member`: directly, or into a cell allocated for it.
pub open spec fn store_text(
    member: Seq<char>,
    slot: Seq<char>,
    src: Seq<char>,
    t: Type,
    indirect: bool,
) -> Seq<char> {
    let place = "result.data."@ + member + "."@ + slot;
    if indirect {
        "    "@ + place + " = ("@ + c_type(t) + "*)__pd_rec_alloc(sizeof("@ + c_type(t) + "));\n"@
            + "    *"@ + place + " = "@ + src + ";\n"@
    } else {
        "    "@ + place + " = "@ + src + ";\n"@
    }
}

/// The parameters of a tuple variant's constructor: `T0 arg0`, `T1 arg1`, ….
pub open spec fn tuple_params(ts: Seq<Type>) -> Seq<Seq<char>>
    decreases ts.len(),
{
    if ts.len() == 0 {
        Seq::empty()
    } else {
        let i = ts.len() - 1;
        tuple_params(ts.drop_last()).push(c_type(ts[i]) + " arg"@ + decimal(i as nat))
    }
}

/// The parameters of a struct variant's constructor, by the fields' names.
pub open spec fn struct_params(fs: Seq<(String, Type)>) -> Seq<Seq<char>>
    decreases fs.len(),
{
    if fs.len() == 0 {
        Seq::empty()
    } else {
        let i = fs.len() - 1;
        struct_params(fs.drop_last()).push(c_type(fs[i].1) + " "@ + fs[i].0@)
    }
}

/// The stores of a tuple variant's constructor.
pub open spec fn tuple_stores(member: Seq<char>, ts: Seq<Type>, ind: Seq<bool>) -> Seq<char>
    decreases ts.len(),
{
    if ts.len() == 0 {
        Seq::empty()
    } else {
        let i = ts.len() - 1;
        tuple_stores(member, ts.drop_last(), ind) + store_text(
            member,
            "field"@ + decimal(i as nat),
            "arg"@ + decimal(i as nat),
            ts[i],
            ind[i],
        )
    }
}

/// The stores of a struct variant's constructor.
pub open spec fn struct_stores(member: Seq<char>, fs: Seq<(String, Type)>, ind: Seq<bool>) -> Seq<
    char,
>
    decreases fs.len(),
{
    if fs.len() == 0 {
        Seq::empty()
    } else {
        let i = fs.len() - 1;
        struct_stores(member, fs.drop_last(), ind) + store_text(
            member,
            fs[i].0@,
            fs[i].0@,
            fs[i].1,
            ind[i],
        )
    }
}

/// The line that starts every constructor's body.
pub open spec fn result_line(n: Seq<char>, v: Seq<char>) -> Seq<char> {
    "    "@ + n + " result = {.tag = __"@ + n + "__"@ + v + "};\n"@
}

/// The constructor function of one variant.
pub open spec fn constructor_text(
    n: Seq<char>,
    v: EnumVariant,
    member: Seq<char>,
    ind: Seq<bool>,
) -> Seq<char> {
    let head = "static inline "@ + n + " "@ + n + "_"@ + v.name@;
    let tail = "    return result;\n"@ + "}\n\n"@;
    match v.data {
        EnumVariantData::Unit => head + "() {\n"@ + result_line(n, v.name@) + tail,
        EnumVariantData::Tuple(ts) => head + "__new("@ + join_seq(tuple_params(ts@), ", "@)
            + ") {\n"@ + result_line(n, v.name@) + tuple_stores(member, ts@, ind) + tail,
        EnumVariantData::Struct(fs) => head + "__new("@ + join_seq(struct_params(fs@), ", "@)
            + ") {\n"@ + result_line(n, v.name@) + struct_stores(member, fs@, ind) + tail,
    }
}

/// The constructors of all variants, in order.
pub open spec fn constructors_text(
    n: Seq<char>,
    vs: Seq<EnumVariant>,
    members: Seq<Seq<char>>,
    inds: Seq<Seq<bool>>,
) -> Seq<char>
    decreases vs.len(),
{
    if vs.len() == 0 {
        Seq::empty()
    } else {
        let i = vs.len() - 1;
        constructors_text(n, vs.drop_last(), members, inds) + constructor_text(
            n,
            vs[i],
            members[i],
            inds[i],
        )
    }
}

fn tag_string(n: &str, vs: &Vec<EnumVariant>) -> (r: String)
    ensures
        r@ == tag_text(n@, vs@),
{
    let mut out = string_of("// Enum ");
    push_str(&mut out, n);
    push_str(&mut out, "\n");
    push_str(&mut out, "typedef enum {\n");
    let ghost start = out@;
    let mut i: usize = 0;
    assert(vs@.take(0) =~= Seq::<EnumVariant>::empty());
    assert(out@ =~= start + tag_lines(n@, vs@.take(0)));
    while i < vs.len()
        invariant
            i <= vs.len(),
            out@ == start + tag_lines(n@, vs@.take(i as int)),
        decreases vs.len() - i,
    {
        proof {
            assert(vs@.take(i + 1).drop_last() == vs@.take(i as int));
            assert(vs@.take(i + 1).last() == vs@[i as int]);
        }
        push_str(&mut out, "    __");
        push_str(&mut out, n);
        push_str(&mut out, "__");
        push_str(&mut out, vs[i].name.as_str());
        push_str(&mut out, ",\n");
        i = i + 1;
        assert(out@ =~= start + tag_lines(n@, vs@.take(i as int)));
    }
    assert(vs@.take(i as int) == vs@);
    push_str(&mut out, "} ");
    push_str(&mut out, n);
    push_str(&mut out, "Tag;\n\n");
    assert(out@ =~= tag_text(n@, vs@));
    out
}

fn carries_tuple(d: &EnumVariantData) -> (r: bool)
    ensures
        r == has_tuple(payload_types(*d)),
{
    let ghost ts = payload_types(*d);
    let n: usize = match d {
        EnumVariantData::Unit => 0,
        EnumVariantData::Tuple(ts) => ts.len(),
        EnumVariantData::Struct(fs) => fs.len(),
    };
    let mut i: usize = 0;
    while i < n
        invariant
            i <= n,
            n == ts.len(),
            ts == payload_types(*d),
            forall|j: int| 0 <= j < i ==> !(#[trigger] ts[j] is Tuple),
        decreases n - i,
    {
        let is_tuple = match d {
            EnumVariantData::Unit => false,
            EnumVariantData::Tuple(ts) => matches!(ts[i], Type::Tuple(_)),
            EnumVariantData::Struct(fs) => matches!(fs[i].1, Type::Tuple(_)),
        };
        if is_tuple {
            assert(ts[i as int] is Tuple);
            return true;
        }
        i = i + 1;
    }
    false
}

fn first_tuple_payload_of(vs: &Vec<EnumVariant>) -> (r: Option<usize>)
    ensures
        match first_tuple_payload(vs@) {
            Some(k) => r matches Some(j) && j as int == k,
            None => r is None,
        },
{
    let mut i: usize = 0;
    assert(vs@.take(0) =~= Seq::<EnumVariant>::empty());
    while i < vs.len()
        invariant
            i <= vs.len(),
            first_tuple_payload(vs@.take(i as int)) is None,
        decreases vs.len() - i,
    {
        proof {
            assert(vs@.take(i + 1).drop_last() == vs@.take(i as int));
            assert(vs@.take(i + 1).last() == vs@[i as int]);
        }
        if carries_tuple(&vs[i].data) {
            proof {
                lemma_first_tuple_stays(vs@, i + 1);
            }
            return Some(i);
        }
        i = i + 1;
    }
    assert(vs@.take(i as int) == vs@);
    None
}

proof fn lemma_first_tuple_in_range(vs: Seq<EnumVariant>)
    ensures
        first_tuple_payload(vs) matches Some(k) ==> 0 <= k < vs.len(),
    decreases vs.len(),
{
    if vs.len() > 0 {
        lemma_first_tuple_in_range(vs.drop_last());
    }
}

proof fn lemma_first_tuple_stays(vs: Seq<EnumVariant>, k: int)
    requires
        0 <= k <= vs.len(),
        first_tuple_payload(vs.take(k)) is Some,
    ensures
        first_tuple_payload(vs) == first_tuple_payload(vs.take(k)),
    decreases vs.len(),
{
    if k < vs.len() {
        assert(vs.drop_last().take(k) == vs.take(k));
        lemma_first_tuple_stays(vs.drop_last(), k);
    } else {
        assert(vs.take(k) == vs);
    }
}

impl CodeGenerator {
    fn slot_string(&self, t: &Type, indirect: bool) -> (r: String)
        ensures
            r@ == slot_c(*t, indirect),
    {
        let mut s = self.type_to_c(t);
        if indirect {
            push_str(&mut s, "*");
        }
        s
    }

    fn data_struct_string(&self, n: &str, v: &EnumVariant, ind: &Vec<bool>) -> (r: String)
        requires
            ind@.len() == payload_types(v.data).len(),
        ensures
            r@ == data_struct_text(n@, *v, ind@),
    {
        match &v.data {
            EnumVariantData::Unit => String::new(),
            EnumVariantData::Tuple(ts) => {
                if ts.len() == 0 {
                    return String::new();
                }
                let mut out = string_of("typedef struct {\n");
                let ghost start = out@;
                let mut i: usize = 0;
                assert(ts@.take(0) =~= Seq::<Type>::empty());
                assert(out@ =~= start + tuple_field_lines(ts@.take(0), ind@));
                while i < ts.len()
                    invariant
                        i <= ts.len(),
                        ind@.len() == ts@.len(),
                        out@ == start + tuple_field_lines(ts@.take(i as int), ind@),
                    decreases ts.len() - i,
                {
                    proof {
                        assert(ts@.take(i + 1).drop_last() == ts@.take(i as int));
                        assert(ts@.take(i + 1)[i as int] == ts@[i as int]);
                    }
                    push_str(&mut out, "    ");
                    let slot = self.slot_string(&ts[i], ind[i]);
                    push_str(&mut out, slot.as_str());
                    push_str(&mut out, " field");
                    push_usize(&mut out, i);
                    push_str(&mut out, ";\n");
                    i = i + 1;
                    assert(out@ =~= start + tuple_field_lines(ts@.take(i as int), ind@));
                }
                assert(ts@.take(i as int) == ts@);
                push_str(&mut out, "} ");
                push_str(&mut out, n);
                push_str(&mut out, "__");
                push_str(&mut out, v.name.as_str());
                push_str(&mut out, "_Data");
                push_str(&mut out, ";\n\n");
                assert(out@ =~= data_struct_text(n@, *v, ind@));
                out
            },
            EnumVariantData::Struct(fs) => {
                let mut out = string_of("typedef struct {\n");
                let ghost start = out@;
                let mut i: usize = 0;
                assert(fs@.take(0) =~= Seq::<(String, Type)>::empty());
                assert(out@ =~= start + struct_field_lines(fs@.take(0), ind@));
                while i < fs.len()
                    invariant
                        i <= fs.len(),
                        ind@.len() == fs@.len(),
                        out@ == start + struct_field_lines(fs@.take(i as int), ind@),
                    decreases fs.len() - i,
                {
                    proof {
                        assert(fs@.take(i + 1).drop_last() == fs@.take(i as int));
                        assert(fs@.take(i + 1)[i as int] == fs@[i as int]);
                    }
                    push_str(&mut out, "    ");
                    let slot = self.slot_string(&fs[i].1, ind[i]);
                    push_str(&mut out, slot.as_str());
                    push_str(&mut out, " ");
                    push_str(&mut out, fs[i].0.as_str());
                    push_str(&mut out, ";\n");
                    i = i + 1;
                    assert(out@ =~= start + struct_field_lines(fs@.take(i as int), ind@));
                }
                assert(fs@.take(i as int) == fs@);
                push_str(&mut out, "} ");
                push_str(&mut out, n);
                push_str(&mut out, "__");
                push_str(&mut out, v.name.as_str());
                push_str(&mut out, "_Data");
                push_str(&mut out, ";\n\n");
                assert(out@ =~= data_struct_text(n@, *v, ind@));
                out
            },
        }
    }
}

/// The layout facts handed in fit the variants: one member and one
/// indirection flag per payload slot for each variant.
pub open spec fn layout_fits(vs: Seq<EnumVariant>, members: Seq<Seq<char>>, inds: Seq<Seq<bool>>) -> bool {
    &&& members.len() == vs.len()
    &&& inds.len() == vs.len()
    &&& forall|k: int| 0 <= k < vs.len() ==> (#[trigger] inds[k]).len() == payload_types(vs[k].data).len()
}

pub open spec fn flags_view(inds: Seq<Vec<bool>>) -> Seq<Seq<bool>> {
    inds.map_values(|v: Vec<bool>| v@)
}

pub open spec fn names_view(ms: Seq<String>) -> Seq<Seq<char>> {
    ms.map_values(|m: String| m@)
}

fn enum_struct_string(n: &str, vs: &Vec<EnumVariant>, members: &Vec<String>) -> (r: String)
    requires
        members.len() == vs.len(),
    ensures
        r@ == enum_struct_text(n@, vs@, names_view(members@)),
{
    let ghost ms = names_view(members@);
    let mut out = string_of("typedef struct ");
    push_str(&mut out, n);
    push_str(&mut out, " {\n");
    push_str(&mut out, "    ");
    push_str(&mut out, n);
    push_str(&mut out, "Tag tag;\n");
    let mut any = false;
    let mut j: usize = 0;
    while j < vs.len()
        invariant
            j <= vs.len(),
            any <==> exists|k: int| 0 <= k < j && !(#[trigger] vs@[k].data is Unit),
        decreases vs.len() - j,
    {
        let unit = match &vs[j].data {
            EnumVariantData::Unit => true,
            _ => false,
        };
        if !unit {
            any = true;
        }
        j = j + 1;
    }
    assert(any == has_data_variant(vs@));
    if any {
        push_str(&mut out, "    union {\n");
        let ghost start = out@;
        let mut i: usize = 0;
        assert(vs@.take(0) =~= Seq::<EnumVariant>::empty());
        assert(out@ =~= start + union_lines(n@, vs@.take(0), ms));
        while i < vs.len()
            invariant
                i <= vs.len(),
                members.len() == vs.len(),
                ms == names_view(members@),
                out@ == start + union_lines(n@, vs@.take(i as int), ms),
            decreases vs.len() - i,
        {
            proof {
                assert(vs@.take(i + 1).drop_last() == vs@.take(i as int));
                assert(vs@.take(i + 1)[i as int] == vs@[i as int]);
            }
            let has = match &vs[i].data {
                EnumVariantData::Unit => false,
                EnumVariantData::Tuple(ts) => ts.len() > 0,
                EnumVariantData::Struct(_) => true,
            };
            if has {
                push_str(&mut out, "        ");
                push_str(&mut out, n);
                push_str(&mut out, "__");
                push_str(&mut out, vs[i].name.as_str());
                push_str(&mut out, "_Data");
                push_str(&mut out, " ");
                push_str(&mut out, members[i].as_str());
                push_str(&mut out, ";\n");
            }
            i = i + 1;
            assert(out@ =~= start + union_lines(n@, vs@.take(i as int), ms));
        }
        assert(vs@.take(i as int) == vs@);
        push_str(&mut out, "    } data;\n");
    }
    push_str(&mut out, "} ");
    push_str(&mut out, n);
    push_str(&mut out, ";\n\n");
    assert(out@ =~= enum_struct_text(n@, vs@, ms));
    out
}

fn store_string(member: &str, slot: &str, src: &str, c: &str, indirect: bool) -> (r: String)
    ensures
        forall|t: Type| c@ == c_type(t) ==> r@ == store_text(member@, slot@, src@, t, indirect),
{
    let mut out = string_of("    ");
    if indirect {
        push_str(&mut out, "result.data.");
        push_str(&mut out, member);
        push_str(&mut out, ".");
        push_str(&mut out, slot);
        push_str(&mut out, " = (");
        push_str(&mut out, c);
        push_str(&mut out, "*)__pd_rec_alloc(sizeof(");
        push_str(&mut out, c);
        push_str(&mut out, "));\n");
        push_str(&mut out, "    *");
    }
    push_str(&mut out, "result.data.");
    push_str(&mut out, member);
    push_str(&mut out, ".");
    push_str(&mut out, slot);
    push_str(&mut out, " = ");
    push_str(&mut out, src);
    push_str(&mut out, ";\n");
    out
}

fn result_string(n: &str, v: &str) -> (r: String)
    ensures
        r@ == result_line(n@, v@),
{
    let mut out = string_of("    ");
    push_str(&mut out, n);
    push_str(&mut out, " result = {.tag = __");
    push_str(&mut out, n);
    push_str(&mut out, "__");
    push_str(&mut out, v);
    push_str(&mut out, "};\n");
    out
}

impl CodeGenerator {
    fn constructor_string(&self, n: &str, v: &EnumVariant, member: &str, ind: &Vec<bool>) -> (r:
        String)
        requires
            ind@.len() == payload_types(v.data).len(),
        ensures
            r@ == constructor_text(n@, *v, member@, ind@),
    {
        let mut out = string_of("static inline ");
        push_str(&mut out, n);
        push_str(&mut out, " ");
        push_str(&mut out, n);
        push_str(&mut out, "_");
        push_str(&mut out, v.name.as_str());
        let ghost head = out@;
        let result = result_string(n, v.name.as_str());
        match &v.data {
            EnumVariantData::Unit => {
                push_str(&mut out, "() {\n");
                push_str(&mut out, result.as_str());
            },
            EnumVariantData::Tuple(ts) => {
                let mut params: Vec<String> = Vec::new();
                let mut stores = String::new();
                let mut i: usize = 0;
                assert(ts@.take(0) =~= Seq::<Type>::empty());
                assert(names_view(params@) =~= tuple_params(ts@.take(0)));
                while i < ts.len()
                    invariant
                        i <= ts.len(),
                        ind@.len() == ts@.len(),
                        names_view(params@) == tuple_params(ts@.take(i as int)),
                        stores@ == tuple_stores(member@, ts@.take(i as int), ind@),
                    decreases ts.len() - i,
                {
                    proof {
                        assert(ts@.take(i + 1).drop_last() == ts@.take(i as int));
                        assert(ts@.take(i + 1)[i as int] == ts@[i as int]);
                    }
                    let c = self.type_to_c(&ts[i]);
                    let mut param = c.clone();
                    push_str(&mut param, " arg");
                    push_usize(&mut param, i);
                    let ghost before = names_view(params@);
                    let ghost pv = param@;
                    params.push(param);
                    assert(names_view(params@) =~= before.push(pv));
                    let mut slot = string_of("field");
                    push_usize(&mut slot, i);
                    let mut src = string_of("arg");
                    push_usize(&mut src, i);
                    let store = store_string(member, slot.as_str(), src.as_str(), c.as_str(), ind[i]);
                    assert(store@ == store_text(member@, slot@, src@, ts@[i as int], ind@[i as int]));
                    push_str(&mut stores, store.as_str());
                    i = i + 1;
                }
                assert(ts@.take(i as int) == ts@);
                push_str(&mut out, "__new(");
                let joined = join_strings(&params, ", ");
                push_str(&mut out, joined.as_str());
                push_str(&mut out, ") {\n");
                push_str(&mut out, result.as_str());
                push_str(&mut out, stores.as_str());
            },
            EnumVariantData::Struct(fs) => {
                let mut params: Vec<String> = Vec::new();
                let mut stores = String::new();
                let mut i: usize = 0;
                assert(fs@.take(0) =~= Seq::<(String, Type)>::empty());
                assert(names_view(params@) =~= struct_params(fs@.take(0)));
                while i < fs.len()
                    invariant
                        i <= fs.len(),
                        ind@.len() == fs@.len(),
                        names_view(params@) == struct_params(fs@.take(i as int)),
                        stores@ == struct_stores(member@, fs@.take(i as int), ind@),
                    decreases fs.len() - i,
                {
                    proof {
                        assert(fs@.take(i + 1).drop_last() == fs@.take(i as int));
                        assert(fs@.take(i + 1)[i as int] == fs@[i as int]);
                    }
                    let c = self.type_to_c(&fs[i].1);
                    let mut param = c.clone();
                    push_str(&mut param, " ");
                    push_str(&mut param, fs[i].0.as_str());
                    let ghost before = names_view(params@);
                    let ghost pv = param@;
                    params.push(param);
                    assert(names_view(params@) =~= before.push(pv));
                    let store = store_string(
                        member,
                        fs[i].0.as_str(),
                        fs[i].0.as_str(),
                        c.as_str(),
                        ind[i],
                    );
                    assert(store@ == store_text(
                        member@,
                        fs@[i as int].0@,
                        fs@[i as int].0@,
                        fs@[i as int].1,
                        ind@[i as int],
                    ));
                    push_str(&mut stores, store.as_str());
                    i = i + 1;
                }
                assert(fs@.take(i as int) == fs@);
                push_str(&mut out, "__new(");
                let joined = join_strings(&params, ", ");
                push_str(&mut out, joined.as_str());
                push_str(&mut out, ") {\n");
                push_str(&mut out, result.as_str());
                push_str(&mut out, stores.as_str());
            },
        }
        push_str(&mut out, "    return result;\n");
        push_str(&mut out, "}\n\n");
        assert(out@ =~= constructor_text(n@, *v, member@, ind@));
        out
    }
}

impl CodeGenerator {
    /// Emit the C definition of `enum_def` and record its name as a defined
    /// tag: the tag enumeration, a data struct per variant that carries
    /// data, and the tagged struct with its union; the constructor of each
    /// variant goes to the enum constructors, which are emitted after every
    /// type. `members[k]` is the union member variant `k`'s payload is stored
    /// under, and `indirect[k][i]` whether its slot `i` is held through a
    /// pointer. A variant that carries a tuple is refused, after the tag
    /// enumeration was written.
    pub fn generate_enum(
        &mut self,
        enum_def: &EnumDef,
        members: &Vec<String>,
        indirect: &Vec<Vec<bool>>,
    ) -> (r: Result<()>)
        requires
            layout_fits(enum_def.variants@, names_view(members@), flags_view(indirect@)),
        ensures
            final(self).defined() == old(self).defined().insert(enum_def.name@),
            ({
                let n = enum_def.name@;
                let vs = enum_def.variants@;
                let tags = tag_text(n, vs);
                match first_tuple_payload(vs) {
                    Some(k) => r matches Err(e) && refuses(
                        e,
                        Refusal::Codegen(tuple_payload_message(n, vs[k].name@)),
                    ) && final(self).output() == old(self).output() + tags && final(self).constructors()
                        == old(self).constructors(),
                    None => r is Ok && final(self).output() == old(self).output() + tags
                        + data_structs_text(n, vs, flags_view(indirect@)) + enum_struct_text(
                        n,
                        vs,
                        names_view(members@),
                    ) && final(self).constructors() == old(self).constructors() + constructors_text(
                        n,
                        vs,
                        names_view(members@),
                        flags_view(indirect@),
                    ),
                }
            }),
            final(self).structs() == old(self).structs(),
            final(self).fns() == old(self).fns(),
            final(self).methods() == old(self).methods(),
            final(self).module() == old(self).module(),
            final(self).shapes() == old(self).shapes(),
            final(self).scope() == old(self).scope(),
            final(self).arrays() == old(self).arrays(),
            final(self).hoisted() == old(self).hoisted(),
            final(self).hoist_count() == old(self).hoist_count(),
            final(self).well_formed() == old(self).well_formed(),
    {
        let n = enum_def.name.as_str();
        let vs = &enum_def.variants;
        let ghost inds = flags_view(indirect@);
        let ghost ms = names_view(members@);
        self.define_struct(n);
        let tags = tag_string(n, vs);
        self.emit(tags.as_str());
        proof {
            lemma_first_tuple_in_range(vs@);
        }
        match first_tuple_payload_of(vs) {
            Some(k) => {
                let mut message = string_of("`");
                push_str(&mut message, n);
                push_str(&mut message, "::");
                push_str(&mut message, vs[k].name.as_str());
                push_str(&mut message, TUPLE_PAYLOAD_MIDDLE);
                push_str(&mut message, vs[k].name.as_str());
                push_str(&mut message, TUPLE_PAYLOAD_TAIL);
                return Err(CompileError::CodegenError { message });
            },
            None => {},
        }
        let ghost after_tags = self.output();
        let mut i: usize = 0;
        assert(vs@.take(0) =~= Seq::<EnumVariant>::empty());
        assert(self.output() =~= after_tags + data_structs_text(n@, vs@.take(0), inds));
        while i < vs.len()
            invariant
                i <= vs.len(),
                layout_fits(vs@, ms, inds),
                inds == flags_view(indirect@),
                ms == names_view(members@),
                self.output() == after_tags + data_structs_text(n@, vs@.take(i as int), inds),
                self.constructors() == old(self).constructors(),
                self.defined() == old(self).defined().insert(enum_def.name@),
                self.structs() == old(self).structs(),
                self.fns() == old(self).fns(),
                self.methods() == old(self).methods(),
                self.module() == old(self).module(),
                self.shapes() == old(self).shapes(),
                self.scope() == old(self).scope(),
                self.arrays() == old(self).arrays(),
                self.hoisted() == old(self).hoisted(),
                self.hoist_count() == old(self).hoist_count(),
                self.well_formed() == old(self).well_formed(),
            decreases vs.len() - i,
        {
            proof {
                assert(vs@.take(i + 1).drop_last() == vs@.take(i as int));
                assert(vs@.take(i + 1).last() == vs@[i as int]);
                assert(inds[i as int] == indirect@[i as int]@);
                assert(inds[i as int].len() == payload_types(vs@[i as int].data).len());
            }
            let text = self.data_struct_string(n, &vs[i], &indirect[i]);
            self.emit(text.as_str());
            i = i + 1;
            assert(self.output() =~= after_tags + data_structs_text(n@, vs@.take(i as int), inds));
        }
        assert(vs@.take(i as int) == vs@);
        let whole = enum_struct_string(n, vs, members);
        self.emit(whole.as_str());
        let ghost before_ctors = self.constructors();
        let mut i: usize = 0;
        assert(self.constructors() =~= before_ctors + constructors_text(n@, vs@.take(0), ms, inds));
        while i < vs.len()
            invariant
                i <= vs.len(),
                layout_fits(vs@, ms, inds),
                inds == flags_view(indirect@),
                ms == names_view(members@),
                before_ctors == old(self).constructors(),
                self.constructors() == before_ctors + constructors_text(n@, vs@.take(i as int), ms, inds),
                self.output() == after_tags + data_structs_text(n@, vs@, inds) + enum_struct_text(
                    n@,
                    vs@,
                    ms,
                ),
                self.defined() == old(self).defined().insert(enum_def.name@),
                self.structs() == old(self).structs(),
                self.fns() == old(self).fns(),
                self.methods() == old(self).methods(),
                self.module() == old(self).module(),
                self.shapes() == old(self).shapes(),
                self.scope() == old(self).scope(),
                self.arrays() == old(self).arrays(),
                self.hoisted() == old(self).hoisted(),
                self.hoist_count() == old(self).hoist_count(),
                self.well_formed() == old(self).well_formed(),
            decreases vs.len() - i,
        {
            proof {
                assert(vs@.take(i + 1).drop_last() == vs@.take(i as int));
                assert(vs@.take(i + 1)[i as int] == vs@[i as int]);
                assert(inds[i as int] == indirect@[i as int]@);
                assert(ms[i as int] == members@[i as int]@);
                assert(inds[i as int].len() == payload_types(vs@[i as int].data).len());
            }
            let text = self.constructor_string(n, &vs[i], members[i].as_str(), &indirect[i]);
            self.emit_constructor(text.as_str());
            i = i + 1;
            assert(self.constructors() =~= before_ctors + constructors_text(
                n@,
                vs@.take(i as int),
                ms,
                inds,
            ));
        }
        assert(vs@.take(i as int) == vs@);
        Ok(())
    }
}

} // verus!
