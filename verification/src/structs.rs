//! C struct definitions for the program's struct declarations.

use vstd::prelude::*;
use crate::ast::{StructDef, Type};
use crate::codegen::{array_size_text, c_type, CodeGenerator};
use crate::errors::{CompileError, Result};
use crate::signature::{
    array_bottom, inner_length_message, proven_dims, refuses, Refusal, INNER_LENGTH_HEAD,
    INNER_LENGTH_MIDDLE, INNER_LENGTH_TAIL,
};
use crate::text::{push_str, string_of};

verus! {

/// The C spelling of a scalar field type, for the types that are spelled
/// the same in every field.
pub open spec fn scalar_field_c(t: Type) -> Option<Seq<char>> {
    match t {
        Type::I32 => Some("int"@),
        Type::I64 => Some("long long"@),
        Type::U32 => Some("unsigned int"@),
        Type::U64 => Some("unsigned long long"@),
        Type::F64 => Some("double"@),
        Type::F32 => Some("float"@),
        Type::Bool => Some("int"@),
        Type::Char => Some("long long"@),
        Type::String => Some("const char*"@),
        Type::Unit => Some("void"@),
        _ => None,
    }
}

/// A scalar field is declared with its type's own C spelling, the one
/// `type_to_c` gives and field access is typed by (`field_types`): the line
/// of a field `name: t` is `c_type(t) name;`. Every scalar type has such a
/// line.
pub proof fn lemma_scalar_fields_use_the_type_spelling(struct_name: Seq<char>, name: Seq<char>, t: Type)
    ensures
        scalar_field_c(t) matches Some(c) ==> c == c_type(t) && field_c(struct_name, name, t) == Ok::<
            Seq<char>,
            Refusal,
        >(c_type(t) + " "@ + name + ";\n"@),
        (t is I32 || t is I64 || t is U32 || t is U64 || t is F32 || t is F64 || t is Bool
            || t is Char || t is String || t is Unit) ==> scalar_field_c(t) is Some,
{
}

/// One field's declaration line, after its indentation: scalars and named
/// structs by type and name, an array as a declarator whose inner lengths
/// must be literals; a generic, reference, future or tuple field is refused.
pub open spec fn field_c(struct_name: Seq<char>, name: Seq<char>, t: Type) -> core::result::Result<
    Seq<char>,
    Refusal,
> {
    match scalar_field_c(t) {
        Some(c) => Ok(c + " "@ + name + ";\n"@),
        None => match t {
            Type::Array(elem, size) => match proven_dims(*elem) {
                Err(spelling) => Err(
                    Refusal::Codegen(
                        inner_length_message(
                            "the field `"@ + name + "` of `"@ + struct_name + "`"@,
                            spelling,
                        ),
                    ),
                ),
                Ok(inner) => Ok(
                    c_type(array_bottom(*elem)) + " "@ + name + "["@ + array_size_text(size) + "]"@
                        + inner + ";\n"@,
                ),
            },
            Type::Custom(_) => Ok(c_type(t) + " "@ + name + ";\n"@),
            Type::Reference { .. } => Err(
                Refusal::Generic("Reference types in structs not yet supported"@),
            ),
            Type::Future { .. } => Err(Refusal::Generic("Future types in structs not yet supported"@)),
            Type::Tuple(_) => Err(Refusal::Generic("Tuple types in structs not yet supported"@)),
            _ => Err(Refusal::Generic("Generic types in structs not yet supported"@)),
        },
    }
}

/// The field lines of a struct, each indented by four spaces, up to the
/// first refused field, whose indentation has already been written; and the
/// refusal, if any.
pub open spec fn fields_c(struct_name: Seq<char>, fields: Seq<(String, Type)>) -> (
    Seq<char>,
    Option<Refusal>,
)
    decreases fields.len(),
{
    if fields.len() == 0 {
        (Seq::empty(), None)
    } else {
        let (before, refused) = fields_c(struct_name, fields.drop_last());
        if refused is Some {
            (before, refused)
        } else {
            match field_c(struct_name, fields.last().0@, fields.last().1) {
                Ok(line) => (before + "    "@ + line, None),
                Err(why) => (before + "    "@, Some(why)),
            }
        }
    }
}

/// A struct's fields with their C types, as field access reads them.
pub open spec fn field_types(fields: Seq<(String, Type)>) -> Seq<(Seq<char>, Seq<char>)> {
    fields.map_values(|f: (String, Type)| (f.0@, c_type(f.1)))
}

pub open spec fn struct_head(name: Seq<char>) -> Seq<char> {
    "typedef struct "@ + name + " {\n"@
}

pub open spec fn struct_tail(name: Seq<char>) -> Seq<char> {
    "} "@ + name + ";\n\n"@
}

proof fn lemma_fields_refusal_stays(struct_name: Seq<char>, fields: Seq<(String, Type)>, k: int)
    requires
        0 <= k <= fields.len(),
        fields_c(struct_name, fields.take(k)).1 is Some,
    ensures
        fields_c(struct_name, fields) == fields_c(struct_name, fields.take(k)),
    decreases fields.len(),
{
    if k < fields.len() {
        assert(fields.drop_last().take(k) == fields.take(k));
        lemma_fields_refusal_stays(struct_name, fields.drop_last(), k);
    } else {
        assert(fields.take(k) == fields);
    }
}

impl CodeGenerator {
    /// One field's declaration line, after its indentation.
    fn field_to_c(&self, struct_name: &str, name: &str, ty: &Type) -> (r: Result<String>)
        ensures
            match field_c(struct_name@, name@, *ty) {
                Ok(t) => r matches Ok(s) && s@ == t,
                Err(why) => r matches Err(e) && refuses(e, why),
            },
    {
        let scalar = match ty {
            Type::I32 => Some("int"),
            Type::I64 => Some("long long"),
            Type::U32 => Some("unsigned int"),
            Type::U64 => Some("unsigned long long"),
            Type::F64 => Some("double"),
            Type::F32 => Some("float"),
            Type::Bool => Some("int"),
            Type::Char => Some("long long"),
            Type::String => Some("const char*"),
            Type::Unit => Some("void"),
            _ => None,
        };
        if let Some(c) = scalar {
            let mut line = string_of(c);
            push_str(&mut line, " ");
            push_str(&mut line, name);
            push_str(&mut line, ";\n");
            return Ok(line);
        }
        match ty {
            Type::Array(elem, size) => {
                let inner = match Self::proven_dims_of(elem) {
                    Ok(d) => d,
                    Err(spelling) => {
                        let mut message = string_of(INNER_LENGTH_HEAD);
                        push_str(&mut message, "the field `");
                        push_str(&mut message, name);
                        push_str(&mut message, "` of `");
                        push_str(&mut message, struct_name);
                        push_str(&mut message, "`");
                        push_str(&mut message, INNER_LENGTH_MIDDLE);
                        push_str(&mut message, spelling.as_str());
                        push_str(&mut message, INNER_LENGTH_TAIL);
                        assert(message@ =~= inner_length_message(
                            "the field `"@ + name@ + "` of `"@ + struct_name@ + "`"@,
                            spelling@,
                        ));
                        return Err(CompileError::CodegenError { message });
                    },
                };
                let base = Self::array_bottom_of(elem);
                let mut line = self.type_to_c(base);
                push_str(&mut line, " ");
                push_str(&mut line, name);
                push_str(&mut line, "[");
                let n = Self::c_array_size(size);
                push_str(&mut line, n.as_str());
                push_str(&mut line, "]");
                push_str(&mut line, inner.as_str());
                push_str(&mut line, ";\n");
                Ok(line)
            },
            Type::Custom(_) => {
                let mut line = self.type_to_c(ty);
                push_str(&mut line, " ");
                push_str(&mut line, name);
                push_str(&mut line, ";\n");
                Ok(line)
            },
            Type::Reference { .. } => Err(
                CompileError::Generic(string_of("Reference types in structs not yet supported")),
            ),
            Type::Future { .. } => Err(
                CompileError::Generic(string_of("Future types in structs not yet supported")),
            ),
            Type::Tuple(_) => Err(
                CompileError::Generic(string_of("Tuple types in structs not yet supported")),
            ),
            _ => Err(CompileError::Generic(string_of("Generic types in structs not yet supported"))),
        }
    }

    /// Emit the C definition of a struct declaration and record its tag as
    /// defined. A refused field stops the definition where it stands.
    pub fn generate_struct(&mut self, struct_def: &StructDef) -> (r: Result<()>)
        ensures
            final(self).defined() == old(self).defined().insert(struct_def.name@),
            final(self).structs() == old(self).structs().push(
                (struct_def.name@, field_types(struct_def.fields@)),
            ),
            final(self).module() == old(self).module(),
            final(self).shapes() == old(self).shapes(),
            final(self).scope() == old(self).scope(),
            final(self).arrays() == old(self).arrays(),
            final(self).well_formed() == old(self).well_formed(),
            ({
                let (body, refused) = fields_c(struct_def.name@, struct_def.fields@);
                match refused {
                    None => r is Ok && final(self).output() == old(self).output() + struct_head(
                        struct_def.name@,
                    ) + body + struct_tail(struct_def.name@),
                    Some(why) => r matches Err(e) && refuses(e, why) && final(self).output() == old(
                        self,
                    ).output() + struct_head(struct_def.name@) + body,
                }
            }),
    {
        let name = struct_def.name.as_str();
        self.define_struct(name);
        let mut typed: Vec<(String, String)> = Vec::new();
        let mut j: usize = 0;
        while j < struct_def.fields.len()
            invariant
                j <= struct_def.fields@.len(),
                typed@.map_values(|f: (String, String)| (f.0@, f.1@)) == field_types(
                    struct_def.fields@.take(j as int),
                ),
            decreases struct_def.fields@.len() - j,
        {
            let ghost before = typed@.map_values(|f: (String, String)| (f.0@, f.1@));
            let c = self.type_to_c(&struct_def.fields[j].1);
            typed.push((struct_def.fields[j].0.clone(), c));
            j = j + 1;
            assert(typed@.map_values(|f: (String, String)| (f.0@, f.1@)) =~= before.push(
                (struct_def.fields@[j - 1].0@, c_type(struct_def.fields@[j - 1].1)),
            ));
            assert(field_types(struct_def.fields@.take(j as int)) =~= field_types(
                struct_def.fields@.take(j - 1),
            ).push((struct_def.fields@[j - 1].0@, c_type(struct_def.fields@[j - 1].1))));
        }
        assert(struct_def.fields@.take(j as int) == struct_def.fields@);
        self.declare_struct_fields(name, typed);
        self.emit("typedef struct ");
        self.emit(name);
        self.emit(" {\n");
        let ghost start = self.output();
        assert(start == old(self).output() + struct_head(struct_def.name@));
        let ghost fields = struct_def.fields@;
        let ghost mut written = Seq::<char>::empty();
        assert(fields.take(0) =~= Seq::<(String, Type)>::empty());
        let mut i: usize = 0;
        while i < struct_def.fields.len()
            invariant
                i <= fields.len(),
                fields == struct_def.fields@,
                name@ == struct_def.name@,
                fields_c(struct_def.name@, fields.take(i as int)) == (written, None::<Refusal>),
                self.output() == start + written,
                start == old(self).output() + struct_head(struct_def.name@),
                self.defined() == old(self).defined().insert(struct_def.name@),
                self.structs() == old(self).structs().push(
                    (struct_def.name@, field_types(struct_def.fields@)),
                ),
                self.module() == old(self).module(),
                self.shapes() == old(self).shapes(),
                self.scope() == old(self).scope(),
                self.arrays() == old(self).arrays(),
                self.well_formed() == old(self).well_formed(),
            decreases fields.len() - i,
        {
            proof {
                assert(fields.take(i + 1).drop_last() == fields.take(i as int));
                assert(fields.take(i + 1).last() == fields[i as int]);
            }
            self.emit("    ");
            let field = &struct_def.fields[i];
            match self.field_to_c(name, field.0.as_str(), &field.1) {
                Ok(line) => {
                    self.emit(line.as_str());
                    proof {
                        written = written + "    "@ + line@;
                        assert(self.output() =~= start + written);
                    }
                },
                Err(e) => {
                    proof {
                        written = written + "    "@;
                        if let Err(why) = field_c(struct_def.name@, fields[i as int].0@, fields[i as int].1) {
                            assert(fields_c(struct_def.name@, fields.take(i + 1)) == (
                                written,
                                Some(why),
                            ));
                            lemma_fields_refusal_stays(struct_def.name@, fields, i + 1);
                        }
                        assert(self.output() =~= old(self).output() + struct_head(struct_def.name@)
                            + written);
                    }
                    return Err(e);
                },
            }
            i = i + 1;
        }
        assert(fields.take(i as int) == fields);
        self.emit("} ");
        self.emit(name);
        self.emit(";\n\n");
        assert(self.output() =~= old(self).output() + struct_head(struct_def.name@) + written
            + struct_tail(struct_def.name@));
        Ok(())
    }
}

} // verus!
