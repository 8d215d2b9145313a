//! C function signatures: the line that both a function's definition and its
//! forward declaration begin with.

use vstd::prelude::*;
use crate::ast::{ArraySize, Function, Item, Param, Program, Type};
use crate::codegen::{c_type, CodeGenerator};
use crate::errors::{CompileError, Result};
use crate::text::{
    char_is_alphanumeric, chars_of, decimal, is_alphanumeric, matches_at, occurs_at, push_str,
    str_eq, string_of, usize_to_string,
};

verus! {

pub const RETURNED_ARRAY: &'static str = "Returning arrays from functions is not yet supported";

pub const UNSUPPORTED_REFERENCE: &'static str = "Unsupported type in reference parameter";

pub const UNSUPPORTED_ELEMENT: &'static str = "Unsupported array element type in function parameter: ";

pub const INNER_LENGTH_HEAD: &'static str = "cannot declare ";

pub const INNER_LENGTH_MIDDLE: &'static str = ": the inner array length is written as `";

pub const INNER_LENGTH_TAIL: &'static str = "`, which this compiler does not resolve (const generic array lengths are dropped). Only the OUTERMOST length of a nested array may be left open, because every inner one is what makes a row a row. Give the inner array a literal length, e.g. `[[i64; 4]; 3]`.";

/// Why a declaration was refused, as far as the error says it.
pub ghost enum Refusal {
    /// A plain error with exactly this text.
    Generic(Seq<char>),
    /// A plain error whose text starts with this and goes on to spell the
    /// offending type.
    GenericAbout(Seq<char>),
    /// A code generation error with exactly this message.
    Codegen(Seq<char>),
}

/// A declaration's text, or why it was refused.
pub type Declared = core::result::Result<Seq<char>, Refusal>;

/// Whether the error `e` is the refusal `why`.
pub open spec fn refuses(e: CompileError, why: Refusal) -> bool {
    match why {
        Refusal::Generic(m) => e matches CompileError::Generic(t) && t@ == m,
        Refusal::GenericAbout(p) => e matches CompileError::Generic(t) && p.len() <= t@.len()
            && t@.subrange(0, p.len() as int) == p,
        Refusal::Codegen(m) => e matches CompileError::CodegenError { message } && message@ == m,
    }
}

/// The C element type an array parameter may have: the scalar types, a
/// string, or a named struct by its bare name.
pub open spec fn param_elem_c(t: Type) -> Option<Seq<char>> {
    match t {
        Type::I32 => Some("int"@),
        Type::I64 => Some("long long"@),
        Type::U32 => Some("unsigned int"@),
        Type::U64 => Some("unsigned long long"@),
        Type::Bool => Some("int"@),
        Type::String => Some("const char*"@),
        Type::Custom(name) => Some(name@),
        _ => None,
    }
}

/// The element type at the bottom of a (possibly nested) array type.
pub open spec fn array_bottom(t: Type) -> Type
    decreases t,
{
    match t {
        Type::Array(elem, _) => array_bottom(*elem),
        _ => t,
    }
}

/// The bracket suffix of a type's array dimensions, outermost first, when
/// every one of them is a literal length; otherwise how the source spelled
/// the first one that is not.
pub open spec fn proven_dims(t: Type) -> core::result::Result<Seq<char>, Seq<char>>
    decreases t,
{
    match t {
        Type::Array(elem, size) => match size {
            ArraySize::Literal(n) => match proven_dims(*elem) {
                Ok(rest) => Ok("["@ + decimal(n as nat) + "]"@ + rest),
                Err(spelling) => Err(spelling),
            },
            ArraySize::ConstParam(name) => Err(name@),
            ArraySize::Expr(_) => Err("<size expression>"@),
        },
        _ => Ok(Seq::empty()),
    }
}

/// The refusal of a declaration whose inner array length is not a literal.
pub open spec fn inner_length_message(what: Seq<char>, spelling: Seq<char>) -> Seq<char> {
    INNER_LENGTH_HEAD@ + what + INNER_LENGTH_MIDDLE@ + spelling + INNER_LENGTH_TAIL@
}

/// `const` applied to an element type: after a trailing `*`, else before.
pub open spec fn const_elem(c: Seq<char>) -> Seq<char> {
    if c.len() > 0 && c.last() == '*' {
        c + " const"@
    } else {
        "const "@ + c
    }
}

/// The declarator of an array parameter `name` of type `[elem; size]`:
/// `elem name[size]` followed by the inner dimensions. Only the outermost
/// length may be left open (printed empty); every inner one must be a
/// literal.
pub open spec fn array_param_decl(elem: Type, size: ArraySize, name: Seq<char>, is_const: bool) -> Declared {
    match param_elem_c(array_bottom(elem)) {
        None => Err(Refusal::GenericAbout(UNSUPPORTED_ELEMENT@)),
        Some(c) => match proven_dims(elem) {
            Err(spelling) => Err(
                Refusal::Codegen(inner_length_message("the parameter `"@ + name + "`"@, spelling)),
            ),
            Ok(inner) => {
                let decl = if is_const {
                    const_elem(c)
                } else {
                    c
                };
                let len = match size {
                    ArraySize::Literal(n) => decimal(n as nat),
                    _ => Seq::empty(),
                };
                Ok(decl + " "@ + name + "["@ + len + "]"@ + inner)
            },
        },
    }
}

/// The pointer type, with its trailing space, that a reference parameter to
/// a scalar, a string or a struct is passed as; `const` unless the
/// reference is mutable.
pub open spec fn reference_param_prefix(inner: Type, mutable: bool) -> Option<Seq<char>> {
    match inner {
        Type::I32 | Type::Bool => Some(
            if mutable {
                "int* "@
            } else {
                "const int* "@
            },
        ),
        Type::I64 => Some(
            if mutable {
                "long long* "@
            } else {
                "const long long* "@
            },
        ),
        Type::U32 => Some(
            if mutable {
                "unsigned int* "@
            } else {
                "const unsigned int* "@
            },
        ),
        Type::U64 => Some(
            if mutable {
                "unsigned long long* "@
            } else {
                "const unsigned long long* "@
            },
        ),
        Type::String => Some(
            if mutable {
                "char** "@
            } else {
                "const char** "@
            },
        ),
        Type::Custom(n) => Some(
            if mutable {
                "struct "@ + n@ + "* "@
            } else {
                "const struct "@ + n@ + "* "@
            },
        ),
        _ => None,
    }
}

/// One parameter as the signature declares it. Arrays, and references to
/// arrays, are declarators; other references are pointers; anything else is
/// passed by value, or by pointer when the parameter is `mut`.
pub open spec fn param_c(p: Param) -> Declared {
    match p.ty {
        Type::Array(elem, size) => array_param_decl(*elem, size, p.name@, false),
        Type::Reference { inner, mutable } => match *inner {
            Type::Array(elem, size) => array_param_decl(*elem, size, p.name@, !mutable),
            _ => match reference_param_prefix(*inner, mutable) {
                Some(prefix) => Ok(prefix + p.name@),
                None => Err(Refusal::Generic(UNSUPPORTED_REFERENCE@)),
            },
        },
        _ => if p.mutable {
            Ok(c_type(p.ty) + "* "@ + p.name@)
        } else {
            Ok(c_type(p.ty) + " "@ + p.name@)
        },
    }
}

/// The parameters, separated by `, `; the first that cannot be declared
/// refuses them all.
pub open spec fn params_c(ps: Seq<Param>) -> Declared
    decreases ps.len(),
{
    if ps.len() == 0 {
        Ok(Seq::empty())
    } else {
        match params_c(ps.drop_last()) {
            Err(why) => Err(why),
            Ok(before) => match param_c(ps.last()) {
                Err(why) => Err(why),
                Ok(p) => Ok(
                    if ps.len() > 1 {
                        before + ", "@ + p
                    } else {
                        p
                    },
                ),
            },
        }
    }
}

/// The C signature of `func` under the C name `name`: return type, name and
/// parameters. An array cannot be returned; `main` returns `int` where it
/// would return nothing, and a parameterless `main` takes the command line.
pub open spec fn signature_c(func: Function, name: Seq<char>) -> Declared {
    let ret = match func.return_type {
        Some(Type::Array(_, _)) => None,
        Some(t) => Some(c_type(t)),
        None => Some("void"@),
    };
    match ret {
        None => Err(Refusal::Generic(RETURNED_ARRAY@)),
        Some(r) => {
            let actual = if name == "main"@ && r == "void"@ {
                "int"@
            } else {
                r
            };
            let entry = if name == "main"@ && func.params@.len() == 0 {
                "int argc, char** argv"@
            } else {
                Seq::empty()
            };
            match params_c(func.params@) {
                Err(why) => Err(why),
                Ok(ps) => Ok(actual + " "@ + name + "("@ + entry + ps + ")"@),
            }
        },
    }
}

/// A refusal among the first `k` parameters refuses the whole list.
proof fn lemma_params_refusal_spreads(ps: Seq<Param>, k: int, why: Refusal)
    requires
        0 <= k <= ps.len(),
        params_c(ps.take(k)) == Declared::Err(why),
    ensures
        params_c(ps) == Declared::Err(why),
    decreases ps.len(),
{
    if k < ps.len() {
        assert(ps.drop_last().take(k) == ps.take(k));
        lemma_params_refusal_spreads(ps.drop_last(), k, why);
    } else {
        assert(ps.take(k) == ps);
    }
}

/// `format!("{:?}")`: the debug rendering of a type, which names the type in
/// an error message. Nothing is stated of the text.
#[verifier::external_body]
fn type_debug_text(ty: &Type) -> (r: String) {
    format!("{:?}", ty)
}

/// The first position at or after `from` where `struct ` begins in `sig`, or
/// the end of `sig`.
pub open spec fn next_struct_keyword(sig: Seq<char>, from: int) -> int
    decreases sig.len() - from,
{
    if from >= sig.len() || from < 0 {
        sig.len() as int
    } else if occurs_at(sig, "struct "@, from) {
        from
    } else {
        next_struct_keyword(sig, from + 1)
    }
}

/// Where the run of identifier characters (alphanumeric or `_`) that starts
/// at `j` ends, looking no further than `limit`.
pub open spec fn tag_end(sig: Seq<char>, j: int, limit: int) -> int
    decreases limit - j,
{
    if j >= limit || j < 0 || j >= sig.len() {
        j
    } else if is_alphanumeric(sig[j]) || sig[j] == '_' {
        tag_end(sig, j + 1, limit)
    } else {
        j
    }
}

/// Whether every struct tag that `sig` names from `from` on is among
/// `defined`: each `struct ` is followed by its tag, the identifier
/// characters up to the next `struct `.
pub open spec fn tags_defined(sig: Seq<char>, from: int, defined: Seq<Seq<char>>) -> bool
    decreases sig.len() - from,
{
    let k = next_struct_keyword(sig, from);
    if k >= sig.len() || k < from || from < 0 {
        true
    } else {
        let start = k + 7;
        let limit = next_struct_keyword(sig, start);
        if limit <= from || limit > sig.len() {
            true
        } else {
            defined.contains(sig.subrange(start, tag_end(sig, start, limit))) && tags_defined(
                sig,
                limit,
                defined,
            )
        }
    }
}

proof fn lemma_next_struct_keyword_bounds(sig: Seq<char>, from: int)
    requires
        0 <= from,
    ensures
        next_struct_keyword(sig, from) >= from || next_struct_keyword(sig, from) == sig.len(),
        next_struct_keyword(sig, from) <= sig.len() || next_struct_keyword(sig, from) == from,
        next_struct_keyword(sig, from) < sig.len() ==> occurs_at(sig, "struct "@, next_struct_keyword(sig, from)),
    decreases sig.len() - from,
{
    if from < sig.len() && !occurs_at(sig, "struct "@, from) {
        lemma_next_struct_keyword_bounds(sig, from + 1);
    }
}

fn next_struct_keyword_of(cs: &Vec<char>, keyword: &Vec<char>, from: usize) -> (r: usize)
    requires
        keyword@ == "struct "@,
        cs.len() <= isize::MAX,
    ensures
        r == next_struct_keyword(cs@, from as int),
{
    if from >= cs.len() {
        return cs.len();
    }
    let mut i = from;
    while i < cs.len()
        invariant
            from <= i <= cs.len(),
            keyword@ == "struct "@,
            cs.len() <= isize::MAX,
            next_struct_keyword(cs@, from as int) == next_struct_keyword(cs@, i as int),
        decreases cs.len() - i,
    {
        if matches_at(cs, keyword, i) {
            return i;
        }
        i = i + 1;
    }
    i
}

fn tag_end_of(cs: &Vec<char>, j: usize, limit: usize) -> (r: usize)
    requires
        limit <= cs.len(),
    ensures
        r == tag_end(cs@, j as int, limit as int),
        j <= limit ==> j <= r <= limit,
{
    let mut k = j;
    while k < limit
        invariant
            j <= k,
            j <= limit ==> k <= limit,
            limit <= cs.len(),
            tag_end(cs@, j as int, limit as int) == tag_end(cs@, k as int, limit as int),
        decreases limit - k,
    {
        let c = cs[k];
        if !(char_is_alphanumeric(c) || c == '_') {
            return k;
        }
        k = k + 1;
    }
    k
}

fn names_contain(names: &Vec<String>, name: &str) -> (r: bool)
    ensures
        r == names@.map_values(|n: String| n@).contains(name@),
{
    let ghost views = names@.map_values(|n: String| n@);
    let mut i: usize = 0;
    while i < names.len()
        invariant
            i <= names.len(),
            views == names@.map_values(|n: String| n@),
            forall|j: int| 0 <= j < i ==> views[j] != name@,
        decreases names.len() - i,
    {
        if str_eq(names[i].as_str(), name) {
            assert(views[i as int] == name@);
            return true;
        }
        i = i + 1;
    }
    false
}

impl CodeGenerator {
    /// Whether every `struct` tag a signature names is one of `defined_structs`:
    /// a prototype that mentions an undefined tag would declare it, with the
    /// wrong scope, instead of referring to it.
    pub fn signature_tags_are_defined(sig: &str, defined_structs: &Vec<String>) -> (r: bool)
        ensures
            r == tags_defined(sig@, 0, defined_structs@.map_values(|n: String| n@)),
    {
        let cs = chars_of(sig);
        let keyword = chars_of("struct ");
        proof {
            reveal_strlit("struct ");
        }
        let ghost defined = defined_structs@.map_values(|n: String| n@);
        let mut pos: usize = 0;
        loop
            invariant
                cs@ == sig@,
                keyword@ == "struct "@,
                cs.len() <= isize::MAX,
                pos <= cs.len(),
                defined == defined_structs@.map_values(|n: String| n@),
                tags_defined(sig@, 0, defined) == tags_defined(sig@, pos as int, defined),
            decreases cs.len() - pos,
        {
            let k = next_struct_keyword_of(&cs, &keyword, pos);
            proof {
                lemma_next_struct_keyword_bounds(cs@, pos as int);
            }
            if k >= cs.len() {
                return true;
            }
            proof {
                reveal_strlit("struct ");
                assert(occurs_at(cs@, "struct "@, k as int));
                assert(k + 7 <= cs.len());
            }
            let start = k + 7;
            let limit = next_struct_keyword_of(&cs, &keyword, start);
            proof {
                lemma_next_struct_keyword_bounds(cs@, start as int);
                assert(start <= limit <= cs.len());
            }
            let end = tag_end_of(&cs, start, limit);
            let tag = crate::text::slice_string(&cs, start, end);
            if !names_contain(defined_structs, tag.as_str()) {
                return false;
            }
            pos = limit;
        }
    }
}

impl CodeGenerator {
    fn param_elem_to_c(t: &Type) -> (r: Option<String>)
        ensures
            match param_elem_c(*t) {
                Some(c) => r matches Some(s) && s@ == c,
                None => r is None,
            },
    {
        match t {
            Type::I32 => Some(string_of("int")),
            Type::I64 => Some(string_of("long long")),
            Type::U32 => Some(string_of("unsigned int")),
            Type::U64 => Some(string_of("unsigned long long")),
            Type::Bool => Some(string_of("int")),
            Type::String => Some(string_of("const char*")),
            Type::Custom(name) => Some(name.clone()),
            _ => None,
        }
    }

    pub(crate) fn array_bottom_of(t: &Type) -> (r: &Type)
        ensures
            *r == array_bottom(*t),
        decreases t,
    {
        match t {
            Type::Array(elem, _) => Self::array_bottom_of(elem),
            _ => t,
        }
    }

    pub(crate) fn proven_dims_of(t: &Type) -> (r: core::result::Result<String, String>)
        ensures
            match proven_dims(*t) {
                Ok(d) => r matches Ok(s) && s@ == d,
                Err(spelling) => r matches Err(s) && s@ == spelling,
            },
        decreases t,
    {
        match t {
            Type::Array(elem, size) => match size {
                ArraySize::Literal(n) => match Self::proven_dims_of(elem) {
                    Ok(rest) => {
                        let mut out = string_of("[");
                        let digits = usize_to_string(*n);
                        push_str(&mut out, digits.as_str());
                        push_str(&mut out, "]");
                        push_str(&mut out, rest.as_str());
                        Ok(out)
                    },
                    Err(spelling) => Err(spelling),
                },
                ArraySize::ConstParam(name) => Err(name.clone()),
                ArraySize::Expr(_) => Err(string_of("<size expression>")),
            },
            _ => Ok(String::new()),
        }
    }

    /// The declarator of an array parameter.
    pub fn array_param_declarator(
        elem_type: &Type,
        size: &ArraySize,
        param_name: &str,
        is_const: bool,
    ) -> (r: Result<String>)
        ensures
            match array_param_decl(*elem_type, *size, param_name@, is_const) {
                Ok(t) => r matches Ok(s) && s@ == t,
                Err(why) => r matches Err(e) && refuses(e, why),
            },
    {
        let base = Self::array_bottom_of(elem_type);
        let elem_c = match Self::param_elem_to_c(base) {
            Some(c) => c,
            None => {
                let mut message = string_of(UNSUPPORTED_ELEMENT);
                let spelled = type_debug_text(base);
                let ghost head = message@;
                push_str(&mut message, spelled.as_str());
                assert(message@.subrange(0, head.len() as int) == head);
                return Err(CompileError::Generic(message));
            },
        };
        let inner = match Self::proven_dims_of(elem_type) {
            Ok(d) => d,
            Err(spelling) => {
                let mut message = string_of(INNER_LENGTH_HEAD);
                push_str(&mut message, "the parameter `");
                push_str(&mut message, param_name);
                push_str(&mut message, "`");
                push_str(&mut message, INNER_LENGTH_MIDDLE);
                push_str(&mut message, spelling.as_str());
                push_str(&mut message, INNER_LENGTH_TAIL);
                assert(message@ =~= inner_length_message(
                    "the parameter `"@ + param_name@ + "`"@,
                    spelling@,
                ));
                return Err(CompileError::CodegenError { message });
            },
        };
        let mut decl = if !is_const {
            elem_c
        } else {
            let n = elem_c.as_str().unicode_len();
            if n > 0 && elem_c.as_str().get_char(n - 1) == '*' {
                let mut d = elem_c;
                push_str(&mut d, " const");
                d
            } else {
                let mut d = string_of("const ");
                push_str(&mut d, elem_c.as_str());
                d
            }
        };
        push_str(&mut decl, " ");
        push_str(&mut decl, param_name);
        push_str(&mut decl, "[");
        match size {
            ArraySize::Literal(n) => {
                let digits = usize_to_string(*n);
                push_str(&mut decl, digits.as_str());
            },
            _ => {},
        }
        push_str(&mut decl, "]");
        push_str(&mut decl, inner.as_str());
        Ok(decl)
    }

    fn reference_param_prefix_of(inner: &Type, mutable: bool) -> (r: Option<String>)
        ensures
            match reference_param_prefix(*inner, mutable) {
                Some(p) => r matches Some(s) && s@ == p,
                None => r is None,
            },
    {
        match inner {
            Type::I32 | Type::Bool => Some(
                string_of(
                    if mutable {
                        "int* "
                    } else {
                        "const int* "
                    },
                ),
            ),
            Type::I64 => Some(
                string_of(
                    if mutable {
                        "long long* "
                    } else {
                        "const long long* "
                    },
                ),
            ),
            Type::U32 => Some(
                string_of(
                    if mutable {
                        "unsigned int* "
                    } else {
                        "const unsigned int* "
                    },
                ),
            ),
            Type::U64 => Some(
                string_of(
                    if mutable {
                        "unsigned long long* "
                    } else {
                        "const unsigned long long* "
                    },
                ),
            ),
            Type::String => Some(
                string_of(
                    if mutable {
                        "char** "
                    } else {
                        "const char** "
                    },
                ),
            ),
            Type::Custom(n) => {
                let mut out = string_of(
                    if mutable {
                        "struct "
                    } else {
                        "const struct "
                    },
                );
                push_str(&mut out, n.as_str());
                push_str(&mut out, "* ");
                Some(out)
            },
            _ => None,
        }
    }

    /// One parameter as the signature declares it.
    pub fn param_to_c(&self, param: &Param) -> (r: Result<String>)
        ensures
            match param_c(*param) {
                Ok(t) => r matches Ok(s) && s@ == t,
                Err(why) => r matches Err(e) && refuses(e, why),
            },
    {
        match &param.ty {
            Type::Array(elem, size) => Self::array_param_declarator(
                elem,
                size,
                param.name.as_str(),
                false,
            ),
            Type::Reference { inner, mutable } => match &**inner {
                Type::Array(elem, size) => Self::array_param_declarator(
                    elem,
                    size,
                    param.name.as_str(),
                    !*mutable,
                ),
                _ => match Self::reference_param_prefix_of(inner, *mutable) {
                    Some(prefix) => {
                        let mut out = prefix;
                        push_str(&mut out, param.name.as_str());
                        Ok(out)
                    },
                    None => Err(CompileError::Generic(string_of(UNSUPPORTED_REFERENCE))),
                },
            },
            _ => {
                let mut out = self.type_to_c(&param.ty);
                if param.mutable {
                    push_str(&mut out, "* ");
                } else {
                    push_str(&mut out, " ");
                }
                push_str(&mut out, param.name.as_str());
                Ok(out)
            },
        }
    }

    /// The C signature line of `func` under the C name `name`, without a
    /// trailing `{` or `;`: the definition and the forward declaration both
    /// begin with it.
    pub fn function_signature(&self, func: &Function, name: &str) -> (r: Result<String>)
        ensures
            match signature_c(*func, name@) {
                Ok(t) => r matches Ok(s) && s@ == t,
                Err(why) => r matches Err(e) && refuses(e, why),
            },
    {
        let ret = match &func.return_type {
            Some(Type::Array(_, _)) => {
                return Err(CompileError::Generic(string_of(RETURNED_ARRAY)));
            },
            Some(t) => self.type_to_c(t),
            None => string_of("void"),
        };
        let is_main = str_eq(name, "main");
        let actual = if is_main && str_eq(ret.as_str(), "void") {
            string_of("int")
        } else {
            ret
        };
        let is_c_entry = is_main && func.params.len() == 0;
        let mut sig = actual;
        push_str(&mut sig, " ");
        push_str(&mut sig, name);
        push_str(&mut sig, "(");
        if is_c_entry {
            push_str(&mut sig, "int argc, char** argv");
        }
        let ghost head = sig@;
        let ghost mut listed = Seq::<char>::empty();
        let ghost ps = func.params@;
        assert(ps.take(0) =~= Seq::<Param>::empty());
        let mut i: usize = 0;
        while i < func.params.len()
            invariant
                i <= func.params.len(),
                ps == func.params@,
                !(func.return_type matches Some(Type::Array(_, _))),
                params_c(ps.take(i as int)) == Declared::Ok(listed),
                sig@ == head + listed,
            decreases func.params.len() - i,
        {
            proof {
                assert(ps.take(i + 1).drop_last() == ps.take(i as int));
                assert(ps.take(i + 1).last() == ps[i as int]);
            }
            match self.param_to_c(&func.params[i]) {
                Err(e) => {
                    proof {
                        if let Err(why) = param_c(ps[i as int]) {
                            assert(params_c(ps.take(i + 1)) == Declared::Err(why));
                            lemma_params_refusal_spreads(ps, i + 1, why);
                            assert(signature_c(*func, name@) == Declared::Err(why));
                        }
                    }
                    return Err(e);
                },
                Ok(text) => {
                    if i > 0 {
                        push_str(&mut sig, ", ");
                    }
                    push_str(&mut sig, text.as_str());
                    proof {
                        listed = if i > 0 {
                            listed + ", "@ + text@
                        } else {
                            text@
                        };
                    }
                },
            }
            i = i + 1;
        }
        assert(ps.take(i as int) == ps);
        push_str(&mut sig, ")");
        Ok(sig)
    }
}

/// Whether one of the prototypes `ps` is for the function `name`.
pub open spec fn has_prototype(ps: Seq<(Seq<char>, Seq<char>)>, name: Seq<char>) -> bool {
    exists|i: int| 0 <= i < ps.len() && #[trigger] ps[i].0 == name
}

/// The forward declarations of a program's functions, each as its name and
/// its line, in the order the functions are declared: an `async` function
/// and `main` get none, nor does a function whose signature names a struct
/// tag not in `defined`, and a name already declared is not declared again.
/// The first signature that cannot be written refuses the whole list.
pub open spec fn prototype_lines(defined: Seq<Seq<char>>, items: Seq<Item>) -> core::result::Result<
    Seq<(Seq<char>, Seq<char>)>,
    Refusal,
>
    decreases items.len(),
{
    if items.len() == 0 {
        Ok(Seq::empty())
    } else {
        match prototype_lines(defined, items.drop_last()) {
            Ok(ps) => match items.last() {
                Item::Function(f) => if f.is_async || f.name@ == "main"@ {
                    Ok(ps)
                } else {
                    match signature_c(f, f.name@) {
                        Ok(sig) => if tags_defined(sig, 0, defined) && !has_prototype(ps, f.name@) {
                            Ok(ps.push((f.name@, sig + ";\n"@)))
                        } else {
                            Ok(ps)
                        },
                        Err(why) => Err(why),
                    }
                },
                _ => Ok(ps),
            },
            Err(why) => Err(why),
        }
    }
}

/// The lines of the prototypes `ps`, one after another.
pub open spec fn prototype_text(ps: Seq<(Seq<char>, Seq<char>)>) -> Seq<char>
    decreases ps.len(),
{
    if ps.len() == 0 {
        Seq::empty()
    } else {
        prototype_text(ps.drop_last()) + ps.last().1
    }
}

/// The block of forward declarations for `ps`: nothing when there are none,
/// else a heading comment, the lines, and a blank line.
pub open spec fn prototype_block(ps: Seq<(Seq<char>, Seq<char>)>) -> Seq<char> {
    if ps.len() == 0 {
        Seq::empty()
    } else {
        FORWARD_DECLARATIONS@ + prototype_text(ps) + "\n"@
    }
}

/// The heading of the forward declarations.
pub const FORWARD_DECLARATIONS: &'static str = "// Forward declarations\n";

/// No function gets two forward declarations: the names of the prototypes
/// are pairwise distinct.
pub proof fn lemma_prototypes_distinct(defined: Seq<Seq<char>>, items: Seq<Item>)
    ensures
        match prototype_lines(defined, items) {
            Ok(ps) => forall|i: int, j: int| 0 <= i < j < ps.len() ==> #[trigger] ps[i].0 != #[trigger] ps[j].0,
            Err(_) => true,
        },
    decreases items.len(),
{
    if items.len() > 0 {
        lemma_prototypes_distinct(defined, items.drop_last());
        match prototype_lines(defined, items.drop_last()) {
            Ok(ps) => {
                match items.last() {
                    Item::Function(f) => {
                        if !(f.is_async || f.name@ == "main"@) {
                            match signature_c(f, f.name@) {
                                Ok(sig) => {
                                    if tags_defined(sig, 0, defined) && !has_prototype(ps, f.name@) {
                                        let qs = ps.push((f.name@, sig + ";\n"@));
                                        assert forall|i: int, j: int| 0 <= i < j < qs.len() implies #[trigger] qs[i].0
                                            != #[trigger] qs[j].0 by {
                                            if j == ps.len() {
                                                assert(qs[i] == ps[i]);
                                                if ps[i].0 == f.name@ {
                                                    assert(has_prototype(ps, f.name@));
                                                }
                                            } else {
                                                assert(qs[i] == ps[i] && qs[j] == ps[j]);
                                            }
                                        }
                                    }
                                },
                                Err(_) => {},
                            }
                        }
                    },
                    _ => {},
                }
            },
            Err(_) => {},
        }
    }
}

proof fn lemma_prototype_prefix_refused(defined: Seq<Seq<char>>, items: Seq<Item>, k: int)
    requires
        0 <= k <= items.len(),
        prototype_lines(defined, items.take(k)) is Err,
    ensures
        prototype_lines(defined, items) == prototype_lines(defined, items.take(k)),
    decreases items.len(),
{
    if k < items.len() {
        assert(items.drop_last().take(k) == items.take(k));
        lemma_prototype_prefix_refused(defined, items.drop_last(), k);
    } else {
        assert(items.take(k) == items);
    }
}

fn prototype_declared(ps: &Vec<(String, String)>, name: &str) -> (r: bool)
    ensures
        r == has_prototype(ps@.map_values(|p: (String, String)| (p.0@, p.1@)), name@),
{
    let ghost v = ps@.map_values(|p: (String, String)| (p.0@, p.1@));
    let mut i: usize = 0;
    while i < ps.len()
        invariant
            i <= ps.len(),
            v == ps@.map_values(|p: (String, String)| (p.0@, p.1@)),
            forall|j: int| 0 <= j < i ==> v[j].0 != name@,
        decreases ps.len() - i,
    {
        if str_eq(ps[i].0.as_str(), name) {
            assert(v[i as int].0 == name@);
            return true;
        }
        i = i + 1;
    }
    false
}

impl CodeGenerator {
    /// Emit the forward declarations of the program's functions, so that
    /// each can be called before its definition: one prototype per name,
    /// the first that can be declared; `async` functions and `main` get
    /// none, nor does a signature naming a struct tag not yet defined (it
    /// would declare a second, different type of that name).
    pub fn generate_function_prototypes(&mut self, program: &Program) -> (r: Result<()>)
        ensures
            match prototype_lines(old(self).defined_tags(), program.items@) {
                Ok(ps) => r is Ok && final(self).output() == old(self).output() + prototype_block(ps),
                Err(why) => r matches Err(e) && refuses(e, why) && final(self).output() == old(
                    self,
                ).output(),
            },
            final(self).structs() == old(self).structs(),
            final(self).fns() == old(self).fns(),
            final(self).methods() == old(self).methods(),
            final(self).defined() == old(self).defined(),
            final(self).defined_tags() == old(self).defined_tags(),
            final(self).module() == old(self).module(),
            final(self).shapes() == old(self).shapes(),
            final(self).scope() == old(self).scope(),
            final(self).arrays() == old(self).arrays(),
            final(self).hoisted() == old(self).hoisted(),
            final(self).hoist_count() == old(self).hoist_count(),
            final(self).well_formed() == old(self).well_formed(),
    {
        let ghost defined = self.defined_tags();
        let ghost items = program.items@;
        let mut lines: Vec<(String, String)> = Vec::new();
        let mut i: usize = 0;
        assert(items.take(0) =~= Seq::<Item>::empty());
        assert(lines@.map_values(|p: (String, String)| (p.0@, p.1@)) =~= Seq::<
            (Seq<char>, Seq<char>),
        >::empty());
        while i < program.items.len()
            invariant
                i <= items.len(),
                items == program.items@,
                defined == self.defined_tags(),
                self == old(self),
                prototype_lines(defined, items.take(i as int)) == Ok::<
                    Seq<(Seq<char>, Seq<char>)>,
                    Refusal,
                >(lines@.map_values(|p: (String, String)| (p.0@, p.1@))),
            decreases items.len() - i,
        {
            proof {
                assert(items.take(i + 1).drop_last() == items.take(i as int));
                assert(items.take(i + 1).last() == items[i as int]);
            }
            match &program.items[i] {
                Item::Function(f) => {
                    if !f.is_async && !str_eq(f.name.as_str(), "main") {
                        proof {
                            reveal_strlit("main");
                        }
                        let sig = match self.function_signature(f, f.name.as_str()) {
                            Ok(s) => s,
                            Err(e) => {
                                proof {
                                    lemma_prototype_prefix_refused(defined, items, i + 1);
                                }
                                return Err(e);
                            },
                        };
                        if Self::signature_tags_are_defined(sig.as_str(), self.defined_structs())
                            && !prototype_declared(&lines, f.name.as_str()) {
                            let ghost before = lines@.map_values(|p: (String, String)| (p.0@, p.1@));
                            let mut line = sig;
                            push_str(&mut line, ";\n");
                            lines.push((f.name.clone(), line));
                            assert(lines@.map_values(|p: (String, String)| (p.0@, p.1@)) =~= before.push(
                                (f.name@, lines@.last().1@),
                            ));
                        }
                    } else {
                        proof {
                            reveal_strlit("main");
                        }
                    }
                },
                _ => {},
            }
            i = i + 1;
        }
        assert(items.take(i as int) == items);
        let ghost ps = lines@.map_values(|p: (String, String)| (p.0@, p.1@));
        if lines.len() > 0 {
            self.emit(FORWARD_DECLARATIONS);
            let ghost start = self.output();
            let mut j: usize = 0;
            assert(ps.take(0) =~= Seq::<(Seq<char>, Seq<char>)>::empty());
            assert(start + prototype_text(ps.take(0)) =~= start);
            while j < lines.len()
                invariant
                    j <= lines.len(),
                    ps == lines@.map_values(|p: (String, String)| (p.0@, p.1@)),
                    self.output() == start + prototype_text(ps.take(j as int)),
                    start == old(self).output() + FORWARD_DECLARATIONS@,
                    self.structs() == old(self).structs(),
                    self.fns() == old(self).fns(),
                    self.methods() == old(self).methods(),
                    self.defined() == old(self).defined(),
                    self.defined_tags() == old(self).defined_tags(),
                    self.module() == old(self).module(),
                    self.shapes() == old(self).shapes(),
                    self.scope() == old(self).scope(),
                    self.arrays() == old(self).arrays(),
                    self.hoisted() == old(self).hoisted(),
                    self.hoist_count() == old(self).hoist_count(),
                    self.well_formed() == old(self).well_formed(),
                decreases lines.len() - j,
            {
                proof {
                    assert(ps.take(j + 1).drop_last() == ps.take(j as int));
                    assert(ps.take(j + 1).last() == ps[j as int]);
                }
                self.emit(lines[j].1.as_str());
                j = j + 1;
                assert(self.output() =~= start + prototype_text(ps.take(j as int)));
            }
            assert(ps.take(j as int) == ps);
            self.emit("\n");
            assert(self.output() =~= old(self).output() + prototype_block(ps));
        } else {
            assert(self.output() =~= old(self).output() + prototype_block(ps));
        }
        Ok(())
    }
}

} // verus!
