//! The C condition that decides whether a `match` arm's pattern matches.

use vstd::prelude::*;
use crate::ast::{Pattern, PatternLiteral};
use crate::codegen::{i64_literal, CodeGenerator};
use crate::errors::Result;
use crate::text::{decimal, join_seq, join_strings, push_str, push_usize, str_eq, string_of};

verus! {

/// The C spelling of a pattern literal: an integer as a `long long`
/// constant, a `bool` as `1` or `0`.
pub open spec fn literal_c(l: PatternLiteral) -> Seq<char> {
    match l {
        PatternLiteral::Int(v) => i64_literal(v as int),
        PatternLiteral::Bool(b) => if b {
            "1"@
        } else {
            "0"@
        },
    }
}

/// The C condition under which `p` matches the C lvalue `subject`. A
/// pattern that matches everything is `1`; a tuple pattern is the
/// conjunction of its elements' conditions on the members `f0`, `f1`, …,
/// leaving out those that are `1`; alternatives are joined with `||`.
pub open spec fn pattern_cond(p: Pattern, subject: Seq<char>) -> Seq<char>
    decreases p,
{
    match p {
        Pattern::Wildcard | Pattern::Ident(_) => "1"@,
        Pattern::Binding { inner, .. } => pattern_cond(*inner, subject),
        Pattern::Tuple(elements) => {
            proof {
                assert(decreases_to!(p => p->Tuple_0));
            }
            let parts = tuple_parts(elements@, subject);
            if parts.len() == 0 {
                "1"@
            } else {
                join_seq(parts, " && "@)
            }
        },
        Pattern::Or(alternatives) => {
            proof {
                assert(decreases_to!(p => p->Or_0));
            }
            join_seq(or_parts(alternatives@, subject), " || "@)
        },
        Pattern::EnumPattern { enum_name, variant } => subject + ".tag == __"@ + enum_name@ + "__"@
            + variant@,
        Pattern::Literal(l) => subject + " == "@ + literal_c(l),
        Pattern::Range { lo, hi, inclusive } => "("@ + subject + " >= "@ + literal_c(lo) + " && "@
            + subject + (if inclusive {
            " <= "@
        } else {
            " < "@
        }) + literal_c(hi) + ")"@,
    }
}

/// The C member that holds element `i` of the tuple `subject`.
pub open spec fn tuple_member(subject: Seq<char>, i: nat) -> Seq<char> {
    subject + ".f"@ + decimal(i)
}

/// The parenthesised conditions of the elements of a tuple pattern, in
/// order, without those that are `1`.
pub open spec fn tuple_parts(es: Seq<Pattern>, subject: Seq<char>) -> Seq<Seq<char>>
    decreases es,
{
    if es.len() == 0 {
        Seq::empty()
    } else {
        proof {
            assert(decreases_to!(es => es[es.len() - 1]));
            assert(decreases_to!(es => es.drop_last()));
        }
        let before = tuple_parts(es.drop_last(), subject);
        let c = pattern_cond(es.last(), tuple_member(subject, (es.len() - 1) as nat));
        if c == "1"@ {
            before
        } else {
            before.push("("@ + c + ")"@)
        }
    }
}

/// The parenthesised conditions of alternatives, in order.
pub open spec fn or_parts(alts: Seq<Pattern>, subject: Seq<char>) -> Seq<Seq<char>>
    decreases alts,
{
    if alts.len() == 0 {
        Seq::empty()
    } else {
        proof {
            assert(decreases_to!(alts => alts[alts.len() - 1]));
            assert(decreases_to!(alts => alts.drop_last()));
        }
        or_parts(alts.drop_last(), subject).push("("@ + pattern_cond(alts.last(), subject) + ")"@)
    }
}

fn literal_text(l: &PatternLiteral) -> (r: String)
    ensures
        r@ == literal_c(*l),
{
    match l {
        PatternLiteral::Int(v) => CodeGenerator::c_i64_literal(*v),
        PatternLiteral::Bool(b) => if *b {
            string_of("1")
        } else {
            string_of("0")
        },
    }
}

fn parenthesised(text: &str) -> (r: String)
    ensures
        r@ == "("@ + text@ + ")"@,
{
    let mut out = string_of("(");
    push_str(&mut out, text);
    push_str(&mut out, ")");
    out
}

impl CodeGenerator {
    /// The C expression that decides whether `pattern` matches `subject`,
    /// the C lvalue it is asked about.
    pub fn pattern_condition(&self, pattern: &Pattern, subject: &str) -> (r: Result<String>)
        ensures
            r matches Ok(s) && s@ == pattern_cond(*pattern, subject@),
        decreases pattern,
    {
        match pattern {
            Pattern::Wildcard | Pattern::Ident(_) => Ok(string_of("1")),
            Pattern::Binding { inner, .. } => self.pattern_condition(inner, subject),
            Pattern::Tuple(elements) => {
                let mut parts: Vec<String> = Vec::new();
                let mut i: usize = 0;
                assert(elements@.take(0) =~= Seq::<Pattern>::empty());
                assert(parts@.map_values(|p: String| p@) =~= Seq::<Seq<char>>::empty());
                while i < elements.len()
                    invariant
                        i <= elements.len(),
                        *pattern == Pattern::Tuple(*elements),
                        parts@.map_values(|p: String| p@) == tuple_parts(
                            elements@.take(i as int),
                            subject@,
                        ),
                    decreases elements.len() - i,
                {
                    proof {
                        assert(decreases_to!(*pattern => pattern->Tuple_0));
                        assert(decreases_to!(*elements => elements@));
                        assert(decreases_to!(elements@ => elements@[i as int]));
                        assert(elements@.take(i + 1).drop_last() == elements@.take(i as int));
                        assert(elements@.take(i + 1).last() == elements@[i as int]);
                    }
                    let mut member = string_of(subject);
                    push_str(&mut member, ".f");
                    push_usize(&mut member, i);
                    let condition = match self.pattern_condition(&elements[i], member.as_str()) {
                        Ok(c) => c,
                        Err(e) => {
                            return Err(e);
                        },
                    };
                    if !str_eq(condition.as_str(), "1") {
                        let ghost before = parts@.map_values(|p: String| p@);
                        parts.push(parenthesised(condition.as_str()));
                        assert(parts@.map_values(|p: String| p@) =~= before.push(
                            "("@ + condition@ + ")"@,
                        ));
                    }
                    i = i + 1;
                }
                assert(elements@.take(i as int) == elements@);
                if parts.len() == 0 {
                    Ok(string_of("1"))
                } else {
                    Ok(join_strings(&parts, " && "))
                }
            },
            Pattern::Or(alternatives) => {
                let mut parts: Vec<String> = Vec::new();
                let mut i: usize = 0;
                assert(alternatives@.take(0) =~= Seq::<Pattern>::empty());
                assert(parts@.map_values(|p: String| p@) =~= Seq::<Seq<char>>::empty());
                while i < alternatives.len()
                    invariant
                        i <= alternatives.len(),
                        *pattern == Pattern::Or(*alternatives),
                        parts@.map_values(|p: String| p@) == or_parts(
                            alternatives@.take(i as int),
                            subject@,
                        ),
                    decreases alternatives.len() - i,
                {
                    proof {
                        assert(decreases_to!(*pattern => pattern->Or_0));
                        assert(decreases_to!(*alternatives => alternatives@));
                        assert(decreases_to!(alternatives@ => alternatives@[i as int]));
                        assert(alternatives@.take(i + 1).drop_last() == alternatives@.take(i as int));
                        assert(alternatives@.take(i + 1).last() == alternatives@[i as int]);
                    }
                    let condition = match self.pattern_condition(&alternatives[i], subject) {
                        Ok(c) => c,
                        Err(e) => {
                            return Err(e);
                        },
                    };
                    let ghost before = parts@.map_values(|p: String| p@);
                    parts.push(parenthesised(condition.as_str()));
                    assert(parts@.map_values(|p: String| p@) =~= before.push(
                        "("@ + condition@ + ")"@,
                    ));
                    i = i + 1;
                }
                assert(alternatives@.take(i as int) == alternatives@);
                Ok(join_strings(&parts, " || "))
            },
            Pattern::EnumPattern { enum_name, variant } => {
                let mut out = string_of(subject);
                push_str(&mut out, ".tag == __");
                push_str(&mut out, enum_name.as_str());
                push_str(&mut out, "__");
                push_str(&mut out, variant.as_str());
                Ok(out)
            },
            Pattern::Literal(l) => {
                let mut out = string_of(subject);
                push_str(&mut out, " == ");
                let lit = literal_text(l);
                push_str(&mut out, lit.as_str());
                Ok(out)
            },
            Pattern::Range { lo, hi, inclusive } => {
                let mut out = string_of("(");
                push_str(&mut out, subject);
                push_str(&mut out, " >= ");
                let low = literal_text(lo);
                push_str(&mut out, low.as_str());
                push_str(&mut out, " && ");
                push_str(&mut out, subject);
                if *inclusive {
                    push_str(&mut out, " <= ");
                } else {
                    push_str(&mut out, " < ");
                }
                let high = literal_text(hi);
                push_str(&mut out, high.as_str());
                push_str(&mut out, ")");
                Ok(out)
            },
        }
    }
}

} // verus!
