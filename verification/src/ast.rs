//! Source-located syntax tree nodes for module-level declarations and
//! constant expressions, together with the operator tables.

use vstd::prelude::*;

verus! {

/// A half-open range of character positions in the source text.
#[derive(Debug, PartialEq, Eq, Clone, Copy)]
pub struct Span {
    pub start: usize,
    pub end: usize,
}

/// A syntax node together with the span of text it was parsed from.
#[derive(Debug, PartialEq, Clone)]
pub struct Spanned<T> {
    pub node: T,
    pub span: Span,
}

impl<T> From<(T, Span)> for Spanned<T> {
    fn from(info: (T, Span)) -> (r: Self) {
        let (node, span) = info;
        Spanned { node, span }
    }
}

impl<T> vstd::std_specs::convert::FromSpecImpl<(T, Span)> for Spanned<T> {
    open spec fn obeys_from_spec() -> bool {
        true
    }

    open spec fn from_spec(info: (T, Span)) -> Self {
        Spanned { node: info.0, span: info.1 }
    }
}

#[derive(Debug, PartialEq)]
pub struct Module<O> {
    pub body: Vec<O>,
}

#[derive(Debug, PartialEq)]
pub enum ModuleStmt<'a> {
    EventDef { name: &'a str, fields: Vec<Spanned<EventField<'a>>> },
}

impl<'a> From<(ModuleStmt<'a>, Span)> for ModuleStmt<'a> {
    fn from(info: (ModuleStmt<'a>, Span)) -> (r: Self) {
        let (node, _) = info;
        node
    }
}

impl<'a> vstd::std_specs::convert::FromSpecImpl<(ModuleStmt<'a>, Span)> for ModuleStmt<'a> {
    open spec fn obeys_from_spec() -> bool {
        true
    }

    open spec fn from_spec(info: (ModuleStmt<'a>, Span)) -> Self {
        info.0
    }
}

impl<O> From<(Module<O>, Span)> for Module<O> {
    fn from(info: (Module<O>, Span)) -> (r: Self) {
        let (node, _) = info;
        node
    }
}

impl<O> vstd::std_specs::convert::FromSpecImpl<(Module<O>, Span)> for Module<O> {
    open spec fn obeys_from_spec() -> bool {
        true
    }

    open spec fn from_spec(info: (Module<O>, Span)) -> Self {
        info.0
    }
}

#[derive(Debug, PartialEq)]
pub struct TypeDesc<'a> {
    pub base: &'a str,
    pub dimensions: Vec<u32>,
    pub annotations: Vec<&'a str>,
}

#[derive(Debug, PartialEq)]
pub struct EventField<'a> {
    pub name: &'a str,
    pub typ: Spanned<TypeDesc<'a>>,
}

#[derive(Debug, PartialEq)]
pub enum Operator {
    Add,
    Sub,
    Mult,
    Div,
    Mod,
    Pow,
    LShift,
    RShift,
    BitOr,
    BitXor,
    BitAnd,
}

/// The binary operator named by `s`, if any.
pub open spec fn spec_operator(s: Seq<char>) -> Option<Operator> {
    if s == "+"@ {
        Some(Operator::Add)
    } else if s == "-"@ {
        Some(Operator::Sub)
    } else if s == "*"@ {
        Some(Operator::Mult)
    } else if s == "/"@ {
        Some(Operator::Div)
    } else if s == "%"@ {
        Some(Operator::Mod)
    } else if s == "**"@ {
        Some(Operator::Pow)
    } else if s == "<<"@ {
        Some(Operator::LShift)
    } else if s == ">>"@ {
        Some(Operator::RShift)
    } else if s == "|"@ {
        Some(Operator::BitOr)
    } else if s == "^"@ {
        Some(Operator::BitXor)
    } else if s == "&"@ {
        Some(Operator::BitAnd)
    } else {
        None
    }
}

impl Operator {
    pub fn try_from(string: &str) -> (r: Result<Self, &'static str>)
        ensures
            (spec_operator(string@) matches Some(op) ==> r == Ok::<Operator, &'static str>(op)),
            spec_operator(string@) is None ==> (r matches Err(m) && m@
                == "unrecognized binary operator string"@),
    {
        if crate::utils::str_eq(string, "+") {
            Ok(Self::Add)
        } else if crate::utils::str_eq(string, "-") {
            Ok(Self::Sub)
        } else if crate::utils::str_eq(string, "*") {
            Ok(Self::Mult)
        } else if crate::utils::str_eq(string, "/") {
            Ok(Self::Div)
        } else if crate::utils::str_eq(string, "%") {
            Ok(Self::Mod)
        } else if crate::utils::str_eq(string, "**") {
            Ok(Self::Pow)
        } else if crate::utils::str_eq(string, "<<") {
            Ok(Self::LShift)
        } else if crate::utils::str_eq(string, ">>") {
            Ok(Self::RShift)
        } else if crate::utils::str_eq(string, "|") {
            Ok(Self::BitOr)
        } else if crate::utils::str_eq(string, "^") {
            Ok(Self::BitXor)
        } else if crate::utils::str_eq(string, "&") {
            Ok(Self::BitAnd)
        } else {
            Err("unrecognized binary operator string")
        }
    }
}

#[derive(Debug, PartialEq)]
pub enum UnaryOp {
    Invert,
    Not,
    UAdd,
    USub,
}

/// The unary operator named by `s`, if any.
pub open spec fn spec_unary_op(s: Seq<char>) -> Option<UnaryOp> {
    if s == "~"@ {
        Some(UnaryOp::Invert)
    } else if s == "not"@ {
        Some(UnaryOp::Not)
    } else if s == "+"@ {
        Some(UnaryOp::UAdd)
    } else if s == "-"@ {
        Some(UnaryOp::USub)
    } else {
        None
    }
}

impl UnaryOp {
    pub fn try_from(string: &str) -> (r: Result<Self, &'static str>)
        ensures
            (spec_unary_op(string@) matches Some(op) ==> r == Ok::<UnaryOp, &'static str>(op)),
            spec_unary_op(string@) is None ==> (r matches Err(m) && m@
                == "unrecognized unary operator string"@),
    {
        if crate::utils::str_eq(string, "~") {
            Ok(Self::Invert)
        } else if crate::utils::str_eq(string, "not") {
            Ok(Self::Not)
        } else if crate::utils::str_eq(string, "+") {
            Ok(Self::UAdd)
        } else if crate::utils::str_eq(string, "-") {
            Ok(Self::USub)
        } else {
            Err("unrecognized unary operator string")
        }
    }
}

#[derive(Debug, PartialEq)]
pub enum ConstExpr<'a> {
    BinOp { left: Box<Spanned<ConstExpr<'a>>>, op: Operator, right: Box<Spanned<ConstExpr<'a>>> },
    UnaryOp { op: UnaryOp, operand: Box<Spanned<ConstExpr<'a>>> },
    Name { name: &'a str },
    Num { num: &'a str },
}

} // verus!
