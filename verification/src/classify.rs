use vstd::prelude::*;

use crate::tree::{
    concat_texts, elem_has_node_kind, is_node_kind, join_space, lemma_strip_node_child,
    lemma_strip_sig_texts, lemma_strip_text, node_child, nth_node_child, sig_texts, shown_of,
    shown_render, strip, text_of, Elem, NodeKind, Shape,
};

verus! {

/// What a field's value expression says about its default, derived purely
/// from the expression's shape.
#[derive(Debug, PartialEq, Eq, Clone)]
pub enum ValueClass {
    /// No notable default information.
    NoDefault,
    /// A field-with-default shape whose default expression is shown.
    PlainDefault(String),
    /// A field-with-default shape whose default renders to the absence
    /// marker; suppressed in table annotations.
    AbsentDefault(String),
    /// A nested application of the wrap marker; the outer argument is shown.
    WrappedDefault(String),
    /// The value is itself a function.
    BareLambda,
}

/// The mathematical counterpart of `ValueClass`.
pub enum ClassShape {
    NoDefault,
    PlainDefault(Seq<char>),
    AbsentDefault(Seq<char>),
    WrappedDefault(Seq<char>),
    BareLambda,
}

pub open spec fn class_view(c: ValueClass) -> ClassShape {
    match c {
        ValueClass::NoDefault => ClassShape::NoDefault,
        ValueClass::PlainDefault(s) => ClassShape::PlainDefault(s@),
        ValueClass::AbsentDefault(s) => ClassShape::AbsentDefault(s@),
        ValueClass::WrappedDefault(s) => ClassShape::WrappedDefault(s@),
        ValueClass::BareLambda => ClassShape::BareLambda,
    }
}

/// Classification of the nested-application shape: exactly three levels of
/// application whose innermost applied expression shows as the wrap marker.
pub open spec fn classify_apply(v: Shape, wrap: Seq<char>) -> ClassShape {
    match node_child(v, 0) {
        Option::Some(l1) => if is_node_kind(l1, NodeKind::Apply) {
            match node_child(l1, 0) {
                Option::Some(l2) => if is_node_kind(l2, NodeKind::Apply) {
                    match node_child(l2, 0) {
                        Option::Some(l3) => if shown_of(l3) == wrap {
                            match node_child(v, 1) {
                                Option::Some(arg) => ClassShape::WrappedDefault(shown_of(arg)),
                                Option::None => ClassShape::NoDefault,
                            }
                        } else {
                            ClassShape::NoDefault
                        },
                        Option::None => ClassShape::NoDefault,
                    }
                } else {
                    ClassShape::NoDefault
                },
                Option::None => ClassShape::NoDefault,
            }
        } else {
            ClassShape::NoDefault
        },
        Option::None => ClassShape::NoDefault,
    }
}

/// Classification is a pure function of the value expression's shape, checked
/// in a fixed order: field-with-default first, then the nested application of
/// the wrap marker, then a bare function; everything else carries no default
/// information.
pub open spec fn classify_spec(v: Shape, wrap: Seq<char>, absent: Seq<char>) -> ClassShape {
    if is_node_kind(v, NodeKind::OrDefault) {
        match node_child(v, 1) {
            Option::Some(d) => if shown_of(d) == absent {
                ClassShape::AbsentDefault(shown_of(d))
            } else {
                ClassShape::PlainDefault(shown_of(d))
            },
            Option::None => ClassShape::NoDefault,
        }
    } else if is_node_kind(v, NodeKind::Apply) {
        classify_apply(v, wrap)
    } else if is_node_kind(v, NodeKind::Lambda) {
        ClassShape::BareLambda
    } else {
        ClassShape::NoDefault
    }
}

/// The classification of a whole record field: of its value expression, or
/// nothing where the field has no value.
pub open spec fn classify_of_kv(kv: Shape, wrap: Seq<char>, absent: Seq<char>) -> ClassShape {
    match node_child(kv, 1) {
        Option::Some(v) => classify_spec(v, wrap, absent),
        Option::None => ClassShape::NoDefault,
    }
}

/// Stripping whitespace tokens from a value expression changes neither its
/// classification variant nor its payload.
pub proof fn lemma_classify_strip(v: Shape, wrap: Seq<char>, absent: Seq<char>)
    ensures
        classify_spec(strip(v), wrap, absent) == classify_spec(v, wrap, absent),
{
    lemma_strip_sig_texts(v);
    lemma_strip_node_child(v, 0);
    lemma_strip_node_child(v, 1);
    match node_child(v, 1) {
        Option::Some(d) => {
            lemma_strip_sig_texts(d);
        },
        Option::None => {},
    }
    match node_child(v, 0) {
        Option::Some(l1) => {
            lemma_strip_node_child(l1, 0);
            match node_child(l1, 0) {
                Option::Some(l2) => {
                    lemma_strip_node_child(l2, 0);
                    match node_child(l2, 0) {
                        Option::Some(l3) => {
                            lemma_strip_sig_texts(l3);
                        },
                        Option::None => {},
                    }
                },
                Option::None => {},
            }
        },
        Option::None => {},
    }
}

/// Classification is a pure function of value-node shape: two value
/// expressions that agree once whitespace tokens are ignored always yield the
/// same classification variant and payload.
pub proof fn lemma_classification_whitespace(
    v1: Shape,
    v2: Shape,
    wrap: Seq<char>,
    absent: Seq<char>,
)
    requires
        strip(v1) == strip(v2),
    ensures
        classify_spec(v1, wrap, absent) == classify_spec(v2, wrap, absent),
{
    lemma_classify_strip(v1, wrap, absent);
    lemma_classify_strip(v2, wrap, absent);
}

/// Round-trip fidelity of payloads: a plain or wrapped default's payload is
/// the shown text of the default (or argument) expression, which joins its
/// significant source tokens with single spaces, while the expression's
/// verbatim source text, whitespace tokens aside, concatenates those same
/// tokens. The payload thus equals the original source substring up to
/// whitespace at token boundaries.
pub proof fn lemma_payload_round_trip(v: Shape, wrap: Seq<char>, absent: Seq<char>)
    ensures
        classify_spec(v, wrap, absent) matches ClassShape::PlainDefault(p) ==> (node_child(v, 1)
            matches Option::Some(d) && p == join_space(sig_texts(d)) && text_of(strip(d))
            == concat_texts(sig_texts(d))),
        classify_spec(v, wrap, absent) matches ClassShape::WrappedDefault(p) ==> (node_child(v, 1)
            matches Option::Some(d) && p == join_space(sig_texts(d)) && text_of(strip(d))
            == concat_texts(sig_texts(d))),
        classify_spec(v, wrap, absent) matches ClassShape::AbsentDefault(p) ==> (node_child(v, 1)
            matches Option::Some(d) && p == join_space(sig_texts(d)) && text_of(strip(d))
            == concat_texts(sig_texts(d))),
{
    match node_child(v, 1) {
        Option::Some(d) => {
            crate::tree::lemma_node_filter_nodes(crate::tree::children_of(v));
            assert(crate::tree::is_node(d));
            lemma_strip_text(d);
        },
        Option::None => {},
    }
}

pub fn str_eq(a: &str, b: &str) -> (r: bool)
    ensures
        r == (a@ == b@),
{
    let sa = a.to_owned();
    let sb = b.to_owned();
    sa == sb
}

/// Classifies one value expression by its shape.
pub fn classify(v: &Elem, wrap: &str, absent: &str) -> (r: ValueClass)
    ensures
        class_view(r) == classify_spec(v@, wrap@, absent@),
{
    if elem_has_node_kind(v, NodeKind::OrDefault) {
        match nth_node_child(v, 1) {
            Option::Some(d) => {
                let shown = shown_render(d);
                if str_eq(shown.as_str(), absent) {
                    ValueClass::AbsentDefault(shown)
                } else {
                    ValueClass::PlainDefault(shown)
                }
            },
            Option::None => ValueClass::NoDefault,
        }
    } else if elem_has_node_kind(v, NodeKind::Apply) {
        if let Option::Some(l1) = nth_node_child(v, 0) {
            if elem_has_node_kind(l1, NodeKind::Apply) {
                if let Option::Some(l2) = nth_node_child(l1, 0) {
                    if elem_has_node_kind(l2, NodeKind::Apply) {
                        if let Option::Some(l3) = nth_node_child(l2, 0) {
                            let s3 = shown_render(l3);
                            if str_eq(s3.as_str(), wrap) {
                                if let Option::Some(arg) = nth_node_child(v, 1) {
                                    return ValueClass::WrappedDefault(shown_render(arg));
                                }
                            }
                        }
                    }
                }
            }
        }
        ValueClass::NoDefault
    } else if elem_has_node_kind(v, NodeKind::Lambda) {
        ValueClass::BareLambda
    } else {
        ValueClass::NoDefault
    }
}

/// Classifies one record field: its value expression where it has one.
pub fn classify_entry(kv: &Elem, wrap: &str, absent: &str) -> (r: ValueClass)
    ensures
        class_view(r) == classify_of_kv(kv@, wrap@, absent@),
{
    match nth_node_child(kv, 1) {
        Option::Some(v) => classify(v, wrap, absent),
        Option::None => ValueClass::NoDefault,
    }
}

} // verus!
