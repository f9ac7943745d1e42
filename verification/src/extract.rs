use vstd::prelude::*;

use crate::classify::{class_view, classify_entry, classify_of_kv, ClassShape, ValueClass};
use crate::comment::{
    associate_spec, copy_path, elem_at, find_comment, lemma_path_snoc, shape_at, valid_path,
};
use crate::error::ExtractError;
use crate::locate::{entry_name, key_first_name, locate, locate_spec};
use crate::tree::{
    child, children_of, elem_has_node_kind, is_node_kind, num_children, Elem, NodeKind, Shape,
};

verus! {

/// One documented option: the only structure that crosses into the renderer.
/// One per field of the located record, in source declaration order.
#[derive(Debug, PartialEq, Eq, Clone)]
pub struct RenderRecord {
    pub name: String,
    pub description_lines: Vec<String>,
    pub classification: ValueClass,
}

/// The mathematical model of a render record.
pub struct RecShape {
    pub name: Seq<char>,
    pub lines: Seq<Seq<char>>,
    pub class: ClassShape,
}

pub open spec fn rec_view(r: RenderRecord) -> RecShape {
    RecShape {
        name: r.name@,
        lines: r.description_lines.deep_view(),
        class: class_view(r.classification),
    }
}

pub open spec fn recs_view(v: Seq<RenderRecord>) -> Seq<RecShape> {
    v.map_values(|r: RenderRecord| rec_view(r))
}

/// What one record field yields: its declared name, the description read from
/// the comments before its declaration, and its value classification.
pub open spec fn entry_spec(
    root: Shape,
    apath: Seq<usize>,
    j: usize,
    wrap: Seq<char>,
    absent: Seq<char>,
) -> Result<RecShape, ExtractError> {
    let kv = children_of(shape_at(root, apath))[j as int];
    match key_first_name(kv) {
        Option::None => Result::Err(ExtractError::MissingKey),
        Option::Some(name) => match associate_spec(root, apath.push(j)) {
            Result::Err(e) => Result::Err(e),
            Result::Ok(lines) => Result::Ok(
                RecShape { name, lines, class: classify_of_kv(kv, wrap, absent) },
            ),
        },
    }
}

/// The records of the first `hi` children of the located record literal, in
/// source order. The first failing field aborts the whole run.
pub open spec fn entries_spec(
    root: Shape,
    apath: Seq<usize>,
    hi: int,
    wrap: Seq<char>,
    absent: Seq<char>,
) -> Result<Seq<RecShape>, ExtractError>
    decreases hi,
{
    if hi <= 0 {
        Result::Ok(Seq::empty())
    } else {
        let cs = children_of(shape_at(root, apath));
        let pre = entries_spec(root, apath, hi - 1, wrap, absent);
        if !is_node_kind(cs[hi - 1], NodeKind::KeyValue) {
            pre
        } else {
            match pre {
                Result::Err(e) => Result::Err(e),
                Result::Ok(rs) => match entry_spec(root, apath, (hi - 1) as usize, wrap, absent) {
                    Result::Err(e) => Result::Err(e),
                    Result::Ok(r) => Result::Ok(rs.push(r)),
                },
            }
        }
    }
}

/// The whole pipeline: locate the record literal, then read every field.
pub open spec fn extract_spec(
    root: Shape,
    marker: Seq<char>,
    wrap: Seq<char>,
    absent: Seq<char>,
) -> Result<Seq<RecShape>, ExtractError> {
    match locate_spec(root, marker) {
        Result::Err(e) => Result::Err(e),
        Result::Ok(apath) => entries_spec(
            root,
            apath,
            children_of(shape_at(root, apath)).len() as int,
            wrap,
            absent,
        ),
    }
}

/// A failure among the first `lo` fields decides the whole run.
proof fn lemma_entries_err(
    root: Shape,
    apath: Seq<usize>,
    lo: int,
    hi: int,
    wrap: Seq<char>,
    absent: Seq<char>,
    e: ExtractError,
)
    requires
        0 <= lo <= hi,
        entries_spec(root, apath, lo, wrap, absent) == Result::<Seq<RecShape>, ExtractError>::Err(
            e,
        ),
    ensures
        entries_spec(root, apath, hi, wrap, absent) == Result::<Seq<RecShape>, ExtractError>::Err(
            e,
        ),
    decreases hi - lo,
{
    if hi > lo {
        lemma_entries_err(root, apath, lo, hi - 1, wrap, absent, e);
    }
}

/// Extracts one record per field of the located record literal, in source
/// declaration order, failing on the first field without a key or without a
/// documentation comment.
pub fn extract(root: &Elem, marker: &str, wrap: &str, absent: &str) -> (r: Result<
    Vec<RenderRecord>,
    ExtractError,
>)
    ensures
        match r {
            Result::Ok(recs) => extract_spec(root@, marker@, wrap@, absent@) == Result::<
                Seq<RecShape>,
                ExtractError,
            >::Ok(recs_view(recs@)),
            Result::Err(e) => extract_spec(root@, marker@, wrap@, absent@) == Result::<
                Seq<RecShape>,
                ExtractError,
            >::Err(e),
        },
{
    let apath = match locate(root, marker) {
        Result::Ok(p) => p,
        Result::Err(e) => {
            return Result::Err(e);
        },
    };
    let at = elem_at(root, &apath);
    let ghost ash = shape_at(root@, apath@);
    let ghost cs = children_of(ash);
    let n = num_children(at);
    let mut recs: Vec<RenderRecord> = Vec::new();
    let mut j: usize = 0;
    proof {
        assert(recs_view(recs@) =~= Seq::<RecShape>::empty());
    }
    while j < n
        invariant
            valid_path(root@, apath@),
            ash == shape_at(root@, apath@),
            cs == children_of(ash),
            n == cs.len(),
            at@ == ash,
            0 <= j <= n,
            locate_spec(root@, marker@) == Result::<Seq<usize>, ExtractError>::Ok(apath@),
            entries_spec(root@, apath@, j as int, wrap@, absent@) == Result::<
                Seq<RecShape>,
                ExtractError,
            >::Ok(recs_view(recs@)),
        decreases n - j,
    {
        let c = child(at, j);
        if elem_has_node_kind(c, NodeKind::KeyValue) {
            let name = match entry_name(c) {
                Option::Some(s) => s,
                Option::None => {
                    proof {
                        lemma_entries_err(
                            root@,
                            apath@,
                            j + 1,
                            n as int,
                            wrap@,
                            absent@,
                            ExtractError::MissingKey,
                        );
                    }
                    return Result::Err(ExtractError::MissingKey);
                },
            };
            let mut dpath = copy_path(&apath);
            dpath.push(j);
            proof {
                lemma_path_snoc(root@, apath@, j);
                assert(dpath@ =~= apath@.push(j));
            }
            let lines = match find_comment(root, &dpath) {
                Result::Ok(lines) => lines,
                Result::Err(e) => {
                    proof {
                        lemma_entries_err(root@, apath@, j + 1, n as int, wrap@, absent@, e);
                    }
                    return Result::Err(e);
                },
            };
            let classification = classify_entry(c, wrap, absent);
            let ghost prev = recs@;
            let rec = RenderRecord { name, description_lines: lines, classification };
            recs.push(rec);
            proof {
                assert(recs_view(recs@) =~= recs_view(prev).push(rec_view(rec)));
            }
        }
        j = j + 1;
    }
    Result::Ok(recs)
}

// ---------------------------------------------------------------------------
// The count-and-order law.
// ---------------------------------------------------------------------------

/// The fields of the record literal: its children that are key-value nodes.
pub open spec fn kv_filter(cs: Seq<Shape>) -> Seq<Shape>
    decreases cs,
{
    if cs.len() == 0 {
        Seq::empty()
    } else if is_node_kind(cs.last(), NodeKind::KeyValue) {
        kv_filter(cs.drop_last()).push(cs.last())
    } else {
        kv_filter(cs.drop_last())
    }
}

proof fn lemma_records_match_fields(
    root: Shape,
    apath: Seq<usize>,
    hi: int,
    wrap: Seq<char>,
    absent: Seq<char>,
)
    requires
        0 <= hi <= children_of(shape_at(root, apath)).len(),
        hi <= usize::MAX as int,
    ensures
        match entries_spec(root, apath, hi, wrap, absent) {
            Result::Ok(rs) => {
                let kvs = kv_filter(children_of(shape_at(root, apath)).take(hi));
                rs.len() == kvs.len() && (forall|i: int|
                    0 <= i < rs.len() ==> key_first_name(kvs[i]) == Option::Some(rs[i].name))
            },
            Result::Err(_) => true,
        },
    decreases hi,
{
    let cs = children_of(shape_at(root, apath));
    if hi == 0 {
        assert(kv_filter(cs.take(0)) =~= Seq::<Shape>::empty());
    } else {
        lemma_records_match_fields(root, apath, hi - 1, wrap, absent);
        assert(cs.take(hi).drop_last() =~= cs.take(hi - 1));
        assert(cs.take(hi).last() == cs[hi - 1]);
        match entries_spec(root, apath, hi - 1, wrap, absent) {
            Result::Ok(rs0) => {
                let kvs0 = kv_filter(cs.take(hi - 1));
                if is_node_kind(cs[hi - 1], NodeKind::KeyValue) {
                    match entry_spec(root, apath, (hi - 1) as usize, wrap, absent) {
                        Result::Ok(r) => {
                            let rs = rs0.push(r);
                            let kvs = kv_filter(cs.take(hi));
                            assert(kvs == kvs0.push(cs[hi - 1]));
                            assert(key_first_name(cs[hi - 1]) == Option::Some(r.name));
                            assert forall|i: int| 0 <= i < rs.len() implies key_first_name(
                                kvs[i],
                            ) == Option::Some(rs[i].name) by {
                                if i < rs0.len() {
                                    assert(kvs[i] == kvs0[i]);
                                    assert(rs[i] == rs0[i]);
                                } else {
                                    assert(kvs[i] == cs[hi - 1]);
                                    assert(rs[i] == r);
                                }
                            }
                        },
                        Result::Err(_) => {},
                    }
                }
            },
            Result::Err(_) => {},
        }
    }
}

/// For every input on which extraction succeeds, the number of records equals
/// the number of fields of the located record literal, and their order is the
/// source declaration order: the i-th record carries the declared name of the
/// i-th field.
pub proof fn lemma_record_per_field(
    root: Shape,
    marker: Seq<char>,
    wrap: Seq<char>,
    absent: Seq<char>,
)
    requires
        locate_spec(root, marker) matches Result::Ok(apath) ==> children_of(
            shape_at(root, apath),
        ).len() <= usize::MAX as int,
    ensures
        match (locate_spec(root, marker), extract_spec(root, marker, wrap, absent)) {
            (Result::Ok(apath), Result::Ok(rs)) => {
                let kvs = kv_filter(children_of(shape_at(root, apath)));
                rs.len() == kvs.len() && (forall|i: int|
                    0 <= i < rs.len() ==> key_first_name(kvs[i]) == Option::Some(rs[i].name))
            },
            (Result::Err(_), _) => true,
            (_, Result::Err(_)) => true,
        },
{
    match locate_spec(root, marker) {
        Result::Ok(apath) => {
            let cs = children_of(shape_at(root, apath));
            lemma_records_match_fields(root, apath, cs.len() as int, wrap, absent);
            assert(cs.take(cs.len() as int) =~= cs);
        },
        Result::Err(_) => {},
    }
}

} // verus!
