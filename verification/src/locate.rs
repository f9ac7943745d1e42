use vstd::prelude::*;

use crate::classify::str_eq;
use crate::comment::{lemma_path_snoc, shape_at, valid_path};
use crate::error::{ExtractError, StructureFault};
use crate::tree::{
    child, children_of, elem_has_node_kind, is_node, is_node_kind, is_nth_node,
    lemma_node_filter_prefix, lemma_node_filter_take_step, lemma_nth_node_val, node_child,
    node_filter, nth_node_child, nth_node_idx, shown_of, shown_render, Elem, NodeKind, Shape,
};

verus! {

pub open spec fn shift_opt(o: Option<int>) -> Option<int> {
    match o {
        Option::Some(i) => Option::Some(i + 1),
        Option::None => Option::None,
    }
}

/// The real child index of the `n`-th node among `cs`.
pub open spec fn nth_node_idx_r(cs: Seq<Shape>, n: int) -> Option<int>
    decreases cs.len(),
{
    if cs.len() == 0 {
        Option::None
    } else if is_node(cs[0]) {
        if n == 0 {
            Option::Some(0)
        } else {
            shift_opt(nth_node_idx_r(cs.drop_first(), n - 1))
        }
    } else {
        shift_opt(nth_node_idx_r(cs.drop_first(), n))
    }
}

/// Front decomposition of the node subsequence.
pub proof fn lemma_node_filter_front(cs: Seq<Shape>)
    requires
        cs.len() > 0,
    ensures
        node_filter(cs) == if is_node(cs[0]) {
            seq![cs[0]] + node_filter(cs.drop_first())
        } else {
            node_filter(cs.drop_first())
        },
    decreases cs.len(),
{
    if cs.len() == 1 {
        assert(cs.drop_last() =~= Seq::<Shape>::empty());
        assert(cs.drop_first() =~= Seq::<Shape>::empty());
        if is_node(cs[0]) {
            assert(node_filter(cs) =~= seq![cs[0]] + node_filter(cs.drop_first()));
        }
    } else {
        let d = cs.drop_last();
        let f = cs.drop_first();
        lemma_node_filter_front(d);
        assert(f.drop_last() =~= d.drop_first());
        assert(d[0] == cs[0]);
        assert(f.last() == cs.last());
        if is_node(cs[0]) {
            if is_node(cs.last()) {
                assert(node_filter(cs) =~= seq![cs[0]] + node_filter(f));
            } else {
                assert(node_filter(cs) =~= seq![cs[0]] + node_filter(f));
            }
        } else {
            if is_node(cs.last()) {
                assert(node_filter(cs) =~= node_filter(f));
            } else {
                assert(node_filter(cs) =~= node_filter(f));
            }
        }
    }
}

/// The recursive index search agrees with the `is_nth_node` characterization.
pub proof fn lemma_nth_node_idx_r(cs: Seq<Shape>, n: int)
    requires
        0 <= n,
    ensures
        match nth_node_idx_r(cs, n) {
            Option::Some(j) => is_nth_node(cs, n, j),
            Option::None => node_filter(cs).len() <= n,
        },
    decreases cs.len(),
{
    if cs.len() > 0 {
        let f = cs.drop_first();
        lemma_node_filter_front(cs);
        if is_node(cs[0]) {
            if n == 0 {
                assert(cs.take(0) =~= Seq::<Shape>::empty());
            } else {
                lemma_nth_node_idx_r(f, n - 1);
                match nth_node_idx_r(f, n - 1) {
                    Option::Some(j1) => {
                        assert(cs.take(j1 + 1)[0] == cs[0]);
                        lemma_node_filter_front(cs.take(j1 + 1));
                        assert(cs.take(j1 + 1).drop_first() =~= f.take(j1));
                        assert(cs[j1 + 1] == f[j1]);
                    },
                    Option::None => {},
                }
            }
        } else {
            lemma_nth_node_idx_r(f, n);
            match nth_node_idx_r(f, n) {
                Option::Some(j1) => {
                    assert(cs.take(j1 + 1)[0] == cs[0]);
                    lemma_node_filter_front(cs.take(j1 + 1));
                    assert(cs.take(j1 + 1).drop_first() =~= f.take(j1));
                    assert(cs[j1 + 1] == f[j1]);
                },
                Option::None => {},
            }
        }
    }
}

/// Two positions cannot both be the `n`-th node.
pub proof fn lemma_nth_node_unique(cs: Seq<Shape>, n: int, j1: int, j2: int)
    requires
        is_nth_node(cs, n, j1),
        is_nth_node(cs, n, j2),
    ensures
        j1 == j2,
{
    if j1 < j2 {
        lemma_node_filter_take_step(cs, j1);
        lemma_node_filter_prefix(cs.take(j2), j1 + 1);
        assert(cs.take(j2).take(j1 + 1) =~= cs.take(j1 + 1));
    } else if j2 < j1 {
        lemma_node_filter_take_step(cs, j2);
        lemma_node_filter_prefix(cs.take(j1), j2 + 1);
        assert(cs.take(j1).take(j2 + 1) =~= cs.take(j2 + 1));
    }
}

/// An `is_nth_node` witness pins down the recursive search's answer.
pub proof fn lemma_nth_node_agree(cs: Seq<Shape>, n: int, j: int)
    requires
        is_nth_node(cs, n, j),
    ensures
        nth_node_idx_r(cs, n) == Option::Some(j),
{
    lemma_nth_node_idx_r(cs, n);
    match nth_node_idx_r(cs, n) {
        Option::Some(j2) => {
            lemma_nth_node_unique(cs, n, j, j2);
        },
        Option::None => {
            lemma_nth_node_val(cs, n, j);
        },
    }
}

/// And conversely for the absent case.
pub proof fn lemma_nth_node_absent(cs: Seq<Shape>, n: int)
    requires
        0 <= n,
        node_filter(cs).len() <= n,
    ensures
        nth_node_idx_r(cs, n) == Option::None::<int>,
{
    lemma_nth_node_idx_r(cs, n);
    match nth_node_idx_r(cs, n) {
        Option::Some(j) => {
            lemma_nth_node_val(cs, n, j);
        },
        Option::None => {},
    }
}

// ---------------------------------------------------------------------------
// The target locator.
// ---------------------------------------------------------------------------

/// The name under which a record field is declared: the shown text of the
/// first segment of its key.
pub open spec fn key_first_name(kv: Shape) -> Option<Seq<char>> {
    match node_child(kv, 0) {
        Option::Some(key) => if is_node_kind(key, NodeKind::Key) {
            match node_child(key, 0) {
                Option::Some(seg) => Option::Some(shown_of(seg)),
                Option::None => Option::None,
            }
        } else {
            Option::None
        },
        Option::None => Option::None,
    }
}

/// A binding whose declared name's leading segment is the marker identifier.
pub open spec fn is_marker_kv(s: Shape, marker: Seq<char>) -> bool {
    is_node_kind(s, NodeKind::KeyValue) && key_first_name(s) == Option::Some(marker)
}

pub open spec fn first_marker_idx(cs: Seq<Shape>, m: Seq<char>) -> Option<int>
    decreases cs.len(),
{
    if cs.len() == 0 {
        Option::None
    } else if is_marker_kv(cs[0], m) {
        Option::Some(0)
    } else {
        shift_opt(first_marker_idx(cs.drop_first(), m))
    }
}

pub proof fn lemma_first_marker(cs: Seq<Shape>, m: Seq<char>)
    ensures
        match first_marker_idx(cs, m) {
            Option::Some(j) => 0 <= j < cs.len() && is_marker_kv(cs[j], m) && (forall|i: int|
                0 <= i < j ==> !is_marker_kv(cs[i], m)),
            Option::None => forall|i: int| 0 <= i < cs.len() ==> !is_marker_kv(cs[i], m),
        },
    decreases cs.len(),
{
    if cs.len() > 0 && !is_marker_kv(cs[0], m) {
        lemma_first_marker(cs.drop_first(), m);
        assert(forall|i: int| 1 <= i < cs.len() ==> cs[i] == cs.drop_first()[i - 1]);
    }
}

/// Where the one binding of interest stands: the path from the root to the
/// record literal of defaulted options. The root's first node child must be a
/// function, the function's body a let-binding, the first binding named by the
/// marker must exist, and its value must be a function returning a record.
pub open spec fn locate_spec(root: Shape, marker: Seq<char>) -> Result<Seq<usize>, ExtractError> {
    match nth_node_idx_r(children_of(root), 0) {
        Option::None => Result::Err(
            ExtractError::StructureError(StructureFault::RootNotFunction),
        ),
        Option::Some(a) => {
            let lam = children_of(root)[a];
            if !is_node_kind(lam, NodeKind::Lambda) {
                Result::Err(ExtractError::StructureError(StructureFault::RootNotFunction))
            } else {
                match nth_node_idx_r(children_of(lam), 1) {
                    Option::None => Result::Err(
                        ExtractError::StructureError(StructureFault::BodyNotLetBinding),
                    ),
                    Option::Some(b) => {
                        let li = children_of(lam)[b];
                        if !is_node_kind(li, NodeKind::LetIn) {
                            Result::Err(
                                ExtractError::StructureError(StructureFault::BodyNotLetBinding),
                            )
                        } else {
                            match first_marker_idx(children_of(li), marker) {
                                Option::None => Result::Err(ExtractError::NotFound),
                                Option::Some(j) => locate_value(
                                    root,
                                    children_of(li)[j],
                                    seq![a as usize, b as usize, j as usize],
                                ),
                            }
                        }
                    },
                }
            }
        },
    }
}

/// The tail of the location: the marker binding's value must be a function
/// whose body is a record literal.
pub open spec fn locate_value(root: Shape, kv: Shape, prefix: Seq<usize>) -> Result<
    Seq<usize>,
    ExtractError,
> {
    match nth_node_idx_r(children_of(kv), 1) {
        Option::None => Result::Err(ExtractError::StructureError(StructureFault::NotRecordPattern)),
        Option::Some(v) => {
            let vl = children_of(kv)[v];
            if !is_node_kind(vl, NodeKind::Lambda) {
                Result::Err(ExtractError::StructureError(StructureFault::NotRecordPattern))
            } else {
                match nth_node_idx_r(children_of(vl), 1) {
                    Option::None => Result::Err(
                        ExtractError::StructureError(StructureFault::NotRecordPattern),
                    ),
                    Option::Some(w) => {
                        let at = children_of(vl)[w];
                        if !is_node_kind(at, NodeKind::AttrSet) {
                            Result::Err(
                                ExtractError::StructureError(StructureFault::NotRecordPattern),
                            )
                        } else {
                            Result::Ok(prefix + seq![v as usize, w as usize])
                        }
                    },
                }
            }
        },
    }
}

/// Reads a field's declared name: the shown text of the first segment of its
/// key, or nothing where the field has no well-formed key.
pub fn entry_name(kv: &Elem) -> (r: Option<String>)
    ensures
        match r {
            Option::Some(s) => key_first_name(kv@) == Option::Some(s@),
            Option::None => key_first_name(kv@) is None,
        },
{
    match nth_node_child(kv, 0) {
        Option::Some(key) => {
            if elem_has_node_kind(key, NodeKind::Key) {
                match nth_node_child(key, 0) {
                    Option::Some(seg) => Option::Some(shown_render(seg)),
                    Option::None => Option::None,
                }
            } else {
                Option::None
            }
        },
        Option::None => Option::None,
    }
}

/// Tests whether a child is a binding declared under the marker identifier.
fn is_marker_entry(c: &Elem, marker: &str) -> (r: bool)
    ensures
        r == is_marker_kv(c@, marker@),
{
    if !elem_has_node_kind(c, NodeKind::KeyValue) {
        return false;
    }
    match entry_name(c) {
        Option::Some(name) => str_eq(name.as_str(), marker),
        Option::None => false,
    }
}

/// Scans the bindings of a let node in source order for the first one
/// declared under the marker identifier, returning its child index.
fn find_marker_entry(li: &Elem, marker: &str) -> (r: Option<usize>)
    ensures
        match r {
            Option::Some(j) => (j as int) < children_of(li@).len() && is_marker_kv(
                children_of(li@)[j as int],
                marker@,
            ) && (forall|i: int| 0 <= i < j ==> !is_marker_kv(children_of(li@)[i], marker@)),
            Option::None => forall|i: int|
                0 <= i < children_of(li@).len() ==> !is_marker_kv(children_of(li@)[i], marker@),
        },
{
    let ghost lcs = children_of(li@);
    let n_li = crate::tree::num_children(li);
    let mut j: usize = 0;
    while j < n_li
        invariant
            lcs == children_of(li@),
            n_li == lcs.len(),
            0 <= j <= lcs.len(),
            forall|i: int| 0 <= i < j ==> !is_marker_kv(lcs[i], marker@),
        decreases lcs.len() - j,
    {
        let c = child(li, j);
        if is_marker_entry(c, marker) {
            return Option::Some(j);
        }
        j = j + 1;
    }
    Option::None
}

/// Locates the record literal of defaulted options, returning its path from
/// the root.
pub fn locate(root: &Elem, marker: &str) -> (r: Result<Vec<usize>, ExtractError>)
    ensures
        match r {
            Result::Ok(path) => locate_spec(root@, marker@) == Result::<
                Seq<usize>,
                ExtractError,
            >::Ok(path@) && valid_path(root@, path@) && is_node_kind(
                shape_at(root@, path@),
                NodeKind::AttrSet,
            ),
            Result::Err(e) => locate_spec(root@, marker@) == Result::<
                Seq<usize>,
                ExtractError,
            >::Err(e),
        },
{
    let a = match nth_node_idx(root, 0) {
        Option::Some(a) => {
            proof {
                lemma_nth_node_agree(children_of(root@), 0, a as int);
            }
            a
        },
        Option::None => {
            proof {
                lemma_nth_node_absent(children_of(root@), 0);
            }
            return Result::Err(ExtractError::StructureError(StructureFault::RootNotFunction));
        },
    };
    let lam = child(root, a);
    if !elem_has_node_kind(lam, NodeKind::Lambda) {
        return Result::Err(ExtractError::StructureError(StructureFault::RootNotFunction));
    }
    let b = match nth_node_idx(lam, 1) {
        Option::Some(b) => {
            proof {
                lemma_nth_node_agree(children_of(lam@), 1, b as int);
            }
            b
        },
        Option::None => {
            proof {
                lemma_nth_node_absent(children_of(lam@), 1);
            }
            return Result::Err(ExtractError::StructureError(StructureFault::BodyNotLetBinding));
        },
    };
    let li = child(lam, b);
    if !elem_has_node_kind(li, NodeKind::LetIn) {
        return Result::Err(ExtractError::StructureError(StructureFault::BodyNotLetBinding));
    }
    let j = match find_marker_entry(li, marker) {
        Option::Some(j) => j,
        Option::None => {
            proof {
                lemma_first_marker(children_of(li@), marker@);
            }
            return Result::Err(ExtractError::NotFound);
        },
    };
    let kv = child(li, j);
    proof {
        let lcs = children_of(li@);
        lemma_first_marker(lcs, marker@);
        match first_marker_idx(lcs, marker@) {
            Option::Some(j2) => {
                assert(!(j2 < j)) by {
                    if j2 < j {
                        assert(!is_marker_kv(lcs[j2], marker@));
                    }
                }
                assert(!(j < j2)) by {
                    if (j as int) < j2 {
                        assert(!is_marker_kv(lcs[j as int], marker@));
                    }
                }
            },
            Option::None => {
                assert(is_marker_kv(lcs[j as int], marker@));
            },
        }
    }
    let v = match nth_node_idx(kv, 1) {
        Option::Some(v) => {
            proof {
                lemma_nth_node_agree(children_of(kv@), 1, v as int);
            }
            v
        },
        Option::None => {
            proof {
                lemma_nth_node_absent(children_of(kv@), 1);
            }
            return Result::Err(ExtractError::StructureError(StructureFault::NotRecordPattern));
        },
    };
    let vl = child(kv, v);
    if !elem_has_node_kind(vl, NodeKind::Lambda) {
        return Result::Err(ExtractError::StructureError(StructureFault::NotRecordPattern));
    }
    let w = match nth_node_idx(vl, 1) {
        Option::Some(w) => {
            proof {
                lemma_nth_node_agree(children_of(vl@), 1, w as int);
            }
            w
        },
        Option::None => {
            proof {
                lemma_nth_node_absent(children_of(vl@), 1);
            }
            return Result::Err(ExtractError::StructureError(StructureFault::NotRecordPattern));
        },
    };
    let at = child(vl, w);
    if !elem_has_node_kind(at, NodeKind::AttrSet) {
        return Result::Err(ExtractError::StructureError(StructureFault::NotRecordPattern));
    }
    let mut path: Vec<usize> = Vec::new();
    path.push(a);
    path.push(b);
    path.push(j);
    path.push(v);
    path.push(w);
    proof {
        let e = Seq::<usize>::empty();
        assert(valid_path(root@, e));
        lemma_path_snoc(root@, e, a);
        assert(e.push(a) =~= seq![a]);
        lemma_path_snoc(root@, seq![a], b);
        assert(seq![a].push(b) =~= seq![a, b]);
        lemma_path_snoc(root@, seq![a, b], j);
        assert(seq![a, b].push(j) =~= seq![a, b, j]);
        lemma_path_snoc(root@, seq![a, b, j], v);
        assert(seq![a, b, j].push(v) =~= seq![a, b, j, v]);
        lemma_path_snoc(root@, seq![a, b, j, v], w);
        assert(seq![a, b, j, v].push(w) =~= seq![a, b, j, v, w]);
        assert(path@ =~= seq![a, b, j, v, w]);
        assert(seq![a as usize, b as usize, j as usize] + seq![v as usize, w as usize] =~= path@);
    }
    Result::Ok(path)
}

} // verus!
