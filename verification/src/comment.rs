use vstd::prelude::*;

use crate::error::ExtractError;
use crate::text::{split_lines, split_nl, trim_comment, trim_comment_text};
use crate::tree::{
    child, children_of, elem_is_token_kind, is_comment, is_trivia, token_text, Elem, Shape,
    TokenKind,
};

verus! {

// ---------------------------------------------------------------------------
// Positions inside the tree: paths of child indices from the root.
// ---------------------------------------------------------------------------

pub open spec fn valid_path(s: Shape, path: Seq<usize>) -> bool
    decreases path.len(),
{
    path.len() == 0 || (path[0] < children_of(s).len() && valid_path(
        children_of(s)[path[0] as int],
        path.drop_first(),
    ))
}

pub open spec fn shape_at(s: Shape, path: Seq<usize>) -> Shape
    decreases path.len(),
{
    if path.len() == 0 {
        s
    } else {
        shape_at(children_of(s)[path[0] as int], path.drop_first())
    }
}

/// Extending a valid path by one child index.
pub proof fn lemma_path_snoc(root: Shape, p: Seq<usize>, j: usize)
    requires
        valid_path(root, p),
        j < children_of(shape_at(root, p)).len(),
    ensures
        valid_path(root, p.push(j)),
        shape_at(root, p.push(j)) == children_of(shape_at(root, p))[j as int],
    decreases p.len(),
{
    if p.len() == 0 {
        assert(p.push(j)[0] == j);
        assert(p.push(j).drop_first() =~= Seq::<usize>::empty());
        assert(valid_path(children_of(root)[j as int], Seq::<usize>::empty()));
        assert(shape_at(children_of(root)[j as int], Seq::<usize>::empty()) == children_of(
            root,
        )[j as int]);
    } else {
        lemma_path_snoc(children_of(root)[p[0] as int], p.drop_first(), j);
        assert(p.push(j).drop_first() =~= p.drop_first().push(j));
        assert(p.push(j)[0] == p[0]);
        assert(valid_path(children_of(root)[p[0] as int], p.drop_first().push(j)));
        assert(shape_at(root, p) == shape_at(children_of(root)[p[0] as int], p.drop_first()));
    }
}

/// Shortening a valid, non-empty path by its last index.
pub proof fn lemma_path_unsnoc(root: Shape, p: Seq<usize>)
    requires
        valid_path(root, p),
        p.len() > 0,
    ensures
        valid_path(root, p.drop_last()),
        p.last() < children_of(shape_at(root, p.drop_last())).len(),
        shape_at(root, p) == children_of(shape_at(root, p.drop_last()))[p.last() as int],
    decreases p.len(),
{
    if p.len() == 1 {
        assert(p.drop_last() =~= Seq::<usize>::empty());
        assert(p.drop_first() =~= Seq::<usize>::empty());
        assert(shape_at(root, p) == shape_at(children_of(root)[p[0] as int], p.drop_first()));
    } else {
        lemma_path_unsnoc(children_of(root)[p[0] as int], p.drop_first());
        assert(p.drop_first().drop_last() =~= p.drop_last().drop_first());
        assert(p.drop_last()[0] == p[0]);
        assert(p.drop_first().last() == p.last());
        assert(shape_at(root, p) == shape_at(children_of(root)[p[0] as int], p.drop_first()));
        assert(shape_at(root, p.drop_last()) == shape_at(
            children_of(root)[p[0] as int],
            p.drop_last().drop_first(),
        ));
    }
}

// ---------------------------------------------------------------------------
// The elements that a backward-then-upward walk visits, nearest first.
// ---------------------------------------------------------------------------

/// The first `j` elements of `cs`, reversed: what a walk over the previous
/// siblings of child `j` visits, nearest first.
pub open spec fn rev_prefix(cs: Seq<Shape>, j: int) -> Seq<Shape> {
    Seq::new(j as nat, |i: int| cs[j - 1 - i])
}

/// Every element that lies before the position `path`, nearest first: the
/// previous siblings at each level, from the innermost level outward.
pub open spec fn preceding(root: Shape, path: Seq<usize>) -> Seq<Shape>
    decreases path.len(),
{
    if path.len() == 0 {
        Seq::empty()
    } else {
        rev_prefix(children_of(shape_at(root, path.drop_last())), path.last() as int) + preceding(
            root,
            path.drop_last(),
        )
    }
}

/// One backward step: to the previous sibling, or, where the current element
/// is the first of its level, up and then to the parent's previous sibling.
/// `None` means the walk ran off the root.
pub open spec fn step_back(path: Seq<usize>) -> Option<Seq<usize>>
    decreases path.len(),
{
    if path.len() == 0 {
        Option::None
    } else if path.last() > 0 {
        Option::Some(path.update(path.len() - 1, (path.last() - 1) as usize))
    } else {
        step_back(path.drop_last())
    }
}

/// A backward step lands exactly on the head of `preceding`, and the elements
/// before the new position are the remaining ones.
pub proof fn lemma_step_back(root: Shape, path: Seq<usize>)
    requires
        valid_path(root, path),
    ensures
        match step_back(path) {
            Option::None => preceding(root, path).len() == 0,
            Option::Some(q) => {
                &&& valid_path(root, q)
                &&& preceding(root, path).len() > 0
                &&& shape_at(root, q) == preceding(root, path)[0]
                &&& preceding(root, q) == preceding(root, path).drop_first()
            },
        },
    decreases path.len(),
{
    if path.len() > 0 {
        lemma_path_unsnoc(root, path);
        let p0 = path.drop_last();
        let j = path.last();
        let cs = children_of(shape_at(root, p0));
        if j > 0 {
            let q = path.update(path.len() - 1, (j - 1) as usize);
            assert(q =~= p0.push((j - 1) as usize));
            lemma_path_snoc(root, p0, (j - 1) as usize);
            assert(q.drop_last() =~= p0);
            assert(preceding(root, path)[0] == cs[j - 1]);
            assert(preceding(root, q) =~= preceding(root, path).drop_first());
        } else {
            assert(preceding(root, path) =~= preceding(root, p0));
            lemma_step_back(root, p0);
        }
    }
}

// ---------------------------------------------------------------------------
// Collecting the comment run.
// ---------------------------------------------------------------------------

/// Walks a nearest-first element sequence: comments are collected (the result
/// comes out in source order), other trivia is skipped, the first significant
/// element stops the walk, and a walk that runs off the end (off the root of
/// the tree) finds nothing.
pub open spec fn collect_back(vs: Seq<Shape>) -> Option<Seq<Seq<char>>>
    decreases vs.len(),
{
    if vs.len() == 0 {
        Option::None
    } else if !is_trivia(vs[0]) {
        Option::Some(Seq::empty())
    } else {
        match collect_back(vs.drop_first()) {
            Option::None => Option::None,
            Option::Some(r) => Option::Some(
                if is_comment(vs[0]) {
                    r.push(token_text(vs[0]))
                } else {
                    r
                },
            ),
        }
    }
}

/// The description lines read from a run of comment texts in source order:
/// each text is trimmed and split at its newlines.
pub open spec fn doc_lines(ts: Seq<Seq<char>>) -> Seq<Seq<char>>
    decreases ts.len(),
{
    if ts.len() == 0 {
        Seq::empty()
    } else {
        doc_lines(ts.drop_last()) + split_nl(trim_comment(ts.last()))
    }
}

/// A collected comment run is empty as a document exactly when it holds no
/// text at all, or one text that trims to nothing.
pub open spec fn doc_is_empty(ts: Seq<Seq<char>>) -> bool {
    ts.len() == 0 || (ts.len() == 1 && trim_comment(ts[0]).len() == 0)
}

/// What comment association yields for the element at `path`: the trimmed
/// lines of the contiguous comment run immediately before it, or `NoComment`
/// where there is none.
pub open spec fn associate_spec(root: Shape, path: Seq<usize>) -> Result<
    Seq<Seq<char>>,
    ExtractError,
> {
    match collect_back(preceding(root, path)) {
        Option::None => Result::Err(ExtractError::NoComment),
        Option::Some(ts) => if doc_is_empty(ts) {
            Result::Err(ExtractError::NoComment)
        } else {
            Result::Ok(doc_lines(ts))
        },
    }
}

// ---------------------------------------------------------------------------
// The order-preservation law of the collection.
// ---------------------------------------------------------------------------

/// The texts of the comment tokens among a run of elements, in the run's own
/// order.
pub open spec fn comment_texts(ws: Seq<Shape>) -> Seq<Seq<char>>
    decreases ws,
{
    if ws.len() == 0 {
        Seq::empty()
    } else if is_comment(ws.last()) {
        comment_texts(ws.drop_last()).push(token_text(ws.last()))
    } else {
        comment_texts(ws.drop_last())
    }
}

/// The walk over the nearest-first elements `vs` stops at position `k` and
/// collects exactly the comment texts before it, restored to source order.
pub open spec fn run_stops_at(vs: Seq<Shape>, ts: Seq<Seq<char>>, k: int) -> bool {
    &&& 0 <= k < vs.len()
    &&& !is_trivia(vs[k])
    &&& forall|i: int| 0 <= i < k ==> is_trivia(vs[i])
    &&& ts == comment_texts(vs.take(k).reverse())
}

/// A collection outcome that preserves order: either everything before the
/// declaration is trivia and nothing is found, or the result holds the
/// comment texts of the contiguous trivia run, in source order.
pub open spec fn collection_is_ordered(vs: Seq<Shape>) -> bool {
    match collect_back(vs) {
        Option::None => forall|i: int| 0 <= i < vs.len() ==> is_trivia(#[trigger] vs[i]),
        Option::Some(ts) => exists|k: int| #[trigger] run_stops_at(vs, ts, k),
    }
}

/// Comment collection is order-preserving: it finds nothing exactly when
/// everything before the declaration is trivia, and otherwise it yields the
/// comment texts of the contiguous trivia run before the first significant
/// element, in source order.
pub proof fn lemma_collect_back_order(vs: Seq<Shape>)
    ensures
        collection_is_ordered(vs),
    decreases vs.len(),
{
    if vs.len() == 0 {
    } else if !is_trivia(vs[0]) {
        let ts = Seq::<Seq<char>>::empty();
        assert(vs.take(0).reverse() =~= Seq::<Shape>::empty());
        assert(comment_texts(vs.take(0).reverse()) =~~= ts);
        assert(run_stops_at(vs, ts, 0));
        assert(collect_back(vs) == Option::Some(ts));
        match collect_back(vs) {
            Option::Some(ts2) => {
                assert(ts2 == ts);
                assert(run_stops_at(vs, ts2, 0));
            },
            Option::None => {
                assert(false);
            },
        }
        assert(collection_is_ordered(vs));
    } else {
        let f = vs.drop_first();
        lemma_collect_back_order(f);
        match collect_back(f) {
            Option::None => {
                assert forall|i: int| 0 <= i < vs.len() implies is_trivia(vs[i]) by {
                    if i >= 1 {
                        assert(vs[i] == f[i - 1]);
                        assert(is_trivia(f[i - 1]));
                    }
                }
                assert(collection_is_ordered(vs));
            },
            Option::Some(ts1) => {
                let k1 = choose|k: int| run_stops_at(f, ts1, k);
                let rev0 = f.take(k1).reverse();
                let rev1 = vs.take(k1 + 1).reverse();
                assert(rev1.drop_last() =~= rev0);
                assert(rev1.last() == vs[0]);
                assert(comment_texts(rev1) == if is_comment(vs[0]) {
                    comment_texts(rev0).push(token_text(vs[0]))
                } else {
                    comment_texts(rev0)
                });
                let ts = if is_comment(vs[0]) {
                    ts1.push(token_text(vs[0]))
                } else {
                    ts1
                };
                assert(forall|i: int| 1 <= i < k1 + 1 ==> vs[i] == f[i - 1]);
                assert(vs[k1 + 1] == f[k1]);
                assert(run_stops_at(vs, ts, k1 + 1));
                assert(collect_back(vs) == Option::Some(ts));
                match collect_back(vs) {
                    Option::Some(ts2) => {
                        assert(ts2 == ts);
                        assert(run_stops_at(vs, ts2, k1 + 1));
                    },
                    Option::None => {
                        assert(false);
                    },
                }
                assert(collection_is_ordered(vs));
            },
        }
    }
}

/// Comment association is order-preserving: what it reads for the element at
/// `path` is the comment run immediately before that element, with the lines
/// in source order. (It is also deterministic: the association is a function
/// of the tree and the position alone.)
pub proof fn lemma_association_order(root: Shape, path: Seq<usize>)
    ensures
        collection_is_ordered(preceding(root, path)),
        collect_back(preceding(root, path)) matches Option::Some(ts) ==> associate_spec(root, path)
            == (if doc_is_empty(ts) {
            Result::<Seq<Seq<char>>, ExtractError>::Err(ExtractError::NoComment)
        } else {
            Result::<Seq<Seq<char>>, ExtractError>::Ok(doc_lines(ts))
        }),
{
    lemma_collect_back_order(preceding(root, path));
}

// ---------------------------------------------------------------------------
// Executable walk.
// ---------------------------------------------------------------------------

/// The element at a valid position.
pub fn elem_at<'a>(root: &'a Elem, path: &Vec<usize>) -> (r: &'a Elem)
    requires
        valid_path(root@, path@),
    ensures
        r@ == shape_at(root@, path@),
{
    let mut e: &Elem = root;
    let mut i: usize = 0;
    proof {
        assert(path@.skip(0) =~= path@);
    }
    while i < path.len()
        invariant
            0 <= i <= path@.len(),
            valid_path(e@, path@.skip(i as int)),
            shape_at(root@, path@) == shape_at(e@, path@.skip(i as int)),
        decreases path@.len() - i,
    {
        proof {
            assert(path@.skip(i as int)[0] == path@[i as int]);
            assert(path@.skip(i as int).drop_first() =~= path@.skip(i + 1));
        }
        e = child(e, path[i]);
        i = i + 1;
    }
    proof {
        assert(path@.skip(path@.len() as int) =~= Seq::<usize>::empty());
    }
    e
}

pub fn copy_path(path: &Vec<usize>) -> (r: Vec<usize>)
    ensures
        r@ == path@,
{
    let mut out: Vec<usize> = Vec::new();
    let mut i: usize = 0;
    while i < path.len()
        invariant
            0 <= i <= path@.len(),
            out@ == path@.take(i as int),
        decreases path@.len() - i,
    {
        out.push(path[i]);
        proof {
            assert(out@ =~= path@.take(i + 1));
        }
        i = i + 1;
    }
    proof {
        assert(path@.take(path@.len() as int) =~= path@);
    }
    out
}

/// One executable backward step over the path. Returns false when the walk
/// has run off the root.
fn step_back_exec(cur: &mut Vec<usize>) -> (stepped: bool)
    ensures
        match step_back(old(cur)@) {
            Option::None => !stepped,
            Option::Some(q) => stepped && final(cur)@ == q,
        },
{
    loop
        invariant
            step_back(cur@) == step_back(old(cur)@),
        decreases cur@.len(),
    {
        if cur.len() == 0 {
            return false;
        }
        let last = cur[cur.len() - 1];
        if last > 0 {
            let n = cur.len();
            cur.set(n - 1, last - 1);
            return true;
        }
        let ghost before = cur@;
        cur.pop();
        proof {
            assert(cur@ =~= before.drop_last());
        }
    }
}

spec fn collect_with(root: Shape, p: Seq<usize>, acc: Seq<Seq<char>>) -> Option<Seq<Seq<char>>> {
    match collect_back(preceding(root, p)) {
        Option::None => Option::None,
        Option::Some(r) => Option::Some(r + acc),
    }
}

/// Walks backward (and upward across node boundaries) from the element at
/// `path`, collecting the contiguous run of comments immediately before it,
/// and normalizes them into description lines.
pub fn find_comment(root: &Elem, path: &Vec<usize>) -> (r: Result<Vec<String>, ExtractError>)
    requires
        valid_path(root@, path@),
    ensures
        match r {
            Result::Ok(lines) => associate_spec(root@, path@) == Result::<
                Seq<Seq<char>>,
                ExtractError,
            >::Ok(lines.deep_view()),
            Result::Err(e) => associate_spec(root@, path@) == Result::<
                Seq<Seq<char>>,
                ExtractError,
            >::Err(e),
        },
{
    let ghost whole = preceding(root@, path@);
    let mut cur: Vec<usize> = copy_path(path);
    // Comment texts, nearest first.
    let mut texts: Vec<String> = Vec::new();
    proof {
        match collect_back(whole) {
            Option::Some(r) => {
                assert(texts.deep_view().reverse() =~= Seq::<Seq<char>>::empty());
                assert(r + Seq::<Seq<char>>::empty() =~= r);
            },
            Option::None => {},
        }
    }
    loop
        invariant_except_break
            collect_with(root@, cur@, texts.deep_view().reverse()) == collect_back(whole),
        invariant
            valid_path(root@, cur@),
            whole == preceding(root@, path@),
        ensures
            collect_back(whole) == Option::Some(texts.deep_view().reverse()),
        decreases preceding(root@, cur@).len(),
    {
        let ghost cur0 = cur@;
        let ghost acc0 = texts.deep_view().reverse();
        proof {
            lemma_step_back(root@, cur0);
        }
        let stepped = step_back_exec(&mut cur);
        if !stepped {
            // Ran off the root: the declaration has nothing before it.
            proof {
                assert(collect_back(preceding(root@, cur0)) is None);
            }
            return Result::Err(ExtractError::NoComment);
        }
        let e = elem_at(root, &cur);
        let ghost v = shape_at(root@, cur@);
        proof {
            assert(v == preceding(root@, cur0)[0]);
            assert(preceding(root@, cur@) == preceding(root@, cur0).drop_first());
        }
        if elem_is_token_kind(e, TokenKind::Comment) {
            match e {
                Elem::Token { text, .. } => {
                    let ghost dv0 = texts.deep_view();
                    texts.push(text.clone());
                    proof {
                        let tx = token_text(v);
                        assert(texts.deep_view() =~= dv0.push(tx));
                        assert(texts.deep_view().reverse() =~= seq![tx] + acc0);
                        match collect_back(preceding(root@, cur@)) {
                            Option::Some(r) => {
                                assert(collect_back(preceding(root@, cur0)) == Option::Some(
                                    r.push(tx),
                                ));
                                assert(r.push(tx) + acc0 =~= r + (seq![tx] + acc0));
                            },
                            Option::None => {},
                        }
                    }
                },
                Elem::Node { .. } => {
                    proof {
                        assert(false);
                    }
                },
            }
        } else if elem_is_token_kind(e, TokenKind::Whitespace) {
            // Skip pure whitespace: the invariant carries over unchanged.
        } else {
            // First significant element: the run ends here.
            proof {
                assert(collect_back(preceding(root@, cur0)) == Option::Some(
                    Seq::<Seq<char>>::empty(),
                ));
                assert(Seq::<Seq<char>>::empty() + acc0 =~= acc0);
            }
            break;
        }
    }
    // The collected run, in source order, is texts reversed.
    if texts.len() == 0 {
        proof {
            assert(texts.deep_view().reverse().len() == 0);
        }
        return Result::Err(ExtractError::NoComment);
    }
    if texts.len() == 1 {
        let trimmed = trim_comment_text(texts[0].as_str());
        if trimmed.as_str().is_empty() {
            proof {
                assert(texts.deep_view().reverse()[0] == texts.deep_view()[0]);
            }
            return Result::Err(ExtractError::NoComment);
        }
        proof {
            assert(texts.deep_view().reverse()[0] == texts.deep_view()[0]);
            assert(!doc_is_empty(texts.deep_view().reverse()));
        }
    }
    let ghost run = texts.deep_view().reverse();
    let mut lines: Vec<String> = Vec::new();
    let n = texts.len();
    let mut k: usize = 0;
    while k < n
        invariant
            0 <= k <= n,
            n == texts@.len(),
            run == texts.deep_view().reverse(),
            run.len() == n,
            lines.deep_view() == doc_lines(run.take(k as int)),
        decreases n - k,
    {
        let t = &texts[n - 1 - k];
        proof {
            assert(run[k as int] == texts.deep_view()[n - 1 - k]);
        }
        let trimmed = trim_comment_text(t.as_str());
        let mut pieces = split_lines(trimmed.as_str());
        let ghost lines_before = lines.deep_view();
        lines.append(&mut pieces);
        proof {
            assert(run.take(k + 1).drop_last() =~= run.take(k as int));
            assert(run.take(k + 1).last() == run[k as int]);
            assert(lines.deep_view() =~~= lines_before + split_nl(trim_comment(run[k as int])));
        }
        k = k + 1;
    }
    proof {
        assert(run.take(run.len() as int) =~= run);
        assert(!doc_is_empty(run));
    }
    Result::Ok(lines)
}

} // verus!
