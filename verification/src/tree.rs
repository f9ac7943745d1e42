use vstd::prelude::*;

verus! {

/// Kinds of interior nodes that the extractor distinguishes. Everything the
/// pipeline does not need to tell apart is `Other`.
#[derive(Clone, Copy, PartialEq, Eq, Structural, Debug)]
pub enum NodeKind {
    Root,
    Lambda,
    LetIn,
    AttrSet,
    KeyValue,
    Key,
    Ident,
    Apply,
    OrDefault,
    Other,
}

/// Kinds of leaf tokens. Comments and whitespace are trivia; every
/// significant token is `Other`.
#[derive(Clone, Copy, PartialEq, Eq, Structural, Debug)]
pub enum TokenKind {
    Comment,
    Whitespace,
    Other,
}

/// An element of the concrete syntax tree: an interior node with ordered
/// children, or a leaf token carrying its source text verbatim. The tree owns
/// its children; positions inside it are paths of child indices.
#[derive(Debug)]
#[allow(inconsistent_fields)]
pub enum Elem {
    Node { kind: NodeKind, children: Vec<Elem> },
    Token { kind: TokenKind, text: String },
}

/// The mathematical model of an element: the same tree with ghost sequences
/// for child lists and texts.
#[allow(inconsistent_fields)]
pub enum Shape {
    Node { kind: NodeKind, children: Seq<Shape> },
    Token { kind: TokenKind, text: Seq<char> },
}

pub open spec fn shape_of(e: Elem) -> Shape
    decreases e,
{
    match e {
        Elem::Token { kind, text } => Shape::Token { kind, text: text@ },
        Elem::Node { kind, children } => Shape::Node { kind, children: shapes_of(children@) },
    }
}

pub open spec fn shapes_of(cs: Seq<Elem>) -> Seq<Shape>
    decreases cs,
{
    if cs.len() == 0 {
        Seq::empty()
    } else {
        shapes_of(cs.drop_last()).push(shape_of(cs.last()))
    }
}

impl View for Elem {
    type V = Shape;

    open spec fn view(&self) -> Shape {
        shape_of(*self)
    }
}

pub broadcast proof fn lemma_shapes_of(cs: Seq<Elem>)
    ensures
        (#[trigger] shapes_of(cs)).len() == cs.len(),
        forall|i: int| 0 <= i < cs.len() ==> shapes_of(cs)[i] == shape_of(cs[i]),
    decreases cs,
{
    if cs.len() > 0 {
        lemma_shapes_of(cs.drop_last());
        assert forall|i: int| 0 <= i < cs.len() implies shapes_of(cs)[i] == shape_of(cs[i]) by {
            if i < cs.len() - 1 {
                assert(cs.drop_last()[i] == cs[i]);
            }
        }
    }
}

pub open spec fn children_of(s: Shape) -> Seq<Shape> {
    match s {
        Shape::Node { children, .. } => children,
        Shape::Token { .. } => Seq::empty(),
    }
}

pub open spec fn is_node(s: Shape) -> bool {
    s is Node
}

pub open spec fn is_node_kind(s: Shape, k: NodeKind) -> bool {
    match s {
        Shape::Node { kind, .. } => kind == k,
        Shape::Token { .. } => false,
    }
}

pub open spec fn token_is(s: Shape, k: TokenKind) -> bool {
    match s {
        Shape::Token { kind, .. } => kind == k,
        Shape::Node { .. } => false,
    }
}

pub open spec fn is_whitespace(s: Shape) -> bool {
    token_is(s, TokenKind::Whitespace)
}

pub open spec fn is_comment(s: Shape) -> bool {
    token_is(s, TokenKind::Comment)
}

/// Trivia carries no structural meaning: whitespace and comments.
pub open spec fn is_trivia(s: Shape) -> bool {
    is_whitespace(s) || is_comment(s)
}

pub open spec fn token_text(s: Shape) -> Seq<char> {
    match s {
        Shape::Token { text, .. } => text,
        Shape::Node { .. } => Seq::empty(),
    }
}

// ---------------------------------------------------------------------------
// Verbatim and whitespace-normalized source text of a subtree.
// ---------------------------------------------------------------------------

/// The verbatim source text of a subtree: the concatenation of all of its
/// token texts, trivia included.
pub open spec fn text_of(s: Shape) -> Seq<char>
    decreases s,
{
    match s {
        Shape::Token { text, .. } => text,
        Shape::Node { children, .. } => text_of_seq(children),
    }
}

pub open spec fn text_of_seq(cs: Seq<Shape>) -> Seq<char>
    decreases cs,
{
    if cs.len() == 0 {
        Seq::empty()
    } else {
        text_of_seq(cs.drop_last()) + text_of(cs.last())
    }
}

/// The texts of the significant (non-whitespace) tokens of a subtree, in
/// source order.
pub open spec fn sig_texts(s: Shape) -> Seq<Seq<char>>
    decreases s,
{
    match s {
        Shape::Token { kind, text } => if kind is Whitespace {
            Seq::empty()
        } else {
            seq![text]
        },
        Shape::Node { children, .. } => sig_texts_seq(children),
    }
}

pub open spec fn sig_texts_seq(cs: Seq<Shape>) -> Seq<Seq<char>>
    decreases cs,
{
    if cs.len() == 0 {
        Seq::empty()
    } else {
        sig_texts_seq(cs.drop_last()) + sig_texts(cs.last())
    }
}

pub open spec fn join_space(ts: Seq<Seq<char>>) -> Seq<char>
    decreases ts.len(),
{
    if ts.len() == 0 {
        Seq::empty()
    } else if ts.len() == 1 {
        ts[0]
    } else {
        join_space(ts.drop_last()) + seq![' '] + ts.last()
    }
}

/// The shown text of an expression: its significant tokens in source order,
/// whitespace-normalized at token boundaries (exactly one space between
/// consecutive tokens).
pub open spec fn shown_of(s: Shape) -> Seq<char> {
    join_space(sig_texts(s))
}

// ---------------------------------------------------------------------------
// Whitespace-stripping: the shape of a subtree with whitespace tokens gone.
// ---------------------------------------------------------------------------

/// The same tree with every whitespace token removed: what remains of an
/// expression when only its significant structure counts.
pub open spec fn strip(s: Shape) -> Shape
    decreases s,
{
    match s {
        Shape::Token { .. } => s,
        Shape::Node { kind, children } => Shape::Node { kind, children: strip_seq(children) },
    }
}

pub open spec fn strip_seq(cs: Seq<Shape>) -> Seq<Shape>
    decreases cs,
{
    if cs.len() == 0 {
        Seq::empty()
    } else if is_whitespace(cs.last()) {
        strip_seq(cs.drop_last())
    } else {
        strip_seq(cs.drop_last()).push(strip(cs.last()))
    }
}

/// Stripping whitespace tokens does not change the significant token texts.
pub proof fn lemma_strip_sig_texts(s: Shape)
    ensures
        sig_texts(strip(s)) == sig_texts(s),
    decreases s,
{
    match s {
        Shape::Token { .. } => {},
        Shape::Node { kind, children } => {
            lemma_strip_sig_texts_seq(children);
        },
    }
}

pub proof fn lemma_strip_sig_texts_seq(cs: Seq<Shape>)
    ensures
        sig_texts_seq(strip_seq(cs)) == sig_texts_seq(cs),
    decreases cs,
{
    if cs.len() > 0 {
        lemma_strip_sig_texts_seq(cs.drop_last());
        if is_whitespace(cs.last()) {
            assert(sig_texts(cs.last()) =~~= Seq::<Seq<char>>::empty());
            assert(sig_texts_seq(cs) =~~= sig_texts_seq(cs.drop_last()));
        } else {
            lemma_strip_sig_texts(cs.last());
            let ss = strip_seq(cs.drop_last()).push(strip(cs.last()));
            assert(ss.drop_last() =~= strip_seq(cs.drop_last()));
            assert(ss.last() == strip(cs.last()));
            assert(sig_texts_seq(strip_seq(cs)) =~~= sig_texts_seq(cs));
        }
    }
}

/// Stripping keeps the node children, each stripped, in order.
pub proof fn lemma_strip_node_filter(cs: Seq<Shape>)
    ensures
        node_filter(strip_seq(cs)).len() == node_filter(cs).len(),
        forall|i: int|
            0 <= i < node_filter(cs).len() ==> node_filter(strip_seq(cs))[i] == strip(
                node_filter(cs)[i],
            ),
    decreases cs,
{
    if cs.len() > 0 {
        lemma_strip_node_filter(cs.drop_last());
        if !is_whitespace(cs.last()) {
            let ss = strip_seq(cs.drop_last()).push(strip(cs.last()));
            assert(ss.drop_last() =~= strip_seq(cs.drop_last()));
            assert(ss.last() == strip(cs.last()));
        }
    }
}

/// The `n`-th node child of a stripped tree is the stripped `n`-th node child.
pub proof fn lemma_strip_node_child(s: Shape, n: int)
    ensures
        node_child(strip(s), n) == match node_child(s, n) {
            Option::Some(c) => Option::Some(strip(c)),
            Option::None => Option::None::<Shape>,
        },
{
    match s {
        Shape::Token { .. } => {},
        Shape::Node { kind, children } => {
            lemma_strip_node_filter(children);
        },
    }
}

// ---------------------------------------------------------------------------
// Round-trip fidelity: the verbatim text, whitespace tokens aside, carries
// exactly the significant token texts.
// ---------------------------------------------------------------------------

pub open spec fn concat_texts(ts: Seq<Seq<char>>) -> Seq<char>
    decreases ts.len(),
{
    if ts.len() == 0 {
        Seq::empty()
    } else {
        concat_texts(ts.drop_last()) + ts.last()
    }
}

pub proof fn lemma_strip_text_seq(cs: Seq<Shape>)
    ensures
        text_of_seq(strip_seq(cs)) == concat_texts(sig_texts_seq(cs)),
    decreases cs,
{
    if cs.len() > 0 {
        lemma_strip_text_seq(cs.drop_last());
        if is_whitespace(cs.last()) {
            assert(sig_texts(cs.last()) =~~= Seq::<Seq<char>>::empty());
            assert(sig_texts_seq(cs) =~~= sig_texts_seq(cs.drop_last()));
        } else {
            lemma_strip_text(cs.last());
            let ss = strip_seq(cs.drop_last()).push(strip(cs.last()));
            assert(ss.drop_last() =~= strip_seq(cs.drop_last()));
            assert(ss.last() == strip(cs.last()));
            lemma_concat_texts_add(sig_texts_seq(cs.drop_last()), sig_texts(cs.last()));
            assert(sig_texts_seq(cs) == sig_texts_seq(cs.drop_last()) + sig_texts(cs.last()));
        }
    }
}

/// Concatenation of texts distributes over appending runs of texts.
pub proof fn lemma_concat_texts_add(a: Seq<Seq<char>>, b: Seq<Seq<char>>)
    ensures
        concat_texts(a + b) == concat_texts(a) + concat_texts(b),
    decreases b.len(),
{
    if b.len() == 0 {
        assert(a + b =~= a);
        assert(concat_texts(a) + concat_texts(b) =~= concat_texts(a));
    } else {
        lemma_concat_texts_add(a, b.drop_last());
        assert((a + b).drop_last() =~= a + b.drop_last());
        assert((a + b).last() == b.last());
        assert(concat_texts(a) + concat_texts(b) =~= concat_texts(a) + concat_texts(b.drop_last())
            + b.last());
    }
}

/// Round-trip fidelity of the shown text: for a non-whitespace subtree, the
/// source text with whitespace tokens removed is exactly the concatenation of
/// the significant token texts, and the shown text joins those same texts
/// with single spaces. The shown payload of a classification thus equals the
/// original source substring, up to whitespace at token boundaries.
pub proof fn lemma_strip_text(s: Shape)
    requires
        !is_whitespace(s),
    ensures
        text_of(strip(s)) == concat_texts(sig_texts(s)),
        shown_of(s) == join_space(sig_texts(s)),
    decreases s,
{
    match s {
        Shape::Token { kind, text } => {
            let ts = seq![text];
            assert(ts.drop_last() =~= Seq::<Seq<char>>::empty());
            assert(concat_texts(ts.drop_last()) =~= Seq::<char>::empty());
            assert(concat_texts(ts) =~= text);
        },
        Shape::Node { kind, children } => {
            lemma_strip_text_seq(children);
        },
    }
}

// ---------------------------------------------------------------------------
// Node children: the subsequence of children that are interior nodes.
// ---------------------------------------------------------------------------

pub open spec fn node_filter(cs: Seq<Shape>) -> Seq<Shape>
    decreases cs,
{
    if cs.len() == 0 {
        Seq::empty()
    } else if is_node(cs.last()) {
        node_filter(cs.drop_last()).push(cs.last())
    } else {
        node_filter(cs.drop_last())
    }
}

pub open spec fn node_children(s: Shape) -> Seq<Shape> {
    node_filter(children_of(s))
}

/// The n-th child of `s` that is itself a node, if it exists.
pub open spec fn node_child(s: Shape, n: int) -> Option<Shape> {
    if 0 <= n < node_children(s).len() {
        Option::Some(node_children(s)[n])
    } else {
        Option::None
    }
}

/// `cs[j]` is the `n`-th node among the elements of `cs`.
pub open spec fn is_nth_node(cs: Seq<Shape>, n: int, j: int) -> bool {
    0 <= j < cs.len() && is_node(cs[j]) && node_filter(cs.take(j)).len() == n
}

pub proof fn lemma_node_filter_take_step(cs: Seq<Shape>, i: int)
    requires
        0 <= i < cs.len(),
    ensures
        node_filter(cs.take(i + 1)) == if is_node(cs[i]) {
            node_filter(cs.take(i)).push(cs[i])
        } else {
            node_filter(cs.take(i))
        },
{
    assert(cs.take(i + 1).drop_last() =~= cs.take(i));
    assert(cs.take(i + 1).last() == cs[i]);
}

/// Every element of the node subsequence is a node.
pub proof fn lemma_node_filter_nodes(cs: Seq<Shape>)
    ensures
        forall|i: int| 0 <= i < node_filter(cs).len() ==> is_node(#[trigger] node_filter(cs)[i]),
    decreases cs,
{
    if cs.len() > 0 {
        lemma_node_filter_nodes(cs.drop_last());
        assert forall|i: int| 0 <= i < node_filter(cs).len() implies is_node(
            node_filter(cs)[i],
        ) by {
            if i < node_filter(cs.drop_last()).len() {
                assert(node_filter(cs)[i] == node_filter(cs.drop_last())[i]);
            }
        }
    }
}

pub proof fn lemma_node_filter_prefix(cs: Seq<Shape>, k: int)
    requires
        0 <= k <= cs.len(),
    ensures
        node_filter(cs).len() >= node_filter(cs.take(k)).len(),
        forall|i: int|
            0 <= i < node_filter(cs.take(k)).len() ==> node_filter(cs)[i] == node_filter(
                cs.take(k),
            )[i],
    decreases cs.len() - k,
{
    if k == cs.len() {
        assert(cs.take(k) =~= cs);
    } else {
        lemma_node_filter_take_step(cs, k);
        lemma_node_filter_prefix(cs, k + 1);
    }
}

/// If `cs[j]` is the `n`-th node of `cs`, then the node subsequence has it at
/// position `n`.
pub proof fn lemma_nth_node_val(cs: Seq<Shape>, n: int, j: int)
    requires
        is_nth_node(cs, n, j),
    ensures
        n < node_filter(cs).len(),
        node_filter(cs)[n] == cs[j],
        0 <= n,
{
    lemma_node_filter_take_step(cs, j);
    lemma_node_filter_prefix(cs, j + 1);
    assert(node_filter(cs.take(j + 1))[n] == cs[j]);
}

// ---------------------------------------------------------------------------
// Executable accessors.
// ---------------------------------------------------------------------------

pub fn elem_is_node(e: &Elem) -> (b: bool)
    ensures
        b == is_node(e@),
{
    match e {
        Elem::Node { .. } => true,
        Elem::Token { .. } => false,
    }
}

pub fn elem_has_node_kind(e: &Elem, k: NodeKind) -> (b: bool)
    ensures
        b == is_node_kind(e@, k),
{
    match e {
        Elem::Node { kind, .. } => *kind == k,
        Elem::Token { .. } => false,
    }
}

pub fn elem_is_token_kind(e: &Elem, k: TokenKind) -> (b: bool)
    ensures
        b == token_is(e@, k),
{
    match e {
        Elem::Token { kind, .. } => *kind == k,
        Elem::Node { .. } => false,
    }
}

pub fn num_children(e: &Elem) -> (n: usize)
    ensures
        n == children_of(e@).len(),
{
    match e {
        Elem::Node { children, .. } => {
            proof {
                lemma_shapes_of(children@);
            }
            children.len()
        },
        Elem::Token { .. } => 0,
    }
}

/// The `j`-th child of a node, by real child index.
pub fn child(e: &Elem, j: usize) -> (r: &Elem)
    requires
        j < children_of(e@).len(),
    ensures
        r@ == children_of(e@)[j as int],
{
    match e {
        Elem::Node { children, .. } => {
            proof {
                lemma_shapes_of(children@);
            }
            &children[j]
        },
        Elem::Token { .. } => {
            proof {
                assert(false);
            }
            e
        },
    }
}

/// The real child index of the `n`-th node child of `e`, if it exists.
pub fn nth_node_idx(e: &Elem, n: usize) -> (r: Option<usize>)
    ensures
        match r {
            Option::Some(j) => is_nth_node(children_of(e@), n as int, j as int),
            Option::None => node_children(e@).len() <= n,
        },
{
    let ghost cs = children_of(e@);
    let cnt_children = num_children(e);
    let mut cnt: usize = 0;
    let mut j: usize = 0;
    while j < cnt_children
        invariant
            cs == children_of(e@),
            cnt_children == cs.len(),
            0 <= j <= cs.len(),
            cnt <= n,
            cnt == node_filter(cs.take(j as int)).len(),
        decreases cs.len() - j,
    {
        let c = child(e, j);
        proof {
            lemma_node_filter_take_step(cs, j as int);
        }
        if elem_is_node(c) {
            if cnt == n {
                return Option::Some(j);
            }
            cnt = cnt + 1;
        }
        j = j + 1;
    }
    proof {
        assert(cs.take(cs.len() as int) =~= cs);
    }
    Option::None
}

/// The `n`-th node child of `e` itself, if it exists.
pub fn nth_node_child(e: &Elem, n: usize) -> (r: Option<&Elem>)
    ensures
        match r {
            Option::Some(c) => node_child(e@, n as int) == Option::Some(c@),
            Option::None => node_child(e@, n as int) is None,
        },
{
    match nth_node_idx(e, n) {
        Option::Some(j) => {
            proof {
                lemma_nth_node_val(children_of(e@), n as int, j as int);
            }
            Option::Some(child(e, j))
        },
        Option::None => Option::None,
    }
}

// ---------------------------------------------------------------------------
// Executable rendering of shown text.
// ---------------------------------------------------------------------------

proof fn lemma_join_space_step(ts: Seq<Seq<char>>, i: int)
    requires
        0 <= i < ts.len(),
    ensures
        join_space(ts.take(i + 1)) == if i == 0 {
            ts[0]
        } else {
            join_space(ts.take(i)) + seq![' '] + ts[i]
        },
{
    assert(ts.take(i + 1).drop_last() =~= ts.take(i));
    assert(ts.take(i + 1).last() == ts[i]);
    if i == 0 {
        assert(ts.take(1)[0] == ts[0]);
    }
}

fn push_sig_texts(e: &Elem, out: &mut Vec<String>)
    ensures
        final(out).deep_view() == old(out).deep_view() + sig_texts(e@),
    decreases *e,
{
    match e {
        Elem::Token { kind, text } => {
            if *kind != TokenKind::Whitespace {
                out.push(text.clone());
                proof {
                    assert(out.deep_view() =~= old(out).deep_view() + sig_texts(e@));
                }
            } else {
                proof {
                    assert(out.deep_view() =~= old(out).deep_view() + sig_texts(e@));
                }
            }
        },
        Elem::Node { kind, children } => {
            proof {
                lemma_shapes_of(children@);
            }
            let ghost cs = children_of(e@);
            let mut i: usize = 0;
            while i < children.len()
                invariant
                    *e == (Elem::Node { kind: *kind, children: *children }),
                    cs == children_of(e@),
                    cs.len() == children@.len(),
                    forall|k: int| 0 <= k < cs.len() ==> cs[k] == shape_of(children@[k]),
                    0 <= i <= children.len(),
                    out.deep_view() == old(out).deep_view() + sig_texts_seq(cs.take(i as int)),
                decreases children.len() - i,
            {
                proof {
                    assert((*e)->children == *children);
                    assert(decreases_to!(*e => (*e)->children));
                    assert(decreases_to!((*e)->children => (*e)->children@));
                    assert(decreases_to!((*e)->children@ => (*e)->children@[i as int]));
                }
                push_sig_texts(&children[i], out);
                proof {
                    assert(cs.take(i + 1).drop_last() =~= cs.take(i as int));
                    assert(cs.take(i + 1).last() == cs[i as int]);
                }
                i = i + 1;
            }
            proof {
                assert(cs.take(cs.len() as int) =~= cs);
            }
        },
    }
}

pub fn join_space_exec(parts: &Vec<String>) -> (r: String)
    ensures
        r@ == join_space(parts.deep_view()),
{
    let mut acc = String::new();
    let mut i: usize = 0;
    while i < parts.len()
        invariant
            0 <= i <= parts@.len(),
            acc@ == join_space(parts.deep_view().take(i as int)),
            parts.deep_view().len() == parts@.len(),
        decreases parts@.len() - i,
    {
        if i > 0 {
            acc.append(" ");
        }
        acc.append(parts[i].as_str());
        proof {
            reveal_strlit(" ");
            lemma_join_space_step(parts.deep_view(), i as int);
            assert(parts.deep_view()[i as int] == parts@[i as int]@);
            assert(acc@ =~= join_space(parts.deep_view().take(i + 1)));
        }
        i = i + 1;
    }
    proof {
        assert(parts.deep_view().take(parts.deep_view().len() as int) =~= parts.deep_view());
    }
    acc
}

/// Renders the shown text of an expression: significant tokens in source
/// order, separated by single spaces.
pub fn shown_render(e: &Elem) -> (r: String)
    ensures
        r@ == shown_of(e@),
{
    let mut parts: Vec<String> = Vec::new();
    push_sig_texts(e, &mut parts);
    proof {
        assert(parts.deep_view() =~= sig_texts(e@));
    }
    join_space_exec(&parts)
}

} // verus!
