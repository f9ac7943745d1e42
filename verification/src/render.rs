use vstd::prelude::*;

use crate::classify::{class_view, ClassShape, ValueClass};
use crate::error::ExtractError;
use crate::extract::{extract, extract_spec, rec_view, recs_view, RecShape, RenderRecord};
use crate::tree::{join_space, join_space_exec, Elem};

verus! {

/// The three presentation modes. They consume the same record stream; no
/// extraction logic differs between them.
#[derive(Clone, Copy, PartialEq, Eq, Structural, Debug)]
pub enum RenderMode {
    /// One markdown table row per entry, annotation appended to the cell.
    TableSplit,
    /// One row per entry, annotation appended to the description lines first.
    TableInline,
    /// One heading block per entry, with a code block for shown defaults.
    Sections,
}

/// The default annotation of a classification, if any. Only plain and wrapped
/// defaults carry one; an absent default and a plain value never do.
pub open spec fn annotation_of(c: ClassShape) -> Option<Seq<char>> {
    match c {
        ClassShape::PlainDefault(p) => Option::Some("Default: `"@ + p + "`"@),
        ClassShape::WrappedDefault(p) => Option::Some(
            "The argument must be a function modifying the default value. <br/> Default: `"@ + p
                + "`"@,
        ),
        _ => Option::None,
    }
}

/// The fenced code block of the sections mode, if any: only the
/// field-with-default shapes show their rendered default text.
pub open spec fn code_of(c: ClassShape) -> Option<Seq<char>> {
    match c {
        ClassShape::PlainDefault(p) => Option::Some("```\n"@ + p + "\n```\n"@),
        ClassShape::AbsentDefault(p) => Option::Some("```\n"@ + p + "\n```\n"@),
        _ => Option::None,
    }
}

pub open spec fn row_split(r: RecShape) -> Seq<char> {
    "| `"@ + r.name + "` | "@ + join_space(r.lines) + (match annotation_of(r.class) {
        Option::Some(a) => " "@ + a,
        Option::None => Seq::empty(),
    }) + " |\n"@
}

pub open spec fn row_inline(r: RecShape) -> Seq<char> {
    "| `"@ + r.name + "` | "@ + join_space(
        r.lines + (match annotation_of(r.class) {
            Option::Some(a) => seq![a],
            Option::None => Seq::empty(),
        }),
    ) + " |\n"@
}

/// Each line of the description, kept verbatim, one per output line.
pub open spec fn cat_lines(ls: Seq<Seq<char>>) -> Seq<char>
    decreases ls.len(),
{
    if ls.len() == 0 {
        Seq::empty()
    } else {
        cat_lines(ls.drop_last()) + ls.last() + "\n"@
    }
}

pub open spec fn section_block(r: RecShape) -> Seq<char> {
    "# `"@ + r.name + "`\n"@ + cat_lines(r.lines) + (match code_of(r.class) {
        Option::Some(cb) => cb,
        Option::None => Seq::empty(),
    }) + "\n"@
}

pub open spec fn record_output(r: RecShape, mode: RenderMode) -> Seq<char> {
    match mode {
        RenderMode::TableSplit => row_split(r),
        RenderMode::TableInline => row_inline(r),
        RenderMode::Sections => section_block(r),
    }
}

pub open spec fn header_of(mode: RenderMode) -> Seq<char> {
    match mode {
        RenderMode::TableSplit => "| Attribute | Description |\n| - | - |\n"@,
        RenderMode::TableInline => "| Attribute | Description |\n| - | - |\n"@,
        RenderMode::Sections => Seq::empty(),
    }
}

pub open spec fn records_output(rs: Seq<RecShape>, mode: RenderMode) -> Seq<char>
    decreases rs.len(),
{
    if rs.len() == 0 {
        Seq::empty()
    } else {
        records_output(rs.drop_last(), mode) + record_output(rs.last(), mode)
    }
}

/// The full rendering: the mode's header, then one block per record, in
/// order.
pub open spec fn render_spec(rs: Seq<RecShape>, mode: RenderMode) -> Seq<char> {
    header_of(mode) + records_output(rs, mode)
}

// ---------------------------------------------------------------------------
// Laws of the renderer.
// ---------------------------------------------------------------------------

/// An absent default and a plain value never produce a default annotation, in
/// any render mode; a plain or wrapped default always does.
pub proof fn lemma_annotation_by_class(c: ClassShape)
    ensures
        (c is NoDefault || c is AbsentDefault || c is BareLambda) ==> annotation_of(c) is None,
        (c is PlainDefault || c is WrappedDefault) ==> annotation_of(c) is Some,
{
}

/// The sections mode shows a code block exactly for the field-with-default
/// shapes: never for a wrapped default or a bare function.
pub proof fn lemma_code_block_by_class(c: ClassShape)
    ensures
        (c is PlainDefault || c is AbsentDefault) <==> code_of(c) is Some,
{
}

// ---------------------------------------------------------------------------
// Executable rendering.
// ---------------------------------------------------------------------------

fn annotation_exec(c: &ValueClass) -> (r: Option<String>)
    ensures
        match r {
            Option::Some(s) => annotation_of(class_view(*c)) == Option::Some(s@),
            Option::None => annotation_of(class_view(*c)) is None,
        },
{
    match c {
        ValueClass::PlainDefault(p) => {
            let mut s = String::new();
            s.append("Default: `");
            s.append(p.as_str());
            s.append("`");
            Option::Some(s)
        },
        ValueClass::WrappedDefault(p) => {
            let mut s = String::new();
            s.append("The argument must be a function modifying the default value. <br/> Default: `");
            s.append(p.as_str());
            s.append("`");
            Option::Some(s)
        },
        _ => Option::None,
    }
}

fn code_exec(c: &ValueClass) -> (r: Option<String>)
    ensures
        match r {
            Option::Some(s) => code_of(class_view(*c)) == Option::Some(s@),
            Option::None => code_of(class_view(*c)) is None,
        },
{
    match c {
        ValueClass::PlainDefault(p) => {
            let mut s = String::new();
            s.append("```\n");
            s.append(p.as_str());
            s.append("\n```\n");
            Option::Some(s)
        },
        ValueClass::AbsentDefault(p) => {
            let mut s = String::new();
            s.append("```\n");
            s.append(p.as_str());
            s.append("\n```\n");
            Option::Some(s)
        },
        _ => Option::None,
    }
}

fn copy_strings(v: &Vec<String>) -> (r: Vec<String>)
    ensures
        r.deep_view() == v.deep_view(),
{
    let mut out: Vec<String> = Vec::new();
    let mut i: usize = 0;
    while i < v.len()
        invariant
            0 <= i <= v@.len(),
            out.deep_view() =~= v.deep_view().take(i as int),
        decreases v@.len() - i,
    {
        let ghost before = out.deep_view();
        out.push(v[i].clone());
        proof {
            assert(out.deep_view() =~= before.push(v.deep_view()[i as int]));
            assert(out.deep_view() =~= v.deep_view().take(i + 1));
        }
        i = i + 1;
    }
    proof {
        assert(v.deep_view().take(v.deep_view().len() as int) =~= v.deep_view());
        assert(v.deep_view().len() == v@.len());
    }
    out
}

fn render_record(r: &RenderRecord, mode: RenderMode) -> (out: String)
    ensures
        out@ == record_output(rec_view(*r), mode),
{
    match mode {
        RenderMode::TableSplit => {
            let mut s = String::new();
            s.append("| `");
            s.append(r.name.as_str());
            s.append("` | ");
            let cell = join_space_exec(&r.description_lines);
            s.append(cell.as_str());
            match annotation_exec(&r.classification) {
                Option::Some(a) => {
                    s.append(" ");
                    s.append(a.as_str());
                },
                Option::None => {},
            }
            s.append(" |\n");
            proof {
                assert(s@ =~= row_split(rec_view(*r)));
            }
            s
        },
        RenderMode::TableInline => {
            let mut lines = copy_strings(&r.description_lines);
            match annotation_exec(&r.classification) {
                Option::Some(a) => {
                    let ghost before = lines.deep_view();
                    lines.push(a);
                    proof {
                        assert(lines.deep_view() =~= before.push(
                            annotation_of(class_view(r.classification)).unwrap(),
                        ));
                        assert(lines.deep_view() =~= rec_view(*r).lines + seq![
                            annotation_of(class_view(r.classification)).unwrap(),
                        ]);
                    }
                },
                Option::None => {
                    proof {
                        assert(lines.deep_view() =~= rec_view(*r).lines + Seq::<Seq<char>>::empty());
                    }
                },
            }
            let mut s = String::new();
            s.append("| `");
            s.append(r.name.as_str());
            s.append("` | ");
            let cell = join_space_exec(&lines);
            s.append(cell.as_str());
            s.append(" |\n");
            proof {
                assert(s@ =~= row_inline(rec_view(*r)));
            }
            s
        },
        RenderMode::Sections => {
            let mut s = String::new();
            s.append("# `");
            s.append(r.name.as_str());
            s.append("`\n");
            let n = r.description_lines.len();
            let mut i: usize = 0;
            let ghost head = s@;
            while i < n
                invariant
                    0 <= i <= n,
                    n == r.description_lines@.len(),
                    r.description_lines.deep_view().len() == n,
                    s@ == head + cat_lines(r.description_lines.deep_view().take(i as int)),
                decreases n - i,
            {
                s.append(r.description_lines[i].as_str());
                s.append("\n");
                proof {
                    let dv = r.description_lines.deep_view();
                    assert(dv.take(i + 1).drop_last() =~= dv.take(i as int));
                    assert(dv.take(i + 1).last() == dv[i as int]);
                    assert(dv[i as int] == r.description_lines@[i as int]@);
                    assert(s@ =~= head + cat_lines(dv.take(i + 1)));
                }
                i = i + 1;
            }
            proof {
                let dv = r.description_lines.deep_view();
                assert(dv.take(dv.len() as int) =~= dv);
            }
            match code_exec(&r.classification) {
                Option::Some(cb) => {
                    s.append(cb.as_str());
                },
                Option::None => {},
            }
            s.append("\n");
            proof {
                assert(s@ =~= section_block(rec_view(*r)));
            }
            s
        },
    }
}

/// Renders the record stream in the chosen mode.
pub fn render(records: &Vec<RenderRecord>, mode: RenderMode) -> (out: String)
    ensures
        out@ == render_spec(recs_view(records@), mode),
{
    let mut s = String::new();
    match mode {
        RenderMode::TableSplit => s.append("| Attribute | Description |\n| - | - |\n"),
        RenderMode::TableInline => s.append("| Attribute | Description |\n| - | - |\n"),
        RenderMode::Sections => {},
    }
    let mut i: usize = 0;
    let ghost rv = recs_view(records@);
    proof {
        assert(rv.len() == records@.len());
        assert(s@ =~= header_of(mode) + records_output(rv.take(0), mode));
    }
    while i < records.len()
        invariant
            0 <= i <= records@.len(),
            rv == recs_view(records@),
            rv.len() == records@.len(),
            s@ == header_of(mode) + records_output(rv.take(i as int), mode),
        decreases records@.len() - i,
    {
        let block = render_record(&records[i], mode);
        s.append(block.as_str());
        proof {
            assert(rv.take(i + 1).drop_last() =~= rv.take(i as int));
            assert(rv.take(i + 1).last() == rv[i as int]);
            assert(rv[i as int] == rec_view(records@[i as int]));
            assert(s@ =~= header_of(mode) + records_output(rv.take(i + 1), mode));
        }
        i = i + 1;
    }
    proof {
        assert(rv.take(rv.len() as int) =~= rv);
    }
    s
}

/// The whole pipeline over an already-parsed tree: locate the record of
/// defaulted options under the marker binding, read every field's name,
/// description and classification, and render them in the chosen mode. Any
/// failure aborts the run with no partial output.
pub fn extract_docs(root: &Elem, marker: &str, wrap: &str, absent: &str, mode: RenderMode) -> (r:
    Result<String, ExtractError>)
    ensures
        match r {
            Result::Ok(s) => extract_spec(root@, marker@, wrap@, absent@) matches Result::Ok(rs)
                && s@ == render_spec(rs, mode),
            Result::Err(e) => extract_spec(root@, marker@, wrap@, absent@) == Result::<
                Seq<RecShape>,
                ExtractError,
            >::Err(e),
        },
{
    match extract(root, marker, wrap, absent) {
        Result::Ok(recs) => Result::Ok(render(&recs, mode)),
        Result::Err(e) => Result::Err(e),
    }
}

} // verus!
