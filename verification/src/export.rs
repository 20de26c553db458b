//! The Markdown export: each paper under its title, its excerpts as the
//! same pairs that copying gives.
use vstd::prelude::*;

use crate::library::{papers_view, Paper, PaperModel};
use crate::text::{
    append, append_str, chars_of, find_from, find_s, slice, string_of, trim_end,
    trim_end_s, trim_s,
};

verus! {

/// `str::split` at every `"\n\n"`, from the left.
#[verifier::opaque]
pub open spec fn paragraphs_s(s: Seq<char>) -> Seq<Seq<char>>
    decreases s.len(),
{
    match find_s(s, "\n\n"@) {
        Some(i) => if 0 <= i && i + 2 <= s.len() {
            seq![s.take(i)] + paragraphs_s(s.skip(i + 2))
        } else {
            seq![s]
        },
        None => seq![s],
    }
}

/// The paragraphs, each without trailing white space and followed by a
/// blank line.
pub open spec fn paragraph_block(ps: Seq<Seq<char>>) -> Seq<char>
    decreases ps.len(),
{
    if ps.len() == 0 {
        seq![]
    } else {
        trim_end_s(ps[0]) + "\n\n"@ + paragraph_block(ps.drop_first())
    }
}

#[verifier::opaque]
/// One paper: its title; the window title when it differs from it; then,
/// when it has excerpts, a blank line and the paragraphs of `body`.
pub open spec fn paper_section(p: PaperModel, body: Seq<char>) -> Seq<char> {
    "\n## "@ + p.display_title + "\n"@ + match p.source_title {
        Some(src) => if trim_s(src) != p.display_title {
            "\n> 窗口标题："@ + src + "\n"@
        } else {
            seq![]
        },
        None => seq![],
    } + if p.excerpts.len() == 0 {
        seq![]
    } else {
        "\n"@ + paragraph_block(paragraphs_s(body))
    }
}

pub open spec fn sections(ps: Seq<PaperModel>, bodies: Seq<Seq<char>>) -> Seq<char>
    decreases ps.len(),
{
    if ps.len() == 0 {
        seq![]
    } else {
        sections(ps.drop_last(), bodies) + paper_section(ps.last(), bodies[ps.len() - 1])
    }
}

/// The document: a heading, then every paper in order.
pub open spec fn render_s(ps: Seq<PaperModel>, bodies: Seq<Seq<char>>) -> Seq<char> {
    "# 论文笔记库\n"@ + sections(ps, bodies)
}

fn push_paragraphs(out: &mut Vec<char>, body: &Vec<char>)
    ensures
        final(out)@ == old(out)@ + paragraph_block(paragraphs_s(body@)),
    decreases body.len(),
{
    let sep = chars_of("\n\n");
    proof {
        reveal_strlit("\n\n");
        reveal(paragraphs_s);
    }
    match find_from(body, &sep, 0) {
        Some(i) => {
            let head = slice(body, 0, i);
            let rest = slice(body, i + 2, body.len());
            let ghost o0 = out@;
            append(out, &trim_end(&head));
            append_str(out, "\n\n");
            proof {
                assert(head@ =~= body@.take(i as int));
                assert(rest@ =~= body@.skip(i + 2));
                assert(paragraphs_s(body@) =~= seq![body@.take(i as int)] + paragraphs_s(
                    body@.skip(i + 2),
                ));
                assert((seq![body@.take(i as int)] + paragraphs_s(body@.skip(i + 2))).drop_first()
                    =~= paragraphs_s(body@.skip(i + 2)));
            }
            let ghost mid = out@;
            push_paragraphs(out, &rest);
            proof {
                let ps = paragraphs_s(body@);
                assert(ps.len() > 0);
                assert(ps[0] == head@);
                assert(paragraph_block(ps) == trim_end_s(ps[0]) + "\n\n"@ + paragraph_block(
                    ps.drop_first(),
                ));
                assert(mid == o0 + trim_end_s(head@) + "\n\n"@);
                assert(out@ =~= o0 + paragraph_block(paragraphs_s(body@)));
            }
        },
        None => {
            let ghost o0 = out@;
            append(out, &trim_end(body));
            append_str(out, "\n\n");
            proof {
                let ps = seq![body@];
                assert(paragraphs_s(body@) =~= ps);
                assert(ps.drop_first() =~= Seq::<Seq<char>>::empty());
                assert(paragraph_block(ps.drop_first()) == Seq::<char>::empty());
                assert(paragraph_block(ps) == trim_end_s(ps[0]) + "\n\n"@ + paragraph_block(
                    ps.drop_first(),
                ));
                assert(out@ =~= o0 + paragraph_block(paragraphs_s(body@)));
            }
        },
    }
}

fn push_section(out: &mut Vec<char>, p: &Paper, body: &String)
    ensures
        final(out)@ == old(out)@ + paper_section(p@, body@),
{
    proof {
        reveal(paper_section);
    }
    let ghost before = out@;
    append_str(out, "\n## ");
    append_str(out, p.display_title.as_str());
    append_str(out, "\n");
    let ghost mid = out@;
    match &p.source_title {
        Some(src) => {
            let st = chars_of(src.as_str());
            if !crate::text::eq_chars(&crate::text::trim(&st), &chars_of(p.display_title.as_str())) {
                append_str(out, "\n> 窗口标题：");
                append_str(out, src.as_str());
                append_str(out, "\n");
            }
        },
        None => {},
    }
    let ghost mid2 = out@;
    proof {
        reveal_strlit("");
        assert(mid2 =~= mid + match p@.source_title {
            Some(src) => if trim_s(src) != p@.display_title {
                "\n> 窗口标题："@ + src + "\n"@
            } else {
                seq![]
            },
            None => seq![],
        });
    }
    if p.excerpts.len() > 0 {
        append_str(out, "\n");
        push_paragraphs(out, &chars_of(body.as_str()));
    }
    proof {
        assert(p@.excerpts.len() == p.excerpts.len());
        assert(out@ =~= before + paper_section(p@, body@));
    }
}

/// The Markdown of the library: `bodies[i]` is the copied text of the
/// excerpts of `papers[i]`.
pub fn render_markdown(papers: &Vec<Paper>, bodies: &Vec<String>) -> (r: String)
    requires
        bodies.len() == papers.len(),
    ensures
        r@ == render_s(papers_view(papers@), crate::store::sviews(bodies@)),
{
    let ghost pv = papers_view(papers@);
    let ghost bv = crate::store::sviews(bodies@);
    let mut out = chars_of("# 论文笔记库\n");
    let ghost o0 = out@;
    let mut i: usize = 0;
    proof {
        assert(pv.take(0) =~= Seq::<PaperModel>::empty());
        assert(out@ =~= o0 + sections(pv.take(0), bv));
    }
    while i < papers.len()
        invariant
            0 <= i <= papers.len(),
            bodies.len() == papers.len(),
            pv == papers_view(papers@),
            pv.len() == papers.len(),
            bv == crate::store::sviews(bodies@),
            bv.len() == bodies.len(),
            o0 == "# 论文笔记库\n"@,
            out@ == o0 + sections(pv.take(i as int), bv),
        decreases papers.len() - i,
    {
        let ghost before = out@;
        push_section(&mut out, &papers[i], &bodies[i]);
        proof {
            assert(pv.take(i + 1).drop_last() =~= pv.take(i as int));
            assert(pv.take(i + 1).last() == papers@[i as int]@);
            assert(bv[i as int] == bodies@[i as int]@);
            assert(out@ =~= o0 + sections(pv.take(i + 1), bv));
        }
        i = i + 1;
    }
    proof {
        assert(pv.take(papers.len() as int) =~= pv);
    }
    string_of(&out)
}

/// An export with no note at all is refused.
pub fn check_exportable(n_notes: usize) -> (r: Result<(), String>)
    ensures
        r is Ok <==> n_notes > 0,
        r matches Err(e) ==> e@ == "没有可导出的笔记"@,
{
    if n_notes == 0 {
        Err(string_of(&chars_of("没有可导出的笔记")))
    } else {
        Ok(())
    }
}

} // verus!
