//! From a program back to its text.

use crate::names::lemma_lookup_skip;
use crate::parser::{
    exprs_view, lemma_exprs_view, Comment, Expr, Program, Ref, SpecExpr, SpecRef,
};
use crate::semantics::comment_body;
use crate::text::{decimal_string, decimal_text, lines, lines_of, same_text, texts};
use vstd::prelude::*;

verus! {

/// The text of a reference: the name of a variable, or `#` and the name of
/// a comment.
pub open spec fn ref_text(r: SpecRef) -> Seq<char> {
    match r {
        SpecRef::CommentRef(name) => "#"@ + name,
        SpecRef::VarRef(name) => name,
    }
}

/// Each of `lines` behind `// `, on a line of its own.
pub open spec fn marked_lines(lines: Seq<Seq<char>>) -> Seq<char>
    decreases lines.len(),
{
    if lines.len() == 0 {
        Seq::empty()
    } else if lines.len() == 1 {
        "// "@ + lines[0]
    } else {
        marked_lines(lines.drop_last()) + "\n"@ + "// "@ + lines.last()
    }
}

/// The lines that a comment is written in: for a comment with a name a
/// first line of `#` and the name, and then the lines of its body.
pub open spec fn comment_lines(name: Option<Seq<char>>, body: Seq<char>) -> Seq<Seq<char>> {
    match name {
        Some(name) => seq!["#"@ + name] + lines(body),
        None => lines(body),
    }
}

/// The texts of `items` with `,` between two of them.
pub open spec fn args_text(items: Seq<SpecExpr>, comments: Seq<(Seq<char>, Seq<char>)>) -> Seq<
    char,
>
    decreases items, 0nat,
{
    if items.len() == 0 {
        Seq::empty()
    } else if items.len() == 1 {
        expr_text(items[0], comments)
    } else {
        args_text(items.drop_last(), comments) + ","@ + expr_text(items.last(), comments)
    }
}

/// The texts of `items`, each with a line feed behind it.
pub open spec fn block_text(items: Seq<SpecExpr>, comments: Seq<(Seq<char>, Seq<char>)>) -> Seq<
    char,
>
    decreases items, 0nat,
{
    if items.len() == 0 {
        Seq::empty()
    } else {
        block_text(items.drop_last(), comments) + expr_text(items.last(), comments) + "\n"@
    }
}

/// The text of an expression. A comment is written in its
/// [`comment_lines`], with the body that `comments` has for its name, or
/// else with its own.
pub open spec fn expr_text(expr: SpecExpr, comments: Seq<(Seq<char>, Seq<char>)>) -> Seq<char>
    decreases expr, 1nat,
{
    match expr {
        SpecExpr::Block(items) => block_text(items, comments),
        SpecExpr::Ref(r) => ref_text(r),
        SpecExpr::Comment(comment) => marked_lines(
            comment_lines(comment.name, comment_body(comment.name, comment.body, comments)),
        ),
        SpecExpr::Assignment { target, value } => "let "@ + ref_text(target) + " = "@ + expr_text(
            *value,
            comments,
        ),
        SpecExpr::IntLiteral(n) => decimal_text(n),
        SpecExpr::FunctionCall { target, args } => ref_text(target) + "("@ + args_text(
            args,
            comments,
        ) + ")"@,
        SpecExpr::While { cond, body } => "while ("@ + expr_text(*cond, comments) + ") {\n"@
            + block_text(body, comments) + "\n}"@,
        SpecExpr::If { cond, body } => "if ("@ + expr_text(*cond, comments) + ") {\n"@
            + block_text(body, comments) + "\n}"@,
    }
}

/// The names and bodies that the pairs stand for.
pub open spec fn pairs_view(pairs: Seq<(String, String)>) -> Seq<(Seq<char>, Seq<char>)> {
    Seq::new(pairs.len(), |i: int| (pairs[i].0@, pairs[i].1@))
}

/// The text of `program` with the bodies that its comments were parsed
/// with.
pub fn assemble_program(program: &Program) -> (assembled: String)
    ensures
        assembled@ == block_text(program@, Seq::empty()),
{
    let comments: Vec<(String, String)> = Vec::new();
    assert(pairs_view(comments@) =~= Seq::<(Seq<char>, Seq<char>)>::empty());
    assemble_program_with(program, &comments)
}

/// The text of `program` with the bodies that `comments` gives for the
/// names of its comments. Where `comments` holds a name twice, the first
/// pair counts.
pub fn assemble_program_with(program: &Program, comments: &Vec<(String, String)>) -> (assembled:
    String)
    ensures
        assembled@ == block_text(program@, pairs_view(comments@)),
{
    let mut assembled = String::new();
    assemble_block(&mut assembled, &program.block.0, comments);
    assembled
}

fn present_body<'a>(comment: &'a Comment, comments: &'a Vec<(String, String)>) -> (body: &'a str)
    ensures
        body@ == comment_body(comment@.name, comment@.body, pairs_view(comments@)),
{
    match &comment.name {
        Some(name) => {
            let ghost pairs = pairs_view(comments@);
            let mut i: usize = 0;
            while i < comments.len()
                invariant
                    i <= comments.len(),
                    pairs == pairs_view(comments@),
                    comment@.name == Some(name@),
                    forall|j: int| 0 <= j < i ==> (#[trigger] pairs[j]).0 != name@,
                decreases comments.len() - i,
            {
                if same_text(comments[i].0.as_str(), name.as_str()) {
                    proof {
                        lemma_lookup_skip(pairs, name@, i as int);
                        assert(pairs.skip(i as int)[0] == pairs[i as int]);
                    }
                    return comments[i].1.as_str();
                }
                i += 1;
            }
            proof {
                lemma_lookup_skip(pairs, name@, i as int);
                assert(pairs.skip(i as int) =~= Seq::<(Seq<char>, Seq<char>)>::empty());
            }
            comment.body.as_str()
        },
        None => comment.body.as_str(),
    }
}

fn assemble_block(assembled: &mut String, items: &Vec<Expr>, comments: &Vec<(String, String)>)
    ensures
        final(assembled)@ == old(assembled)@ + block_text(
            exprs_view(items@),
            pairs_view(comments@),
        ),
    decreases items, 0int,
{
    let ghost models = exprs_view(items@);
    let ghost pairs = pairs_view(comments@);
    let mut i: usize = 0;
    proof {
        lemma_exprs_view(items@);
        assert(assembled@ =~= old(assembled)@ + block_text(models.take(0), pairs));
    }
    while i < items.len()
        invariant
            i <= items.len(),
            models == exprs_view(items@),
            pairs == pairs_view(comments@),
            models.len() == items.len(),
            forall|j: int| 0 <= j < items.len() ==> #[trigger] models[j] == items@[j]@,
            assembled@ == old(assembled)@ + block_text(models.take(i as int), pairs),
        decreases items.len() - i,
    {
        let ghost before = assembled@;
        assemble_expr(assembled, &items[i], comments);
        assembled.append("\n");
        i += 1;
        proof {
            assert(models.take(i as int).drop_last() =~= models.take(i - 1));
            assert(models.take(i as int).last() == items@[i - 1]@);
            assert(assembled@ =~= old(assembled)@ + block_text(models.take(i as int), pairs));
        }
    }
    assert(models.take(i as int) =~= models);
}

fn assemble_args(assembled: &mut String, items: &Vec<Expr>, comments: &Vec<(String, String)>)
    ensures
        final(assembled)@ == old(assembled)@ + args_text(
            exprs_view(items@),
            pairs_view(comments@),
        ),
    decreases items, 0int,
{
    let ghost models = exprs_view(items@);
    let ghost pairs = pairs_view(comments@);
    let mut i: usize = 0;
    proof {
        lemma_exprs_view(items@);
        assert(assembled@ =~= old(assembled)@ + args_text(models.take(0), pairs));
    }
    while i < items.len()
        invariant
            i <= items.len(),
            models == exprs_view(items@),
            pairs == pairs_view(comments@),
            models.len() == items.len(),
            forall|j: int| 0 <= j < items.len() ==> #[trigger] models[j] == items@[j]@,
            assembled@ == old(assembled)@ + args_text(models.take(i as int), pairs),
        decreases items.len() - i,
    {
        if i > 0 {
            assembled.append(",");
        }
        assemble_expr(assembled, &items[i], comments);
        i += 1;
        proof {
            assert(models.take(i as int).drop_last() =~= models.take(i - 1));
            assert(models.take(i as int).last() == items@[i - 1]@);
            if i == 1 {
                assert(models.take(1)[0] == items@[0]@);
            }
            assert(assembled@ =~= old(assembled)@ + args_text(models.take(i as int), pairs));
        }
    }
    assert(models.take(i as int) =~= models);
}

fn assemble_comment(assembled: &mut String, name: &Option<String>, body: &str)
    ensures
        final(assembled)@ == old(assembled)@ + marked_lines(
            comment_lines(
                match name {
                    Some(name) => Some(name@),
                    None => None,
                },
                body@,
            ),
        ),
{
    let ghost goal = comment_lines(
        match name {
            Some(name) => Some(name@),
            None => None,
        },
        body@,
    );
    let mut found: Vec<String> = Vec::new();
    match name {
        Some(name) => {
            let mut first = "#".to_owned();
            first.append(name.as_str());
            found.push(first);
            assert(texts(found@) =~= seq!["#"@ + name@]);
        },
        None => {
            assert(texts(found@) =~= Seq::<Seq<char>>::empty());
        },
    }
    let ghost head = texts(found@);
    let mut below = lines_of(body);
    let ghost body_lines = texts(below@);
    found.append(&mut below);
    let ghost all = texts(found@);
    assert(all =~= head + body_lines);
    assert(all =~= goal);
    let mut i: usize = 0;
    assert(assembled@ =~= old(assembled)@ + marked_lines(all.take(0)));
    while i < found.len()
        invariant
            i <= found.len(),
            all == texts(found@),
            all == goal,
            assembled@ == old(assembled)@ + marked_lines(all.take(i as int)),
        decreases found.len() - i,
    {
        if i > 0 {
            assembled.append("\n");
        }
        assembled.append("// ");
        assembled.append(found[i].as_str());
        i += 1;
        proof {
            assert(all.take(i as int).drop_last() =~= all.take(i - 1));
            assert(all.take(i as int).last() == found@[i - 1]@);
            if i == 1 {
                assert(all.take(1)[0] == found@[0]@);
            }
            assert(assembled@ =~= old(assembled)@ + marked_lines(all.take(i as int)));
        }
    }
    assert(all.take(i as int) =~= all);
}

fn assemble_expr(assembled: &mut String, expr: &Expr, comments: &Vec<(String, String)>)
    ensures
        final(assembled)@ == old(assembled)@ + expr_text(expr@, pairs_view(comments@)),
    decreases expr, 1int,
{
    let ghost start = assembled@;
    let ghost pairs = pairs_view(comments@);
    match expr {
        Expr::Block(block) => {
            assemble_block(assembled, &block.0, comments);
        },
        Expr::Comment(comment) => {
            assemble_comment(assembled, &comment.name, present_body(comment, comments));
        },
        Expr::Assignment(assignment) => {
            assembled.append("let ");
            assemble_ref(&assignment.target, assembled);
            assembled.append(" = ");
            assemble_expr(assembled, &assignment.value, comments);
            assert(assembled@ =~= start + expr_text(expr@, pairs));
        },
        Expr::IntLiteral(n) => {
            assembled.append(decimal_string(*n).as_str());
        },
        Expr::Ref(r) => {
            assemble_ref(r, assembled);
        },
        Expr::FunctionCall(call) => {
            assemble_ref(&call.target, assembled);
            assembled.append("(");
            assemble_args(assembled, &call.args, comments);
            assembled.append(")");
            assert(assembled@ =~= start + expr_text(expr@, pairs));
        },
        Expr::While(w) => {
            assembled.append("while (");
            assemble_expr(assembled, &w.cond, comments);
            assembled.append(") {\n");
            assemble_block(assembled, &w.body.0, comments);
            assembled.append("\n}");
            assert(assembled@ =~= start + expr_text(expr@, pairs));
        },
        Expr::If(i) => {
            assembled.append("if (");
            assemble_expr(assembled, &i.cond, comments);
            assembled.append(") {\n");
            assemble_block(assembled, &i.body.0, comments);
            assembled.append("\n}");
            assert(assembled@ =~= start + expr_text(expr@, pairs));
        },
    }
}

fn assemble_ref(r: &Ref, assembled: &mut String)
    ensures
        final(assembled)@ == old(assembled)@ + ref_text(r@),
{
    match r {
        Ref::CommentRef(s) => {
            assembled.append("#");
            assembled.append(s.as_str());
            assert(assembled@ =~= old(assembled)@ + ref_text(r@));
        },
        Ref::VarRef(s) => {
            assembled.append(s.as_str());
        },
    }
}

} // verus!
