//! Reading back what was written: a program, written out and parsed
//! again, has the same value and the same comments, unless its comments
//! stand in the way.

use crate::grammar::{
    appended, arguments, assignment, at, comment, comment_string, continuation, decimal_value,
    expr,
    following_comment,
    function_call, identifier, integer, is_kind, items, lemma_decimal_value_grows, lemma_run_at,
    marked, more_arguments, more_items, named_comment, newline, program, reference, remaining,
    run, white, CharKind, SpecParseError,
};
use crate::parser::{expr_comments, seq_comments, SpecComment, SpecExpr, SpecRef};
use crate::reassemble::{args_text, block_text, expr_text, marked_lines, ref_text};
use crate::semantics::{eval, eval_all, eval_block, seed, seed_all, Outcomes, State};
use crate::value::SpecValue;
use crate::text::{decimal_digits, decimal_text, digit_char, lemma_first_line_feed_is, lines};
use vstd::prelude::*;

verus! {

/// A name as the grammar reads one: letters, digits and `_`, the first of
/// them no digit.
pub open spec fn is_name(name: Seq<char>) -> bool {
    &&& name.len() > 0
    &&& !is_kind(CharKind::Digit, name[0])
    &&& forall|k: int| 0 <= k < name.len() ==> is_kind(CharKind::Word, #[trigger] name[k])
}

/// A reference whose name is a name.
pub open spec fn written_ref(r: SpecRef) -> bool {
    match r {
        SpecRef::CommentRef(name) => is_name(name),
        SpecRef::VarRef(name) => is_name(name),
    }
}

/// An expression of the forms that the grammar gives: its names, those of
/// its comments too, are names, its integers are positive 128-bit integers,
/// it calls variables only, and it holds no block, loop or conditional.
pub open spec fn written(e: SpecExpr) -> bool
    decreases e,
{
    match e {
        SpecExpr::Ref(r) => written_ref(r),
        SpecExpr::Comment(c) => c.name matches Some(name) ==> is_name(name),
        SpecExpr::Assignment { target, value } => written_ref(target) && written(*value),
        SpecExpr::IntLiteral(n) => 1 <= n <= i128::MAX,
        SpecExpr::FunctionCall { target, args } => target is VarRef && written_ref(target)
            && (forall|k: int| 0 <= k < args.len() ==> written(#[trigger] args[k])),
        _ => false,
    }
}

/// Every one of `items` is [`written`].
pub open spec fn all_written(items: Seq<SpecExpr>) -> bool {
    forall|k: int| 0 <= k < items.len() ==> written(#[trigger] items[k])
}

proof fn lemma_all_written_front(first: SpecExpr, rest: Seq<SpecExpr>)
    requires
        written(first),
        all_written(rest),
    ensures
        all_written(seq![first] + rest),
{
    let all = seq![first] + rest;
    assert forall|k: int| 0 <= k < all.len() implies written(#[trigger] all[k]) by {
        if k > 0 {
            assert(all[k] == rest[k - 1]);
        }
    }
}

/// A line that a comment keeps when it is written and read: it is not
/// empty, it does not start with a blank, and no line ends within it.
pub open spec fn plain_line(body: Seq<char>) -> bool {
    &&& body.len() > 0
    &&& !is_kind(CharKind::Blank, body[0])
    &&& forall|k: int| 0 <= k < body.len() ==> is_kind(CharKind::LineText, #[trigger] body[k])
}

/// A body that a comment without a name keeps: a [`plain_line`] that does
/// not start like the name of a comment.
pub open spec fn one_line(body: Seq<char>) -> bool {
    &&& plain_line(body)
    &&& !(body[0] == '#' && body.len() > 1 && is_kind(CharKind::Word, body[1]) && !is_kind(
        CharKind::Digit,
        body[1],
    ))
}

/// An expression that writing and reading keep. Each of its comments
/// stands at the end of the expression. A comment without a name has a
/// body of [`one_line`]. A comment with a name has no body, or one that is
/// a [`plain_line`] and does not start with the marker. A comment with a
/// body stands only where a line ends behind the expression (`line_end`),
/// so not among the arguments of a call.
pub open spec fn retold(e: SpecExpr, line_end: bool) -> bool
    decreases e,
{
    match e {
        SpecExpr::Ref(_) => true,
        SpecExpr::Comment(c) => match c.name {
            None => line_end && one_line(c.body),
            Some(_) => c.body.len() == 0 || (line_end && plain_line(c.body) && !marked(c.body)),
        },
        SpecExpr::Assignment { target, value } => retold(*value, line_end),
        SpecExpr::IntLiteral(_) => true,
        SpecExpr::FunctionCall { target, args } => forall|k: int|
            0 <= k < args.len() ==> retold(#[trigger] args[k], false),
        _ => false,
    }
}

/// Every one of `items` is [`retold`].
pub open spec fn all_retold(items: Seq<SpecExpr>, line_end: bool) -> bool {
    forall|k: int| 0 <= k < items.len() ==> retold(#[trigger] items[k], line_end)
}

/// The expression ends with a comment.
pub open spec fn ends_in_comment(e: SpecExpr) -> bool
    decreases e,
{
    match e {
        SpecExpr::Comment(_) => true,
        SpecExpr::Assignment { target, value } => ends_in_comment(*value),
        _ => false,
    }
}

/// The expression ends with a line of the body of a comment.
pub open spec fn ends_in_body(e: SpecExpr) -> bool
    decreases e,
{
    match e {
        SpecExpr::Comment(c) => !(c.name is Some && c.body.len() == 0),
        SpecExpr::Assignment { target, value } => ends_in_body(*value),
        _ => false,
    }
}

/// The expression is a comment without a name.
pub open spec fn unnamed(e: SpecExpr) -> bool {
    e matches SpecExpr::Comment(c) && c.name is None
}

/// The body of a comment; nothing for another expression.
pub open spec fn body_of(e: SpecExpr) -> Seq<char> {
    match e {
        SpecExpr::Comment(c) => c.body,
        _ => Seq::empty(),
    }
}

/// A comment stands directly behind an expression that ends with a
/// comment only where both are comments without names: read back, the two
/// are one comment without a name.
pub open spec fn paired(items: Seq<SpecExpr>) -> bool {
    forall|k: int|
        0 <= k < items.len() - 1 && ends_in_comment(#[trigger] items[k]) && items[k + 1] is Comment
            ==> unnamed(items[k]) && unnamed(items[k + 1])
}

/// The block does not end with two comments without names: read back as
/// one, they would give the block another value.
pub open spec fn settled(items: Seq<SpecExpr>) -> bool {
    !(items.len() >= 2 && unnamed(items[items.len() - 1]) && unnamed(items[items.len() - 2]))
}

/// No comment stands directly behind an expression that ends with a
/// comment.
pub open spec fn apart(items: Seq<SpecExpr>) -> bool {
    forall|k: int|
        0 <= k < items.len() - 1 && ends_in_comment(#[trigger] items[k]) ==> !(items[k
            + 1] is Comment)
}

/// The block as it is read back from its text: comments without names
/// that follow each other directly are one comment, whose body is the
/// first body with the bodies below [`appended`].
pub open spec fn merged(items: Seq<SpecExpr>) -> Seq<SpecExpr>
    decreases items.len(),
{
    if items.len() == 0 {
        Seq::empty()
    } else {
        let below = merged(items.drop_first());
        if unnamed(items[0]) && below.len() > 0 && unnamed(below[0]) {
            seq![
                SpecExpr::Comment(
                    SpecComment {
                        name: None,
                        body: appended(body_of(items[0]), body_of(below[0])),
                    },
                ),
            ] + below.drop_first()
        } else {
            seq![items[0]] + below
        }
    }
}

/// The text `t` stands in `s` at `i`.
pub open spec fn stands(s: Seq<char>, i: int, t: Seq<char>) -> bool {
    0 <= i && i + t.len() <= s.len() && s.subrange(i, i + t.len()) == t
}

/// Nothing at `i` goes on with a name or a number, or makes a call of one.
pub open spec fn stops(s: Seq<char>, i: int) -> bool {
    match at(s, i) {
        Some(c) => !is_kind(CharKind::Word, c) && c != '(',
        None => true,
    }
}

/// What stands at `i` would make an assignment of a `let` before it: white
/// space, a reference, white space and `=`.
pub open spec fn goes_on_assigning(s: Seq<char>, i: int) -> bool {
    let target_at = i + white(s, i);
    &&& white(s, i) > 0
    &&& reference(s, target_at) matches Some((_, n))
    &&& white(s, target_at + n) > 0
    &&& at(s, target_at + n + white(s, target_at + n)) == Some('=')
}

/// No line ends at `i` with a comment on the next line.
pub open spec fn no_comment_follows(s: Seq<char>, i: int) -> bool {
    !(newline(s, i) > 0 && at(s, i + newline(s, i)) == Some('/') && at(s, i + newline(s, i) + 1)
        == Some('/'))
}

/// What stands at `i`, behind the text of `e`, lets `e` be read as it is.
pub open spec fn ends_well(s: Seq<char>, i: int, e: SpecExpr) -> bool {
    &&& stops(s, i)
    &&& !goes_on_assigning(s, i)
    &&& ends_in_comment(e) ==> no_comment_follows(s, i)
    &&& ends_in_body(e) ==> at(s, i) == Some('\n')
}

/// What an expression that is no comment can start with: a letter or `_`,
/// `#`, or a digit of 1 to 9.
pub open spec fn starts(c: char) -> bool {
    ||| is_kind(CharKind::Word, c) && c != '0'
    ||| c == '#'
}

proof fn lemma_identifier_name(s: Seq<char>, i: int)
    requires
        identifier(s, i) > 0,
    ensures
        0 <= i,
        i + identifier(s, i) <= s.len(),
        is_name(s.subrange(i, i + identifier(s, i))),
{
    let n = identifier(s, i);
    assert forall|k: int| i <= k < i + n implies 0 <= k < s.len() && is_kind(
        CharKind::Word,
        #[trigger] s[k],
    ) by {
        lemma_run_at(s, i, CharKind::Word, k);
    }
    assert(is_kind(CharKind::Word, s[i + n - 1]));
    let name = s.subrange(i, i + n);
    assert forall|k: int| 0 <= k < name.len() implies is_kind(
        CharKind::Word,
        #[trigger] name[k],
    ) by {
        assert(name[k] == s[i + k]);
    }
}

proof fn lemma_reference_written(s: Seq<char>, i: int)
    ensures
        reference(s, i) matches Some((r, n)) ==> written_ref(r) && n > 0,
{
    if identifier(s, i) > 0 {
        lemma_identifier_name(s, i);
    } else if at(s, i) == Some('#') && identifier(s, i + 1) > 0 {
        lemma_identifier_name(s, i + 1);
    }
}

proof fn lemma_integer_written(s: Seq<char>, i: int)
    ensures
        integer(s, i) matches Some((e, n)) ==> written(e) && n > 0,
{
    if integer(s, i) is Some {
        let n = run(s, i, CharKind::Digit);
        assert forall|k: int| i <= k < i + n implies 0 <= k < s.len() && is_kind(
            CharKind::Digit,
            #[trigger] s[k],
        ) by {
            lemma_run_at(s, i, CharKind::Digit, k);
        }
        assert(n >= 1);
        assert(is_kind(CharKind::Digit, s[i + n - 1]));
        lemma_decimal_value_grows(s, i, i + 1, i + n);
        let first = s.subrange(i, i + 1);
        assert(first.drop_last() =~= Seq::<char>::empty());
        assert(decimal_value(first.drop_last()) == 0);
        assert(first.last() == s[i]);
        assert(decimal_value(first) >= 1);
    }
}

proof fn lemma_comment_written(s: Seq<char>, i: int)
    ensures
        comment(s, i) matches Some((e, n)) ==> written(e) && n > 0,
{
    if named_comment(s, i) is Some {
        let hash = i + 2 + run(s, i + 2, CharKind::Blank);
        lemma_identifier_name(s, hash + 1);
    }
}

/// What the grammar reads as an expression is [`written`], and takes at
/// least one character.
pub proof fn lemma_expr_written(s: Seq<char>, i: int)
    ensures
        expr(s, i) matches Some((e, n)) ==> written(e) && n > 0,
    decreases remaining(s, i), 2nat,
{
    if comment(s, i) is Some {
        lemma_comment_written(s, i);
    } else if assignment(s, i) is Some {
        lemma_assignment_written(s, i);
    } else if integer(s, i) is Some {
        lemma_integer_written(s, i);
    } else if function_call(s, i) is Some {
        lemma_call_written(s, i);
    } else {
        lemma_reference_written(s, i);
    }
}

proof fn lemma_assignment_written(s: Seq<char>, i: int)
    ensures
        assignment(s, i) matches Some((e, n)) ==> written(e) && n > 0,
    decreases remaining(s, i), 1nat,
{
    let gap = white(s, i + 3);
    if at(s, i) == Some('l') && at(s, i + 1) == Some('e') && at(s, i + 2) == Some('t') && gap > 0 {
        lemma_reference_written(s, i + 3 + gap);
        match reference(s, i + 3 + gap) {
            Some((target, n)) => {
                let equals = i + 3 + gap + n + white(s, i + 3 + gap + n);
                let value_at = equals + 1 + white(s, equals + 1);
                if white(s, i + 3 + gap + n) > 0 && at(s, equals) == Some('=') && white(
                    s,
                    equals + 1,
                ) > 0 {
                    lemma_expr_written(s, value_at);
                }
            },
            None => {},
        }
    }
}

proof fn lemma_call_written(s: Seq<char>, i: int)
    ensures
        function_call(s, i) matches Some((e, n)) ==> written(e) && n > 0,
    decreases remaining(s, i), 1nat,
{
    let n = identifier(s, i);
    if n > 0 && at(s, i + n) == Some('(') {
        lemma_identifier_name(s, i);
        let first = i + n + 1 + white(s, i + n + 1);
        lemma_arguments_written(s, first);
    }
}

proof fn lemma_arguments_written(s: Seq<char>, i: int)
    ensures
        all_written(arguments(s, i).0),
    decreases remaining(s, i), 4nat,
{
    lemma_expr_written(s, i);
    match expr(s, i) {
        Some((first, n)) => {
            lemma_more_arguments_written(s, i + n);
            lemma_all_written_front(first, more_arguments(s, i + n).0);
        },
        None => {},
    }
}

proof fn lemma_more_arguments_written(s: Seq<char>, i: int)
    ensures
        all_written(more_arguments(s, i).0),
    decreases remaining(s, i), 3nat,
{
    let comma = i + white(s, i);
    let next = comma + 1 + white(s, comma + 1);
    if at(s, comma) == Some(',') {
        lemma_expr_written(s, next);
        match expr(s, next) {
            Some((arg, n)) => {
                lemma_more_arguments_written(s, next + n);
                lemma_all_written_front(arg, more_arguments(s, next + n).0);
            },
            None => {},
        }
    }
}

proof fn lemma_more_items_written(s: Seq<char>, i: int)
    ensures
        all_written(more_items(s, i).0),
    decreases remaining(s, i),
{
    let gap = white(s, i);
    if gap > 0 {
        lemma_expr_written(s, i + gap);
        match expr(s, i + gap) {
            Some((item, n)) => {
                lemma_more_items_written(s, i + gap + n);
                lemma_all_written_front(item, more_items(s, i + gap + n).0);
            },
            None => {},
        }
    }
}

/// Every expression of a program that the grammar reads is [`written`].
pub proof fn lemma_program_written(s: Seq<char>)
    ensures
        program(s) matches Ok(block) ==> all_written(block),
{
    let start = white(s, 0) as int;
    lemma_expr_written(s, start);
    match expr(s, start) {
        Some((first, n)) => {
            lemma_more_items_written(s, start + n);
            lemma_all_written_front(first, more_items(s, start + n).0);
        },
        None => {},
    }
}

/// The text of an expression with the bodies that its comments were
/// parsed with.
pub open spec fn plain_text(e: SpecExpr) -> Seq<char> {
    expr_text(e, Seq::empty())
}

/// A comma and the text of an expression, for each of `rest`.
pub open spec fn tail_text(rest: Seq<SpecExpr>) -> Seq<char>
    decreases rest.len(),
{
    if rest.len() == 0 {
        Seq::empty()
    } else {
        seq![','] + plain_text(rest[0]) + tail_text(rest.drop_first())
    }
}

/// The text of an expression and a line feed, for each of `rest`.
pub open spec fn lines_text(rest: Seq<SpecExpr>) -> Seq<char>
    decreases rest.len(),
{
    if rest.len() == 0 {
        Seq::empty()
    } else {
        plain_text(rest[0]) + seq!['\n'] + lines_text(rest.drop_first())
    }
}

proof fn lemma_tail_text_push(rest: Seq<SpecExpr>, last: SpecExpr)
    ensures
        tail_text(rest.push(last)) == tail_text(rest) + seq![','] + plain_text(last),
    decreases rest.len(),
{
    let all = rest.push(last);
    if rest.len() == 0 {
        assert(all.drop_first() =~= Seq::<SpecExpr>::empty());
        assert(tail_text(Seq::<SpecExpr>::empty()) =~= Seq::<char>::empty());
        assert(all[0] == last);
        assert(tail_text(all) =~= tail_text(rest) + seq![','] + plain_text(last));
    } else {
        lemma_tail_text_push(rest.drop_first(), last);
        assert(all.drop_first() =~= rest.drop_first().push(last));
        assert(tail_text(all) =~= tail_text(rest) + seq![','] + plain_text(last));
    }
}

proof fn lemma_args_text_front(items: Seq<SpecExpr>)
    requires
        items.len() > 0,
    ensures
        args_text(items, Seq::empty()) == plain_text(items[0]) + tail_text(items.drop_first()),
    decreases items.len(),
{
    reveal_strlit(",");
    assert(","@ =~= seq![',']);
    if items.len() == 1 {
        assert(items.drop_first() =~= Seq::<SpecExpr>::empty());
        assert(args_text(items, Seq::empty()) =~= plain_text(items[0]) + tail_text(
            items.drop_first(),
        ));
    } else {
        let before = items.drop_last();
        lemma_args_text_front(before);
        lemma_tail_text_push(before.drop_first(), items.last());
        assert(items.drop_first() =~= before.drop_first().push(items.last()));
        assert(args_text(items, Seq::empty()) =~= plain_text(items[0]) + tail_text(
            items.drop_first(),
        ));
    }
}

proof fn lemma_lines_text_push(rest: Seq<SpecExpr>, last: SpecExpr)
    ensures
        lines_text(rest.push(last)) == lines_text(rest) + plain_text(last) + seq!['\n'],
    decreases rest.len(),
{
    let all = rest.push(last);
    if rest.len() == 0 {
        assert(all.drop_first() =~= Seq::<SpecExpr>::empty());
        assert(lines_text(Seq::<SpecExpr>::empty()) =~= Seq::<char>::empty());
        assert(all[0] == last);
        assert(lines_text(all) =~= lines_text(rest) + plain_text(last) + seq!['\n']);
    } else {
        lemma_lines_text_push(rest.drop_first(), last);
        assert(all.drop_first() =~= rest.drop_first().push(last));
        assert(lines_text(all) =~= lines_text(rest) + plain_text(last) + seq!['\n']);
    }
}

proof fn lemma_block_text_front(items: Seq<SpecExpr>)
    ensures
        block_text(items, Seq::empty()) == lines_text(items),
    decreases items.len(),
{
    reveal_strlit("\n");
    assert("\n"@ =~= seq!['\n']);
    if items.len() > 0 {
        let before = items.drop_last();
        lemma_block_text_front(before);
        lemma_lines_text_push(before, items.last());
        assert(before.push(items.last()) =~= items);
    }
}

proof fn lemma_stands_split(s: Seq<char>, i: int, a: Seq<char>, b: Seq<char>)
    requires
        stands(s, i, a + b),
    ensures
        stands(s, i, a),
        stands(s, i + a.len(), b),
{
    let whole = s.subrange(i, i + (a + b).len());
    assert forall|k: int| 0 <= k < a.len() implies s.subrange(i, i + a.len())[k] == a[k] by {
        assert(whole[k] == s[i + k]);
        assert((a + b)[k] == a[k]);
    }
    assert(s.subrange(i, i + a.len()) =~= a);
    assert forall|k: int| 0 <= k < b.len() implies s.subrange(
        i + a.len(),
        i + a.len() + b.len(),
    )[k] == b[k] by {
        assert(whole[a.len() + k] == s[i + a.len() + k]);
        assert((a + b)[a.len() + k] == b[k]);
    }
    assert(s.subrange(i + a.len(), i + a.len() + b.len()) =~= b);
}

proof fn lemma_stands_char(s: Seq<char>, i: int, t: Seq<char>, k: int)
    requires
        stands(s, i, t),
        0 <= k < t.len(),
    ensures
        at(s, i + k) == Some(t[k]),
{
    assert(s.subrange(i, i + t.len())[k] == s[i + k]);
}

proof fn lemma_run_exact(s: Seq<char>, i: int, n: nat, kind: CharKind)
    requires
        0 <= i,
        i + n <= s.len(),
        forall|k: int| i <= k < i + n ==> is_kind(kind, #[trigger] s[k]),
        at(s, i + n) matches Some(c) ==> !is_kind(kind, c),
    ensures
        run(s, i, kind) == n,
    decreases n,
{
    if n > 0 {
        lemma_run_exact(s, i + 1, (n - 1) as nat, kind);
    }
}

/// A name that stands in the text, and behind which the word ends, is
/// read as the identifier that it is.
proof fn lemma_name_read(s: Seq<char>, i: int, name: Seq<char>)
    requires
        is_name(name),
        stands(s, i, name),
        at(s, i + name.len()) matches Some(c) ==> !is_kind(CharKind::Word, c),
    ensures
        identifier(s, i) == name.len(),
        s.subrange(i, i + name.len()) == name,
{
    assert forall|k: int| i <= k < i + name.len() implies is_kind(
        CharKind::Word,
        #[trigger] s[k],
    ) by {
        lemma_stands_char(s, i, name, k - i);
        assert(is_kind(CharKind::Word, name[k - i]));
    }
    lemma_stands_char(s, i, name, 0);
    lemma_run_exact(s, i, name.len(), CharKind::Word);
}

proof fn lemma_ref_read(s: Seq<char>, i: int, r: SpecRef)
    requires
        written_ref(r),
        stands(s, i, ref_text(r)),
        at(s, i + ref_text(r).len()) matches Some(c) ==> !is_kind(CharKind::Word, c),
    ensures
        reference(s, i) == Some((r, ref_text(r).len())),
        ref_text(r).len() > 0,
        starts(ref_text(r)[0]),
{
    reveal_strlit("#");
    match r {
        SpecRef::VarRef(name) => {
            lemma_name_read(s, i, name);
        },
        SpecRef::CommentRef(name) => {
            assert("#"@ =~= seq!['#']);
            lemma_stands_split(s, i, "#"@, name);
            lemma_stands_char(s, i, "#"@, 0);
            lemma_name_read(s, i + 1, name);
        },
    }
}

/// The numeral of a number: digits that write the number, the first of
/// them no zero unless the number is zero.
pub proof fn lemma_decimal_digits(n: nat)
    ensures
        decimal_digits(n).len() > 0,
        forall|k: int|
            0 <= k < decimal_digits(n).len() ==> is_kind(
                CharKind::Digit,
                #[trigger] decimal_digits(n)[k],
            ),
        decimal_value(decimal_digits(n)) == n,
        n > 0 ==> decimal_digits(n)[0] != '0',
    decreases n,
{
    let digits = decimal_digits(n);
    if n < 10 {
        assert(digits =~= seq![digit_char(n as int)]);
        assert(digits.drop_last() =~= Seq::<char>::empty());
        assert(digits.last() == digit_char(n as int));
        assert(decimal_value(digits.drop_last()) == 0);
    } else {
        lemma_decimal_digits(n / 10);
        let before = decimal_digits(n / 10);
        assert(digits.drop_last() =~= before);
        assert(digits.last() == digit_char((n % 10) as int));
        assert forall|k: int| 0 <= k < digits.len() implies is_kind(
            CharKind::Digit,
            #[trigger] digits[k],
        ) by {
            if k < before.len() {
                assert(digits[k] == before[k]);
            }
        }
        assert(digits[0] == before[0]);
    }
}

proof fn lemma_white_none(s: Seq<char>, i: int)
    requires
        at(s, i) matches Some(c) ==> c != ' ' && c != '\t' && c != '\n' && c != '\r',
    ensures
        white(s, i) == 0,
{
}

proof fn lemma_white_one(s: Seq<char>, i: int)
    requires
        at(s, i) == Some(' ') || at(s, i) == Some('\n'),
        at(s, i + 1) matches Some(c) ==> c != ' ' && c != '\t' && c != '\n' && c != '\r',
    ensures
        white(s, i) == 1,
{
    lemma_white_none(s, i + 1);
}

/// Where no expression can start, none is read.
proof fn lemma_no_expr(s: Seq<char>, i: int)
    requires
        at(s, i) matches Some(c) ==> !starts(c) && c != '/',
    ensures
        expr(s, i) is None,
{
}

/// The text of a comment without a name and with a body of one line: the
/// marker, a space and the body.
pub open spec fn line_text(body: Seq<char>) -> Seq<char> {
    seq!['/', '/', ' '] + body
}

/// The text of a comment with a name: the marker, a space, `#` and the
/// name, and where it has a body of one line, that line below.
pub open spec fn named_text(name: Seq<char>, body: Seq<char>) -> Seq<char> {
    if body.len() == 0 {
        seq!['/', '/', ' ', '#'] + name
    } else {
        seq!['/', '/', ' ', '#'] + name + seq!['\n'] + line_text(body)
    }
}

/// A comment that is retold is written as [`line_text`] or
/// [`named_text`] say.
proof fn lemma_comment_text(name: Option<Seq<char>>, body: Seq<char>, line_end: bool)
    requires
        retold(SpecExpr::Comment(SpecComment { name, body }), line_end),
    ensures
        plain_text(SpecExpr::Comment(SpecComment { name, body })) == match name {
            None => line_text(body),
            Some(name) => named_text(name, body),
        },
{
    reveal_strlit("// ");
    reveal_strlit("#");
    reveal_strlit("\n");
    assert("// "@ =~= seq!['/', '/', ' ']);
    assert("#"@ =~= seq!['#']);
    assert("\n"@ =~= seq!['\n']);
    if body.len() > 0 {
        lemma_first_line_feed_is(body, body.len() as int);
        assert(lines(body) =~= seq![body]);
    } else {
        assert(lines(body) =~= Seq::<Seq<char>>::empty());
    }
    match name {
        None => {
            assert(marked_lines(seq![body]) =~= "// "@ + body);
        },
        Some(name) => {
            let first = "#"@ + name;
            assert(marked_lines(seq![first]) =~= seq!['/', '/', ' ', '#'] + name);
            if body.len() > 0 {
                let both = seq![first] + seq![body];
                assert(both.drop_last() =~= seq![first]);
                assert(both.last() == body);
                assert(marked_lines(both) =~= named_text(name, body));
            } else {
                assert(seq![first] + Seq::<Seq<char>>::empty() =~= seq![first]);
            }
        },
    }
}

/// The text of an expression that is written and retold starts as an
/// expression does, and with no white space.
proof fn lemma_text_starts(e: SpecExpr, line_end: bool)
    requires
        written(e),
        retold(e, line_end),
    ensures
        plain_text(e).len() > 0,
        e is Comment ==> plain_text(e)[0] == '/',
        !(e is Comment) ==> starts(plain_text(e)[0]),
        plain_text(e)[0] != ' ' && plain_text(e)[0] != '\t' && plain_text(e)[0] != '\n'
            && plain_text(e)[0] != '\r' && plain_text(e)[0] != '=',
{
    reveal_strlit("#");
    reveal_strlit("let ");
    match e {
        SpecExpr::Ref(r) => {},
        SpecExpr::Comment(c) => {
            lemma_comment_text(c.name, c.body, line_end);
        },
        SpecExpr::IntLiteral(n) => {
            lemma_decimal_digits(n as nat);
        },
        SpecExpr::Assignment { target, value } => {},
        SpecExpr::FunctionCall { target, args } => {},
        _ => {},
    }
}

/// A name that stands in the text does not start an assignment, unless
/// what stands behind it goes on with one.
proof fn lemma_no_assignment(s: Seq<char>, i: int, name: Seq<char>)
    requires
        is_name(name),
        stands(s, i, name),
        at(s, i + name.len()) matches Some(c) ==> !is_kind(CharKind::Word, c),
        !goes_on_assigning(s, i + name.len()),
    ensures
        assignment(s, i) is None,
{
    if at(s, i) == Some('l') && at(s, i + 1) == Some('e') && at(s, i + 2) == Some('t') {
        if name.len() >= 4 {
            lemma_stands_char(s, i, name, 3);
            assert(is_kind(CharKind::Word, name[3]));
            lemma_white_none(s, i + 3);
        } else {
            // a shorter name would end before the `t`, where a letter stands
            assert(name.len() == 3);
            let gap = white(s, i + 3);
            if gap > 0 {
                match reference(s, i + 3 + gap) {
                    Some((target, n)) => {
                        let equals = i + 3 + gap + n + white(s, i + 3 + gap + n);
                        assert(!(white(s, i + 3 + gap + n) > 0 && at(s, equals) == Some('=')));
                    },
                    None => {},
                }
            }
        }
    }
}

/// A reference that stands in the text is read as an expression.
proof fn lemma_ref_expr_read(s: Seq<char>, i: int, r: SpecRef)
    requires
        written_ref(r),
        stands(s, i, ref_text(r)),
        stops(s, i + ref_text(r).len()),
        !goes_on_assigning(s, i + ref_text(r).len()),
    ensures
        expr(s, i) == Some((SpecExpr::Ref(r), ref_text(r).len())),
{
    lemma_ref_read(s, i, r);
    lemma_stands_char(s, i, ref_text(r), 0);
    assert(comment(s, i) is None);
    match r {
        SpecRef::VarRef(name) => {
            lemma_name_read(s, i, name);
            lemma_no_assignment(s, i, name);
        },
        SpecRef::CommentRef(name) => {},
    }
    assert(assignment(s, i) is None);
    assert(integer(s, i) is None);
    assert(function_call(s, i) is None);
}

/// A numeral that stands in the text is read as the integer it writes.
proof fn lemma_integer_read(s: Seq<char>, i: int, n: int)
    requires
        1 <= n <= i128::MAX,
        stands(s, i, decimal_text(n)),
        stops(s, i + decimal_text(n).len()),
    ensures
        expr(s, i) == Some((SpecExpr::IntLiteral(n), decimal_text(n).len())),
{
    let digits = decimal_digits(n as nat);
    lemma_decimal_digits(n as nat);
    assert(decimal_text(n) == digits);
    lemma_stands_char(s, i, digits, 0);
    assert forall|k: int| i <= k < i + digits.len() implies is_kind(
        CharKind::Digit,
        #[trigger] s[k],
    ) by {
        lemma_stands_char(s, i, digits, k - i);
        assert(is_kind(CharKind::Digit, digits[k - i]));
    }
    lemma_run_exact(s, i, digits.len(), CharKind::Digit);
    assert(comment(s, i) is None);
    assert(assignment(s, i) is None);
    assert(integer(s, i) == Some((SpecExpr::IntLiteral(n), digits.len())));
}

/// The parts of a comment line as they stand in the text.
proof fn lemma_line_parts(s: Seq<char>, i: int, body: Seq<char>)
    requires
        plain_line(body),
        stands(s, i, line_text(body)),
        at(s, i + 3 + body.len()) == Some('\n'),
    ensures
        at(s, i) == Some('/'),
        at(s, i + 1) == Some('/'),
        run(s, i + 2, CharKind::Blank) == 1,
        run(s, i + 3, CharKind::LineText) == body.len(),
        s.subrange(i + 3, i + 3 + body.len()) == body,
        newline(s, i + 3 + body.len()) == 1,
        at(s, i + 3) == Some(body[0]),
        body.len() > 1 ==> at(s, i + 4) == Some(body[1]),
        body.len() == 1 ==> at(s, i + 4) == Some('\n'),
{
    let marker = seq!['/', '/', ' '];
    lemma_stands_split(s, i, marker, body);
    lemma_stands_char(s, i, marker, 0);
    lemma_stands_char(s, i, marker, 1);
    lemma_stands_char(s, i, marker, 2);
    lemma_stands_char(s, i + 3, body, 0);
    assert(run(s, i + 3, CharKind::Blank) == 0);
    assert(run(s, i + 2, CharKind::Blank) == 1);
    if body.len() > 1 {
        lemma_stands_char(s, i + 3, body, 1);
    }
    assert forall|k: int| i + 3 <= k < i + 3 + body.len() implies is_kind(
        CharKind::LineText,
        #[trigger] s[k],
    ) by {
        lemma_stands_char(s, i + 3, body, k - (i + 3));
        assert(is_kind(CharKind::LineText, body[k - (i + 3)]));
    }
    lemma_run_exact(s, i + 3, body.len(), CharKind::LineText);
}

/// A comment line that stands in the text, behind which the line ends and
/// no comment follows, is read as the text of a comment.
proof fn lemma_line_read(s: Seq<char>, i: int, body: Seq<char>)
    requires
        plain_line(body),
        stands(s, i, line_text(body)),
        at(s, i + 3 + body.len()) == Some('\n'),
        no_comment_follows(s, i + 3 + body.len()),
    ensures
        comment_string(s, i) == Some((body, (3 + body.len()) as nat)),
        at(s, i) == Some('/'),
        at(s, i + 1) == Some('/'),
        run(s, i + 2, CharKind::Blank) == 1,
        at(s, i + 3) == Some(body[0]),
        body.len() > 1 ==> at(s, i + 4) == Some(body[1]),
        body.len() == 1 ==> at(s, i + 4) == Some('\n'),
{
    lemma_line_parts(s, i, body);
    let end = i + 3 + body.len();
    assert(comment_string(s, end + 1) is None);
    assert(following_comment(s, end) is None);
}

/// A comment line that stands in the text, with the text of a comment on
/// the lines below it, is read as the text of both.
proof fn lemma_line_then(s: Seq<char>, i: int, body: Seq<char>, below: Seq<char>, m: nat)
    requires
        plain_line(body),
        stands(s, i, line_text(body)),
        at(s, i + 3 + body.len()) == Some('\n'),
        comment_string(s, i + 4 + body.len()) == Some((below, m)),
    ensures
        comment_string(s, i) == Some((appended(body, below), (4 + body.len() + m) as nat)),
{
    lemma_line_parts(s, i, body);
    let end = i + 3 + body.len();
    assert(following_comment(s, end) == Some((below, (1 + m) as nat)));
}

/// No name is read where a comment without a name stands.
proof fn lemma_no_name_read(s: Seq<char>, i: int, body: Seq<char>)
    requires
        one_line(body),
        stands(s, i, line_text(body)),
        at(s, i + 3 + body.len()) == Some('\n'),
    ensures
        named_comment(s, i) is None,
{
    lemma_line_parts(s, i, body);
    assert(!(at(s, i + 3) == Some('#') && identifier(s, i + 4) > 0));
}

/// A comment without a name that stands in the text, behind which the
/// line ends and no comment follows, is read as what it is.
proof fn lemma_comment_read(s: Seq<char>, i: int, body: Seq<char>)
    requires
        one_line(body),
        stands(s, i, line_text(body)),
        at(s, i + 3 + body.len()) == Some('\n'),
        no_comment_follows(s, i + 3 + body.len()),
    ensures
        expr(s, i) == Some(
            (SpecExpr::Comment(SpecComment { name: None, body }), (3 + body.len()) as nat),
        ),
{
    lemma_line_read(s, i, body);
    assert(!(at(s, i + 3) == Some('#') && identifier(s, i + 4) > 0));
    assert(named_comment(s, i) is None);
}

/// A comment with a name that stands in the text, behind which no comment
/// follows, is read as what it is.
proof fn lemma_named_read(s: Seq<char>, i: int, name: Seq<char>, body: Seq<char>)
    requires
        is_name(name),
        body.len() == 0 || (plain_line(body) && !marked(body)),
        stands(s, i, named_text(name, body)),
        stops(s, i + named_text(name, body).len()),
        no_comment_follows(s, i + named_text(name, body).len()),
        body.len() > 0 ==> at(s, i + named_text(name, body).len()) == Some('\n'),
    ensures
        expr(s, i) == Some(
            (
                SpecExpr::Comment(SpecComment { name: Some(name), body }),
                named_text(name, body).len(),
            ),
        ),
{
    let marker = seq!['/', '/', ' ', '#'];
    let name_end = i + 4 + name.len();
    if body.len() == 0 {
        lemma_stands_split(s, i, marker, name);
    } else {
        lemma_stands_split(s, i, marker + name + seq!['\n'], line_text(body));
        lemma_stands_split(s, i, marker + name, seq!['\n']);
        lemma_stands_split(s, i, marker, name);
        lemma_stands_char(s, name_end, seq!['\n'], 0);
        lemma_line_read(s, name_end + 1, body);
        assert(following_comment(s, name_end) == Some((body, (4 + body.len()) as nat)));
    }
    lemma_stands_char(s, i, marker, 0);
    lemma_stands_char(s, i, marker, 1);
    lemma_stands_char(s, i, marker, 2);
    lemma_stands_char(s, i, marker, 3);
    assert(run(s, i + 3, CharKind::Blank) == 0);
    assert(run(s, i + 2, CharKind::Blank) == 1);
    lemma_name_read(s, i + 4, name);
    assert(at(s, i + 3) == Some('#'));
    assert(identifier(s, i + 4) == name.len());
    if body.len() == 0 {
        assert(following_comment(s, name_end) is None);
        assert(body =~= Seq::<char>::empty());
        assert(named_text(name, body).len() == 4 + name.len());
    } else {
        assert(continuation(body) == body);
        assert(named_text(name, body).len() == 4 + name.len() + 1 + 3 + body.len());
    }
    assert(named_comment(s, i) == Some(
        (
            SpecExpr::Comment(SpecComment { name: Some(name), body }),
            named_text(name, body).len(),
        ),
    ));
}

/// The parts of an assignment as they stand in its text.
proof fn lemma_assignment_parts(
    s: Seq<char>,
    i: int,
    target: SpecRef,
    value: SpecExpr,
    line_end: bool,
)
    requires
        written_ref(target),
        written(value),
        retold(value, line_end),
        stands(s, i, plain_text(SpecExpr::Assignment { target, value: Box::new(value) })),
    ensures
        at(s, i) == Some('l'),
        at(s, i + 1) == Some('e'),
        at(s, i + 2) == Some('t'),
        at(s, i + 3) == Some(' '),
        white(s, i + 3) == 1,
        at(s, i + 4) matches Some(c) && starts(c),
        reference(s, i + 4) == Some((target, ref_text(target).len())),
        white(s, i + 4 + ref_text(target).len()) == 1,
        at(s, i + 5 + ref_text(target).len()) == Some('='),
        white(s, i + 6 + ref_text(target).len()) == 1,
        stands(s, i + 7 + ref_text(target).len(), plain_text(value)),
        plain_text(SpecExpr::Assignment { target, value: Box::new(value) }).len() == 7
            + ref_text(target).len() + plain_text(value).len(),
{
    reveal_strlit("let ");
    reveal_strlit(" = ");
    let head = "let "@;
    let name = ref_text(target);
    let middle = " = "@;
    let tail = plain_text(value);
    assert(head =~= seq!['l', 'e', 't', ' ']);
    assert(middle =~= seq![' ', '=', ' ']);
    lemma_stands_split(s, i, head + name + middle, tail);
    lemma_stands_split(s, i, head + name, middle);
    lemma_stands_split(s, i, head, name);
    lemma_stands_char(s, i, head, 0);
    lemma_stands_char(s, i, head, 1);
    lemma_stands_char(s, i, head, 2);
    lemma_stands_char(s, i, head, 3);
    let middle_at = i + 4 + name.len();
    lemma_stands_char(s, middle_at, middle, 0);
    lemma_stands_char(s, middle_at, middle, 1);
    lemma_stands_char(s, middle_at, middle, 2);
    lemma_ref_read(s, i + 4, target);
    lemma_stands_char(s, i + 4, name, 0);
    lemma_white_one(s, i + 3);
    lemma_white_one(s, middle_at);
    lemma_text_starts(value, line_end);
    lemma_stands_char(s, middle_at + 3, tail, 0);
    lemma_white_one(s, middle_at + 2);
}

/// The parts of a call as they stand in its text.
proof fn lemma_call_parts(s: Seq<char>, i: int, name: Seq<char>, args: Seq<SpecExpr>)
    requires
        is_name(name),
        all_written(args),
        all_retold(args, false),
        stands(s, i, plain_text(SpecExpr::FunctionCall { target: SpecRef::VarRef(name), args })),
    ensures
        at(s, i) == Some(name[0]),
        identifier(s, i) == name.len(),
        s.subrange(i, i + name.len()) == name,
        assignment(s, i) is None,
        at(s, i + name.len()) == Some('('),
        white(s, i + name.len() + 1) == 0,
        stands(s, i + name.len() + 1, args_text(args, Seq::empty())),
        at(s, i + name.len() + 1 + args_text(args, Seq::empty()).len()) == Some(')'),
        white(s, i + name.len() + 1 + args_text(args, Seq::empty()).len()) == 0,
        plain_text(SpecExpr::FunctionCall { target: SpecRef::VarRef(name), args }).len()
            == name.len() + 2 + args_text(args, Seq::empty()).len(),
{
    reveal_strlit("(");
    reveal_strlit(")");
    let inner = args_text(args, Seq::empty());
    assert("("@ =~= seq!['(']);
    assert(")"@ =~= seq![')']);
    lemma_stands_split(s, i, name + "("@ + inner, ")"@);
    lemma_stands_split(s, i, name + "("@, inner);
    lemma_stands_split(s, i, name, "("@);
    lemma_stands_char(s, i, name, 0);
    let open = i + name.len();
    lemma_stands_char(s, open, "("@, 0);
    let close = open + 1 + inner.len();
    lemma_stands_char(s, close, ")"@, 0);
    lemma_name_read(s, i, name);
    lemma_white_none(s, open);
    lemma_no_assignment(s, i, name);
    if args.len() > 0 {
        lemma_args_text_front(args);
        lemma_text_starts(args[0], false);
        lemma_stands_split(s, open + 1, plain_text(args[0]), tail_text(args.drop_first()));
        lemma_stands_char(s, open + 1, plain_text(args[0]), 0);
    } else {
        assert(inner.len() == 0);
    }
    lemma_white_none(s, open + 1);
    lemma_white_none(s, close);
}

/// An assignment whose parts are read is read.
proof fn lemma_assignment_read(
    s: Seq<char>,
    i: int,
    target: SpecRef,
    value: SpecExpr,
    line_end: bool,
)
    requires
        written_ref(target),
        written(value),
        retold(value, line_end),
        stands(s, i, plain_text(SpecExpr::Assignment { target, value: Box::new(value) })),
        expr(s, i + 7 + ref_text(target).len()) == Some((value, plain_text(value).len())),
    ensures
        expr(s, i) == Some(
            (
                SpecExpr::Assignment { target, value: Box::new(value) },
                plain_text(SpecExpr::Assignment { target, value: Box::new(value) }).len(),
            ),
        ),
{
    let e = SpecExpr::Assignment { target, value: Box::new(value) };
    lemma_assignment_parts(s, i, target, value, line_end);
    assert(comment(s, i) is None);
    assert(assignment(s, i) == Some((e, plain_text(e).len())));
}

/// A call whose arguments are read is read.
proof fn lemma_call_read(s: Seq<char>, i: int, name: Seq<char>, args: Seq<SpecExpr>)
    requires
        is_name(name),
        all_written(args),
        all_retold(args, false),
        stands(s, i, plain_text(SpecExpr::FunctionCall { target: SpecRef::VarRef(name), args })),
        arguments(s, i + name.len() + 1) == (args, args_text(args, Seq::empty()).len()),
    ensures
        expr(s, i) == Some(
            (
                SpecExpr::FunctionCall { target: SpecRef::VarRef(name), args },
                plain_text(SpecExpr::FunctionCall { target: SpecRef::VarRef(name), args }).len(),
            ),
        ),
{
    let e = SpecExpr::FunctionCall { target: SpecRef::VarRef(name), args };
    lemma_call_parts(s, i, name, args);
    assert(comment(s, i) is None);
    assert(integer(s, i) is None);
    assert(function_call(s, i) == Some((e, plain_text(e).len())));
}

/// An expression that stands in the text as it is written, and behind
/// which the text [`ends_well`], is read as what it is.
pub proof fn lemma_expr_read(s: Seq<char>, i: int, e: SpecExpr, line_end: bool)
    requires
        written(e),
        retold(e, line_end),
        stands(s, i, plain_text(e)),
        ends_well(s, i + plain_text(e).len(), e),
    ensures
        expr(s, i) == Some((e, plain_text(e).len())),
    decreases e, 1nat,
{
    match e {
        SpecExpr::Ref(r) => {
            lemma_ref_expr_read(s, i, r);
        },
        SpecExpr::Comment(c) => {
            lemma_comment_text(c.name, c.body, line_end);
            match c.name {
                None => {
                    lemma_comment_read(s, i, c.body);
                },
                Some(name) => {
                    lemma_named_read(s, i, name, c.body);
                },
            }
        },
        SpecExpr::IntLiteral(n) => {
            lemma_integer_read(s, i, n);
        },
        SpecExpr::Assignment { target, value } => {
            lemma_assignment_parts(s, i, target, *value, line_end);
            lemma_expr_read(s, i + 7 + ref_text(target).len(), *value, line_end);
            lemma_assignment_read(s, i, target, *value, line_end);
        },
        SpecExpr::FunctionCall { target, args } => {
            let name = target->VarRef_0;
            lemma_call_parts(s, i, name, args);
            lemma_arguments_read(s, i + name.len() + 1, args);
            lemma_call_read(s, i, name, args);
        },
        _ => {},
    }
}

/// The rest of a sequence of expressions is as the sequence is.
proof fn lemma_rest_kept(items: Seq<SpecExpr>, line_end: bool)
    requires
        items.len() > 0,
        all_written(items),
        all_retold(items, line_end),
    ensures
        all_written(items.drop_first()),
        all_retold(items.drop_first(), line_end),
        paired(items) ==> paired(items.drop_first()),
{
    let rest = items.drop_first();
    assert forall|k: int| 0 <= k < rest.len() implies written(#[trigger] rest[k]) && retold(
        rest[k],
        line_end,
    ) by {
        assert(rest[k] == items[k + 1]);
    }
    if paired(items) {
        assert forall|k: int|
            0 <= k < rest.len() - 1 && ends_in_comment(#[trigger] rest[k]) && rest[k
                + 1] is Comment implies unnamed(rest[k]) && unnamed(rest[k + 1]) by {
            assert(rest[k] == items[k + 1]);
            assert(rest[k + 1] == items[k + 2]);
        }
    }
}

/// No line of the body of a comment ends an argument.
proof fn lemma_argument_ends(e: SpecExpr)
    requires
        retold(e, false),
    ensures
        !ends_in_body(e),
    decreases e,
{
    match e {
        SpecExpr::Assignment { target, value } => {
            lemma_argument_ends(*value);
        },
        _ => {},
    }
}

proof fn lemma_arguments_read(s: Seq<char>, i: int, args: Seq<SpecExpr>)
    requires
        all_written(args),
        all_retold(args, false),
        stands(s, i, args_text(args, Seq::empty())),
        at(s, i + args_text(args, Seq::empty()).len()) == Some(')'),
    ensures
        arguments(s, i) == (args, args_text(args, Seq::empty()).len()),
    decreases args, 0nat,
{
    if args.len() == 0 {
        lemma_no_expr(s, i);
        assert(args =~= Seq::<SpecExpr>::empty());
    } else {
        lemma_args_text_front(args);
        let first = plain_text(args[0]);
        let rest = args.drop_first();
        lemma_stands_split(s, i, first, tail_text(rest));
        lemma_tail_stops(s, i + first.len(), rest);
        lemma_argument_ends(args[0]);
        lemma_expr_read(s, i, args[0], false);
        lemma_rest_kept(args, false);
        lemma_more_arguments_read(s, i + first.len(), rest);
        assert(seq![args[0]] + rest =~= args);
    }
}

/// Behind an argument stands a comma or the closing parenthesis.
proof fn lemma_tail_stops(s: Seq<char>, i: int, rest: Seq<SpecExpr>)
    requires
        stands(s, i, tail_text(rest)),
        at(s, i + tail_text(rest).len()) == Some(')'),
    ensures
        stops(s, i),
        white(s, i) == 0,
        !goes_on_assigning(s, i),
        no_comment_follows(s, i),
        rest.len() == 0 ==> at(s, i) == Some(')'),
        rest.len() > 0 ==> at(s, i) == Some(','),
{
    if rest.len() > 0 {
        lemma_stands_split(s, i, seq![','] + plain_text(rest[0]), tail_text(rest.drop_first()));
        lemma_stands_split(s, i, seq![','], plain_text(rest[0]));
        lemma_stands_char(s, i, seq![','], 0);
    }
    lemma_white_none(s, i);
}

proof fn lemma_more_arguments_read(s: Seq<char>, i: int, rest: Seq<SpecExpr>)
    requires
        all_written(rest),
        all_retold(rest, false),
        stands(s, i, tail_text(rest)),
        at(s, i + tail_text(rest).len()) == Some(')'),
    ensures
        more_arguments(s, i) == (rest, tail_text(rest).len()),
    decreases rest, 0nat,
{
    lemma_tail_stops(s, i, rest);
    if rest.len() == 0 {
        assert(rest =~= Seq::<SpecExpr>::empty());
    } else {
        let first = plain_text(rest[0]);
        let others = rest.drop_first();
        lemma_stands_split(s, i, seq![','] + first, tail_text(others));
        lemma_stands_split(s, i, seq![','], first);
        lemma_text_starts(rest[0], false);
        lemma_stands_char(s, i + 1, first, 0);
        lemma_white_none(s, i + 1);
        lemma_tail_stops(s, i + 1 + first.len(), others);
        lemma_argument_ends(rest[0]);
        lemma_expr_read(s, i + 1, rest[0], false);
        lemma_rest_kept(rest, false);
        lemma_more_arguments_read(s, i + 1 + first.len(), others);
        assert(seq![rest[0]] + others =~= rest);
    }
}

/// What stands at the start of a line: the text of the expressions of
/// `rest`, each with a line feed behind it, up to the end of the text.
spec fn lines_stand(s: Seq<char>, i: int, rest: Seq<SpecExpr>) -> bool {
    stands(s, i, lines_text(rest)) && i + lines_text(rest).len() == s.len()
}

/// The first of the lines stands at their start, with a line feed and the
/// other lines behind it.
proof fn lemma_first_line(s: Seq<char>, i: int, rest: Seq<SpecExpr>)
    requires
        lines_stand(s, i, rest),
        rest.len() > 0,
    ensures
        stands(s, i, plain_text(rest[0])),
        at(s, i + plain_text(rest[0]).len()) == Some('\n'),
        lines_stand(s, i + plain_text(rest[0]).len() + 1, rest.drop_first()),
{
    let first = plain_text(rest[0]);
    let others = lines_text(rest.drop_first());
    lemma_stands_split(s, i, first + seq!['\n'], others);
    lemma_stands_split(s, i, first, seq!['\n']);
    lemma_stands_char(s, i + first.len(), seq!['\n'], 0);
}

/// The lines that stand at `i` do not go on with an assignment that a
/// `let` before them would start.
proof fn lemma_lines_assign_nothing(s: Seq<char>, i: int, rest: Seq<SpecExpr>)
    requires
        i > 0,
        at(s, i - 1) == Some('\n'),
        all_written(rest),
        all_retold(rest, true),
        lines_stand(s, i, rest),
    ensures
        white(s, i - 1) == 1,
        !goes_on_assigning(s, i - 1),
{
    reveal_strlit("let ");
    reveal_strlit("(");
    if rest.len() == 0 {
        lemma_white_one(s, i - 1);
        assert(reference(s, i) is None);
    } else {
        lemma_first_line(s, i, rest);
        lemma_text_starts(rest[0], true);
        let first = plain_text(rest[0]);
        lemma_stands_char(s, i, first, 0);
        lemma_white_one(s, i - 1);
        let next = i + first.len() + 1;
        match rest[0] {
            SpecExpr::Ref(r) => {
                lemma_ref_read(s, i, r);
                lemma_rest_kept(rest, true);
                let others = rest.drop_first();
                if others.len() > 0 {
                    lemma_first_line(s, next, others);
                    lemma_text_starts(others[0], true);
                    lemma_stands_char(s, next, plain_text(others[0]), 0);
                }
                lemma_white_one(s, next - 1);
            },
            SpecExpr::Comment(c) => {
                assert(reference(s, i) is None);
            },
            SpecExpr::IntLiteral(n) => {
                lemma_decimal_digits(n as nat);
                assert(is_kind(CharKind::Digit, first[0]));
                assert(reference(s, i) is None);
            },
            SpecExpr::Assignment { target, value } => {
                lemma_assignment_parts(s, i, target, *value, true);
                let word = seq!['l', 'e', 't'];
                assert(s.subrange(i, i + 3) =~= word);
                assert(is_name(word));
                lemma_name_read(s, i, word);
                assert(reference(s, i) == Some((SpecRef::VarRef(word), 3nat)));
            },
            SpecExpr::FunctionCall { target, args } => {
                let name = target->VarRef_0;
                lemma_call_parts(s, i, name, args);
                lemma_white_none(s, i + name.len());
                assert(reference(s, i) == Some((SpecRef::VarRef(name), name.len())));
            },
            _ => {},
        }
    }
}

/// The block read back starts as the block does.
proof fn lemma_merged_head(items: Seq<SpecExpr>)
    requires
        items.len() > 0,
    ensures
        merged(items).len() > 0,
        unnamed(merged(items)[0]) == unnamed(items[0]),
        !unnamed(items[0]) ==> merged(items)[0] == items[0],
{
}

/// How much of the text the first expression takes that is read back from
/// the lines of `rest`.
spec fn first_len(rest: Seq<SpecExpr>) -> nat
    decreases rest.len(),
{
    if rest.len() == 0 {
        0
    } else if unnamed(rest[0]) && rest.len() >= 2 && unnamed(rest[1]) {
        plain_text(rest[0]).len() + 1 + first_len(rest.drop_first())
    } else {
        plain_text(rest[0]).len()
    }
}

/// Behind the first of the lines, where it is not read as one with the
/// next, the text ends well for it.
proof fn lemma_line_ends_well(s: Seq<char>, i: int, rest: Seq<SpecExpr>)
    requires
        all_written(rest),
        all_retold(rest, true),
        paired(rest),
        lines_stand(s, i, rest),
        rest.len() > 0,
        !(unnamed(rest[0]) && rest.len() >= 2 && unnamed(rest[1])),
    ensures
        ends_well(s, i + plain_text(rest[0]).len(), rest[0]),
        white(s, i + plain_text(rest[0]).len()) == 1,
{
    lemma_first_line(s, i, rest);
    lemma_rest_kept(rest, true);
    let next = i + plain_text(rest[0]).len() + 1;
    let others = rest.drop_first();
    lemma_lines_assign_nothing(s, next, others);
    if others.len() > 0 {
        lemma_first_line(s, next, others);
        lemma_text_starts(others[0], true);
        lemma_stands_char(s, next, plain_text(others[0]), 0);
        assert(others[0] == rest[1]);
        if ends_in_comment(rest[0]) {
            assert(!(rest[1] is Comment));
        }
    }
}

/// Behind white space and an expression come the expressions behind it.
proof fn lemma_more_items_step(
    s: Seq<char>,
    i: int,
    item: SpecExpr,
    n: nat,
    rest: Seq<SpecExpr>,
    m: nat,
)
    requires
        white(s, i) == 1,
        expr(s, i + 1) == Some((item, n)),
        more_items(s, i + 1 + n) == (rest, m),
    ensures
        more_items(s, i) == (seq![item] + rest, 1 + n + m),
{
}

/// A comment without a name that stands on a line by itself is read as
/// the text of a comment.
proof fn lemma_single_line_read(s: Seq<char>, i: int, x: SpecExpr)
    requires
        unnamed(x),
        written(x),
        retold(x, true),
        stands(s, i, plain_text(x)),
        ends_well(s, i + plain_text(x).len(), x),
    ensures
        comment_string(s, i) == Some((body_of(x), plain_text(x).len())),
{
    lemma_comment_text(None, body_of(x), true);
    lemma_line_read(s, i, body_of(x));
}

/// Two comments without names on lines that follow each other are read
/// as one.
proof fn lemma_pair_read(s: Seq<char>, i: int, x: SpecExpr, below: Seq<char>, n: nat)
    requires
        unnamed(x),
        written(x),
        retold(x, true),
        stands(s, i, plain_text(x)),
        at(s, i + plain_text(x).len()) == Some('\n'),
        comment_string(s, i + plain_text(x).len() + 1) == Some((below, n)),
    ensures
        comment_string(s, i) == Some(
            (appended(body_of(x), below), plain_text(x).len() + 1 + n),
        ),
        expr(s, i) == Some(
            (
                SpecExpr::Comment(SpecComment { name: None, body: appended(body_of(x), below) }),
                plain_text(x).len() + 1 + n,
            ),
        ),
{
    lemma_comment_text(None, body_of(x), true);
    lemma_line_then(s, i, body_of(x), below, n);
    lemma_no_name_read(s, i, body_of(x));
}

/// The lines of `rest` are read as the block that [`merged`] gives: the
/// first expression at their start, the others behind it.
proof fn lemma_lines_read(s: Seq<char>, i: int, rest: Seq<SpecExpr>)
    requires
        rest.len() > 0,
        all_written(rest),
        all_retold(rest, true),
        paired(rest),
        lines_stand(s, i, rest),
    ensures
        expr(s, i) == Some((merged(rest)[0], first_len(rest))),
        unnamed(rest[0]) ==> comment_string(s, i) == Some(
            (body_of(merged(rest)[0]), first_len(rest)),
        ),
        i + first_len(rest) < s.len(),
        at(s, i + first_len(rest)) == Some('\n'),
        more_items(s, i + first_len(rest)) == (
            merged(rest).drop_first(),
            (s.len() - 1 - (i + first_len(rest))) as nat,
        ),
        white(s, s.len() - 1) == 1,
    decreases rest.len(),
{
    let x = rest[0];
    let xs = rest.drop_first();
    let end = i + plain_text(x).len();
    let m = merged(xs);
    lemma_first_line(s, i, rest);
    lemma_rest_kept(rest, true);
    if xs.len() == 0 {
        lemma_line_ends_well(s, i, rest);
        lemma_expr_read(s, i, x, true);
        if unnamed(x) {
            lemma_single_line_read(s, i, x);
        }
        lemma_no_expr(s, end + 1);
        assert(m =~= Seq::<SpecExpr>::empty());
        assert(merged(rest) =~= seq![x]);
        assert(merged(rest).drop_first() =~= Seq::<SpecExpr>::empty());
    } else {
        lemma_lines_read(s, end + 1, xs);
        lemma_merged_head(xs);
        assert(xs[0] == rest[1]);
        let n = first_len(xs);
        if unnamed(x) && unnamed(xs[0]) {
            lemma_pair_read(s, i, x, body_of(m[0]), n);
            assert(merged(rest).drop_first() =~= m.drop_first());
        } else {
            lemma_line_ends_well(s, i, rest);
            lemma_expr_read(s, i, x, true);
            if unnamed(x) {
                lemma_single_line_read(s, i, x);
            }
            lemma_more_items_step(
                s,
                end,
                m[0],
                n,
                m.drop_first(),
                (s.len() - 1 - (end + 1 + n)) as nat,
            );
            assert(seq![m[0]] + m.drop_first() =~= m);
            assert(merged(rest).drop_first() =~= m);
        }
    }
}

/// A text stands in itself.
proof fn lemma_whole_stands(s: Seq<char>, block: Seq<SpecExpr>)
    requires
        s == lines_text(block),
    ensures
        lines_stand(s, 0, block),
{
    assert(s.subrange(0, s.len() as int) =~= s);
}

/// The expressions from the start are the first and those behind it.
proof fn lemma_items_joined(s: Seq<char>, first: SpecExpr, n: nat, rest: Seq<SpecExpr>, m: nat)
    requires
        expr(s, 0) == Some((first, n)),
        more_items(s, n as int) == (rest, m),
    ensures
        items(s, 0) == (seq![first] + rest, n + m),
{
}

/// The expressions of a block that is not empty are read back from its
/// text, up to the line feed at its end.
proof fn lemma_items_read(s: Seq<char>, block: Seq<SpecExpr>)
    requires
        all_written(block),
        all_retold(block, true),
        paired(block),
        block.len() > 0,
        lines_stand(s, 0, block),
    ensures
        white(s, 0) == 0,
        items(s, 0) == (merged(block), (s.len() - 1) as nat),
        s.len() > 0,
        white(s, s.len() - 1) == 1,
{
    let all = merged(block);
    lemma_first_line(s, 0, block);
    lemma_text_starts(block[0], true);
    lemma_stands_char(s, 0, plain_text(block[0]), 0);
    lemma_white_none(s, 0);
    lemma_lines_read(s, 0, block);
    lemma_merged_head(block);
    lemma_items_joined(
        s,
        all[0],
        first_len(block),
        all.drop_first(),
        (s.len() - 1 - first_len(block)) as nat,
    );
    assert(seq![all[0]] + all.drop_first() =~= all);
}

/// A block of expressions that are written and retold, with its comments
/// paired, is read back from its text as [`merged`] says.
pub proof fn lemma_block_read(block: Seq<SpecExpr>)
    requires
        all_written(block),
        all_retold(block, true),
        paired(block),
    ensures
        program(block_text(block, Seq::empty())) == Ok::<Seq<SpecExpr>, SpecParseError>(
            merged(block),
        ),
{
    let s = block_text(block, Seq::empty());
    lemma_block_text_front(block);
    if block.len() == 0 {
        lemma_white_none(s, 0);
        lemma_no_expr(s, 0);
        assert(merged(block) =~= Seq::<SpecExpr>::empty());
    } else {
        lemma_whole_stands(s, block);
        lemma_items_read(s, block);
    }
}

/// Where no comment stands directly behind an expression that ends with a
/// comment, the block is read back as it is.
pub proof fn lemma_merged_apart(items: Seq<SpecExpr>)
    requires
        apart(items),
    ensures
        merged(items) == items,
        paired(items),
        settled(items),
    decreases items.len(),
{
    if items.len() > 0 {
        let rest = items.drop_first();
        assert forall|k: int| 0 <= k < rest.len() - 1 && ends_in_comment(
            #[trigger] rest[k],
        ) implies !(rest[k + 1] is Comment) by {
            assert(rest[k] == items[k + 1]);
            assert(rest[k + 1] == items[k + 2]);
        }
        lemma_merged_apart(rest);
        if rest.len() > 0 {
            assert(rest[0] == items[1]);
        }
        assert(seq![items[0]] + rest =~= items);
    }
    if items.len() >= 2 {
        let k = items.len() - 2;
        assert(ends_in_comment(items[k]) ==> !(items[k + 1] is Comment));
    }
}

/// The values of a first expression and of those behind it.
proof fn lemma_eval_all_front(x: SpecExpr, xs: Seq<SpecExpr>, state: State)
    ensures
        eval_all(seq![x] + xs, state) == ({
            let first = eval(x, state);
            match first.result {
                Err(e) => Outcomes { result: Err(e), state: first.state },
                Ok(v) => {
                    let others = eval_all(xs, first.state);
                    match others.result {
                        Err(_) => others,
                        Ok(values) => Outcomes { result: Ok(seq![v] + values), state: others.state },
                    }
                },
            }
        }),
    decreases xs.len(),
{
    let all = seq![x] + xs;
    let none = Seq::<SpecExpr>::empty();
    let first = eval(x, state);
    if xs.len() == 0 {
        assert(all.drop_last() =~= none);
        assert(all.last() == x);
        assert(xs =~= none);
        assert(eval_all(none, state) == Outcomes { result: Ok(Seq::empty()), state });
        assert(eval_all(none, first.state) == Outcomes {
            result: Ok(Seq::empty()),
            state: first.state,
        });
        if first.result is Ok {
            assert(Seq::<SpecValue>::empty().push(first.result->Ok_0) =~= seq![first.result->Ok_0]
                + Seq::<SpecValue>::empty());
        }
    } else {
        let early = xs.drop_last();
        lemma_eval_all_front(x, early, state);
        assert(all.drop_last() =~= seq![x] + early);
        assert(all.last() == xs.last());
        let whole_early = eval_all(seq![x] + early, state);
        assert(eval_all(all, state) == match whole_early.result {
            Err(_) => whole_early,
            Ok(values) => {
                let last = eval(all.last(), whole_early.state);
                match last.result {
                    Err(e) => Outcomes { result: Err(e), state: last.state },
                    Ok(v) => Outcomes { result: Ok(values.push(v)), state: last.state },
                }
            },
        });
        if first.result is Ok {
            let before = eval_all(early, first.state);
            assert(eval_all(xs, first.state) == match before.result {
                Err(_) => before,
                Ok(values) => {
                    let last = eval(xs.last(), before.state);
                    match last.result {
                        Err(e) => Outcomes { result: Err(e), state: last.state },
                        Ok(v) => Outcomes { result: Ok(values.push(v)), state: last.state },
                    }
                },
            });
            if before.result is Ok {
                let last = eval(xs.last(), before.state);
                if last.result is Ok {
                    assert((seq![first.result->Ok_0] + before.result->Ok_0).push(
                        last.result->Ok_0,
                    ) =~= seq![first.result->Ok_0] + before.result->Ok_0.push(last.result->Ok_0));
                }
            }
        }
    }
}

/// A block that is read back as a single comment without a name holds
/// nothing but such comments.
proof fn lemma_merged_to_one(items: Seq<SpecExpr>)
    requires
        items.len() > 0,
        merged(items).len() == 1,
        unnamed(merged(items)[0]),
    ensures
        unnamed(items[items.len() - 1]),
        items.len() >= 2 ==> unnamed(items[items.len() - 2]),
    decreases items.len(),
{
    let rest = items.drop_first();
    if rest.len() > 0 {
        lemma_merged_head(rest);
        let below = merged(rest);
        assert(unnamed(items[0]) && unnamed(below[0]));
        assert(below.len() == 1) by {
            assert((seq![items[0]] + below.drop_first()).len() == below.len());
        }
        lemma_merged_to_one(rest);
        assert(rest[rest.len() - 1] == items[items.len() - 1]);
        if rest.len() >= 2 {
            assert(rest[rest.len() - 2] == items[items.len() - 2]);
        }
    }
}

/// The block read back leaves the state that the block leaves, fails
/// where it fails, and where the block is [`settled`] has the same last
/// value: the comments that are read as one change nothing, and their
/// values are not the last.
proof fn lemma_merged_eval(items: Seq<SpecExpr>, state: State)
    ensures
        ({
            let first = eval_all(items, state);
            let second = eval_all(merged(items), state);
            &&& first.state == second.state
            &&& first.result is Err ==> second.result is Err && first.result->Err_0
                == second.result->Err_0
            &&& first.result is Ok ==> second.result is Ok
            &&& first.result is Ok ==> first.result->Ok_0.len() == items.len()
                && second.result->Ok_0.len() == merged(items).len()
            &&& first.result is Ok && items.len() > 0 && settled(items)
                ==> first.result->Ok_0.last() == second.result->Ok_0.last()
        }),
    decreases items.len(),
{
    if items.len() == 0 {
        assert(merged(items) =~= Seq::<SpecExpr>::empty());
    } else {
        let x = items[0];
        let xs = items.drop_first();
        let below = merged(xs);
        assert(seq![x] + xs =~= items);
        lemma_eval_all_front(x, xs, state);
        let after = eval(x, state).state;
        lemma_merged_eval(xs, after);
        if xs.len() > 0 {
            lemma_merged_head(xs);
            assert(xs[xs.len() - 1] == items[items.len() - 1]);
            if xs.len() >= 2 {
                assert(xs[xs.len() - 2] == items[items.len() - 2]);
            }
        } else {
            assert(below =~= Seq::<SpecExpr>::empty());
        }
        if unnamed(x) && below.len() > 0 && unnamed(below[0]) {
            let one = SpecExpr::Comment(
                SpecComment { name: None, body: appended(body_of(x), body_of(below[0])) },
            );
            assert(after == state);
            assert(seq![below[0]] + below.drop_first() =~= below);
            lemma_eval_all_front(below[0], below.drop_first(), state);
            lemma_eval_all_front(one, below.drop_first(), state);
            if below.len() == 1 {
                lemma_merged_to_one(xs);
                assert(!settled(items)) by {
                    if xs.len() == 1 {
                        assert(items[items.len() - 2] == x);
                    }
                }
            }
        } else {
            lemma_eval_all_front(x, below, state);
        }
    }
}

/// The comments of a first expression and of those behind it.
proof fn lemma_seq_comments_front(x: SpecExpr, xs: Seq<SpecExpr>)
    ensures
        seq_comments(seq![x] + xs) == expr_comments(x) + seq_comments(xs),
    decreases xs.len(),
{
    let all = seq![x] + xs;
    let none = Seq::<SpecExpr>::empty();
    if xs.len() == 0 {
        assert(all.drop_last() =~= none);
        assert(all.last() == x);
        assert(xs =~= none);
        assert(seq_comments(none) =~= Seq::<SpecComment>::empty());
        assert(seq_comments(all) == seq_comments(all.drop_last()) + expr_comments(all.last()));
        assert(seq_comments(all) =~= expr_comments(x) + seq_comments(xs));
    } else {
        let early = xs.drop_last();
        lemma_seq_comments_front(x, early);
        assert(all.drop_last() =~= seq![x] + early);
        assert(all.last() == xs.last());
        assert(seq_comments(all) == seq_comments(seq![x] + early) + expr_comments(xs.last()));
        assert(seq_comments(xs) == seq_comments(early) + expr_comments(xs.last()));
        assert(seq_comments(all) =~= expr_comments(x) + seq_comments(xs));
    }
}

/// Making known the comments of two sequences, one after the other.
proof fn lemma_seed_all_concat(
    comments: Seq<(Seq<char>, Seq<char>)>,
    a: Seq<SpecComment>,
    b: Seq<SpecComment>,
)
    ensures
        seed_all(comments, a + b) == ({
            let first = seed_all(comments, a);
            match first.result {
                Err(_) => first,
                Ok(_) => seed_all(first.comments, b),
            }
        }),
    decreases a.len(),
{
    if a.len() == 0 {
        assert(a + b =~= b);
    } else {
        assert((a + b)[0] == a[0]);
        assert((a + b).drop_first() =~= a.drop_first() + b);
        let first = seed(comments, a[0]);
        lemma_seed_all_concat(first.comments, a.drop_first(), b);
    }
}

/// A comment without a name is made known without a change.
proof fn lemma_seed_unnamed(comments: Seq<(Seq<char>, Seq<char>)>, x: SpecExpr)
    requires
        unnamed(x),
    ensures
        seed_all(comments, expr_comments(x)).result is Ok,
        seed_all(comments, expr_comments(x)).comments == comments,
{
    let found = expr_comments(x);
    assert(found.len() == 1);
    assert(found.drop_first() =~= Seq::<SpecComment>::empty());
    assert(seed_all(comments, found.drop_first()).comments == comments);
}

/// The block read back makes the same comments known as the block: the
/// comments that are read as one have no names.
proof fn lemma_merged_seeds(items: Seq<SpecExpr>, comments: Seq<(Seq<char>, Seq<char>)>)
    ensures
        seed_all(comments, seq_comments(merged(items))) == seed_all(
            comments,
            seq_comments(items),
        ),
    decreases items.len(),
{
    if items.len() == 0 {
        assert(merged(items) =~= items);
    } else {
        let x = items[0];
        let xs = items.drop_first();
        let below = merged(xs);
        assert(seq![x] + xs =~= items);
        lemma_seq_comments_front(x, xs);
        lemma_seed_all_concat(comments, expr_comments(x), seq_comments(xs));
        let known = seed_all(comments, expr_comments(x));
        lemma_merged_seeds(xs, known.comments);
        if unnamed(x) && below.len() > 0 && unnamed(below[0]) {
            let one = SpecExpr::Comment(
                SpecComment { name: None, body: appended(body_of(x), body_of(below[0])) },
            );
            lemma_seed_unnamed(comments, x);
            lemma_seed_unnamed(comments, below[0]);
            lemma_seed_unnamed(comments, one);
            assert(seq![below[0]] + below.drop_first() =~= below);
            lemma_seq_comments_front(below[0], below.drop_first());
            lemma_seq_comments_front(one, below.drop_first());
            lemma_seed_all_concat(
                comments,
                expr_comments(below[0]),
                seq_comments(below.drop_first()),
            );
            lemma_seed_all_concat(comments, expr_comments(one), seq_comments(below.drop_first()));
        } else {
            lemma_seq_comments_front(x, below);
            lemma_seed_all_concat(comments, expr_comments(x), seq_comments(below));
        }
    }
}

/// The block read back has the value and leaves the state of the block,
/// where the block is [`settled`].
proof fn lemma_merged_block(items: Seq<SpecExpr>, state: State)
    requires
        settled(items),
    ensures
        eval(SpecExpr::Block(merged(items)), state) == eval(SpecExpr::Block(items), state),
{
    lemma_merged_eval(items, state);
    if items.len() > 0 {
        lemma_merged_head(items);
    } else {
        assert(merged(items) =~= items);
    }
    assert(eval(SpecExpr::Block(items), state) == eval_block(items, state));
    assert(eval(SpecExpr::Block(merged(items)), state) == eval_block(merged(items), state));
}

/// A program that is written out and read again has the value, leaves the
/// state, and makes the comments known, that the program it was read from
/// has, leaves and makes known. This holds where the comments of the
/// program are [`retold`], [`paired`] and [`settled`]: each stands at the
/// end of its expression; one without a name has a body of one line; one
/// with a name has no body or one of one line; one with a body does not
/// stand among the arguments of a call; comments that follow each other
/// directly are comments without names, and do not end the program. The
/// program read is the one that [`merged`] gives; where the comments are
/// [`apart`] it is the same program.
pub proof fn law_round_trip(source: Seq<char>, state: State)
    requires
        program(source) is Ok,
        all_retold(program(source)->Ok_0, true),
        paired(program(source)->Ok_0),
        settled(program(source)->Ok_0),
    ensures
        ({
            let first = program(source)->Ok_0;
            let second = program(block_text(first, Seq::empty()));
            &&& second == Ok::<Seq<SpecExpr>, SpecParseError>(merged(first))
            &&& apart(first) ==> second == Ok::<Seq<SpecExpr>, SpecParseError>(first)
            &&& eval(SpecExpr::Block(second->Ok_0), state) == eval(SpecExpr::Block(first), state)
            &&& seed_all(state.comments, seq_comments(second->Ok_0)) == seed_all(
                state.comments,
                seq_comments(first),
            )
        }),
{
    let first = program(source)->Ok_0;
    lemma_program_written(source);
    lemma_block_read(first);
    lemma_merged_block(first, state);
    lemma_merged_seeds(first, state.comments);
    if apart(first) {
        lemma_merged_apart(first);
    }
}

} // verus!
