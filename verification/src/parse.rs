//! The parser: from a text to the program that the grammar finds in it.

use crate::grammar::{
    arguments, assignment, comment, comment_string, continuation, decimal_value, expr,
    following_comment, function_call, identifier, integer, is_kind, items, marked, more_arguments,
    lemma_decimal_value_grows, lemma_run_at, more_items, named_comment, newline, reference, run,
    white, without_markers, CharKind, Expected, SpecParseError,
};
use crate::parser::{
    exprs_view, Assignment, Block, Comment, Expr, FunctionCall, Program, Ref, SpecExpr,
};
use crate::text::{chars_of, string_of, trim_start, white_space};
use vstd::prelude::*;

verus! {

/// Why a text is no program: how many of its characters are one, and what
/// was missing where they end.
#[derive(Debug, PartialEq, Eq)]
pub struct ParseError {
    pub position: usize,
    pub expected: Expected,
}

impl View for ParseError {
    type V = SpecParseError;

    open spec fn view(&self) -> SpecParseError {
        SpecParseError { position: self.position as nat, expected: self.expected }
    }
}

/// Decides [`is_kind`].
fn of_kind(kind: CharKind, c: char) -> (yes: bool)
    ensures
        yes == is_kind(kind, c),
{
    match kind {
        CharKind::Blank => c == ' ' || c == '\t',
        CharKind::Word => ('a' <= c && c <= 'z') || ('A' <= c && c <= 'Z') || ('0' <= c && c
            <= '9') || c == '_',
        CharKind::Digit => '0' <= c && c <= '9',
        CharKind::LineText => c != '\r' && c != '\n',
    }
}

/// Where the run of `kind` from `i` ends.
fn run_end(chars: &Vec<char>, i: usize, kind: CharKind) -> (end: usize)
    requires
        i <= chars.len(),
    ensures
        i <= end <= chars.len(),
        end - i == run(chars@, i as int, kind),
{
    let mut end: usize = i;
    while end < chars.len() && of_kind(kind, chars[end])
        invariant
            i <= end <= chars.len(),
            run(chars@, i as int, kind) == (end - i) + run(chars@, end as int, kind),
        decreases chars.len() - end,
    {
        end += 1;
    }
    end
}

/// Where the line end at `i` ends.
fn newline_end(chars: &Vec<char>, i: usize) -> (end: usize)
    requires
        i <= chars.len(),
    ensures
        i <= end <= chars.len(),
        end - i == newline(chars@, i as int),
{
    if i < chars.len() && chars[i] == '\n' {
        i + 1
    } else if i < chars.len() && chars[i] == '\r' && i + 1 < chars.len() && chars[i + 1] == '\n' {
        i + 2
    } else {
        i
    }
}

/// Where the white space from `i` ends.
fn white_end(chars: &Vec<char>, i: usize) -> (end: usize)
    requires
        i <= chars.len(),
    ensures
        i <= end <= chars.len(),
        end - i == white(chars@, i as int),
{
    let mut end: usize = i;
    loop
        invariant
            i <= end <= chars.len(),
            white(chars@, i as int) == (end - i) + white(chars@, end as int),
        ensures
            white(chars@, i as int) == end - i,
        decreases chars.len() - end,
    {
        if end < chars.len() && of_kind(CharKind::Blank, chars[end]) {
            end += 1;
        } else {
            let next = newline_end(chars, end);
            if next > end {
                end = next;
            } else {
                break ;
            }
        }
    }
    end
}

/// Where the identifier at `i` ends; `i` where none starts.
fn identifier_end(chars: &Vec<char>, i: usize) -> (end: usize)
    requires
        i <= chars.len(),
    ensures
        i <= end <= chars.len(),
        end - i == identifier(chars@, i as int),
{
    if i < chars.len() && of_kind(CharKind::Word, chars[i]) && !of_kind(CharKind::Digit, chars[i]) {
        run_end(chars, i, CharKind::Word)
    } else {
        i
    }
}

/// The characters `chars[from..to]`.
fn slice_of(chars: &Vec<char>, from: usize, to: usize) -> (part: Vec<char>)
    requires
        from <= to <= chars.len(),
    ensures
        part@ == chars@.subrange(from as int, to as int),
{
    let mut part: Vec<char> = Vec::new();
    let mut i: usize = from;
    while i < to
        invariant
            from <= i <= to <= chars.len(),
            part@ == chars@.subrange(from as int, i as int),
        decreases to - i,
    {
        part.push(chars[i]);
        i += 1;
        assert(part@ =~= chars@.subrange(from as int, i as int));
    }
    part
}

fn parse_reference(chars: &Vec<char>, i: usize) -> (found: Option<(Ref, usize)>)
    requires
        i <= chars.len(),
    ensures
        match found {
            Some((r, end)) => i < end <= chars.len() && reference(chars@, i as int) == Some(
                (r@, (end - i) as nat),
            ),
            None => reference(chars@, i as int) is None,
        },
{
    let end = identifier_end(chars, i);
    if end > i {
        return Some((Ref::VarRef(string_of(chars, i, end)), end));
    }
    if i < chars.len() && chars[i] == '#' {
        let end = identifier_end(chars, i + 1);
        if end > i + 1 {
            return Some((Ref::CommentRef(string_of(chars, i + 1, end)), end));
        }
    }
    None
}

fn parse_integer(chars: &Vec<char>, i: usize) -> (found: Option<(Expr, usize)>)
    requires
        i <= chars.len(),
    ensures
        match found {
            Some((e, end)) => i < end <= chars.len() && integer(chars@, i as int) == Some(
                (e@, (end - i) as nat),
            ),
            None => integer(chars@, i as int) is None,
        },
{
    if !(i < chars.len() && '1' <= chars[i] && chars[i] <= '9') {
        return None;
    }
    let end = run_end(chars, i, CharKind::Digit);
    let mut value: i128 = 0;
    let mut j: usize = i;
    proof {
        assert forall|k: int| i <= k < end implies is_kind(
            CharKind::Digit,
            #[trigger] chars@[k],
        ) by {
            lemma_run_at(chars@, i as int, CharKind::Digit, k);
        }
        assert(chars@.subrange(i as int, i as int) =~= Seq::<char>::empty());
    }
    while j < end
        invariant
            i <= j <= end <= chars.len(),
            i < chars.len() && '1' <= chars@[i as int] <= '9',
            end - i == run(chars@, i as int, CharKind::Digit),
            0 <= value,
            value == decimal_value(chars@.subrange(i as int, j as int)),
            forall|k: int| i <= k < end ==> is_kind(CharKind::Digit, #[trigger] chars@[k]),
        decreases end - j,
    {
        let digit: i128 = (chars[j] as u32 - 48) as i128;
        proof {
            assert(is_kind(CharKind::Digit, chars@[j as int]));
            assert(chars@.subrange(i as int, j + 1).drop_last() =~= chars@.subrange(
                i as int,
                j as int,
            ));
            assert(chars@.subrange(i as int, j + 1).last() == chars@[j as int]);
            lemma_decimal_value_grows(chars@, i as int, j + 1, end as int);
            assert(decimal_value(chars@.subrange(i as int, j + 1)) == value * 10 + digit);
        }
        let next = match value.checked_mul(10) {
            Some(tens) => tens.checked_add(digit),
            None => None,
        };
        match next {
            Some(sum) => {
                value = sum;
            },
            None => {
                return None;
            },
        }
        j += 1;
    }
    Some((Expr::IntLiteral(value), end))
}

/// Decides [`marked`].
fn is_marked(text: &Vec<char>) -> (yes: bool)
    ensures
        yes == marked(text@),
{
    text.len() >= 2 && text[0] == '/' && text[1] == '/'
}

/// What the comment lines that follow a line stand for, as
/// [`continuation`] says.
fn continuation_of(text: Vec<char>) -> (added: Vec<char>)
    ensures
        added@ == continuation(text@),
{
    if !is_marked(&text) {
        return text;
    }
    let mut k: usize = 0;
    assert(text@.skip(0) =~= text@);
    while text.len() - k >= 2 && text[k] == '/' && text[k + 1] == '/'
        invariant
            k <= text.len(),
            without_markers(text@) == without_markers(text@.skip(k as int)),
        decreases text.len() - k,
    {
        assert(text@.skip(k as int).skip(2) =~= text@.skip(k + 2));
        k += 2;
    }
    while k < text.len() && white_space(text[k])
        invariant
            k <= text.len(),
            trim_start(without_markers(text@)) == trim_start(text@.skip(k as int)),
        decreases text.len() - k,
    {
        assert(text@.skip(k as int).drop_first() =~= text@.skip(k + 1));
        k += 1;
    }
    let mut added: Vec<char> = Vec::new();
    added.push('\n');
    added.push('\n');
    let mut rest = slice_of(&text, k, text.len());
    assert(rest@ =~= text@.skip(k as int));
    added.append(&mut rest);
    assert(added@ =~= seq!['\n', '\n'] + trim_start(without_markers(text@)));
    added
}

fn parse_comment_string(chars: &Vec<char>, i: usize) -> (found: Option<(Vec<char>, usize)>)
    requires
        i <= chars.len(),
    ensures
        match found {
            Some((text, end)) => i < end <= chars.len() && comment_string(chars@, i as int)
                == Some((text@, (end - i) as nat)),
            None => comment_string(chars@, i as int) is None,
        },
    decreases chars.len() - i, 1int,
{
    if !(i < chars.len() && chars[i] == '/' && i + 1 < chars.len() && chars[i + 1] == '/') {
        return None;
    }
    let start = run_end(chars, i + 2, CharKind::Blank);
    let stop = run_end(chars, start, CharKind::LineText);
    let mut text = slice_of(chars, start, stop);
    match parse_following_comment(chars, stop) {
        Some((more, end)) => {
            let ghost body = text@;
            let ghost below = more@;
            if is_marked(&more) {
                let mut paragraph = continuation_of(more);
                text.append(&mut paragraph);
                assert(text@ =~= body + continuation(below));
            } else {
                let mut more = more;
                text.push(' ');
                text.append(&mut more);
                assert(text@ =~= body + seq![' '] + below);
            }
            Some((text, end))
        },
        None => Some((text, stop)),
    }
}

fn parse_following_comment(chars: &Vec<char>, i: usize) -> (found: Option<(Vec<char>, usize)>)
    requires
        i <= chars.len(),
    ensures
        match found {
            Some((text, end)) => i < end <= chars.len() && following_comment(chars@, i as int)
                == Some((text@, (end - i) as nat)),
            None => following_comment(chars@, i as int) is None,
        },
    decreases chars.len() - i, 0int,
{
    let start = newline_end(chars, i);
    if start == i {
        return None;
    }
    parse_comment_string(chars, start)
}

fn parse_named_comment(chars: &Vec<char>, i: usize) -> (found: Option<(Expr, usize)>)
    requires
        i <= chars.len(),
    ensures
        match found {
            Some((e, end)) => i < end <= chars.len() && named_comment(chars@, i as int) == Some(
                (e@, (end - i) as nat),
            ),
            None => named_comment(chars@, i as int) is None,
        },
{
    if !(i < chars.len() && chars[i] == '/' && i + 1 < chars.len() && chars[i + 1] == '/') {
        return None;
    }
    let hash = run_end(chars, i + 2, CharKind::Blank);
    if !(hash < chars.len() && chars[hash] == '#') {
        return None;
    }
    let stop = identifier_end(chars, hash + 1);
    if stop == hash + 1 {
        return None;
    }
    let name = string_of(chars, hash + 1, stop);
    match parse_following_comment(chars, stop) {
        Some((below, end)) => {
            let text = continuation_of(below);
            let body = string_of(&text, 0, text.len());
            assert(text@.subrange(0, text.len() as int) =~= text@);
            Some((Expr::Comment(Comment { name: Some(name), body }), end))
        },
        None => Some((Expr::Comment(Comment { name: Some(name), body: String::new() }), stop)),
    }
}

fn parse_comment(chars: &Vec<char>, i: usize) -> (found: Option<(Expr, usize)>)
    requires
        i <= chars.len(),
    ensures
        match found {
            Some((e, end)) => i < end <= chars.len() && comment(chars@, i as int) == Some(
                (e@, (end - i) as nat),
            ),
            None => comment(chars@, i as int) is None,
        },
{
    match parse_named_comment(chars, i) {
        Some(found) => Some(found),
        None => match parse_comment_string(chars, i) {
            Some((text, end)) => {
                let body = string_of(&text, 0, text.len());
                assert(text@.subrange(0, text.len() as int) =~= text@);
                Some((Expr::Comment(Comment { name: None, body }), end))
            },
            None => None,
        },
    }
}

fn parse_expr(chars: &Vec<char>, i: usize) -> (found: Option<(Expr, usize)>)
    requires
        i <= chars.len(),
    ensures
        match found {
            Some((e, end)) => i < end <= chars.len() && expr(chars@, i as int) == Some(
                (e@, (end - i) as nat),
            ),
            None => expr(chars@, i as int) is None,
        },
    decreases chars.len() - i, 2int,
{
    if let Some(found) = parse_comment(chars, i) {
        return Some(found);
    }
    if let Some(found) = parse_assignment(chars, i) {
        return Some(found);
    }
    if let Some(found) = parse_integer(chars, i) {
        return Some(found);
    }
    if let Some(found) = parse_function_call(chars, i) {
        return Some(found);
    }
    match parse_reference(chars, i) {
        Some((r, end)) => Some((Expr::Ref(r), end)),
        None => None,
    }
}

fn parse_assignment(chars: &Vec<char>, i: usize) -> (found: Option<(Expr, usize)>)
    requires
        i <= chars.len(),
    ensures
        match found {
            Some((e, end)) => i < end <= chars.len() && assignment(chars@, i as int) == Some(
                (e@, (end - i) as nat),
            ),
            None => assignment(chars@, i as int) is None,
        },
    decreases chars.len() - i, 1int,
{
    if !(chars.len() - i >= 3 && chars[i] == 'l' && chars[i + 1] == 'e' && chars[i + 2] == 't') {
        return None;
    }
    let target_at = white_end(chars, i + 3);
    if target_at == i + 3 {
        return None;
    }
    let (target, target_end) = match parse_reference(chars, target_at) {
        Some(found) => found,
        None => {
            return None;
        },
    };
    let equals = white_end(chars, target_end);
    if equals == target_end || !(equals < chars.len() && chars[equals] == '=') {
        return None;
    }
    let value_at = white_end(chars, equals + 1);
    if value_at == equals + 1 {
        return None;
    }
    match parse_expr(chars, value_at) {
        Some((value, end)) => Some(
            (Expr::Assignment(Assignment { target, value: Box::new(value) }), end),
        ),
        None => None,
    }
}

fn parse_function_call(chars: &Vec<char>, i: usize) -> (found: Option<(Expr, usize)>)
    requires
        i <= chars.len(),
    ensures
        match found {
            Some((e, end)) => i < end <= chars.len() && function_call(chars@, i as int) == Some(
                (e@, (end - i) as nat),
            ),
            None => function_call(chars@, i as int) is None,
        },
    decreases chars.len() - i, 1int,
{
    let open = identifier_end(chars, i);
    if open == i || !(open < chars.len() && chars[open] == '(') {
        return None;
    }
    let first = white_end(chars, open + 1);
    let (args, stop) = parse_arguments(chars, first);
    let close = white_end(chars, stop);
    if !(close < chars.len() && chars[close] == ')') {
        return None;
    }
    let target = Ref::VarRef(string_of(chars, i, open));
    Some((Expr::FunctionCall(FunctionCall { target, args }), close + 1))
}

/// One more expression stands behind those of `exprs`.
proof fn lemma_exprs_view_push(exprs: Seq<Expr>, last: Expr)
    ensures
        exprs_view(exprs.push(last)) == exprs_view(exprs).push(last@),
{
    assert(exprs.push(last).drop_last() =~= exprs);
}

fn parse_arguments(chars: &Vec<char>, i: usize) -> (found: (Vec<Expr>, usize))
    requires
        0 < i <= chars.len(),
    ensures
        i <= found.1 <= chars.len(),
        arguments(chars@, i as int) == (exprs_view(found.0@), (found.1 - i) as nat),
    decreases chars.len() - i, 4int,
{
    let mut args: Vec<Expr> = Vec::new();
    let mut end: usize = i;
    match parse_expr(chars, i) {
        Some((first, stop)) => {
            args.push(first);
            end = stop;
            proof {
                lemma_exprs_view_push(Seq::empty(), first);
            }
        },
        None => {
            return (args, i);
        },
    }
    let ghost whole = arguments(chars@, i as int);
    let mut done = false;
    assert(exprs_view(args@) + more_arguments(chars@, end as int).0 =~= whole.0);
    while !done
        invariant
            0 < i <= end <= chars.len(),
            whole == arguments(chars@, i as int),
            !done ==> whole.0 == exprs_view(args@) + more_arguments(chars@, end as int).0,
            !done ==> whole.1 == (end - i) + more_arguments(chars@, end as int).1,
            done ==> whole == (exprs_view(args@), (end - i) as nat),
        decreases chars.len() - end, if done { 0int } else { 1int },
    {
        let comma = white_end(chars, end);
        if comma < chars.len() && chars[comma] == ',' {
            let next = white_end(chars, comma + 1);
            match parse_expr(chars, next) {
                Some((arg, stop)) => {
                    let ghost before = exprs_view(args@);
                    let ghost earlier = args@;
                    args.push(arg);
                    proof {
                        lemma_exprs_view_push(earlier, arg);
                        assert(earlier.push(arg) =~= args@);
                        let rest = more_arguments(chars@, stop as int).0;
                        assert(before + (seq![arg@] + rest) =~= before.push(arg@) + rest);
                    }
                    end = stop;
                },
                None => {
                    done = true;
                    assert(exprs_view(args@) + Seq::<SpecExpr>::empty() =~= exprs_view(args@));
                },
            }
        } else {
            done = true;
            assert(exprs_view(args@) + Seq::<SpecExpr>::empty() =~= exprs_view(args@));
        }
    }
    (args, end)
}

fn parse_items(chars: &Vec<char>, i: usize) -> (found: (Vec<Expr>, usize))
    requires
        i <= chars.len(),
    ensures
        i <= found.1 <= chars.len(),
        items(chars@, i as int) == (exprs_view(found.0@), (found.1 - i) as nat),
{
    let mut block: Vec<Expr> = Vec::new();
    let mut end: usize = i;
    match parse_expr(chars, i) {
        Some((first, stop)) => {
            block.push(first);
            end = stop;
            proof {
                lemma_exprs_view_push(Seq::empty(), first);
            }
        },
        None => {
            return (block, i);
        },
    }
    let ghost whole = items(chars@, i as int);
    let mut done = false;
    assert(exprs_view(block@) + more_items(chars@, end as int).0 =~= whole.0);
    while !done
        invariant
            i <= end <= chars.len(),
            whole == items(chars@, i as int),
            !done ==> whole.0 == exprs_view(block@) + more_items(chars@, end as int).0,
            !done ==> whole.1 == (end - i) + more_items(chars@, end as int).1,
            done ==> whole == (exprs_view(block@), (end - i) as nat),
        decreases chars.len() - end, if done { 0int } else { 1int },
    {
        let next = white_end(chars, end);
        if next > end {
            match parse_expr(chars, next) {
                Some((item, stop)) => {
                    let ghost before = exprs_view(block@);
                    let ghost earlier = block@;
                    block.push(item);
                    proof {
                        lemma_exprs_view_push(earlier, item);
                        assert(earlier.push(item) =~= block@);
                        let rest = more_items(chars@, stop as int).0;
                        assert(before + (seq![item@] + rest) =~= before.push(item@) + rest);
                    }
                    end = stop;
                },
                None => {
                    done = true;
                    assert(exprs_view(block@) + Seq::<SpecExpr>::empty() =~= exprs_view(block@));
                },
            }
        } else {
            done = true;
            assert(exprs_view(block@) + Seq::<SpecExpr>::empty() =~= exprs_view(block@));
        }
    }
    (block, end)
}

/// Parses a text: gives the program that the grammar finds in it, or says
/// where the text stops being a program. Places count characters.
pub fn program(input: &str) -> (parsed: Result<Program, ParseError>)
    ensures
        match parsed {
            Ok(p) => crate::grammar::program(input@) == Ok::<Seq<SpecExpr>, SpecParseError>(p@),
            Err(e) => crate::grammar::program(input@) == Err::<Seq<SpecExpr>, SpecParseError>(
                e@,
            ),
        },
{
    let chars = chars_of(input);
    let start = white_end(&chars, 0);
    let (block, stop) = parse_items(&chars, start);
    let end = white_end(&chars, stop);
    if end == chars.len() {
        Ok(Program { block: Block(block) })
    } else {
        let expected = if block.len() > 0 && end == stop {
            Expected::Whitespace
        } else {
            Expected::Expression
        };
        proof {
            crate::parser::lemma_exprs_view(block@);
        }
        Err(ParseError { position: end, expected })
    }
}

} // verus!
