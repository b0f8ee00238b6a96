//! What holds of every program, value and state.

use crate::names::{ascending, bind, lemma_bind, lemma_rank_at, lookup};
use crate::parser::{SpecComment, SpecExpr, SpecRef};
use crate::semantics::{
    call_function, eval, eval_loop, initial_scope, seed, seed_all, wrapping_sum, SpecError,
    State,
};
use crate::text::{lemma_lex_equal, lemma_lex_flip, lemma_lex_transitive, lex_lt, lex_order};
use crate::value::{Function, SpecValue, Tag};
use vstd::prelude::*;

verus! {

/// Every value equals itself: `eq(a, a)` is `true`.
pub proof fn law_eq_reflexive(a: SpecValue)
    ensures
        call_function(Function::EqBuiltin, seq![a, a]) == Ok::<SpecValue, SpecError>(
            SpecValue::Bool(true),
        ),
{
}

/// `eq(a, b)` is `eq(b, a)`.
pub proof fn law_eq_symmetric(a: SpecValue, b: SpecValue)
    ensures
        call_function(Function::EqBuiltin, seq![a, b]) == call_function(
            Function::EqBuiltin,
            seq![b, a],
        ),
{
}

/// `add(a, b)` is `add(b, a)` for all 128-bit integers.
pub proof fn law_add_commutative(a: int, b: int)
    requires
        i128::MIN <= a <= i128::MAX,
        i128::MIN <= b <= i128::MAX,
    ensures
        call_function(Function::AddBuiltin, seq![SpecValue::Int(a), SpecValue::Int(b)])
            == call_function(Function::AddBuiltin, seq![SpecValue::Int(b), SpecValue::Int(a)]),
        i128::MIN <= wrapping_sum(a, b) <= i128::MAX,
{
}

/// `add(add(a, b), c)` is `add(a, add(b, c))` for all 128-bit integers.
pub proof fn law_add_associative(a: int, b: int, c: int)
    requires
        i128::MIN <= a <= i128::MAX,
        i128::MIN <= b <= i128::MAX,
        i128::MIN <= c <= i128::MAX,
    ensures
        call_function(
            Function::AddBuiltin,
            seq![SpecValue::Int(wrapping_sum(a, b)), SpecValue::Int(c)],
        ) == call_function(
            Function::AddBuiltin,
            seq![SpecValue::Int(a), SpecValue::Int(wrapping_sum(b, c))],
        ),
        call_function(Function::AddBuiltin, seq![SpecValue::Int(a), SpecValue::Int(b)]) == Ok::<
            SpecValue,
            SpecError,
        >(SpecValue::Int(wrapping_sum(a, b))),
{
}

/// Assigning to a comment that exists a value that is no string fails with
/// a type mismatch, whatever the value is, and changes nothing.
pub proof fn law_comment_takes_strings_only(
    name: Seq<char>,
    value: SpecExpr,
    state: State,
)
    requires
        eval(value, state).result is Ok,
        !(eval(value, state).result->Ok_0 is String),
        lookup(eval(value, state).state.comments, name) is Some,
    ensures
        ({
            let assignment = SpecExpr::Assignment {
                target: SpecRef::CommentRef(name),
                value: Box::new(value),
            };
            &&& eval(assignment, state).result == Err::<SpecValue, SpecError>(
                SpecError::TypeMismatch { expected: Tag::String },
            )
            &&& eval(assignment, state).state == eval(value, state).state
        }),
{
}

/// Assigning to a comment that does not exist fails with an undefined
/// reference, whatever is assigned, and changes nothing.
pub proof fn law_comments_are_not_created(
    name: Seq<char>,
    value: SpecExpr,
    state: State,
)
    requires
        eval(value, state).result is Ok,
        lookup(eval(value, state).state.comments, name) is None,
    ensures
        ({
            let assignment = SpecExpr::Assignment {
                target: SpecRef::CommentRef(name),
                value: Box::new(value),
            };
            &&& eval(assignment, state).result == Err::<SpecValue, SpecError>(
                SpecError::UndefinedReference(SpecRef::CommentRef(name)),
            )
            &&& eval(assignment, state).state == eval(value, state).state
        }),
{
}

/// A loop whose condition is false at once has gone round zero times,
/// whatever its body is.
pub proof fn law_loop_not_entered(
    cond: SpecExpr,
    body: Seq<SpecExpr>,
    state: State,
)
    requires
        eval(cond, state).result == Ok::<SpecValue, SpecError>(SpecValue::Bool(false)),
    ensures
        ({
            let looped = SpecExpr::While { cond: Box::new(cond), body };
            &&& eval(looped, state).result == Ok::<SpecValue, SpecError>(SpecValue::Int(0))
            &&& eval(looped, state).state == eval(cond, state).state
        }),
{
    let looped = SpecExpr::While { cond: Box::new(cond), body };
    assert(eval(looped, state) == eval_loop(looped, state, 0));
}

/// Making a comment known whose name is known already fails, also when
/// other comments are made known before it.
proof fn lemma_known_name_fails(
    comments: Seq<(Seq<char>, Seq<char>)>,
    found: Seq<SpecComment>,
    name: Seq<char>,
    at: int,
)
    requires
        ascending(comments),
        lookup(comments, name) is Some,
        0 <= at < found.len(),
        found[at].name == Some(name),
    ensures
        seed_all(comments, found).result matches Err(SpecError::DuplicateCommentName(_)),
    decreases found.len(),
{
    let first = seed(comments, found[0]);
    if first.result is Ok {
        assert(at > 0);
        match found[0].name {
            Some(other) => {
                lemma_bind(comments, other, found[0].body);
            },
            None => {},
        }
        let rest = found.drop_first();
        assert(rest[at - 1] == found[at]);
        lemma_known_name_fails(first.comments, rest, name, at - 1);
    }
}

/// Where two of the comments found have the same name, making them known
/// fails with a duplicate comment name, whatever was known before.
pub proof fn law_duplicate_names_fail(
    comments: Seq<(Seq<char>, Seq<char>)>,
    found: Seq<SpecComment>,
    i: int,
    j: int,
)
    requires
        ascending(comments),
        0 <= i < j < found.len(),
        found[i].name is Some,
        found[i].name == found[j].name,
    ensures
        seed_all(comments, found).result matches Err(SpecError::DuplicateCommentName(_)),
    decreases found.len(),
{
    let first = seed(comments, found[0]);
    let rest = found.drop_first();
    if first.result is Ok {
        match found[0].name {
            Some(other) => {
                lemma_bind(comments, other, found[0].body);
            },
            None => {},
        }
        assert(rest[j - 1] == found[j]);
        if i == 0 {
            lemma_known_name_fails(first.comments, rest, found[0].name->Some_0, j - 1);
        } else {
            assert(rest[i - 1] == found[i]);
            law_duplicate_names_fail(first.comments, rest, i - 1, j - 1);
        }
    }
}

/// A name that comes behind the first `at` names and before the next is
/// bound as a new entry at `at`.
proof fn lemma_bind_new<M>(entries: Seq<(Seq<char>, M)>, name: Seq<char>, value: M, at: int)
    requires
        0 <= at <= entries.len(),
        forall|i: int| 0 <= i < at ==> lex_lt(#[trigger] entries[i].0, name),
        at < entries.len() ==> lex_lt(name, entries[at].0),
    ensures
        bind(entries, name, value) == entries.insert(at, (name, value)),
{
    if at < entries.len() {
        lemma_lex_flip(name, entries[at].0);
        lemma_lex_equal(entries[at].0, name);
    }
    lemma_rank_at(entries, name, at);
}

/// The variables of a new interpreter, as they stand in its scope.
pub proof fn lemma_initial_scope()
    ensures
        initial_scope() == seq![
            ("add"@, SpecValue::Function(Function::AddBuiltin)),
            ("cat"@, SpecValue::Function(Function::CatBuiltin)),
            ("chr"@, SpecValue::Function(Function::ChrBuiltin)),
            ("eq"@, SpecValue::Function(Function::EqBuiltin)),
            ("false"@, SpecValue::Bool(false)),
            ("not"@, SpecValue::Function(Function::NotBuiltin)),
            ("print"@, SpecValue::Function(Function::PrintBuiltin)),
            ("show"@, SpecValue::Function(Function::ShowBuiltin)),
            ("true"@, SpecValue::Bool(true)),
        ],
{
    reveal_strlit("add");
    reveal_strlit("cat");
    reveal_strlit("chr");
    reveal_strlit("eq");
    reveal_strlit("false");
    reveal_strlit("not");
    reveal_strlit("print");
    reveal_strlit("show");
    reveal_strlit("true");
    reveal_with_fuel(lex_order, 3);
    let add = ("add"@, SpecValue::Function(Function::AddBuiltin));
    let cat = ("cat"@, SpecValue::Function(Function::CatBuiltin));
    let chr = ("chr"@, SpecValue::Function(Function::ChrBuiltin));
    let eq = ("eq"@, SpecValue::Function(Function::EqBuiltin));
    let no = ("false"@, SpecValue::Bool(false));
    let not = ("not"@, SpecValue::Function(Function::NotBuiltin));
    let print = ("print"@, SpecValue::Function(Function::PrintBuiltin));
    let show = ("show"@, SpecValue::Function(Function::ShowBuiltin));
    let yes = ("true"@, SpecValue::Bool(true));
    assert(lex_lt(add.0, eq.0) && lex_lt(eq.0, not.0) && lex_lt(not.0, print.0) && lex_lt(
        print.0,
        show.0,
    ) && lex_lt(show.0, yes.0));
    assert(lex_lt(add.0, cat.0) && lex_lt(cat.0, chr.0) && lex_lt(chr.0, eq.0));
    assert(lex_lt(eq.0, no.0) && lex_lt(no.0, not.0));
    lemma_lex_transitive(add.0, eq.0, not.0);
    lemma_lex_transitive(add.0, not.0, print.0);
    lemma_lex_transitive(add.0, print.0, show.0);
    lemma_lex_transitive(add.0, show.0, yes.0);
    lemma_lex_transitive(eq.0, not.0, print.0);
    lemma_lex_transitive(eq.0, print.0, show.0);
    lemma_lex_transitive(eq.0, show.0, yes.0);
    lemma_lex_transitive(not.0, print.0, show.0);
    lemma_lex_transitive(not.0, show.0, yes.0);
    lemma_lex_transitive(print.0, show.0, yes.0);
    lemma_lex_transitive(add.0, cat.0, chr.0);
    lemma_lex_transitive(cat.0, chr.0, eq.0);
    lemma_lex_transitive(cat.0, eq.0, yes.0);
    lemma_lex_transitive(chr.0, eq.0, yes.0);
    lemma_lex_transitive(add.0, eq.0, no.0);
    lemma_lex_transitive(cat.0, eq.0, no.0);
    lemma_lex_transitive(chr.0, eq.0, no.0);
    let s0 = Seq::<(Seq<char>, SpecValue)>::empty();
    let s1 = seq![add];
    let s2 = seq![add, eq];
    let s3 = seq![add, eq, not];
    let s4 = seq![add, eq, not, print];
    let s5 = seq![add, eq, not, print, show];
    let s6 = seq![add, chr, eq, not, print, show];
    let s7 = seq![add, cat, chr, eq, not, print, show];
    let s8 = seq![add, cat, chr, eq, not, print, show, yes];
    let s9 = seq![add, cat, chr, eq, no, not, print, show, yes];
    lemma_bind_new(s0, add.0, add.1, 0);
    assert(s0.insert(0, add) =~= s1);
    lemma_bind_new(s1, eq.0, eq.1, 1);
    assert(s1.insert(1, eq) =~= s2);
    lemma_bind_new(s2, not.0, not.1, 2);
    assert(s2.insert(2, not) =~= s3);
    lemma_bind_new(s3, print.0, print.1, 3);
    assert(s3.insert(3, print) =~= s4);
    lemma_bind_new(s4, show.0, show.1, 4);
    assert(s4.insert(4, show) =~= s5);
    lemma_bind_new(s5, chr.0, chr.1, 1);
    assert(s5.insert(1, chr) =~= s6);
    lemma_bind_new(s6, cat.0, cat.1, 1);
    assert(s6.insert(1, cat) =~= s7);
    lemma_bind_new(s7, yes.0, yes.1, 7);
    assert(s7.insert(7, yes) =~= s8);
    lemma_bind_new(s8, no.0, no.1, 4);
    assert(s8.insert(4, no) =~= s9);
}

} // verus!
