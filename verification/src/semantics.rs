//! What evaluation means: the state of an interpreter, and the value and the
//! new state that each expression gives.

use crate::names::{bind, lookup};
use crate::parser::{SpecComment, SpecExpr, SpecRef};
use crate::table::{clean_table_text, printable};
use crate::text::trim_end;
use crate::value::{debug_text, show_text, Function, SpecValue, Tag};
use vstd::prelude::*;

verus! {

/// Why an evaluation failed.
pub ghost enum SpecError {
    /// A variable or a comment was read or assigned that does not exist.
    UndefinedReference(SpecRef),
    /// A value was not of the kind that the operation needs.
    TypeMismatch { expected: Tag },
    /// Two comments have this name.
    DuplicateCommentName(Seq<char>),
    /// A call has no argument at this position.
    ArityError { position: nat },
    /// A value of this kind was called.
    NotCallable { found: Tag },
    /// `chr` was given a byte that is no character by itself.
    EncodingError,
    /// A block without expressions was evaluated.
    EmptyBlock,
    /// A loop has gone round as often as a 128-bit integer can count, and
    /// its condition still holds.
    CounterOverflow,
}

/// The state of an interpreter.
pub ghost struct State {
    /// The variables, by ascending name.
    pub scope: Seq<(Seq<char>, SpecValue)>,
    /// The named comments with their present bodies, by ascending name.
    pub comments: Seq<(Seq<char>, Seq<char>)>,
    /// The lines that `print` has written so far.
    pub output: Seq<Seq<char>>,
}

/// What the evaluation of an expression gives.
pub ghost struct Outcome {
    pub result: Result<SpecValue, SpecError>,
    pub state: State,
}

/// What the evaluation of a sequence of expressions gives.
pub ghost struct Outcomes {
    pub result: Result<Seq<SpecValue>, SpecError>,
    pub state: State,
}

/// The variables that every interpreter starts with: the functions `add`,
/// `eq`, `not`, `print`, `show`, `chr` and `cat`, and the booleans `true` and
/// `false`.
pub open spec fn initial_scope() -> Seq<(Seq<char>, SpecValue)> {
    let scope = Seq::<(Seq<char>, SpecValue)>::empty();
    let scope = bind(scope, "add"@, SpecValue::Function(Function::AddBuiltin));
    let scope = bind(scope, "eq"@, SpecValue::Function(Function::EqBuiltin));
    let scope = bind(scope, "not"@, SpecValue::Function(Function::NotBuiltin));
    let scope = bind(scope, "print"@, SpecValue::Function(Function::PrintBuiltin));
    let scope = bind(scope, "show"@, SpecValue::Function(Function::ShowBuiltin));
    let scope = bind(scope, "chr"@, SpecValue::Function(Function::ChrBuiltin));
    let scope = bind(scope, "cat"@, SpecValue::Function(Function::CatBuiltin));
    let scope = bind(scope, "true"@, SpecValue::Bool(true));
    bind(scope, "false"@, SpecValue::Bool(false))
}

/// The state of a new interpreter: the first variables, no comments, and
/// nothing written.
pub open spec fn initial_state() -> State {
    State { scope: initial_scope(), comments: Seq::empty(), output: Seq::empty() }
}

/// What making comments known to an interpreter gives.
pub ghost struct Seeded {
    pub result: Result<(), SpecError>,
    pub comments: Seq<(Seq<char>, Seq<char>)>,
}

/// Makes one comment known. A comment without a name changes nothing. A
/// name that is known already is a failure; else the name is bound to the
/// comment's body.
pub open spec fn seed(comments: Seq<(Seq<char>, Seq<char>)>, comment: SpecComment) -> Seeded {
    match comment.name {
        None => Seeded { result: Ok(()), comments },
        Some(name) => if lookup(comments, name) is Some {
            Seeded { result: Err(SpecError::DuplicateCommentName(name)), comments }
        } else {
            Seeded { result: Ok(()), comments: bind(comments, name, comment.body) }
        },
    }
}

/// Makes comments known in order, up to the first failure.
pub open spec fn seed_all(comments: Seq<(Seq<char>, Seq<char>)>, found: Seq<SpecComment>) -> Seeded
    decreases found.len(),
{
    if found.len() == 0 {
        Seeded { result: Ok(()), comments }
    } else {
        let first = seed(comments, found[0]);
        match first.result {
            Err(_) => first,
            Ok(_) => seed_all(first.comments, found.drop_first()),
        }
    }
}

/// The text that every help text starts with.
pub const WELCOME_TEXT: &'static str =
    "Help for the Zac Programming Language (https://github.com/sumeet/Zac)\n\nDefine a comment with the first line set to an identifier (like #help) and it will be a first-class\nstring usable inside of your program. You can read from it, and if you write to it, the change will\nbe reflected inside the source file.";

/// How many names stand in one row of a table of names.
pub const CHUNK_SIZE: usize = 10;

/// The names in `scope` that are bound to a function (`functions` is true)
/// or to anything else (`functions` is false), in the order of `scope`.
pub open spec fn names_bound(scope: Seq<(Seq<char>, SpecValue)>, functions: bool) -> Seq<
    Seq<char>,
>
    decreases scope.len(),
{
    if scope.len() == 0 {
        Seq::empty()
    } else {
        let before = names_bound(scope.drop_last(), functions);
        if (scope.last().1 is Function) == functions {
            before.push(scope.last().0)
        } else {
            before
        }
    }
}

/// `names` cut into rows of `width` names; the last row may be shorter.
pub open spec fn chunked(names: Seq<Seq<char>>, width: nat) -> Seq<Seq<Seq<char>>>
    decreases names.len(),
{
    if names.len() == 0 || width == 0 {
        Seq::empty()
    } else if names.len() <= width {
        seq![names]
    } else {
        seq![names.take(width as int)] + chunked(names.skip(width as int), width)
    }
}

/// The table printer can take every name in `scope`.
pub open spec fn tabulable(scope: Seq<(Seq<char>, SpecValue)>) -> bool {
    forall|i: int| 0 <= i < scope.len() ==> printable((#[trigger] scope[i]).0)
}

/// The help text around two tables: the welcome text, the table of the
/// functions and the table of the other variables, each under its heading,
/// without white space at the end.
pub open spec fn help_of(functions: Seq<char>, variables: Seq<char>) -> Seq<char> {
    trim_end(
        WELCOME_TEXT@ + "\n\nBuiltin functions:\n"@ + functions + "\nAvailable variables\n"@
            + variables,
    )
}

/// The help text for a scope: [`help_of`] the table of the names bound to
/// functions and the table of the other names, each in rows of
/// [`CHUNK_SIZE`].
pub open spec fn help_text(scope: Seq<(Seq<char>, SpecValue)>) -> Seq<char> {
    help_of(
        clean_table_text(chunked(names_bound(scope, true), CHUNK_SIZE as nat)),
        clean_table_text(chunked(names_bound(scope, false), CHUNK_SIZE as nat)),
    )
}

/// The body of the comment `name` where the interpreter makes it up: only
/// `help` is such a comment, wherever the table printer can take the names
/// of the scope.
pub open spec fn builtin_comment_text(scope: Seq<(Seq<char>, SpecValue)>, name: Seq<char>) -> Option<
    Seq<char>,
> {
    if name == "help"@ && tabulable(scope) {
        Some(help_text(scope))
    } else {
        None
    }
}

/// The value of a reference. The comments that the interpreter makes up
/// come before those of the program.
pub open spec fn read_ref(r: SpecRef, state: State) -> Result<SpecValue, SpecError> {
    match r {
        SpecRef::CommentRef(name) => match builtin_comment_text(state.scope, name) {
            Some(text) => Ok(SpecValue::String(text)),
            None => match lookup(state.comments, name) {
                Some(body) => Ok(SpecValue::String(body)),
                None => Err(SpecError::UndefinedReference(r)),
            },
        },
        SpecRef::VarRef(name) => match lookup(state.scope, name) {
            Some(value) => Ok(value),
            None => Err(SpecError::UndefinedReference(r)),
        },
    }
}

/// Assigns `value` to `target`. A variable is made or overwritten. A
/// comment must exist and the value must be a string, which becomes its
/// body. The assignment has the value assigned.
pub open spec fn assign(target: SpecRef, value: SpecValue, state: State) -> Outcome {
    match target {
        SpecRef::CommentRef(name) => if lookup(state.comments, name) is None {
            Outcome { result: Err(SpecError::UndefinedReference(target)), state }
        } else {
            match value {
                SpecValue::String(body) => Outcome {
                    result: Ok(value),
                    state: State { comments: bind(state.comments, name, body), ..state },
                },
                _ => Outcome {
                    result: Err(SpecError::TypeMismatch { expected: Tag::String }),
                    state,
                },
            }
        },
        SpecRef::VarRef(name) => Outcome {
            result: Ok(value),
            state: State { scope: bind(state.scope, name, value), ..state },
        },
    }
}

/// The argument at `position`.
pub open spec fn argument(args: Seq<SpecValue>, position: nat) -> Result<SpecValue, SpecError> {
    if position < args.len() {
        Ok(args[position as int])
    } else {
        Err(SpecError::ArityError { position })
    }
}

/// The argument at `position`, which must be an integer.
pub open spec fn int_argument(args: Seq<SpecValue>, position: nat) -> Result<int, SpecError> {
    match argument(args, position) {
        Ok(SpecValue::Int(n)) => Ok(n),
        Ok(_) => Err(SpecError::TypeMismatch { expected: Tag::Int }),
        Err(e) => Err(e),
    }
}

/// The argument at `position`, which must be a boolean.
pub open spec fn bool_argument(args: Seq<SpecValue>, position: nat) -> Result<bool, SpecError> {
    match argument(args, position) {
        Ok(SpecValue::Bool(b)) => Ok(b),
        Ok(_) => Err(SpecError::TypeMismatch { expected: Tag::Bool }),
        Err(e) => Err(e),
    }
}

/// The sum of two 128-bit integers as 128-bit arithmetic gives it: where it
/// leaves the range at one end, it comes back in at the other.
pub open spec fn wrapping_sum(a: int, b: int) -> int {
    if a + b > i128::MAX {
        a + b - 0x1_0000_0000_0000_0000_0000_0000_0000_0000
    } else if a + b < i128::MIN {
        a + b + 0x1_0000_0000_0000_0000_0000_0000_0000_0000
    } else {
        a + b
    }
}

/// The strings in `args` one after the other, or the failure at the first
/// argument that is no string.
pub open spec fn concatenation(args: Seq<SpecValue>) -> Result<Seq<char>, SpecError>
    decreases args.len(),
{
    if args.len() == 0 {
        Ok(Seq::empty())
    } else {
        match concatenation(args.drop_last()) {
            Err(e) => Err(e),
            Ok(text) => match args.last() {
                SpecValue::String(s) => Ok(text + s),
                _ => Err(SpecError::TypeMismatch { expected: Tag::String }),
            },
        }
    }
}

/// What a function returns for its arguments.
pub open spec fn call_function(f: Function, args: Seq<SpecValue>) -> Result<
    SpecValue,
    SpecError,
> {
    match f {
        Function::AddBuiltin => match int_argument(args, 0) {
            Err(e) => Err(e),
            Ok(a) => match int_argument(args, 1) {
                Err(e) => Err(e),
                Ok(b) => Ok(SpecValue::Int(wrapping_sum(a, b))),
            },
        },
        Function::EqBuiltin => match argument(args, 0) {
            Err(e) => Err(e),
            Ok(a) => match argument(args, 1) {
                Err(e) => Err(e),
                Ok(b) => Ok(SpecValue::Bool(a == b)),
            },
        },
        Function::NotBuiltin => match bool_argument(args, 0) {
            Err(e) => Err(e),
            Ok(b) => Ok(SpecValue::Bool(!b)),
        },
        Function::PrintBuiltin => argument(args, 0),
        Function::ShowBuiltin => match argument(args, 0) {
            Err(e) => Err(e),
            Ok(a) => Ok(SpecValue::String(show_text(a))),
        },
        Function::ChrBuiltin => match int_argument(args, 0) {
            Err(e) => Err(e),
            Ok(n) => if n % 256 < 128 {
                Ok(SpecValue::String(seq![(n % 256) as char]))
            } else {
                Err(SpecError::EncodingError)
            },
        },
        Function::CatBuiltin => match concatenation(args) {
            Err(e) => Err(e),
            Ok(text) => Ok(SpecValue::String(text)),
        },
    }
}

/// What a call of a function gives. `print` adds the debug rendering of its
/// argument to the output; no other function changes the state.
pub open spec fn apply(f: Function, args: Seq<SpecValue>, state: State) -> Outcome {
    Outcome {
        result: call_function(f, args),
        state: if f == Function::PrintBuiltin && args.len() > 0 {
            State { output: state.output.push(debug_text(args[0])), ..state }
        } else {
            state
        },
    }
}

/// What a call of a string gives: the character at the position that the
/// first argument names, as a string, or `false` where the string has no
/// such position.
pub open spec fn index_string(text: Seq<char>, args: Seq<SpecValue>) -> Result<
    SpecValue,
    SpecError,
> {
    match int_argument(args, 0) {
        Err(e) => Err(e),
        Ok(at) => if 0 <= at < text.len() {
            Ok(SpecValue::String(seq![text[at]]))
        } else {
            Ok(SpecValue::Bool(false))
        },
    }
}

/// What a call of `callee` with `args` gives.
pub open spec fn call(callee: SpecValue, args: Seq<SpecValue>, state: State) -> Outcome {
    match callee {
        SpecValue::Function(f) => apply(f, args, state),
        SpecValue::String(text) => Outcome { result: index_string(text, args), state },
        _ => Outcome { result: Err(SpecError::NotCallable { found: callee.tag() }), state },
    }
}

/// The value of a comment where it stands in the program: the present body
/// of the comment of that name, or its own body where it has no name or was
/// not made known to the interpreter.
pub open spec fn comment_body(
    name: Option<Seq<char>>,
    body: Seq<char>,
    comments: Seq<(Seq<char>, Seq<char>)>,
) -> Seq<char> {
    match name {
        Some(name) => match lookup(comments, name) {
            Some(present) => present,
            None => body,
        },
        None => body,
    }
}

/// How far a loop can count its rounds: the largest 128-bit integer. This
/// is no bound of the language but the end of the machine's counter.
pub open spec fn counter_max() -> nat {
    i128::MAX as nat
}

/// The value of `expr` in `state`, and the state after it.
pub open spec fn eval(expr: SpecExpr, state: State) -> Outcome
    decreases expr, counter_max() + 1,
{
    match expr {
        SpecExpr::Block(items) => eval_block(items, state),
        SpecExpr::Comment(comment) => Outcome {
            result: Ok(
                SpecValue::String(comment_body(comment.name, comment.body, state.comments)),
            ),
            state,
        },
        SpecExpr::Assignment { target, value } => {
            let valued = eval(*value, state);
            match valued.result {
                Err(_) => valued,
                Ok(v) => assign(target, v, valued.state),
            }
        },
        SpecExpr::IntLiteral(n) => Outcome { result: Ok(SpecValue::Int(n)), state },
        SpecExpr::Ref(r) => Outcome { result: read_ref(r, state), state },
        SpecExpr::FunctionCall { target, args } => match read_ref(target, state) {
            Err(e) => Outcome { result: Err(e), state },
            Ok(callee) => {
                let evaluated = eval_all(args, state);
                match evaluated.result {
                    Err(e) => Outcome { result: Err(e), state: evaluated.state },
                    Ok(values) => call(callee, values, evaluated.state),
                }
            },
        },
        SpecExpr::While { .. } => eval_loop(expr, state, 0),
        SpecExpr::If { cond, body } => {
            let tested = eval(*cond, state);
            match tested.result {
                Err(_) => tested,
                Ok(SpecValue::Bool(true)) => {
                    let done = eval_block(body, tested.state);
                    match done.result {
                        Err(_) => done,
                        Ok(_) => Outcome { result: Ok(SpecValue::Bool(true)), state: done.state },
                    }
                },
                Ok(SpecValue::Bool(false)) => tested,
                Ok(_) => Outcome {
                    result: Err(SpecError::TypeMismatch { expected: Tag::Bool }),
                    state: tested.state,
                },
            }
        },
    }
}

/// The values of `items`, evaluated from left to right, each in the state
/// that the one before it left. The first failure ends the evaluation.
pub open spec fn eval_all(items: Seq<SpecExpr>, state: State) -> Outcomes
    decreases items, 0nat,
{
    if items.len() == 0 {
        Outcomes { result: Ok(Seq::empty()), state }
    } else {
        let before = eval_all(items.drop_last(), state);
        match before.result {
            Err(_) => before,
            Ok(values) => {
                let last = eval(items.last(), before.state);
                match last.result {
                    Err(e) => Outcomes { result: Err(e), state: last.state },
                    Ok(v) => Outcomes { result: Ok(values.push(v)), state: last.state },
                }
            },
        }
    }
}

/// The value of a block: that of its last expression, after all the others
/// have been evaluated in order. An empty block fails.
pub open spec fn eval_block(items: Seq<SpecExpr>, state: State) -> Outcome
    decreases items, 1nat,
{
    if items.len() == 0 {
        Outcome { result: Err(SpecError::EmptyBlock), state }
    } else {
        let all = eval_all(items, state);
        match all.result {
            Err(e) => Outcome { result: Err(e), state: all.state },
            Ok(values) => Outcome { result: Ok(values.last()), state: all.state },
        }
    }
}

/// The value of the loop `expr` that has gone round `rounds` times: the
/// condition is evaluated and must be a boolean; while it is true the body
/// is evaluated and the loop goes round once more; when it is false the
/// loop has the number of its rounds. The loop goes on for as long as its
/// condition holds; only where its rounds have reached [`counter_max`] and
/// cannot be counted further does it fail.
pub open spec fn eval_loop(expr: SpecExpr, state: State, rounds: nat) -> Outcome
    decreases expr, counter_max() - rounds,
{
    match expr {
        SpecExpr::While { cond, body } => {
            let tested = eval(*cond, state);
            match tested.result {
                Err(_) => tested,
                Ok(SpecValue::Bool(true)) => if rounds >= counter_max() {
                    Outcome { result: Err(SpecError::CounterOverflow), state: tested.state }
                } else {
                    let done = eval_block(body, tested.state);
                    match done.result {
                        Err(_) => done,
                        Ok(_) => eval_loop(expr, done.state, rounds + 1),
                    }
                },
                Ok(SpecValue::Bool(false)) => Outcome {
                    result: Ok(SpecValue::Int(rounds as int)),
                    state: tested.state,
                },
                Ok(_) => Outcome {
                    result: Err(SpecError::TypeMismatch { expected: Tag::Bool }),
                    state: tested.state,
                },
            }
        },
        _ => Outcome { result: Ok(SpecValue::Int(rounds as int)), state },
    }
}

} // verus!
