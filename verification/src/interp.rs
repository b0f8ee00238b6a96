//! The interpreter: its state, the functions it starts with, and the
//! evaluation of expressions.

use crate::error::{result_view, Error};
use crate::names::NameTable;
use crate::parser::{
    clone_ref, comment_views, exprs_view, find_comments, lemma_exprs_view, seq_comments, Comment,
    Expr, Program, Ref, SpecExpr, While,
};
use crate::semantics::{
    apply, argument, assign, builtin_comment_text, call_function, chunked,
    comment_body, concatenation, eval, eval_all, eval_block, eval_loop, help_of, help_text,
    index_string,
    initial_state, names_bound, read_ref, seed, seed_all, tabulable, Outcomes, SpecError,
    State, CHUNK_SIZE, WELCOME_TEXT,
};
use crate::table::{can_print, clean_table_text, printable, render_clean_table};
use crate::text::{chars_of, same_text, texts, trim_end_string};
use crate::value::{
    clone_value, debug_string, debug_text, show_string, values_equal, values_view, Function,
    SpecValue, Tag, Value,
};
use vstd::prelude::*;

verus! {

/// An interpreter: the variables, the named comments, and what `print` has
/// written.
#[derive(Debug)]
pub struct Interpreter {
    scope: NameTable<Value>,
    comments: NameTable<String>,
    output: Vec<String>,
}

impl View for Interpreter {
    type V = State;

    closed spec fn view(&self) -> State {
        State {
            scope: self.scope@,
            comments: self.comments@,
            output: self.output.deep_view(),
        }
    }
}

/// Lays `names` out in rows of [`CHUNK_SIZE`].
fn tableize(names: &Vec<String>) -> (text: String)
    requires
        forall|i: int| 0 <= i < names.len() ==> printable((#[trigger] names[i])@),
    ensures
        text@ == clean_table_text(chunked(texts(names@), CHUNK_SIZE as nat)),
{
    let mut rows: Vec<Vec<String>> = Vec::new();
    let mut start: usize = 0;
    let ghost all = texts(names@);
    assert(all.skip(0) =~= all);
    assert(rows.deep_view() =~= Seq::<Seq<Seq<char>>>::empty());
    while start < names.len()
        invariant
            start <= names.len(),
            all == texts(names@),
            rows.deep_view() + chunked(all.skip(start as int), CHUNK_SIZE as nat) == chunked(
                all,
                CHUNK_SIZE as nat,
            ),
            forall|i: int| 0 <= i < names.len() ==> printable((#[trigger] names[i])@),
            forall|i: int, j: int|
                0 <= i < rows.len() && 0 <= j < rows[i].len() ==> printable(
                (#[trigger] rows[i][j])@,
            ),
        decreases names.len() - start,
    {
        let end: usize = if names.len() - start <= CHUNK_SIZE {
            names.len()
        } else {
            start + CHUNK_SIZE
        };
        let mut row: Vec<String> = Vec::new();
        let mut i: usize = start;
        while i < end
            invariant
                start <= i <= end <= names.len(),
                row.len() == i - start,
                forall|j: int| 0 <= j < row.len() ==> (#[trigger] row[j])@ == names[start + j]@,
            decreases end - i,
        {
            row.push(names[i].clone());
            i += 1;
        }
        let ghost before = rows.deep_view();
        let ghost rest = all.skip(start as int);
        rows.push(row);
        proof {
            assert(row.deep_view() =~= rest.take(end - start));
            assert(rows.deep_view() =~= before.push(row.deep_view()));
            if names.len() - start <= CHUNK_SIZE {
                assert(rest.take(end - start) =~= rest);
                assert(all.skip(end as int) =~= Seq::<Seq<char>>::empty());
                assert(before.push(rest) + Seq::<Seq<Seq<char>>>::empty() =~= before + seq![rest]);
            } else {
                assert(rest.skip(CHUNK_SIZE as int) =~= all.skip(end as int));
                assert(before.push(rest.take(CHUNK_SIZE as int)) + chunked(
                    all.skip(end as int),
                    CHUNK_SIZE as nat,
                ) =~= before + (seq![rest.take(CHUNK_SIZE as int)] + chunked(
                    rest.skip(CHUNK_SIZE as int),
                    CHUNK_SIZE as nat,
                )));
            }
            assert forall|a: int, b: int|
                0 <= a < rows.len() && 0 <= b < rows[a].len() implies printable(
                (#[trigger] rows[a][b])@,
            ) by {
                if a == rows.len() - 1 {
                    assert(rows[a][b]@ == names[start + b]@);
                }
            }
        }
        start = end;
    }
    assert(rows.deep_view() =~= chunked(all, CHUNK_SIZE as nat)) by {
        assert(all.skip(start as int) =~= Seq::<Seq<char>>::empty());
    }
    render_clean_table(&rows)
}

/// Puts the help text together around the table of the functions and the
/// table of the other variables.
pub fn compose_help(functions: &str, variables: &str) -> (text: String)
    ensures
        text@ == help_of(functions@, variables@),
{
    let mut txt = String::new();
    txt.append(WELCOME_TEXT);
    txt.append("\n\nBuiltin functions:\n");
    txt.append(functions);
    txt.append("\nAvailable variables\n");
    txt.append(variables);
    trim_end_string(txt.as_str())
}

/// The help text for the variables of `interp`, or nothing where the table
/// printer cannot take one of their names.
pub fn generate_help_text(interp: &Interpreter) -> (text: Option<String>)
    ensures
        match text {
            Some(text) => tabulable(interp@.scope) && text@ == help_text(interp@.scope),
            None => !tabulable(interp@.scope),
        },
{
    let mut function_names: Vec<String> = Vec::new();
    let mut variable_names: Vec<String> = Vec::new();
    let ghost scope = interp@.scope;
    let mut i: usize = 0;
    assert(scope.take(0) =~= Seq::<(Seq<char>, SpecValue)>::empty());
    assert(texts(function_names@) =~= names_bound(scope.take(0), true));
    assert(texts(variable_names@) =~= names_bound(scope.take(0), false));
    while i < interp.scope.len()
        invariant
            i <= scope.len(),
            scope == interp.scope@,
            texts(function_names@) == names_bound(scope.take(i as int), true),
            texts(variable_names@) == names_bound(scope.take(i as int), false),
            forall|j: int| 0 <= j < i ==> printable((#[trigger] scope[j]).0),
            forall|j: int|
                0 <= j < function_names.len() ==> printable((#[trigger] function_names[j])@),
            forall|j: int|
                0 <= j < variable_names.len() ==> printable((#[trigger] variable_names[j])@),
        decreases scope.len() - i,
    {
        let name = interp.scope.name_at(i);
        if !can_print(name.as_str()) {
            return None;
        }
        let ghost functions = function_names@;
        let ghost variables = variable_names@;
        let is_function = interp.scope.value_at(i).as_func().is_ok();
        if is_function {
            function_names.push(name.clone());
            assert(texts(function_names@) =~= texts(functions).push(name@));
        } else {
            variable_names.push(name.clone());
            assert(texts(variable_names@) =~= texts(variables).push(name@));
        }
        i += 1;
        proof {
            assert(scope.take(i as int).drop_last() =~= scope.take(i - 1));
            assert(scope.take(i as int).last() == scope[i - 1]);
        }
    }
    assert(scope.take(i as int) =~= scope);
    let functions = tableize(&function_names);
    let variables = tableize(&variable_names);
    Some(compose_help(functions.as_str(), variables.as_str()))
}

/// The body of the comment `name` where the interpreter makes it up: the
/// help text for `help`, where that can be laid out.
pub fn builtin_comment(interpreter: &Interpreter, name: &str) -> (body: Option<String>)
    ensures
        match body {
            Some(text) => builtin_comment_text(interpreter@.scope, name@) == Some(text@),
            None => builtin_comment_text(interpreter@.scope, name@) is None,
        },
{
    if same_text(name, "help") {
        generate_help_text(interpreter)
    } else {
        None
    }
}

/// The model of a sequence of values or a failure.
pub open spec fn results_view(result: Result<Vec<Value>, Error>) -> Result<
    Seq<SpecValue>,
    SpecError,
> {
    match result {
        Ok(values) => Ok(values_view(values@)),
        Err(error) => Err(error@),
    }
}

/// The argument at position `n`.
pub fn get_arg(args: &[Value], n: usize) -> (arg: Result<&Value, Error>)
    ensures
        match arg {
            Ok(value) => argument(values_view(args@), n as nat) == Ok::<SpecValue, SpecError>(
                value@,
            ),
            Err(e) => argument(values_view(args@), n as nat) == Err::<SpecValue, SpecError>(e@),
        },
{
    if n < args.len() {
        Ok(&args[n])
    } else {
        Err(Error::ArityError { position: n })
    }
}

fn call_add(args: &[Value]) -> (res: Result<Value, Error>)
    ensures
        result_view(res) == call_function(Function::AddBuiltin, values_view(args@)),
{
    let lhs = match get_arg(args, 0) {
        Ok(value) => match value.as_num() {
            Ok(n) => n,
            Err(e) => {
                return Err(e);
            },
        },
        Err(e) => {
            return Err(e);
        },
    };
    let rhs = match get_arg(args, 1) {
        Ok(value) => match value.as_num() {
            Ok(n) => n,
            Err(e) => {
                return Err(e);
            },
        },
        Err(e) => {
            return Err(e);
        },
    };
    Ok(Value::Int(lhs.wrapping_add(rhs)))
}

fn call_eq(args: &[Value]) -> (res: Result<Value, Error>)
    ensures
        result_view(res) == call_function(Function::EqBuiltin, values_view(args@)),
{
    let lhs = match get_arg(args, 0) {
        Ok(value) => value,
        Err(e) => {
            return Err(e);
        },
    };
    let rhs = match get_arg(args, 1) {
        Ok(value) => value,
        Err(e) => {
            return Err(e);
        },
    };
    Ok(Value::Bool(values_equal(lhs, rhs)))
}

fn call_not(args: &[Value]) -> (res: Result<Value, Error>)
    ensures
        result_view(res) == call_function(Function::NotBuiltin, values_view(args@)),
{
    match get_arg(args, 0) {
        Ok(value) => match value.as_bool() {
            Ok(b) => Ok(Value::Bool(!b)),
            Err(e) => Err(e),
        },
        Err(e) => Err(e),
    }
}

fn call_show(args: &[Value]) -> (res: Result<Value, Error>)
    ensures
        result_view(res) == call_function(Function::ShowBuiltin, values_view(args@)),
{
    match get_arg(args, 0) {
        Ok(value) => Ok(Value::String(show_string(value))),
        Err(e) => Err(e),
    }
}

fn call_chr(args: &[Value]) -> (res: Result<Value, Error>)
    ensures
        result_view(res) == call_function(Function::ChrBuiltin, values_view(args@)),
{
    let n = match get_arg(args, 0) {
        Ok(value) => match value.as_num() {
            Ok(n) => n,
            Err(e) => {
                return Err(e);
            },
        },
        Err(e) => {
            return Err(e);
        },
    };
    match n.checked_rem_euclid(256) {
        Some(low) => {
            if low < 128 {
                let mut s = String::new();
                s.push(low as u8 as char);
                assert(s@ =~= seq![(n % 256) as char]);
                Ok(Value::String(s))
            } else {
                Err(Error::EncodingError)
            }
        },
        None => Err(Error::EncodingError),
    }
}

fn call_cat(args: &[Value]) -> (res: Result<Value, Error>)
    ensures
        result_view(res) == call_function(Function::CatBuiltin, values_view(args@)),
{
    let mut acc = String::new();
    let mut i: usize = 0;
    let ghost values = values_view(args@);
    assert(values.take(0) =~= Seq::<SpecValue>::empty());
    while i < args.len()
        invariant
            i <= args.len(),
            values == values_view(args@),
            concatenation(values.take(i as int)) == Ok::<Seq<char>, SpecError>(acc@),
        decreases args.len() - i,
    {
        proof {
            assert(values.take(i + 1).drop_last() =~= values.take(i as int));
            assert(values.take(i + 1).last() == args@[i as int]@);
        }
        match args[i].as_str() {
            Ok(s) => {
                acc.append(s);
            },
            Err(e) => {
                proof {
                    lemma_concatenation_failed(values, i + 1);
                }
                return Err(e);
            },
        }
        i += 1;
    }
    assert(values.take(i as int) =~= values);
    Ok(Value::String(acc))
}

proof fn lemma_concatenation_failed(values: Seq<SpecValue>, upto: int)
    requires
        0 <= upto <= values.len(),
        concatenation(values.take(upto)) is Err,
    ensures
        concatenation(values) == concatenation(values.take(upto)),
    decreases values.len() - upto,
{
    if upto < values.len() {
        assert(values.take(upto + 1).drop_last() =~= values.take(upto));
        lemma_concatenation_failed(values, upto + 1);
    } else {
        assert(values.take(upto) =~= values);
    }
}

impl Function {
    /// Calls the function with `args`.
    pub fn call(&self, interp: &mut Interpreter, args: &[Value]) -> (res: Result<Value, Error>)
        ensures
            final(interp)@ == apply(*self, values_view(args@), old(interp)@).state,
            result_view(res) == apply(*self, values_view(args@), old(interp)@).result,
    {
        match self {
            Function::AddBuiltin => call_add(args),
            Function::EqBuiltin => call_eq(args),
            Function::NotBuiltin => call_not(args),
            Function::PrintBuiltin => match get_arg(args, 0) {
                Ok(value) => {
                    let ghost before = interp.output.deep_view();
                    interp.output.push(debug_string(value));
                    assert(interp.output.deep_view() =~= before.push(debug_text(value@)));
                    Ok(clone_value(value))
                },
                Err(e) => Err(e),
            },
            Function::ShowBuiltin => call_show(args),
            Function::ChrBuiltin => call_chr(args),
            Function::CatBuiltin => call_cat(args),
        }
    }
}

/// What a call of the string `text` gives.
fn index_into(text: &str, args: &[Value]) -> (res: Result<Value, Error>)
    ensures
        result_view(res) == index_string(text@, values_view(args@)),
{
    let at = match get_arg(args, 0) {
        Ok(value) => match value.as_num() {
            Ok(n) => n,
            Err(e) => {
                return Err(e);
            },
        },
        Err(e) => {
            return Err(e);
        },
    };
    let chars = chars_of(text);
    if 0 <= at && at < chars.len() as i128 {
        let mut s = String::new();
        s.push(chars[at as usize]);
        assert(s@ =~= seq![text@[at as int]]);
        Ok(Value::String(s))
    } else {
        Ok(Value::Bool(false))
    }
}

proof fn lemma_eval_all_step(items: Seq<SpecExpr>, state: State, i: int)
    requires
        0 <= i < items.len(),
    ensures
        eval_all(items.take(i + 1), state) == ({
            let before = eval_all(items.take(i), state);
            match before.result {
                Err(_) => before,
                Ok(values) => {
                    let last = eval(items[i], before.state);
                    match last.result {
                        Err(e) => Outcomes { result: Err(e), state: last.state },
                        Ok(v) => Outcomes { result: Ok(values.push(v)), state: last.state },
                    }
                },
            }
        }),
{
    assert(items.take(i + 1).drop_last() =~= items.take(i));
    assert(items.take(i + 1).last() == items[i]);
}

proof fn lemma_eval_all_failed(items: Seq<SpecExpr>, state: State, i: int)
    requires
        0 <= i <= items.len(),
        eval_all(items.take(i), state).result is Err,
    ensures
        eval_all(items, state) == eval_all(items.take(i), state),
    decreases items.len() - i,
{
    if i < items.len() {
        lemma_eval_all_step(items, state, i);
        lemma_eval_all_failed(items, state, i + 1);
    } else {
        assert(items.take(i) =~= items);
    }
}

impl Interpreter {
    /// An interpreter with the first variables and without comments.
    pub fn new() -> (interp: Self)
        ensures
            interp@ == initial_state(),
    {
        let mut scope: NameTable<Value> = NameTable::new();
        scope.set("add".to_owned(), Value::Function(Function::AddBuiltin));
        scope.set("eq".to_owned(), Value::Function(Function::EqBuiltin));
        scope.set("not".to_owned(), Value::Function(Function::NotBuiltin));
        scope.set("print".to_owned(), Value::Function(Function::PrintBuiltin));
        scope.set("show".to_owned(), Value::Function(Function::ShowBuiltin));
        scope.set("chr".to_owned(), Value::Function(Function::ChrBuiltin));
        scope.set("cat".to_owned(), Value::Function(Function::CatBuiltin));
        scope.set("true".to_owned(), Value::Bool(true));
        scope.set("false".to_owned(), Value::Bool(false));
        let interp = Interpreter {
            scope,
            comments: NameTable::new(),
            output: Vec::new(),
        };
        assert(interp.output.deep_view() =~= Seq::<Seq<char>>::empty());
        interp
    }

    /// The named comments with their present bodies, by ascending name.
    pub fn comments(&self) -> (pairs: Vec<(String, String)>)
        ensures
            pairs.deep_view() == self@.comments,
    {
        let mut pairs: Vec<(String, String)> = Vec::new();
        let mut i: usize = 0;
        while i < self.comments.len()
            invariant
                i <= self.comments@.len(),
                pairs.len() == i,
                forall|j: int|
                    0 <= j < i ==> (#[trigger] pairs[j]).0@ == self.comments@[j].0 && pairs[j].1@
                        == self.comments@[j].1,
            decreases self.comments@.len() - i,
        {
            pairs.push((self.comments.name_at(i).clone(), self.comments.value_at(i).clone()));
            i += 1;
        }
        assert(pairs.deep_view() =~= self.comments@);
        pairs
    }

    /// Takes the lines that `print` has written since they were last taken.
    /// The interpreter writes nowhere itself: what a program writes is held
    /// until the host takes it here, which it can do only between two
    /// evaluations.
    pub fn take_output(&mut self) -> (lines: Vec<String>)
        ensures
            lines.deep_view() == old(self)@.output,
            final(self)@ == (State { output: Seq::empty(), ..old(self)@ }),
    {
        let mut lines: Vec<String> = Vec::new();
        std::mem::swap(&mut self.output, &mut lines);
        assert(self.output.deep_view() =~= Seq::<Seq<char>>::empty());
        lines
    }

    /// Makes a comment known, so that the program can read and assign it by
    /// its name. A comment without a name is passed over. A name that is
    /// known already is a failure that changes nothing.
    pub fn add_comment(&mut self, comment: &Comment) -> (res: Result<(), Error>)
        ensures
            final(self)@ == (State {
                comments: seed(old(self)@.comments, comment@).comments,
                ..old(self)@
            }),
            match res {
                Ok(_) => seed(old(self)@.comments, comment@).result is Ok,
                Err(e) => seed(old(self)@.comments, comment@).result == Err::<(), SpecError>(e@),
            },
    {
        match &comment.name {
            Some(name) => {
                if self.comments.contains(name.as_str()) {
                    return Err(Error::DuplicateCommentName(name.clone()));
                }
                self.comments.set(name.clone(), comment.body.clone());
                Ok(())
            },
            None => Ok(()),
        }
    }

    /// Makes every named comment of `program` known, in the order in which
    /// they stand in it, up to the first whose name is known already.
    pub fn seed_comments(&mut self, program: &Program) -> (res: Result<(), Error>)
        ensures
            final(self)@ == (State {
                comments: seed_all(old(self)@.comments, seq_comments(program@)).comments,
                ..old(self)@
            }),
            match res {
                Ok(_) => seed_all(old(self)@.comments, seq_comments(program@)).result is Ok,
                Err(e) => seed_all(old(self)@.comments, seq_comments(program@)).result == Err::<
                    (),
                    SpecError,
                >(e@),
            },
    {
        let found = find_comments(program);
        let ghost all = comment_views(found@);
        let ghost goal = seed_all(self@.comments, all);
        let mut i: usize = 0;
        assert(all.skip(0) =~= all);
        while i < found.len()
            invariant
                i <= found.len(),
                all == comment_views(found@),
                all == seq_comments(program@),
                goal == seed_all(old(self)@.comments, all),
                self@ == (State { comments: self@.comments, ..old(self)@ }),
                seed_all(self@.comments, all.skip(i as int)) == goal,
            decreases found.len() - i,
        {
            proof {
                assert(all.skip(i as int)[0] == found@[i as int]@);
                assert(all.skip(i as int).drop_first() =~= all.skip(i + 1));
            }
            match self.add_comment(found[i]) {
                Ok(_) => {},
                Err(e) => {
                    return Err(e);
                },
            }
            i += 1;
        }
        Ok(())
    }

    /// The value of a comment where it stands in the program.
    fn current_body(&self, comment: &Comment) -> (body: String)
        ensures
            body@ == comment_body(comment@.name, comment@.body, self@.comments),
    {
        match &comment.name {
            Some(name) => match self.comments.get(name.as_str()) {
                Some(present) => present.clone(),
                None => comment.body.clone(),
            },
            None => comment.body.clone(),
        }
    }

    /// The value of a reference.
    pub fn get_ref(&self, r: &Ref) -> (res: Result<Value, Error>)
        ensures
            result_view(res) == read_ref(r@, self@),
    {
        match r {
            Ref::CommentRef(name) => match builtin_comment(self, name.as_str()) {
                Some(text) => Ok(Value::String(text)),
                None => match self.comments.get(name.as_str()) {
                    Some(body) => Ok(Value::String(body.clone())),
                    None => Err(Error::UndefinedReference(clone_ref(r))),
                },
            },
            Ref::VarRef(name) => match self.scope.get(name.as_str()) {
                Some(value) => Ok(clone_value(value)),
                None => Err(Error::UndefinedReference(clone_ref(r))),
            },
        }
    }

    /// Assigns `value` to `target`.
    fn assign(&mut self, target: &Ref, value: Value) -> (res: Result<Value, Error>)
        ensures
            final(self)@ == assign(target@, value@, old(self)@).state,
            result_view(res) == assign(target@, value@, old(self)@).result,
    {
        match target {
            Ref::CommentRef(name) => {
                if !self.comments.contains(name.as_str()) {
                    return Err(Error::UndefinedReference(clone_ref(target)));
                }
                let body = match &value {
                    Value::String(s) => s.clone(),
                    _ => {
                        return Err(Error::TypeMismatch { expected: Tag::String });
                    },
                };
                self.comments.set(name.clone(), body);
                Ok(value)
            },
            Ref::VarRef(name) => {
                self.scope.set(name.clone(), clone_value(&value));
                Ok(value)
            },
        }
    }

    /// Evaluates `expr`: gives its value, or the failure that ended the
    /// evaluation, and leaves the interpreter in the state after it.
    pub fn interp(&mut self, expr: &Expr) -> (res: Result<Value, Error>)
        ensures
            final(self)@ == eval(expr@, old(self)@).state,
            result_view(res) == eval(expr@, old(self)@).result,
        decreases expr, 2int,
    {
        match expr {
            Expr::Block(block) => self.interp_block(&block.0),
            Expr::Comment(comment) => Ok(Value::String(self.current_body(comment))),
            Expr::Assignment(assignment) => match self.interp(&assignment.value) {
                Ok(value) => self.assign(&assignment.target, value),
                Err(e) => Err(e),
            },
            Expr::IntLiteral(n) => Ok(Value::Int(*n)),
            Expr::Ref(r) => self.get_ref(r),
            Expr::FunctionCall(call) => {
                let callee = match self.get_ref(&call.target) {
                    Ok(value) => value,
                    Err(e) => {
                        return Err(e);
                    },
                };
                let args = match self.interp_all(&call.args) {
                    Ok(values) => values,
                    Err(e) => {
                        return Err(e);
                    },
                };
                match callee {
                    Value::Function(f) => f.call(self, args.as_slice()),
                    Value::String(text) => index_into(text.as_str(), args.as_slice()),
                    other => Err(Error::NotCallable { found: other.tag() }),
                }
            },
            Expr::While(w) => self.interp_loop(w),
            Expr::If(i) => {
                let truth = match self.interp(&i.cond) {
                    Ok(value) => match value.as_bool() {
                        Ok(b) => b,
                        Err(e) => {
                            return Err(e);
                        },
                    },
                    Err(e) => {
                        return Err(e);
                    },
                };
                if truth {
                    match self.interp_block(&i.body.0) {
                        Ok(_) => {},
                        Err(e) => {
                            return Err(e);
                        },
                    }
                }
                Ok(Value::Bool(truth))
            },
        }
    }

    /// Evaluates a whole program: its block.
    pub fn run(&mut self, program: &Program) -> (res: Result<Value, Error>)
        ensures
            final(self)@ == eval(SpecExpr::Block(program@), old(self)@).state,
            result_view(res) == eval(
                SpecExpr::Block(program@),
                old(self)@,
            ).result,
    {
        self.interp_block(&program.block.0)
    }

    fn interp_all(&mut self, items: &Vec<Expr>) -> (res: Result<Vec<Value>, Error>)
        ensures
            final(self)@ == eval_all(exprs_view(items@), old(self)@).state,
            results_view(res) == eval_all(exprs_view(items@), old(self)@).result,
        decreases items, 0int,
    {
        let mut values: Vec<Value> = Vec::new();
        let mut i: usize = 0;
        let ghost models = exprs_view(items@);
        proof {
            lemma_exprs_view(items@);
            assert(models.take(0) =~= Seq::<SpecExpr>::empty());
            assert(values_view(values@) =~= Seq::<SpecValue>::empty());
        }
        while i < items.len()
            invariant
                i <= items.len(),
                models == exprs_view(items@),
                models.len() == items.len(),
                forall|j: int| 0 <= j < items.len() ==> #[trigger] models[j] == items@[j]@,
                eval_all(models.take(i as int), old(self)@) == (Outcomes {
                    result: Ok(values_view(values@)),
                    state: self@,
                }),
            decreases items.len() - i,
        {
            proof {
                lemma_eval_all_step(models, old(self)@, i as int);
            }
            let ghost before = values_view(values@);
            match self.interp(&items[i]) {
                Ok(value) => {
                    values.push(value);
                    assert(values_view(values@) =~= before.push(value@));
                },
                Err(e) => {
                    proof {
                        lemma_eval_all_failed(models, old(self)@, i + 1);
                    }
                    return Err(e);
                },
            }
            i += 1;
        }
        assert(models.take(i as int) =~= models);
        Ok(values)
    }

    fn interp_block(&mut self, items: &Vec<Expr>) -> (res: Result<Value, Error>)
        ensures
            final(self)@ == eval_block(exprs_view(items@), old(self)@).state,
            result_view(res) == eval_block(exprs_view(items@), old(self)@).result,
        decreases items, 1int,
    {
        proof {
            lemma_exprs_view(items@);
        }
        if items.len() == 0 {
            return Err(Error::EmptyBlock);
        }
        match self.interp_all(items) {
            Ok(mut values) => {
                let ghost all = values_view(values@);
                match values.pop() {
                    Some(last) => {
                        assert(last@ == all.last());
                        Ok(last)
                    },
                    None => Err(Error::EmptyBlock),
                }
            },
            Err(e) => Err(e),
        }
    }

    fn interp_loop(&mut self, w: &While) -> (res: Result<Value, Error>)
        ensures
            final(self)@ == eval_loop(
                SpecExpr::While { cond: Box::new(w.cond@), body: w.body@ },
                old(self)@,
                0,
            ).state,
            result_view(res) == eval_loop(
                SpecExpr::While { cond: Box::new(w.cond@), body: w.body@ },
                old(self)@,
                0,
            ).result,
        decreases w, 0int,
    {
        let ghost expr = SpecExpr::While { cond: Box::new(w.cond@), body: w.body@ };
        let ghost goal = eval_loop(expr, self@, 0);
        let mut rounds: i128 = 0;
        loop
            invariant
                expr == (SpecExpr::While { cond: Box::new(w.cond@), body: w.body@ }),
                goal == eval_loop(expr, old(self)@, 0),
                0 <= rounds,
                eval_loop(expr, self@, rounds as nat) == goal,
            decreases i128::MAX - rounds,
        {
            let truth = match self.interp(&w.cond) {
                Ok(value) => match value.as_bool() {
                    Ok(b) => b,
                    Err(e) => {
                        return Err(e);
                    },
                },
                Err(e) => {
                    return Err(e);
                },
            };
            if !truth {
                return Ok(Value::Int(rounds));
            }
            if rounds >= i128::MAX {
                return Err(Error::CounterOverflow);
            }
            match self.interp_block(&w.body.0) {
                Ok(_) => {},
                Err(e) => {
                    return Err(e);
                },
            }
            rounds += 1;
        }
    }
}

} // verus!
