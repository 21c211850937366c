use vstd::prelude::*;
use vstd::string::StringSliceAdditionalSpecFns;
use crate::error::{Fault, ParseError};
use crate::eval::{eval_range, parse_expression, parse_value, term_val, terms_of};
use crate::render::{ascii_to_string, chars_of, join_strings, push_value, value_text};
use crate::state::CalculatorState;
use crate::syntax::{
    assigned_units, bare_name_line, debug_line, debug_line_level, line_name, number_assignment_line, parse_command_bytes,
    command_of, operand_text, parse_operand_text, Cmd, Command, Operand, Op, Term,
};
use crate::value::Val;

verus! {

/// What a line asks of the world outside the session, once the session
/// itself has been updated.
#[derive(Debug, Clone, PartialEq)]
pub enum Action {
    /// Nothing to show.
    Nothing,
    /// A line to show.
    Show(String),
    /// A variable that was asked for and does not exist.
    NotFound(String),
    /// The verbosity that was asked for.
    Level(u32),
    /// The verbosity was set to this level.
    LevelSet(u32),
    /// Ask for a replacement of the named variable, offering `current`.
    Modify { name: String, current: String },
    /// Write the session to the named file.
    Save(String),
    /// Read the session from the named file.
    Load(String),
    /// End the program.
    Exit,
}

/// The text of a value, as characters.
pub open spec fn shown(v: Val) -> Seq<char> {
    chars_of(value_text(v))
}

/// `name = value`
pub open spec fn binding_text(name: Seq<char>, v: Val) -> Seq<char> {
    name + " = "@ + shown(v)
}

/// The text of a value as a string.
pub fn render(v: &crate::value::Value) -> (r: String)
    ensures
        r@ == shown(v@),
{
    let mut b: Vec<u8> = Vec::new();
    push_value(&mut b, v);
    proof { lemma_value_text_ascii(v@); }
    ascii_to_string(b)
}

impl crate::value::Value {
    /// The text of the value: decimal for a number, `<c1, c2>` for a
    /// vector, `<Empty Vector>` for an empty one.
    pub fn to_text(&self) -> (r: String)
        ensures
            r@ == shown(self@),
    {
        render(self)
    }
}

pub proof fn lemma_scalar_text_ascii(u: int)
    ensures
        crate::render::is_ascii_bytes(crate::render::scalar_text(u)),
{
    let whole = (crate::scalar::abs(u) / crate::scalar::SCALE as int) as nat;
    let frac = (crate::scalar::abs(u) % crate::scalar::SCALE as int) as nat;
    crate::render::lemma_digits_ascii(whole);
    lemma_fixed_ascii(frac, 6);
    lemma_trim_ascii(crate::render::fixed_digits(frac, 6));
}

proof fn lemma_fixed_ascii(n: nat, w: nat)
    ensures
        crate::render::is_ascii_bytes(crate::render::fixed_digits(n, w)),
    decreases w,
{
    if w > 0 {
        lemma_fixed_ascii(n / 10, (w - 1) as nat);
    }
}

proof fn lemma_trim_ascii(s: Seq<u8>)
    requires
        crate::render::is_ascii_bytes(s),
    ensures
        crate::render::is_ascii_bytes(crate::render::trim_zeros(s)),
    decreases s.len(),
{
    if s.len() > 0 && s.last() == 48u8 {
        lemma_trim_ascii(s.drop_last());
    }
}

proof fn lemma_list_ascii(s: Seq<int>)
    ensures
        crate::render::is_ascii_bytes(crate::render::list_text(s)),
    decreases s.len(),
{
    if s.len() == 1 {
        lemma_scalar_text_ascii(s[0]);
    } else if s.len() > 1 {
        lemma_list_ascii(s.drop_last());
        lemma_scalar_text_ascii(s.last());
    }
}

pub proof fn lemma_value_text_ascii(v: Val)
    ensures
        crate::render::is_ascii_bytes(value_text(v)),
{
    match v {
        Val::Num(u) => lemma_scalar_text_ascii(u),
        Val::Vect(s) => {
            if s.len() > 0 {
                lemma_list_ascii(s);
            }
        },
    }
}

/// The value of an expression given by its operands and operators.
pub open spec fn expr_value(terms: Seq<Term>, ops: Seq<Op>, vars: Map<Seq<char>, Val>) -> Result<Val, Fault> {
    eval_range(terms, ops, 0, ops.len() as int, vars)
}

/// What carrying out a command does to the session and what it answers.
pub open spec fn command_effect(
    m: Cmd,
    before: CalculatorState,
    after: CalculatorState,
    r: Result<Action, ParseError>,
) -> bool {
    match m {
        Cmd::Assign { name, terms, ops } => match expr_value(terms, ops, before.vars()) {
            Ok(v) => r == Ok::<Action, ParseError>(Action::Nothing) && after.vars() == before.vars().insert(name, v)
                && after.level() == before.level(),
            Err(f) => (r matches Err(e) && e@ == f) && after == before,
        },
        Cmd::Evaluate(terms, ops) => after == before && match expr_value(terms, ops, before.vars()) {
            Ok(v) => (r matches Ok(Action::Show(t)) && t@ == shown(v)),
            Err(f) => (r matches Err(e) && e@ == f),
        },
        Cmd::Query(name) => after == before && if before.vars().contains_key(name) {
            (r matches Ok(Action::Show(t)) && t@ == binding_text(name, before.vars()[name]))
        } else {
            (r matches Ok(Action::NotFound(n)) && n@ == name)
        },
        Cmd::Debug(None) => after == before && r == Ok::<Action, ParseError>(Action::Level(before.level())),
        Cmd::Debug(Some(n)) => after.vars() == before.vars() && after.level() == n && r == Ok::<
            Action,
            ParseError,
        >(Action::LevelSet(n)),
        Cmd::Modify(name) => after == before && if before.vars().contains_key(name) {
            (r matches Ok(Action::Modify { name: n, current }) && n@ == name && current@ == shown(
                before.vars()[name],
            ))
        } else {
            (r matches Ok(Action::NotFound(n)) && n@ == name)
        },
        Cmd::Save(name) => after == before && (r matches Ok(Action::Save(n)) && n@ == name),
        Cmd::Load(name) => after == before && (r matches Ok(Action::Load(n)) && n@ == name),
        Cmd::Exit => after == before && r == Ok::<Action, ParseError>(Action::Exit),
    }
}

/// What a line does: the error that stops it, or the command's effect.
pub open spec fn line_effect(
    line: Seq<u8>,
    before: CalculatorState,
    after: CalculatorState,
    r: Result<Action, ParseError>,
) -> bool {
    match command_of(line) {
        Err(f) => (r matches Err(e) && e@ == f) && after == before,
        Ok(m) => command_effect(m, before, after, r),
    }
}

/// The variables and verbosity after a command, or `None` where it fails.
pub open spec fn command_step(m: Cmd, vars: Map<Seq<char>, Val>, level: u32) -> Option<(Map<Seq<char>, Val>, u32)> {
    match m {
        Cmd::Assign { name, terms, ops } => match expr_value(terms, ops, vars) {
            Ok(v) => Some((vars.insert(name, v), level)),
            Err(_) => None,
        },
        Cmd::Evaluate(terms, ops) => match expr_value(terms, ops, vars) {
            Ok(_) => Some((vars, level)),
            Err(_) => None,
        },
        Cmd::Debug(Some(n)) => Some((vars, n)),
        _ => Some((vars, level)),
    }
}

/// The variables and verbosity after a line, or `None` where it fails.
pub open spec fn line_step(line: Seq<u8>, vars: Map<Seq<char>, Val>, level: u32) -> Option<(Map<Seq<char>, Val>, u32)> {
    match command_of(line) {
        Err(_) => None,
        Ok(m) => command_step(m, vars, level),
    }
}

/// Carries out a parsed command on the session.
pub fn execute(cmd: Command, state: &mut CalculatorState) -> (r: Result<Action, ParseError>)
    requires
        old(state).wf(),
        cmd.wf(),
    ensures
        final(state).wf(),
        command_effect(cmd@, *old(state), *final(state), r),
{
    let ghost gc = cmd;
    proof {
        match gc {
            Command::Assign { name, expr } => {
                assert(terms_of(expr) =~= expr.operands@.map_values(|o: Operand| o@));
            },
            Command::Evaluate(expr) => {
                assert(terms_of(expr) =~= expr.operands@.map_values(|o: Operand| o@));
            },
            _ => {},
        }
    }
    match cmd {
        Command::Assign { name, expr } => {
            let v = parse_expression(&expr, state)?;
            state.set_var(name, v);
            Ok(Action::Nothing)
        },
        Command::Evaluate(expr) => {
            let v = parse_expression(&expr, state)?;
            Ok(Action::Show(render(&v)))
        },
        Command::Query(name) => match state.get_var(name.as_str()) {
            Some(v) => {
                let text = render(v);
                let head = join_strings(name, " = ".to_owned());
                Ok(Action::Show(join_strings(head, text)))
            },
            None => Ok(Action::NotFound(name)),
        },
        Command::Debug(None) => Ok(Action::Level(state.debug_level())),
        Command::Debug(Some(n)) => {
            state.set_debug_level(n);
            Ok(Action::LevelSet(n))
        },
        Command::Modify(name) => match state.get_var(name.as_str()) {
            Some(v) => {
                let current = render(v);
                Ok(Action::Modify { name, current })
            },
            None => Ok(Action::NotFound(name)),
        },
        Command::Save(name) => Ok(Action::Save(name)),
        Command::Load(name) => Ok(Action::Load(name)),
        Command::Exit => Ok(Action::Exit),
    }
}

/// Reads one line and carries it out on the session. A line that fails,
/// to parse or to evaluate, leaves the session as it was.
pub fn parse(input: &str, state: &mut CalculatorState) -> (r: Result<Action, ParseError>)
    requires
        old(state).wf(),
    ensures
        final(state).wf(),
        r is Err ==> *final(state) == *old(state),
        bare_name_line(input.spec_bytes()) ==> query_answer(line_name(input.spec_bytes()), *old(state), *final(state), r),
        number_assignment_line(input.spec_bytes()) ==> r == Ok::<Action, ParseError>(Action::Nothing)
            && final(state).vars() == old(state).vars().insert(
            line_name(input.spec_bytes()),
            Val::Num(assigned_units(input.spec_bytes())),
        ) && final(state).level() == old(state).level(),
        debug_line(input.spec_bytes()) ==> r == Ok::<Action, ParseError>(
            Action::LevelSet(debug_line_level(input.spec_bytes()) as u32),
        ) && final(state).vars()
            == old(state).vars() && final(state).level() == debug_line_level(input.spec_bytes()),
        line_effect(input.spec_bytes(), *old(state), *final(state), r),
{
    parse_bytes(input.as_bytes(), state)
}

/// A line that names a variable shows `name = value`, or reports the name
/// as unknown, and changes nothing.
pub open spec fn query_answer(
    name: Seq<char>,
    before: CalculatorState,
    after: CalculatorState,
    r: Result<Action, ParseError>,
) -> bool {
    &&& after == before
    &&& before.vars().contains_key(name) ==> (r matches Ok(Action::Show(t)) && t@ == binding_text(
        name,
        before.vars()[name],
    ))
    &&& !before.vars().contains_key(name) ==> (r matches Ok(Action::NotFound(n)) && n@ == name)
}

/// As `parse`, for a line given as bytes.
pub fn parse_bytes(input: &[u8], state: &mut CalculatorState) -> (r: Result<Action, ParseError>)
    requires
        old(state).wf(),
    ensures
        final(state).wf(),
        r is Err ==> *final(state) == *old(state),
        bare_name_line(input@) ==> query_answer(line_name(input@), *old(state), *final(state), r),
        number_assignment_line(input@) ==> r == Ok::<Action, ParseError>(Action::Nothing) && final(state).vars()
            == old(state).vars().insert(line_name(input@), Val::Num(assigned_units(input@)))
            && final(state).level() == old(state).level(),
        debug_line(input@) ==> r == Ok::<Action, ParseError>(Action::LevelSet(debug_line_level(input@) as u32))
            && final(state).vars()
            == old(state).vars() && final(state).level() == debug_line_level(input@),
        line_effect(input@, *old(state), *final(state), r),
        match line_step(input@, old(state).vars(), old(state).level()) {
            Some((v, l)) => r is Ok && final(state).vars() == v && final(state).level() == l,
            None => r is Err && *final(state) == *old(state),
        },
{
    let cmd = parse_command_bytes(input)?;
    let ghost c = cmd;
    proof {
        if debug_line(input@) {
            assert(0 <= debug_line_level(input@) <= u32::MAX) by {
                crate::syntax::lemma_debug_level_nonneg(input@);
            }
            assert(c == Command::Debug(Some(debug_line_level(input@) as u32)));
        }
        if number_assignment_line(input@) {
            if let Command::Assign { name, expr } = c {
                let t = crate::eval::terms_of(expr);
                assert(t[0] == expr.operands@[0]@);
                assert(crate::eval::eval_range(t, expr.ops@, 0, 0, old(state).vars()) == crate::eval::term_val(
                    t[0],
                    old(state).vars(),
                ));
            }
        }
    }
    execute(cmd, state)
}

/// How a replacement offered for a variable went.
#[derive(Debug, Clone, PartialEq)]
pub enum Modified {
    /// The variable now holds the new value.
    Changed,
    /// The new value is of the other kind; nothing changed.
    KindDiffers,
    /// The reply is not a value; nothing changed.
    NotAValue(ParseError),
    /// There is no such variable; nothing changed.
    Unknown,
}

/// Replaces a variable with the value written in `reply` (a number, a
/// vector literal or a variable name), only where the kinds agree.
pub fn modify_variable(var_name: &str, reply: &str, state: &mut CalculatorState) -> (r: Modified)
    requires
        old(state).wf(),
    ensures
        final(state).wf(),
        final(state).level() == old(state).level(),
        !old(state).vars().contains_key(var_name@) ==> r == Modified::Unknown && final(state).vars()
            == old(state).vars(),
        old(state).vars().contains_key(var_name@) ==> match operand_text(reply.spec_bytes()) {
            Err(f) => (r matches Modified::NotAValue(e) && e@ == f) && final(state).vars() == old(state).vars(),
            Ok(t) => match term_val(t, old(state).vars()) {
                Err(f) => (r matches Modified::NotAValue(e) && e@ == f) && final(state).vars() == old(
                    state,
                ).vars(),
                Ok(v) => if crate::state::same_kind_val(old(state).vars()[var_name@], v) {
                    r == Modified::Changed && final(state).vars() == old(state).vars().insert(var_name@, v)
                } else {
                    r == Modified::KindDiffers && final(state).vars() == old(state).vars()
                },
            },
        },
{
    if !state.contains_key(var_name) {
        return Modified::Unknown;
    }
    let operand = match parse_operand_text(reply) {
        Ok(o) => o,
        Err(e) => { return Modified::NotAValue(e); },
    };
    let value = match parse_value(&operand, state) {
        Ok(v) => v,
        Err(e) => { return Modified::NotAValue(e); },
    };
    if state.change_var(var_name.to_owned(), value) {
        Modified::Changed
    } else {
        Modified::KindDiffers
    }
}

} // verus!
