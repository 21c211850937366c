use vstd::prelude::*;
use vstd::string::StringSliceAdditionalSpecFns;
use crate::command::{binding_text, line_step, parse_bytes, render};
use crate::error::ParseError;
use crate::render::{ascii_to_string, chars_of, digits_of, join_strings, lemma_digits_ascii, push_digits};
use crate::state::CalculatorState;
use crate::value::{Val, Value};

verus! {

/// The extension of a saved session's file name.
pub const STATE_FILE_EXT: &'static str = "vecalc";

/// One `name = value` line for each of the first `n` variables.
pub open spec fn binding_lines(names: Seq<String>, values: Seq<Value>, n: nat) -> Seq<char>
    decreases n,
{
    if n == 0 {
        Seq::empty()
    } else {
        binding_lines(names, values, (n - 1) as nat) + binding_text(names[n - 1]@, values[n - 1]@) + "\n"@
    }
}

/// The saved form of a session: its variables, one per line, then
/// `.debug <level>`.
pub open spec fn saved_text(names: Seq<String>, values: Seq<Value>, level: u32) -> Seq<char> {
    binding_lines(names, values, names.len()) + ".debug "@ + chars_of(digits_of(level as nat))
}

/// The text that records the session: replayed line by line, it sets the
/// same variables and the same verbosity.
pub fn save_state(state: &CalculatorState) -> (r: String)
    requires
        state.wf(),
    ensures
        r@ == saved_text(state.names_view(), state.values_view(), state.level()),
{
    let mut data = String::new();
    let n = state.len();
    let mut i: usize = 0;
    while i < n
        invariant
            state.wf(),
            n == state.names_view().len(),
            i <= n,
            data@ == binding_lines(state.names_view(), state.values_view(), i as nat),
        decreases n - i,
    {
        let (name, value) = state.entry(i);
        let line = join_strings(name.clone(), " = ".to_owned());
        let line = join_strings(line, render(value));
        let line = join_strings(line, "\n".to_owned());
        data = join_strings(data, line);
        i = i + 1;
        assert(data@ =~= binding_lines(state.names_view(), state.values_view(), i as nat));
    }
    let mut level: Vec<u8> = Vec::new();
    push_digits(&mut level, state.debug_level() as u64);
    proof { lemma_digits_ascii(state.level() as nat); }
    assert(level@ =~= digits_of(state.level() as nat));
    let data = join_strings(data, ".debug ".to_owned());
    let r = join_strings(data, ascii_to_string(level));
    assert(r@ =~= saved_text(state.names_view(), state.values_view(), state.level()));
    r
}

/// The first line break at or after `pos`, or the end of the text.
pub open spec fn line_end(b: Seq<u8>, pos: int) -> int
    decreases b.len() - pos,
{
    if pos >= b.len() || b[pos] == 10u8 {
        pos
    } else {
        line_end(b, pos + 1)
    }
}

/// Replaying the lines of `b` from `pos` on, from the given variables and
/// verbosity: the variables and verbosity at the end, the number of lines
/// replayed, and whether every line succeeded. A failing line stops the
/// replay and changes nothing; the lines after it are not replayed.
pub open spec fn replay(b: Seq<u8>, pos: int, vars: Map<Seq<char>, Val>, level: u32) -> (
    Map<Seq<char>, Val>,
    u32,
    nat,
    bool,
)
    decreases b.len() - pos,
{
    if pos < 0 || pos >= b.len() {
        (vars, level, 0, true)
    } else {
        let end = line_end(b, pos);
        let next = if end < b.len() { end + 1 } else { end };
        match line_step(b.subrange(pos, end), vars, level) {
            None => (vars, level, 0, false),
            Some((v, l)) => if next <= pos || end > b.len() {
                (vars, level, 0, false)
            } else {
                let rest = replay(b, next, v, l);
                (rest.0, rest.1, rest.2 + 1, rest.3)
            },
        }
    }
}

/// Replays a saved session, line by line, onto `state` after setting its
/// verbosity to zero. The first line that fails ends the replay with its
/// error; otherwise the result is the number of lines replayed. Lines that
/// ask for the outside world (show, save, load, modify, exit) change
/// nothing here.
pub fn load_state(text: &str, state: &mut CalculatorState) -> (r: Result<usize, ParseError>)
    requires
        old(state).wf(),
    ensures
        final(state).wf(),
        ({
            let rp = replay(text.spec_bytes(), 0, old(state).vars(), 0);
            &&& final(state).vars() == rp.0
            &&& final(state).level() == rp.1
            &&& rp.3 ==> r == Ok::<usize, ParseError>(rp.2 as usize)
            &&& !rp.3 ==> r is Err
        }),
{
    state.set_debug_level(0);
    let b = text.as_bytes();
    let ghost rp = replay(b@, 0, old(state).vars(), 0);
    let mut pos: usize = 0;
    let mut count: usize = 0;
    while pos < b.len()
        invariant
            state.wf(),
            pos <= b@.len(),
            b@ == text.spec_bytes(),
            rp == replay(b@, 0, old(state).vars(), 0),
            ({
                let cur = replay(b@, pos as int, state.vars(), state.level());
                &&& cur.0 == rp.0
                &&& cur.1 == rp.1
                &&& cur.3 == rp.3
                &&& cur.2 + count == rp.2
            }),
            count <= pos,
        decreases b@.len() - pos,
    {
        let mut end = pos;
        while end < b.len() && b[end] != 10u8
            invariant
                pos <= end <= b@.len(),
                line_end(b@, pos as int) == line_end(b@, end as int),
            decreases b@.len() - end,
        {
            end = end + 1;
        }
        assert(line_end(b@, end as int) == end);
        let mut line: Vec<u8> = Vec::new();
        let mut i = pos;
        while i < end
            invariant
                pos <= i <= end,
                end <= b@.len(),
                line@ == b@.subrange(pos as int, i as int),
            decreases end - i,
        {
            line.push(b[i]);
            i = i + 1;
            assert(line@ =~= b@.subrange(pos as int, i as int));
        }
        parse_bytes(line.as_slice(), state)?;
        count = count + 1;
        pos = if end < b.len() { end + 1 } else { end };
    }
    Ok(count)
}

} // verus!
