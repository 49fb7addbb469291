//! Keys for panes that are Windows consoles, sent one after another.
//!
//! Some keys reach a console as console events, the others as bytes. What a key is
//! to a console, and what it takes to write to panes, is found out for each key and
//! handed in.
use crate::bytes;
use crate::error::{ErrorModel, RmuxError};
use crate::text;
use vstd::prelude::*;

verus! {

/// An action of a console, by the number that its writer knows it by.
#[derive(Debug, Clone, Copy, PartialEq, Eq, Structural)]
pub struct ConsoleAction(pub u32);

/// What a console is sent for keys.
#[derive(Debug, PartialEq, Eq)]
pub struct ConsoleInput {
    pub action: ConsoleAction,
    /// The keys as bytes, for panes that take them so.
    pub bytes: Vec<u8>,
}

/// What is known of a key.
#[derive(Debug, PartialEq, Eq)]
pub struct ConsoleToken {
    /// The key stands for the selection of all text, and goes as bytes.
    pub select_all: bool,
    /// What the console is sent for the key, where it takes the key.
    pub console: Option<ConsoleInput>,
    /// What the console is sent goes as bytes.
    pub as_pane_bytes: bool,
    /// What the key is as bytes.
    pub encoded: Result<Vec<u8>, RmuxError>,
    /// The sessions of the panes that the key is written to.
    pub sessions: Result<Vec<String>, RmuxError>,
}

/// A write that was made ready.
#[derive(Debug, PartialEq, Eq)]
pub enum ConsoleInputStep {
    Bytes { sessions: Vec<String>, bytes: Vec<u8> },
    Console { sessions: Vec<String>, action: ConsoleAction, wrote_bytes: bool },
}

/// A step as a value.
pub enum StepModel {
    Bytes(Seq<Seq<char>>, Seq<u8>),
    Console(Seq<Seq<char>>, ConsoleAction, bool),
}

impl View for ConsoleInputStep {
    type V = StepModel;

    open spec fn view(&self) -> StepModel {
        match self {
            ConsoleInputStep::Bytes { sessions, bytes } => StepModel::Bytes(
                text::views(sessions@),
                bytes@,
            ),
            ConsoleInputStep::Console { sessions, action, wrote_bytes } => StepModel::Console(
                text::views(sessions@),
                *action,
                *wrote_bytes,
            ),
        }
    }
}

/// Steps as values.
pub open spec fn step_models(steps: Seq<ConsoleInputStep>) -> Seq<StepModel> {
    steps.map_values(|step: ConsoleInputStep| step@)
}

/// Some key is one that the console takes.
pub open spec fn contains_console_input(tokens: Seq<ConsoleToken>) -> bool {
    exists|i: int| 0 <= i < tokens.len() && (#[trigger] tokens[i]).console is Some
}

/// Whether some key is one that the console takes.
pub fn tokens_contain_windows_console_input(tokens: &Vec<ConsoleToken>) -> (contain: bool)
    ensures
        contain == contains_console_input(tokens@),
{
    let mut i: usize = 0;
    while i < tokens.len()
        invariant
            i <= tokens@.len(),
            forall|j: int| 0 <= j < i ==> (#[trigger] tokens@[j]).console is None,
        decreases tokens.len() - i,
    {
        if tokens[i].console.is_some() {
            return true;
        }
        i = i + 1;
    }
    false
}

/// How a key is written, or why it cannot be.
pub open spec fn step_of(token: ConsoleToken) -> Result<StepModel, ErrorModel> {
    match token.console {
        Some(console) if !token.select_all => match token.sessions {
            Err(error) => Err(error@),
            Ok(sessions) => Ok(
                if token.as_pane_bytes {
                    StepModel::Bytes(text::views(sessions@), console.bytes@)
                } else {
                    StepModel::Console(
                        text::views(sessions@),
                        console.action,
                        console.bytes@.len() > 0,
                    )
                },
            ),
        },
        _ => match token.encoded {
            Err(error) => Err(error@),
            Ok(encoded) => match token.sessions {
                Err(error) => Err(error@),
                Ok(sessions) => Ok(StepModel::Bytes(text::views(sessions@), encoded@)),
            },
        },
    }
}

/// How the keys are written one after another, or why the first that cannot be
/// written cannot.
pub open spec fn steps_of(tokens: Seq<ConsoleToken>) -> Result<Seq<StepModel>, ErrorModel>
    decreases tokens.len(),
{
    if tokens.len() == 0 {
        Ok(Seq::empty())
    } else {
        match steps_of(tokens.drop_last()) {
            Err(error) => Err(error),
            Ok(before) => match step_of(tokens.last()) {
                Err(error) => Err(error),
                Ok(step) => Ok(before.push(step)),
            },
        }
    }
}

/// `steps` over and over.
pub open spec fn repeated(steps: Seq<StepModel>, times: nat) -> Seq<StepModel>
    decreases times,
{
    if times == 0 {
        Seq::empty()
    } else {
        repeated(steps, (times - 1) as nat) + steps
    }
}

fn copy_texts(texts: &Vec<String>) -> (copy: Vec<String>)
    ensures
        text::views(copy@) == text::views(texts@),
{
    let mut copy: Vec<String> = Vec::new();
    let mut i: usize = 0;
    while i < texts.len()
        invariant
            i <= texts@.len(),
            copy@.len() == i,
            forall|j: int| 0 <= j < i ==> (#[trigger] copy@[j])@ == texts@[j]@,
        decreases texts.len() - i,
    {
        copy.push(texts[i].clone());
        i = i + 1;
    }
    assert(text::views(copy@) =~= text::views(texts@));
    copy
}

fn copy_bytes(input: &Vec<u8>) -> (copy: Vec<u8>)
    ensures
        copy@ == input@,
{
    let copy = bytes::copy_range(input.as_slice(), 0, input.len());
    assert(copy@ =~= input@);
    copy
}

fn prepare_step(token: &ConsoleToken) -> (step: Result<ConsoleInputStep, RmuxError>)
    ensures
        match (step, step_of(*token)) {
            (Ok(step), Ok(expected)) => step@ == expected,
            (Err(error), Err(expected)) => error@ == expected,
            _ => false,
        },
{
    if !token.select_all {
        if let Some(console) = &token.console {
            return match &token.sessions {
                Err(error) => Err(error.clone()),
                Ok(sessions) => {
                    let sessions = copy_texts(sessions);
                    if token.as_pane_bytes {
                        Ok(ConsoleInputStep::Bytes { sessions, bytes: copy_bytes(&console.bytes) })
                    } else {
                        Ok(
                            ConsoleInputStep::Console {
                                sessions,
                                action: console.action,
                                wrote_bytes: console.bytes.len() > 0,
                            },
                        )
                    }
                },
            };
        }
    }
    match &token.encoded {
        Err(error) => Err(error.clone()),
        Ok(encoded) => match &token.sessions {
            Err(error) => Err(error.clone()),
            Ok(sessions) => Ok(
                ConsoleInputStep::Bytes {
                    sessions: copy_texts(sessions),
                    bytes: copy_bytes(encoded),
                },
            ),
        },
    }
}

fn push_steps(steps: &mut Vec<ConsoleInputStep>, tokens: &Vec<ConsoleToken>) -> (result: Result<
    (),
    RmuxError,
>)
    ensures
        match (result, steps_of(tokens@)) {
            (Ok(()), Ok(expected)) => step_models(final(steps)@) == step_models(old(steps)@)
                + expected,
            (Err(error), Err(expected)) => error@ == expected,
            _ => false,
        },
{
    let mut i: usize = 0;
    let ghost before = step_models(steps@);
    assert(tokens@.take(0) =~= Seq::<ConsoleToken>::empty());
    assert(before + Seq::<StepModel>::empty() =~= before);
    while i < tokens.len()
        invariant
            i <= tokens@.len(),
            before == step_models(old(steps)@),
            steps_of(tokens@.take(i as int)) is Ok,
            step_models(steps@) == before + steps_of(tokens@.take(i as int))->Ok_0,
        decreases tokens.len() - i,
    {
        proof {
            assert(tokens@.take(i + 1).drop_last() =~= tokens@.take(i as int));
            assert(tokens@.take(i + 1).last() == tokens@[i as int]);
        }
        match prepare_step(&tokens[i]) {
            Err(error) => {
                proof {
                    lemma_refusal_stays(tokens@, i + 1);
                }
                return Err(error);
            },
            Ok(step) => {
                let ghost done = step_models(steps@);
                steps.push(step);
                assert(step_models(steps@) =~= done.push(step@));
            },
        }
        i = i + 1;
    }
    assert(tokens@.take(i as int) =~= tokens@);
    Ok(())
}

proof fn lemma_refusal_stays(tokens: Seq<ConsoleToken>, n: int)
    requires
        0 <= n <= tokens.len(),
        steps_of(tokens.take(n)) is Err,
    ensures
        steps_of(tokens) == steps_of(tokens.take(n)),
    decreases tokens.len() - n,
{
    if n < tokens.len() {
        assert(tokens.take(n + 1).drop_last() =~= tokens.take(n));
        lemma_refusal_stays(tokens, n + 1);
    } else {
        assert(tokens.take(n) =~= tokens);
    }
}

/// The writes of keys that are sent one after another, `repeat_count` times over.
/// There are none where the keys can all be sent at once: a single key, or keys
/// that the console does not take. All writes are made ready before any is made, so
/// that nothing is written where one cannot be.
pub fn prepare_windows_console_input_sequence(
    tokens: &Vec<ConsoleToken>,
    repeat_count: usize,
) -> (steps: Result<Option<Vec<ConsoleInputStep>>, RmuxError>)
    ensures
        if tokens@.len() <= 1 || !contains_console_input(tokens@) {
            steps matches Ok(None)
        } else if repeat_count == 0 {
            steps matches Ok(Some(steps)) && steps@.len() == 0
        } else {
            match steps_of(tokens@) {
                Ok(expected) => steps matches Ok(Some(steps)) && step_models(steps@) == repeated(
                    expected,
                    repeat_count as nat,
                ),
                Err(expected) => steps matches Err(error) && error@ == expected,
            }
        },
{
    if tokens.len() <= 1 || !tokens_contain_windows_console_input(tokens) {
        return Ok(None);
    }
    let mut steps: Vec<ConsoleInputStep> = Vec::new();
    let mut i: usize = 0;
    assert(step_models(steps@) =~= Seq::<StepModel>::empty());
    while i < repeat_count
        invariant
            i <= repeat_count,
            tokens@.len() > 1,
            contains_console_input(tokens@),
            i > 0 ==> steps_of(tokens@) is Ok,
            i == 0 ==> steps@.len() == 0 && step_models(steps@) == Seq::<StepModel>::empty(),
            i > 0 ==> step_models(steps@) == repeated(steps_of(tokens@)->Ok_0, i as nat),
        decreases repeat_count - i,
    {
        let ghost expected = steps_of(tokens@)->Ok_0;
        if let Err(error) = push_steps(&mut steps, tokens) {
            return Err(error);
        }
        proof {
            if i == 0 {
                assert(repeated(expected, 0) =~= Seq::<StepModel>::empty());
            }
            assert(repeated(expected, (i + 1) as nat) == repeated(expected, i as nat) + expected);
        }
        i = i + 1;
    }
    Ok(Some(steps))
}

/// `names` with those of `more` that are not there yet.
pub open spec fn with_unique(names: Seq<Seq<char>>, more: Seq<Seq<char>>) -> Seq<Seq<char>>
    decreases more.len(),
{
    if more.len() == 0 {
        names
    } else {
        let before = with_unique(names, more.drop_last());
        if before.contains(more.last()) {
            before
        } else {
            before.push(more.last())
        }
    }
}

/// The sessions that steps write something to, each once.
pub open spec fn written_sessions(steps: Seq<StepModel>) -> Seq<Seq<char>>
    decreases steps.len(),
{
    if steps.len() == 0 {
        Seq::empty()
    } else {
        let before = written_sessions(steps.drop_last());
        match steps.last() {
            StepModel::Bytes(sessions, bytes) => if bytes.len() > 0 {
                with_unique(before, sessions)
            } else {
                before
            },
            StepModel::Console(sessions, _, wrote_bytes) => if wrote_bytes {
                with_unique(before, sessions)
            } else {
                before
            },
        }
    }
}

fn holds_text(texts: &Vec<String>, text: &str) -> (holds: bool)
    ensures
        holds == text::views(texts@).contains(text@),
{
    let mut i: usize = 0;
    while i < texts.len()
        invariant
            i <= texts@.len(),
            forall|j: int| 0 <= j < i ==> (#[trigger] texts@[j])@ != text@,
        decreases texts.len() - i,
    {
        if text::same_text(texts[i].as_str(), text) {
            assert(text::views(texts@)[i as int] == text@);
            return true;
        }
        i = i + 1;
    }
    assert forall|j: int| 0 <= j < text::views(texts@).len() implies text::views(texts@)[j]
        != text@ by {
        assert(text::views(texts@)[j] == texts@[j]@);
    }
    false
}

/// Adds the sessions that are not in the list yet.
pub fn push_unique_sessions(sessions: &mut Vec<String>, new_sessions: &Vec<String>)
    ensures
        text::views(final(sessions)@) == with_unique(
            text::views(old(sessions)@),
            text::views(new_sessions@),
        ),
{
    let ghost start = text::views(sessions@);
    let ghost more = text::views(new_sessions@);
    let mut i: usize = 0;
    assert(more.take(0) =~= Seq::<Seq<char>>::empty());
    while i < new_sessions.len()
        invariant
            i <= new_sessions@.len(),
            more == text::views(new_sessions@),
            start == text::views(old(sessions)@),
            text::views(sessions@) == with_unique(start, more.take(i as int)),
        decreases new_sessions.len() - i,
    {
        proof {
            assert(more.take(i + 1).drop_last() =~= more.take(i as int));
            assert(more.take(i + 1).last() == new_sessions@[i as int]@);
        }
        if !holds_text(sessions, new_sessions[i].as_str()) {
            let ghost before = text::views(sessions@);
            sessions.push(new_sessions[i].clone());
            assert(text::views(sessions@) =~= before.push(new_sessions@[i as int]@));
        }
        i = i + 1;
    }
    assert(more.take(i as int) =~= more);
}

/// The sessions that writes go to, each once.
pub fn input_write_sessions(written: &Vec<String>) -> (sessions: Vec<String>)
    ensures
        text::views(sessions@) == with_unique(Seq::empty(), text::views(written@)),
{
    let mut sessions: Vec<String> = Vec::new();
    assert(text::views(sessions@) =~= Seq::<Seq<char>>::empty());
    push_unique_sessions(&mut sessions, written);
    sessions
}

/// The sessions that count as typed into once all steps were written: those that
/// something was written to. `failed` is why a write failed, where one did; then no
/// session counts.
pub fn write_windows_console_input_sequence_and_mark_interactive(
    steps: &Vec<ConsoleInputStep>,
    failed: Option<RmuxError>,
) -> (result: Result<Vec<String>, RmuxError>)
    ensures
        match failed {
            Some(refusal) => result matches Err(error) && error@ == refusal@,
            None => result matches Ok(sessions) && text::views(sessions@) == written_sessions(
                step_models(steps@),
            ),
        },
{
    if let Some(error) = failed {
        return Err(error);
    }
    let mut sessions: Vec<String> = Vec::new();
    let ghost all = step_models(steps@);
    let mut i: usize = 0;
    assert(all.take(0) =~= Seq::<StepModel>::empty());
    assert(text::views(sessions@) =~= Seq::<Seq<char>>::empty());
    while i < steps.len()
        invariant
            i <= steps@.len(),
            all == step_models(steps@),
            text::views(sessions@) == written_sessions(all.take(i as int)),
        decreases steps.len() - i,
    {
        proof {
            assert(all.take(i + 1).drop_last() =~= all.take(i as int));
            assert(all.take(i + 1).last() == steps@[i as int]@);
        }
        match &steps[i] {
            ConsoleInputStep::Bytes { sessions: written, bytes } => {
                if bytes.len() > 0 {
                    push_unique_sessions(&mut sessions, written);
                }
            },
            ConsoleInputStep::Console { sessions: written, wrote_bytes, .. } => {
                if *wrote_bytes {
                    push_unique_sessions(&mut sessions, written);
                }
            },
        }
        i = i + 1;
    }
    assert(all.take(i as int) =~= all);
    Ok(sessions)
}

/// No session is told twice that it was typed into.
pub proof fn written_sessions_are_told_once(steps: Seq<StepModel>)
    ensures
        written_sessions(steps).no_duplicates(),
    decreases steps.len(),
{
    if steps.len() > 0 {
        written_sessions_are_told_once(steps.drop_last());
        let before = written_sessions(steps.drop_last());
        match steps.last() {
            StepModel::Bytes(sessions, _) => {
                lemma_with_unique(before, sessions);
            },
            StepModel::Console(sessions, _, _) => {
                lemma_with_unique(before, sessions);
            },
        }
    }
}

proof fn lemma_with_unique(names: Seq<Seq<char>>, more: Seq<Seq<char>>)
    requires
        names.no_duplicates(),
    ensures
        with_unique(names, more).no_duplicates(),
    decreases more.len(),
{
    if more.len() > 0 {
        lemma_with_unique(names, more.drop_last());
    }
}

/// A key that the console takes goes to it as its action, and as bytes where it is to;
/// a key that it does not take, and the one that selects all, go as the key's own bytes.
/// A key is refused where its panes cannot be found, or its bytes where it needs them.
pub proof fn a_key_goes_as_the_console_takes_it(token: ConsoleToken)
    ensures
        token.console matches Some(console) && !token.select_all && token.sessions is Ok ==> (
        step_of(token) matches Ok(step) && step == if token.as_pane_bytes {
            StepModel::Bytes(text::views(token.sessions->Ok_0@), token.console->0.bytes@)
        } else {
            StepModel::Console(
                text::views(token.sessions->Ok_0@),
                token.console->0.action,
                token.console->0.bytes@.len() > 0,
            )
        }),
        (token.console is None || token.select_all) && token.sessions is Ok && token.encoded is Ok
            ==> (step_of(token) matches Ok(step) && step == StepModel::Bytes(
            text::views(token.sessions->Ok_0@),
            token.encoded->Ok_0@,
        )),
        token.sessions is Err ==> step_of(token) is Err,
        (token.console is None || token.select_all) && token.encoded is Err ==> (step_of(token)
            matches Err(error) && error == token.encoded->Err_0@),
{
}

/// Keys keep their order and are sent as often as asked: the writes are those of the
/// keys, over and over.
pub proof fn keys_are_repeated_in_order(steps: Seq<StepModel>, times: nat, round: int, i: int)
    requires
        0 <= round < times,
        0 <= i < steps.len(),
    ensures
        repeated(steps, times).len() == times * steps.len(),
        0 <= round * steps.len() + i < times * steps.len(),
        repeated(steps, times)[round * steps.len() + i] == steps[i],
    decreases times,
{
    lemma_repeated_len(steps, times);
    lemma_repeated_len(steps, (times - 1) as nat);
    let len = steps.len() as int;
    let before = (times - 1) * len;
    assert(times * len == before + len) by (nonlinear_arith)
        requires
            before == (times - 1) * len,
    ;
    if round == times - 1 {
        assert(round * len == before);
    } else {
        keys_are_repeated_in_order(steps, (times - 1) as nat, round, i);
        assert(round * len + i < before);
    }
}

proof fn lemma_repeated_len(steps: Seq<StepModel>, times: nat)
    ensures
        repeated(steps, times).len() == times * steps.len(),
    decreases times,
{
    if times > 0 {
        lemma_repeated_len(steps, (times - 1) as nat);
        assert(times * steps.len() == (times - 1) * steps.len() + steps.len()) by (nonlinear_arith)
            requires
                times > 0,
        ;
    } else {
        assert(0 * steps.len() == 0) by (nonlinear_arith);
    }
}

/// A sequence has a write for each key, in order, and fails with the first key that
/// cannot be written.
pub proof fn each_key_has_its_write(tokens: Seq<ConsoleToken>, i: int)
    requires
        0 <= i < tokens.len(),
    ensures
        steps_of(tokens) matches Ok(steps) ==> steps.len() == tokens.len() && step_of(tokens[i])
            == Ok::<StepModel, ErrorModel>(steps[i]),
        step_of(tokens[i]) is Err ==> steps_of(tokens) is Err,
    decreases tokens.len(),
{
    lemma_steps_len(tokens);
    if i < tokens.len() - 1 {
        each_key_has_its_write(tokens.drop_last(), i);
    } else {
        lemma_steps_len(tokens.drop_last());
    }
}

proof fn lemma_steps_len(tokens: Seq<ConsoleToken>)
    ensures
        steps_of(tokens) matches Ok(steps) ==> steps.len() == tokens.len(),
    decreases tokens.len(),
{
    if tokens.len() > 0 {
        lemma_steps_len(tokens.drop_last());
    }
}

/// A session counts as typed into exactly where a write with something in it went to it.
pub proof fn sessions_that_were_written_to_count(steps: Seq<StepModel>, session: Seq<char>)
    ensures
        written_sessions(steps).contains(session) == exists|i: int|
            0 <= i < steps.len() && match #[trigger] steps[i] {
                StepModel::Bytes(sessions, bytes) => bytes.len() > 0 && sessions.contains(session),
                StepModel::Console(sessions, _, wrote) => wrote && sessions.contains(session),
            },
    decreases steps.len(),
{
    if steps.len() > 0 {
        let fewer = steps.drop_last();
        sessions_that_were_written_to_count(fewer, session);
        let before = written_sessions(fewer);
        match steps.last() {
            StepModel::Bytes(sessions, _) => lemma_with_unique_holds(before, sessions, session),
            StepModel::Console(sessions, _, _) => lemma_with_unique_holds(before, sessions, session),
        }
        if written_sessions(steps).contains(session) && before.contains(session) {
            let i = choose|i: int|
                0 <= i < fewer.len() && match #[trigger] fewer[i] {
                    StepModel::Bytes(sessions, bytes) => bytes.len() > 0 && sessions.contains(
                        session,
                    ),
                    StepModel::Console(sessions, _, wrote) => wrote && sessions.contains(session),
                };
            assert(steps[i] == fewer[i]);
        } else if written_sessions(steps).contains(session) {
            assert(steps[steps.len() - 1] == steps.last());
        }
        if exists|i: int|
            0 <= i < steps.len() && match #[trigger] steps[i] {
                StepModel::Bytes(sessions, bytes) => bytes.len() > 0 && sessions.contains(session),
                StepModel::Console(sessions, _, wrote) => wrote && sessions.contains(session),
            } {
            let i = choose|i: int|
                0 <= i < steps.len() && match #[trigger] steps[i] {
                    StepModel::Bytes(sessions, bytes) => bytes.len() > 0 && sessions.contains(
                        session,
                    ),
                    StepModel::Console(sessions, _, wrote) => wrote && sessions.contains(session),
                };
            if i < fewer.len() {
                assert(fewer[i] == steps[i]);
            }
        }
    }
}

proof fn lemma_with_unique_holds(names: Seq<Seq<char>>, more: Seq<Seq<char>>, name: Seq<char>)
    ensures
        with_unique(names, more).contains(name) == (names.contains(name) || more.contains(name)),
    decreases more.len(),
{
    if more.len() > 0 {
        let fewer = more.drop_last();
        lemma_with_unique_holds(names, fewer, name);
        let before = with_unique(names, fewer);
        assert(more.contains(name) == (fewer.contains(name) || more.last() == name)) by {
            if more.contains(name) {
                let i = choose|i: int| 0 <= i < more.len() && more[i] == name;
                if i < fewer.len() {
                    assert(fewer[i] == name);
                }
            }
            if fewer.contains(name) {
                let i = choose|i: int| 0 <= i < fewer.len() && fewer[i] == name;
                assert(more[i] == name);
            }
            assert(more[more.len() - 1] == more.last());
        }
        let pushed = before.push(more.last());
        assert(pushed.contains(name) == (before.contains(name) || more.last() == name)) by {
            if before.contains(name) {
                let i = choose|i: int| 0 <= i < before.len() && before[i] == name;
                assert(pushed[i] == name);
            }
            assert(pushed[before.len() as int] == more.last());
            if pushed.contains(name) {
                let i = choose|i: int| 0 <= i < pushed.len() && pushed[i] == name;
                if i < before.len() {
                    assert(before[i] == name);
                }
            }
        }
    }
}

/// A single key, and keys of which the console takes none, are sent at once: there is no
/// sequence of them. With one that it takes there is.
pub proof fn keys_that_can_go_at_once_do(
    tokens: Vec<ConsoleToken>,
    repeat_count: usize,
    steps: Result<Option<Vec<ConsoleInputStep>>, RmuxError>,
    taken: int,
)
    requires
        call_ensures(prepare_windows_console_input_sequence, (&tokens, repeat_count), steps),
        0 <= taken < tokens@.len(),
    ensures
        tokens@.len() <= 1 ==> (steps matches Ok(none) && none is None),
        (forall|i: int| 0 <= i < tokens@.len() ==> (#[trigger] tokens@[i]).console is None) ==> (
        steps matches Ok(none) && none is None),
        tokens@.len() > 1 && tokens@[taken].console is Some ==> steps is Err || (steps matches Ok(
            some,
        ) && some is Some),
{
}

/// A step is seen as what it is.
pub proof fn a_step_is_seen_as_it_is(
    sessions: Vec<String>,
    bytes: Vec<u8>,
    action: ConsoleAction,
    wrote_bytes: bool,
)
    ensures
        (ConsoleInputStep::Bytes { sessions, bytes })@ == StepModel::Bytes(
            text::views(sessions@),
            bytes@,
        ),
        (ConsoleInputStep::Console { sessions, action, wrote_bytes })@ == StepModel::Console(
            text::views(sessions@),
            action,
            wrote_bytes,
        ),
{
}

} // verus!
