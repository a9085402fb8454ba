//! Driving one command to finality.
//!
//! A command is attempted; where the chain client answers that the round has
//! to end first, the command waits for the next round or for the deadline
//! and is attempted again. This goes on until the command is committed or
//! fails: an error of the command is never retried. After either end the
//! wallet is resynchronised, once.
//!
//! [`PendingCommand`] holds the decisions. The caller does the work between
//! them: it performs the [`RetryAction`] it is given and reports what came
//! of it as a [`RetryEvent`].

use vstd::prelude::*;
use crate::store::StorageError;

verus! {

/// What the chain client answers to an attempt that did not fail.
#[derive(Debug, PartialEq, Eq)]
pub enum ClientOutcome<T> {
    /// The operation is committed, with this result.
    Committed(T),
    /// The operation has to wait until the current round ends, at the latest
    /// at this time.
    WaitForTimeout(u64),
}

/// The state of a command.
#[derive(Debug, PartialEq, Eq)]
pub enum PendingCommand<T, E> {
    /// The command is to be attempted.
    Attempting,
    /// The command waits for the next round, until the deadline at the
    /// latest.
    WaitingForRound(u64),
    /// The command is committed.
    Committed(T),
    /// The command failed.
    Failed(E),
}

/// What the caller reports.
#[derive(Debug, PartialEq, Eq)]
pub enum RetryEvent<T, E> {
    /// The command was attempted, with this answer.
    Attempted(Result<ClientOutcome<T>, E>),
    /// The wait is over: a new round began.
    NewRound,
    /// The wait is over: the deadline passed.
    DeadlineElapsed,
}

impl<T, E> RetryEvent<T, E> {
    /// Whether the event ends a wait.
    pub open spec fn ends_wait(self) -> bool {
        self is NewRound || self is DeadlineElapsed
    }
}

/// What the caller is to do next.
#[derive(Clone, Copy, Debug, PartialEq, Eq, Structural)]
pub enum RetryAction {
    /// Attempt the command.
    Attempt,
    /// Wait for the next round, until this deadline at the latest.
    WaitForRound(u64),
    /// The command has ended: resynchronise the wallet, then hand out the
    /// result.
    Resync,
}

/// The state that an answer to an attempt leads to.
pub open spec fn after_attempt<T, E>(answer: Result<ClientOutcome<T>, E>) -> PendingCommand<T, E> {
    match answer {
        Ok(ClientOutcome::Committed(value)) => PendingCommand::Committed(value),
        Ok(ClientOutcome::WaitForTimeout(deadline)) => PendingCommand::WaitingForRound(deadline),
        Err(error) => PendingCommand::Failed(error),
    }
}

impl<T, E> PendingCommand<T, E> {
    /// Whether the command has ended.
    pub open spec fn is_terminal(self) -> bool {
        self is Committed || self is Failed
    }

    /// What the caller is to do in this state.
    pub open spec fn action(self) -> RetryAction {
        match self {
            PendingCommand::Attempting => RetryAction::Attempt,
            PendingCommand::WaitingForRound(deadline) => RetryAction::WaitForRound(deadline),
            PendingCommand::Committed(_) => RetryAction::Resync,
            PendingCommand::Failed(_) => RetryAction::Resync,
        }
    }

    /// The state after `event`. An attempt's answer counts while the command
    /// is being attempted, and the end of a wait, by a new round or by the
    /// deadline, while it waits; an event that does not fit the state
    /// changes nothing.
    pub open spec fn next(self, event: RetryEvent<T, E>) -> PendingCommand<T, E> {
        match (self, event) {
            (PendingCommand::Attempting, RetryEvent::Attempted(answer)) => after_attempt(answer),
            (PendingCommand::WaitingForRound(_), RetryEvent::NewRound) => PendingCommand::Attempting,
            (PendingCommand::WaitingForRound(_), RetryEvent::DeadlineElapsed) =>
                PendingCommand::Attempting,
            (state, _) => state,
        }
    }

    /// The result of a command that has ended.
    pub open spec fn result(self) -> Option<Result<T, E>> {
        match self {
            PendingCommand::Committed(value) => Some(Ok(value)),
            PendingCommand::Failed(error) => Some(Err(error)),
            _ => None,
        }
    }

    /// A new command: it is to be attempted.
    pub fn new() -> (command: PendingCommand<T, E>)
        ensures
            command == PendingCommand::<T, E>::Attempting,
    {
        PendingCommand::Attempting
    }

    /// What the caller is to do in this state.
    pub fn next_action(&self) -> (action: RetryAction)
        ensures
            action == self.action(),
    {
        match self {
            PendingCommand::Attempting => RetryAction::Attempt,
            PendingCommand::WaitingForRound(deadline) => RetryAction::WaitForRound(*deadline),
            PendingCommand::Committed(_) => RetryAction::Resync,
            PendingCommand::Failed(_) => RetryAction::Resync,
        }
    }

    /// Takes in what the caller reports and says what to do next.
    pub fn step(self, event: RetryEvent<T, E>) -> (next: (PendingCommand<T, E>, RetryAction))
        ensures
            next.0 == self.next(event),
            next.1 == next.0.action(),
    {
        let state = match self {
            PendingCommand::Attempting => match event {
                RetryEvent::Attempted(answer) => match answer {
                    Ok(ClientOutcome::Committed(value)) => PendingCommand::Committed(value),
                    Ok(ClientOutcome::WaitForTimeout(deadline)) => PendingCommand::WaitingForRound(
                        deadline,
                    ),
                    Err(error) => PendingCommand::Failed(error),
                },
                _ => PendingCommand::Attempting,
            },
            PendingCommand::WaitingForRound(deadline) => match event {
                RetryEvent::NewRound => PendingCommand::Attempting,
                RetryEvent::DeadlineElapsed => PendingCommand::Attempting,
                RetryEvent::Attempted(_) => PendingCommand::WaitingForRound(deadline),
            },
            PendingCommand::Committed(value) => PendingCommand::Committed(value),
            PendingCommand::Failed(error) => PendingCommand::Failed(error),
        };
        let action = state.next_action();
        (state, action)
    }

    /// The result of the command, once it has ended.
    pub fn into_result(self) -> (result: Option<Result<T, E>>)
        ensures
            result == self.result(),
    {
        match self {
            PendingCommand::Committed(value) => Some(Ok(value)),
            PendingCommand::Failed(error) => Some(Err(error)),
            _ => None,
        }
    }
}

/// The wallet is resynchronised when the command has ended and not before:
/// while the command is attempted or waits, nothing is asked of the wallet.
pub proof fn lemma_resync_only_at_the_end<T, E>(command: PendingCommand<T, E>)
    ensures
        command.action() == RetryAction::Resync <==> command.is_terminal(),
        command.is_terminal() <==> command.result() is Some,
{
}

/// A command that has ended stays as it is, whatever is reported.
pub proof fn lemma_terminal_is_final<T, E>(command: PendingCommand<T, E>, event: RetryEvent<T, E>)
    requires
        command.is_terminal(),
    ensures
        command.next(event) == command,
{
}

/// What a command came to, and what the resynchronisation after it came to.
#[derive(Debug, PartialEq, Eq)]
pub struct CommandReport<T, E> {
    /// The command's own result.
    pub result: Result<T, E>,
    /// The error of the resynchronisation, where it could not be saved. It
    /// is a warning: the command's result stands.
    pub resync_warning: Option<StorageError>,
}

/// Puts a command's result together with the outcome of the
/// resynchronisation that followed it. A failed save does not overturn the
/// command's result.
pub fn conclude<T, E>(result: Result<T, E>, resync: Result<(), StorageError>) -> (report:
    CommandReport<T, E>)
    ensures
        report.result == result,
        report.resync_warning == match resync {
            Ok(_) => None,
            Err(error) => Some(error),
        },
{
    let resync_warning = match resync {
        Ok(_) => None,
        Err(error) => Some(error),
    };
    CommandReport { result, resync_warning }
}

/// Whether `answer` sends the command to wait for the next round.
pub open spec fn is_wait<T, E>(answer: Result<ClientOutcome<T>, E>) -> bool {
    answer matches Ok(ClientOutcome::WaitForTimeout(_))
}

/// The result that an answer other than a wait ends the command with.
pub open spec fn final_result<T, E>(answer: Result<ClientOutcome<T>, E>) -> Option<Result<T, E>> {
    after_attempt(answer).result()
}

/// What running a command against a script of answers came to.
#[derive(Debug, PartialEq, Eq)]
pub struct RunReport<T, E> {
    /// The command's result; `None` where the script ran out while the
    /// command was still waiting.
    pub result: Option<Result<T, E>>,
    /// How many times the command was attempted.
    pub attempts: usize,
    /// How many times the command waited for the next round.
    pub waits: usize,
    /// How many times the wallet was resynchronised.
    pub resyncs: usize,
}

/// Runs a command whose attempts are answered by `script`, one answer for
/// each attempt, and reports what happened.
///
/// The command waits once for every answer that asks it to, up to the first
/// answer that does not; that answer is its result, and the wallet is then
/// resynchronised once. Answers after it are never asked for. Where every
/// answer asks to wait, the command is abandoned when the script runs out:
/// it has no result and nothing is resynchronised.
pub fn run_scripted<T, E>(script: Vec<Result<ClientOutcome<T>, E>>) -> (report: RunReport<T, E>)
    ensures
        report.waits <= script@.len(),
        forall|i: int| 0 <= i < report.waits ==> is_wait(#[trigger] script@[i]),
        report.waits < script@.len() ==> {
            &&& !is_wait(script@[report.waits as int])
            &&& report.result == final_result(script@[report.waits as int])
            &&& report.result is Some
            &&& report.attempts == report.waits + 1
            &&& report.resyncs == 1
        },
        report.waits == script@.len() ==> {
            &&& report.result is None
            &&& report.attempts == report.waits
            &&& report.resyncs == 0
        },
{
    let ghost answers = script@;
    let total = script.len();
    let mut script = script;
    let mut command: PendingCommand<T, E> = PendingCommand::new();
    let mut attempts: usize = 0;
    let mut waits: usize = 0;
    let mut resyncs: usize = 0;
    loop
        invariant_except_break
            answers.len() == total,
            script@.len() + attempts == answers.len(),
            forall|i: int| 0 <= i < script@.len() ==> script@[i] == answers[attempts + i],
            attempts <= answers.len(),
            waits <= attempts,
            forall|i: int| 0 <= i < waits ==> is_wait(#[trigger] answers[i]),
            resyncs == 0,
            match command {
                PendingCommand::Attempting => waits == attempts,
                PendingCommand::WaitingForRound(_) => waits + 1 == attempts && is_wait(
                    answers[waits as int],
                ),
                _ => waits + 1 == attempts && !is_wait(answers[waits as int])
                    && command.result() == final_result(answers[waits as int]),
            },
        ensures
            waits <= answers.len(),
            forall|i: int| 0 <= i < waits ==> is_wait(#[trigger] answers[i]),
            waits < answers.len() ==> {
                &&& !is_wait(answers[waits as int])
                &&& command.result() == final_result(answers[waits as int])
                &&& command.is_terminal()
                &&& attempts == waits + 1
                &&& resyncs == 1
            },
            waits == answers.len() ==> {
                &&& !command.is_terminal()
                &&& attempts == waits
                &&& resyncs == 0
            },
        decreases script@.len() * 2 + (if command is WaitingForRound { 1nat } else { 0nat }),
    {
        match command.next_action() {
            RetryAction::Attempt => {
                if script.len() == 0 {
                    break;
                }
                let answer = script.remove(0);
                attempts += 1;
                let (next, _) = command.step(RetryEvent::Attempted(answer));
                command = next;
            },
            RetryAction::WaitForRound(_) => {
                waits += 1;
                let (next, _) = command.step(RetryEvent::NewRound);
                command = next;
            },
            RetryAction::Resync => {
                resyncs += 1;
                break;
            },
        }
    }
    RunReport { result: command.into_result(), attempts, waits, resyncs }
}

} // verus!
