use croissant_wallet::ident::ChainId;
use croissant_wallet::notify::{Dispatch, Notification, NotificationDispatcher, Reason, StreamEvent, route};
use croissant_wallet::retry::{
    conclude, run_scripted, ClientOutcome, CommandReport, PendingCommand, RetryAction, RetryEvent,
    RunReport,
};
use croissant_wallet::store::StorageError;

type Answer = Result<ClientOutcome<u32>, String>;

fn wait(deadline: u64) -> Answer {
    Ok(ClientOutcome::WaitForTimeout(deadline))
}

fn committed(value: u32) -> Answer {
    Ok(ClientOutcome::Committed(value))
}

#[test]
fn two_waits_then_committed_yields_the_result_after_two_waits_and_one_resync() {
    let report = run_scripted(vec![wait(10), wait(20), committed(7)]);
    assert_eq!(report, RunReport { result: Some(Ok(7)), attempts: 3, waits: 2, resyncs: 1 });
}

#[test]
fn a_command_committed_at_once_does_not_wait() {
    let report = run_scripted(vec![committed(1), committed(2)]);
    assert_eq!(report, RunReport { result: Some(Ok(1)), attempts: 1, waits: 0, resyncs: 1 });
}

#[test]
fn an_error_is_not_retried_and_still_resynchronises() {
    let report = run_scripted(vec![wait(1), Err("rejected".to_string()), committed(3)]);
    assert_eq!(
        report,
        RunReport { result: Some(Err("rejected".to_string())), attempts: 2, waits: 1, resyncs: 1 }
    );
}

#[test]
fn a_command_abandoned_while_waiting_has_no_result() {
    let report = run_scripted(vec![wait(1), wait(2)]);
    assert_eq!(report, RunReport { result: None, attempts: 2, waits: 2, resyncs: 0 });
    let report = run_scripted(Vec::<Answer>::new());
    assert_eq!(report, RunReport { result: None, attempts: 0, waits: 0, resyncs: 0 });
}

#[test]
fn a_command_goes_on_for_as_long_as_it_is_told_to_wait() {
    let mut script: Vec<Answer> = (0..500).map(wait).collect();
    script.push(committed(9));
    let report = run_scripted(script);
    assert_eq!(report, RunReport { result: Some(Ok(9)), attempts: 501, waits: 500, resyncs: 1 });
}

#[test]
fn a_new_command_is_to_be_attempted() {
    let command: PendingCommand<u32, String> = PendingCommand::new();
    assert_eq!(command, PendingCommand::Attempting);
    assert_eq!(command.next_action(), RetryAction::Attempt);
    assert_eq!(command.into_result(), None);
}

#[test]
fn the_machine_alternates_attempts_and_waits() {
    let command: PendingCommand<u32, String> = PendingCommand::new();
    let (command, action) = command.step(RetryEvent::Attempted(wait(55)));
    assert_eq!(command, PendingCommand::WaitingForRound(55));
    assert_eq!(action, RetryAction::WaitForRound(55));
    let (command, action) = command.step(RetryEvent::NewRound);
    assert_eq!(command, PendingCommand::Attempting);
    assert_eq!(action, RetryAction::Attempt);
    let (command, action) = command.step(RetryEvent::Attempted(wait(66)));
    assert_eq!(command, PendingCommand::WaitingForRound(66));
    assert_eq!(action, RetryAction::WaitForRound(66));
    let (command, action) = command.step(RetryEvent::DeadlineElapsed);
    assert_eq!(command, PendingCommand::Attempting);
    assert_eq!(action, RetryAction::Attempt);
    let (command, action) = command.step(RetryEvent::Attempted(committed(4)));
    assert_eq!(command, PendingCommand::Committed(4));
    assert_eq!(action, RetryAction::Resync);
    assert_eq!(command.into_result(), Some(Ok(4)));
}

#[test]
fn an_error_ends_the_command() {
    let command: PendingCommand<u32, String> = PendingCommand::new();
    let (command, action) = command.step(RetryEvent::Attempted(Err("no".to_string())));
    assert_eq!(command, PendingCommand::Failed("no".to_string()));
    assert_eq!(action, RetryAction::Resync);
    assert_eq!(command.into_result(), Some(Err("no".to_string())));
}

#[test]
fn events_that_do_not_fit_change_nothing() {
    let command: PendingCommand<u32, String> = PendingCommand::new();
    let (command, action) = command.step(RetryEvent::NewRound);
    assert_eq!(action, RetryAction::Attempt);
    let (command, action) = command.step(RetryEvent::DeadlineElapsed);
    assert_eq!((command, action), (PendingCommand::Attempting, RetryAction::Attempt));
    let waiting: PendingCommand<u32, String> = PendingCommand::WaitingForRound(3);
    let (waiting, action) = waiting.step(RetryEvent::Attempted(committed(1)));
    assert_eq!((waiting, action), (PendingCommand::WaitingForRound(3), RetryAction::WaitForRound(3)));
    let done: PendingCommand<u32, String> = PendingCommand::Committed(8);
    let (done, action) = done.step(RetryEvent::Attempted(Err("late".to_string())));
    assert_eq!((done, action), (PendingCommand::Committed(8), RetryAction::Resync));
    let failed: PendingCommand<u32, String> = PendingCommand::Failed("x".to_string());
    let (failed, action) = failed.step(RetryEvent::DeadlineElapsed);
    assert_eq!((failed, action), (PendingCommand::Failed("x".to_string()), RetryAction::Resync));
    assert_eq!(PendingCommand::<u32, String>::WaitingForRound(3).into_result(), None);
}

#[test]
fn a_failed_resync_is_a_warning() {
    let ok: Result<u32, String> = Ok(5);
    assert_eq!(
        conclude(ok.clone(), Ok(())),
        CommandReport { result: Ok(5), resync_warning: None }
    );
    assert_eq!(
        conclude(ok, Err(StorageError::TransactionFailed)),
        CommandReport { result: Ok(5), resync_warning: Some(StorageError::TransactionFailed) }
    );
    let failed: Result<u32, String> = Err("rejected".to_string());
    assert_eq!(
        conclude(failed, Err(StorageError::StoreUnavailable)),
        CommandReport {
            result: Err("rejected".to_string()),
            resync_warning: Some(StorageError::StoreUnavailable)
        }
    );
}

fn notification(reason: Reason) -> Notification {
    Notification { chain_id: ChainId::new([6; 32]), reason }
}

#[test]
fn an_incoming_bundle_starts_inbox_processing() {
    let incoming =
        notification(Reason::NewIncomingBundle { origin: ChainId::new([1; 32]), height: 4 });
    assert_eq!(route(incoming), Dispatch::ProcessInbox(ChainId::new([6; 32])));
}

#[test]
fn other_notifications_are_forwarded_unchanged() {
    let block = notification(Reason::NewBlock { height: 4, hash: [9; 32] });
    let round = notification(Reason::NewRound { height: 4, round: 2 });
    assert_eq!(route(block), Dispatch::Forward(block));
    assert_eq!(route(round), Dispatch::Forward(round));
}

#[test]
fn a_failing_handler_does_not_end_the_subscription() {
    let mut dispatcher = NotificationDispatcher::subscribe(ChainId::new([6; 32]));
    assert_eq!(dispatcher.chain(), ChainId::new([6; 32]));
    assert!(dispatcher.listening());
    let block = notification(Reason::NewBlock { height: 1, hash: [0; 32] });
    assert_eq!(dispatcher.on_event(StreamEvent::Received(block)), Dispatch::Forward(block));
    assert_eq!(dispatcher.on_event(StreamEvent::HandlerFailed), Dispatch::LogAndContinue);
    assert!(dispatcher.listening());
    let incoming =
        notification(Reason::NewIncomingBundle { origin: ChainId::new([1; 32]), height: 4 });
    assert_eq!(
        dispatcher.on_event(StreamEvent::Received(incoming)),
        Dispatch::ProcessInbox(ChainId::new([6; 32]))
    );
    assert!(dispatcher.listening());
}

#[test]
fn a_closed_stream_ends_the_subscription() {
    let mut dispatcher = NotificationDispatcher::subscribe(ChainId::new([6; 32]));
    assert_eq!(dispatcher.on_event(StreamEvent::Closed), Dispatch::Stop);
    assert!(!dispatcher.listening());
    let block = notification(Reason::NewBlock { height: 1, hash: [0; 32] });
    assert_eq!(dispatcher.on_event(StreamEvent::Received(block)), Dispatch::Stop);
    assert_eq!(dispatcher.on_event(StreamEvent::HandlerFailed), Dispatch::Stop);
    assert!(!dispatcher.listening());
}
