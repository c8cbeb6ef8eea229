use rpsl_ingest::channel::{Channel, Received, Sent};
use rpsl_ingest::entry::RawEntry;
use rpsl_ingest::error::{ParseError, ParseReason};
use rpsl_ingest::class::ObjectClass;
use rpsl_ingest::parse::{parse_all, parse_entry};
use rpsl_ingest::pipeline::{ingest_lines, ingest_text, process_lines, process_text};
use rpsl_ingest::record::{ParseOutcome, ParsedRecord};
use rpsl_ingest::scanner::{scan_lines, scan_text, ScanAction, ScanEvent, Scanner};
use rpsl_ingest::sink::{deliver, Delivery, Sink, SinkAction, SinkTurn, Summary};
use rpsl_ingest::worker::{Gave, Took, Turn, Worker};

const DUMP: &str = "% comment\n\ninetnum: 10.0.0.0 - 10.0.0.255\nnetname: A\nremarks: one\n  two\n\n\ninet6num: 2001:db8::/32\n\nperson: P\n\nroute: 10.0.0.0/8\norigin: AS1\n\ninetnum: 10.0.0.9 - 10.0.0.1\n\nrole: R\nnic-hdl: R1\naddress: x\nphone: 1\ne-mail: e\n";

fn took<T>(r: Received<T>) -> Option<T> {
    match r {
        Received::Item(x) => Some(x),
        _ => None,
    }
}

fn records(outcomes: &[ParseOutcome]) -> Vec<ParsedRecord> {
    outcomes
        .iter()
        .filter_map(|o| match o {
            ParseOutcome::Record(r) => Some(r.clone()),
            ParseOutcome::Error(_) => None,
        })
        .collect()
}

fn run_pool(workers: usize, capacity: usize, batch: usize, pick: u64) -> (Vec<ParsedRecord>, Vec<ParseError>, Summary) {
    let blocks = scan_text(DUMP.as_bytes());
    let mut input: Channel<RawEntry> = Channel::new(capacity, 1);
    let mut output: Channel<ParseOutcome> = Channel::new(capacity, workers);
    let mut pool: Vec<Worker> = (0..workers).map(|_| Worker::new()).collect();
    let mut sink = Sink::new(batch);
    let mut stored = Vec::new();
    let mut errors = Vec::new();
    let mut feed = blocks.into_iter();
    let mut waiting: Option<RawEntry> = None;
    let mut fed = false;
    let mut seed = pick;
    let mut rounds = 0;
    loop {
        rounds += 1;
        assert!(rounds < 100_000);
        if !fed {
            let next = waiting.take().or_else(|| feed.next());
            match next {
                Some(block) => match input.try_send(block) {
                    Sent::Accepted => {}
                    Sent::Full(back) => waiting = Some(back),
                    Sent::Closed(_) => panic!("closed"),
                },
                None => {
                    input.release_sender();
                    fed = true;
                }
            }
        }
        assert!(input.len() <= input.capacity());
        seed = seed.wrapping_mul(6364136223846793005).wrapping_add(1442695040888963407);
        let w = ((seed >> 33) as usize) % workers;
        let turn = pool[w].turn(&mut input, &mut output);
        assert!(turn != Turn::OutputClosed);
        assert!(output.len() <= output.capacity());
        if (seed >> 20) % 3 != 0 {
            match output.try_receive() {
                Received::Item(outcome) => match sink.accept(outcome) {
                    SinkAction::Store(mut b) => {
                        assert_eq!(b.len(), batch.max(1));
                        stored.append(&mut b);
                    }
                    SinkAction::Report(e) => errors.push(e),
                    SinkAction::Wait => {}
                },
                Received::Empty => {}
                Received::Drained => break,
            }
        }
    }
    assert!(pool.iter().all(|w| w.is_finished()));
    assert!(input.is_drained());
    let (mut last, summary) = sink.finish();
    stored.append(&mut last);
    (stored, errors, summary)
}

fn sorted(mut v: Vec<String>) -> Vec<String> {
    v.sort();
    v
}

#[test]
fn channel_is_bounded_and_first_in_first_out() {
    let mut c: Channel<u32> = Channel::new(2, 1);
    assert_eq!((c.len(), c.capacity(), c.is_closed(), c.is_drained()), (0, 2, false, false));
    assert!(matches!(c.try_receive(), Received::Empty));
    assert!(matches!(c.try_send(1), Sent::Accepted));
    assert!(matches!(c.try_send(2), Sent::Accepted));
    assert!(matches!(c.try_send(3), Sent::Full(3)));
    assert_eq!(c.len(), 2);
    assert_eq!(took(c.try_receive()), Some(1));
    assert!(matches!(c.try_send(3), Sent::Accepted));
    assert_eq!(took(c.try_receive()), Some(2));
    assert_eq!(took(c.try_receive()), Some(3));
    assert!(matches!(c.try_receive(), Received::Empty));
}

#[test]
fn channel_closes_with_its_last_sender() {
    let mut c: Channel<u32> = Channel::new(4, 2);
    assert!(matches!(c.try_send(1), Sent::Accepted));
    c.release_sender();
    assert!(!c.is_closed());
    assert!(matches!(c.try_send(2), Sent::Accepted));
    c.release_sender();
    assert!(c.is_closed());
    assert!(!c.is_drained());
    assert!(matches!(c.try_send(3), Sent::Closed(3)));
    c.release_sender();
    assert!(c.is_closed());
    assert_eq!(took(c.try_receive()), Some(1));
    assert_eq!(took(c.try_receive()), Some(2));
    assert!(c.is_drained());
    assert!(matches!(c.try_receive(), Received::Drained));
    assert!(matches!(c.try_receive(), Received::Drained));
}

#[test]
fn channel_of_capacity_zero_holds_one_item() {
    let mut c: Channel<u8> = Channel::new(0, 1);
    assert_eq!(c.capacity(), 1);
    assert!(matches!(c.try_send(1), Sent::Accepted));
    assert!(matches!(c.try_send(2), Sent::Full(2)));
    c.close();
    assert!(c.is_closed());
    assert_eq!(took(c.try_receive()), Some(1));
    assert!(matches!(c.try_receive(), Received::Drained));
}

#[test]
fn sink_flushes_full_batches_and_counts() {
    let outcomes = process_text(DUMP.as_bytes());
    let expected = records(&outcomes);
    assert_eq!(expected.len(), 4);
    let mut sink = Sink::new(3);
    let mut stored: Vec<ParsedRecord> = Vec::new();
    let mut reported = 0;
    let mut flushes = 0;
    for outcome in outcomes {
        match sink.accept(outcome) {
            SinkAction::Store(batch) => {
                assert_eq!(batch.len(), 3);
                flushes += 1;
                stored.extend(batch);
            }
            SinkAction::Report(e) => {
                assert!(e.reason != ParseReason::MalformedDate);
                reported += 1;
            }
            SinkAction::Wait => {}
        }
    }
    assert_eq!(flushes, 1);
    assert_eq!(reported, 3);
    assert_eq!(sink.summary(), Summary { persisted: 3, errors: 3 });
    let (last, summary) = sink.finish();
    assert_eq!(last.len(), 1);
    stored.extend(last);
    assert_eq!(stored, expected);
    assert_eq!(summary, Summary { persisted: 4, errors: 3 });
}

#[test]
fn sink_of_batch_size_zero_flushes_every_record() {
    let mut sink = Sink::new(0);
    let outcome = parse_entry(&scan_text(b"route: 10.0.0.0/8\norigin: AS1")[0]);
    assert!(matches!(sink.accept(outcome), SinkAction::Store(b) if b.len() == 1));
    let (last, summary) = sink.finish();
    assert_eq!(last, Vec::new());
    assert_eq!(summary, Summary { persisted: 1, errors: 0 });
    let (last, summary) = Sink::new(5).finish();
    assert_eq!((last, summary), (Vec::new(), Summary { persisted: 0, errors: 0 }));
}

#[test]
fn sink_reports_errors_one_by_one() {
    let mut sink = Sink::new(2);
    let error = ParseError { class: ObjectClass::Unknown, offset: 4, reason: ParseReason::UnknownClass, attribute: Vec::new() };
    assert_eq!(sink.accept(ParseOutcome::Error(error.clone())), SinkAction::Report(error));
    assert_eq!(sink.summary(), Summary { persisted: 0, errors: 1 });
}

#[test]
fn worker_takes_parses_and_sends() {
    let blocks = scan_text(b"person: P\n\nroute: 10.0.0.0/8\norigin: AS1\n");
    let expected = parse_all(&blocks);
    let mut input: Channel<RawEntry> = Channel::new(4, 1);
    let mut output: Channel<ParseOutcome> = Channel::new(1, 1);
    let mut worker = Worker::new();
    assert_eq!(worker.turn(&mut input, &mut output), Turn::WaitInput);
    for b in blocks {
        assert!(matches!(input.try_send(b), Sent::Accepted));
    }
    input.release_sender();
    assert_eq!(worker.turn(&mut input, &mut output), Turn::Moved);
    assert_eq!((input.len(), output.len()), (1, 1));
    assert_eq!(worker.turn(&mut input, &mut output), Turn::WaitOutput);
    assert_eq!((input.len(), output.len()), (0, 1));
    assert_eq!(worker.turn(&mut input, &mut output), Turn::WaitOutput);
    assert_eq!(took(output.try_receive()).as_ref(), Some(&expected[0]));
    assert_eq!(worker.turn(&mut input, &mut output), Turn::Moved);
    assert!(!worker.is_finished());
    assert!(!output.is_closed());
    assert_eq!(worker.turn(&mut input, &mut output), Turn::Finished);
    assert!(worker.is_finished());
    assert!(output.is_closed());
    assert_eq!(worker.turn(&mut input, &mut output), Turn::Finished);
    assert_eq!(took(output.try_receive()).as_ref(), Some(&expected[1]));
    assert!(matches!(output.try_receive(), Received::Drained));
}

#[test]
fn worker_keeps_its_outcome_when_the_output_is_closed() {
    let mut input: Channel<RawEntry> = Channel::new(1, 1);
    let mut output: Channel<ParseOutcome> = Channel::new(1, 0);
    assert!(matches!(input.try_send(RawEntry { offset: 0, attributes: Vec::new() }), Sent::Accepted));
    let mut worker = Worker::new();
    assert_eq!(worker.turn(&mut input, &mut output), Turn::OutputClosed);
    assert_eq!(worker.turn(&mut input, &mut output), Turn::OutputClosed);
    assert_eq!((input.len(), output.len()), (0, 0));
    assert!(!worker.is_finished());
}

#[test]
fn pipeline_has_one_outcome_for_each_stanza() {
    let outcomes = process_text(DUMP.as_bytes());
    assert_eq!(outcomes.len(), 7);
    assert_eq!(outcomes, parse_all(&scan_text(DUMP.as_bytes())));
    let lines: Vec<Vec<u8>> = DUMP.split('\n').map(|l| l.as_bytes().to_vec()).collect();
    assert_eq!(process_lines(&lines), outcomes);
    assert_eq!(scan_lines(&lines).len(), 7);
    assert_eq!(process_text(b"\n \n\t\n"), Vec::new());
}

#[test]
fn pipeline_is_idempotent() {
    assert_eq!(process_text(DUMP.as_bytes()), process_text(DUMP.as_bytes()));
    assert_eq!(run_pool(3, 2, 2, 1), run_pool(3, 2, 2, 1));
}

#[test]
fn pool_size_does_not_change_what_is_stored() {
    let outcomes = process_text(DUMP.as_bytes());
    let expected = sorted(records(&outcomes).iter().map(|r| format!("{:?}", r)).collect());
    let (single, single_errors, single_summary) = run_pool(1, 1, 1, 7);
    assert_eq!(single, records(&outcomes));
    assert_eq!(single_summary, Summary { persisted: 4, errors: 3 });
    assert_eq!(single_errors.len(), 3);
    for workers in 1..6 {
        for seed in 0..20 {
            let (stored, errors, summary) = run_pool(workers, 1 + (seed as usize % 3), 1 + workers % 4, seed);
            assert_eq!(sorted(stored.iter().map(|r| format!("{:?}", r)).collect()), expected);
            assert_eq!(
                sorted(errors.iter().map(|e| format!("{:?}", e)).collect()),
                sorted(single_errors.iter().map(|e| format!("{:?}", e)).collect())
            );
            assert_eq!(summary, single_summary);
        }
    }
}

#[test]
fn scanner_completes_the_pending_block_at_the_end() {
    let mut scanner = Scanner::new();
    assert_eq!(scanner.handle(ScanEvent::Line(b"person: P", 0)), ScanAction { emit: None, close: false });
    assert_eq!(scanner.handle(ScanEvent::Line(b"", 10)), ScanAction { emit: scan_text(b"person: P").pop(), close: false });
    assert_eq!(scanner.handle(ScanEvent::Line(b"role: R", 11)), ScanAction { emit: None, close: false });
    let mut last = scan_text(b"role: R");
    last[0].offset = 11;
    assert_eq!(scanner.handle(ScanEvent::End), ScanAction { emit: last.pop(), close: true });
    assert_eq!(scanner.handle(ScanEvent::End), ScanAction { emit: None, close: true });
}

#[test]
fn scanner_drops_the_pending_block_at_a_failure() {
    let mut scanner = Scanner::new();
    assert_eq!(scanner.handle(ScanEvent::Line(b"person: P", 0)), ScanAction { emit: None, close: false });
    assert_eq!(scanner.handle(ScanEvent::Failure), ScanAction { emit: None, close: true });
    assert_eq!(scanner.finish(), None);
}

#[test]
fn sink_turns_follow_the_channel() {
    let mut sink = Sink::new(2);
    let mut outcomes = process_text(b"route: 10.0.0.0/8\norigin: AS1\n\nperson: P\n\nroute: 11.0.0.0/8\norigin: AS2\n\nroute: 12.0.0.0/8\norigin: AS3\n");
    let expected = records(&outcomes);
    assert_eq!(expected.len(), 3);
    assert_eq!(sink.handle(Received::Empty), SinkTurn::Suspend);
    let fourth = outcomes.pop().unwrap();
    let third = outcomes.pop().unwrap();
    let second = outcomes.pop().unwrap();
    let first = outcomes.pop().unwrap();
    assert_eq!(sink.handle(Received::Item(first)), SinkTurn::Act(SinkAction::Wait));
    assert!(matches!(sink.handle(Received::Item(second)), SinkTurn::Act(SinkAction::Report(_))));
    assert_eq!(
        sink.handle(Received::Item(third)),
        SinkTurn::Act(SinkAction::Store(expected[..2].to_vec()))
    );
    assert_eq!(sink.handle(Received::Item(fourth)), SinkTurn::Act(SinkAction::Wait));
    assert_eq!(sink.handle(Received::Empty), SinkTurn::Suspend);
    assert_eq!(
        sink.handle(Received::Drained),
        SinkTurn::Complete(expected[2..].to_vec(), Summary { persisted: 3, errors: 1 })
    );
    assert_eq!(
        sink.handle(Received::Drained),
        SinkTurn::Complete(Vec::new(), Summary { persisted: 3, errors: 1 })
    );
}

#[test]
fn worker_steps_one_by_one() {
    let blocks = scan_text(b"person: P\n");
    let expected = parse_all(&blocks);
    let mut input: Channel<RawEntry> = Channel::new(2, 1);
    let mut output: Channel<ParseOutcome> = Channel::new(1, 1);
    let mut worker = Worker::new();
    assert_eq!(worker.give(&mut output), Gave::Nothing);
    assert_eq!(worker.take(&mut input), Took::Wait);
    for b in blocks {
        assert!(matches!(input.try_send(b), Sent::Accepted));
    }
    assert_eq!(worker.take(&mut input), Took::Block);
    assert_eq!(worker.take(&mut input), Took::Busy);
    assert_eq!(worker.give(&mut output), Gave::Nothing);
    worker.work();
    assert_eq!(worker.take(&mut input), Took::Busy);
    assert!(matches!(output.try_send(expected[0].clone()), Sent::Accepted));
    assert_eq!(worker.give(&mut output), Gave::Wait);
    assert_eq!(took(output.try_receive()).as_ref(), Some(&expected[0]));
    assert_eq!(worker.give(&mut output), Gave::Outcome);
    assert_eq!(took(output.try_receive()).as_ref(), Some(&expected[0]));
    assert_eq!(worker.take(&mut input), Took::Wait);
    input.release_sender();
    assert_eq!(worker.take(&mut input), Took::Drained);
    assert!(!worker.is_finished());
    worker.work();
    assert_eq!(worker.give(&mut output), Gave::Released);
    assert!(worker.is_finished());
    assert!(output.is_drained());
    assert_eq!(worker.take(&mut input), Took::Busy);
    assert_eq!(worker.give(&mut output), Gave::Nothing);
}

#[test]
fn worker_reports_a_closed_outcome_channel() {
    let mut output: Channel<ParseOutcome> = Channel::new(1, 1);
    let mut input: Channel<RawEntry> = Channel::new(1, 1);
    assert!(matches!(input.try_send(RawEntry { offset: 0, attributes: Vec::new() }), Sent::Accepted));
    let mut worker = Worker::new();
    assert_eq!(worker.take(&mut input), Took::Block);
    worker.work();
    output.close();
    assert_eq!(worker.give(&mut output), Gave::Closed);
    assert_eq!(worker.give(&mut output), Gave::Closed);
}

#[test]
fn delivery_holds_full_batches_then_the_rest() {
    let outcomes = process_text(DUMP.as_bytes());
    let expected = records(&outcomes);
    let errors: Vec<ParseError> = outcomes
        .iter()
        .filter_map(|o| match o {
            ParseOutcome::Error(e) => Some(e.clone()),
            ParseOutcome::Record(_) => None,
        })
        .collect();
    assert_eq!(errors.len(), 3);
    let d = deliver(outcomes.clone(), 3);
    assert_eq!(d.batches, vec![expected[..3].to_vec(), expected[3..].to_vec()]);
    assert_eq!(d.errors, errors);
    assert_eq!(d.summary, Summary { persisted: 4, errors: 3 });
    let d = deliver(outcomes.clone(), 2);
    assert_eq!(d.batches, vec![expected[..2].to_vec(), expected[2..].to_vec()]);
    let d = deliver(outcomes.clone(), 100);
    assert_eq!(d.batches, vec![expected.clone()]);
    let d = deliver(outcomes, 0);
    assert_eq!(d.batches.len(), 4);
    assert_eq!(
        deliver(Vec::new(), 5),
        Delivery { batches: Vec::new(), errors: Vec::new(), summary: Summary { persisted: 0, errors: 0 } }
    );
}

#[test]
fn ingest_runs_all_three_stages() {
    let d = ingest_text(DUMP.as_bytes(), 3);
    assert_eq!(d, deliver(process_text(DUMP.as_bytes()), 3));
    assert_eq!(d.summary, Summary { persisted: 4, errors: 3 });
    let lines: Vec<Vec<u8>> = DUMP.split('\n').map(|l| l.as_bytes().to_vec()).collect();
    assert_eq!(ingest_lines(&lines, 3), d);
    let (stored, errors, summary) = run_pool(4, 2, 3, 11);
    assert_eq!(summary, d.summary);
    assert_eq!(stored.len(), d.batches.iter().map(|b| b.len()).sum::<usize>());
    assert_eq!(errors.len(), d.errors.len());
    assert_eq!(
        ingest_text(b"\n\n", 3),
        Delivery { batches: Vec::new(), errors: Vec::new(), summary: Summary { persisted: 0, errors: 0 } }
    );
}
