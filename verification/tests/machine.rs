//! The decoder, driven by hand-made events.

use strompy::batch::PieceDecoding;
use strompy::error::Error;
use strompy::matrix::MatrixBuf;
use strompy::op::{Code, Operation, PieceOfWork};
use strompy::reader::{StrompyJsonReader, Yield};
use strompy::spelling::{spell_matrix, spell_operation, spell_piece};
use strompy::streaming::{Phase, PieceProgress};
use strompy::wire::{Action, Event, MatrixProgress, OperationProgress, Step};

fn product(a: &[u64], b: &[u64]) -> u64 {
    a.iter().zip(b).map(|(x, y)| f64::from_bits(*x) * f64::from_bits(*y)).sum::<f64>().to_bits()
}

fn name(text: &str) -> Event {
    Event::Name(text.to_string())
}

fn number(x: f64) -> Event {
    Event::Number(x.to_bits())
}

fn matrix_events(d: &[f64], n: usize) -> Vec<Event> {
    let mut events = vec![Event::Ack, name("d"), Event::Ack];
    for x in d {
        events.push(Event::More(true));
        events.push(number(*x));
    }
    events.extend([Event::More(false), Event::Ack, name("n"), Event::Count(n), Event::Ack]);
    events
}

fn dot_events(d: &[f64], n: usize) -> Vec<Event> {
    let mut events = vec![Event::Ack, name("code"), Event::Text("dot".to_string()), name("rhs")];
    events.extend(matrix_events(d, n));
    events.push(Event::Ack);
    events
}

fn feed_matrix(events: Vec<Event>) -> Result<Step<MatrixProgress, MatrixBuf>, Error> {
    let mut progress = MatrixProgress::start();
    for event in events {
        match MatrixBuf::deserialize(progress, event)? {
            Step::Pending(p) => progress = p,
            done => return Ok(done),
        }
    }
    Ok(Step::Pending(progress))
}

#[test]
fn matrix_decoder_asks_for_each_part_in_turn() {
    let wanted = [
        Action::BeginObject,
        Action::NextName,
        Action::BeginArray,
        Action::HasNext,
        Action::NextNumber,
        Action::HasNext,
        Action::EndArray,
        Action::NextName,
        Action::NextCount,
        Action::EndObject,
    ];
    let mut progress = MatrixProgress::start();
    let mut events = matrix_events(&[7.0], 1).into_iter();
    for (i, action) in wanted.iter().enumerate() {
        assert_eq!(progress.wants(), *action);
        match MatrixBuf::deserialize(progress, events.next().unwrap()).unwrap() {
            Step::Pending(p) => progress = p,
            Step::Done(m) => {
                assert_eq!(i, wanted.len() - 1);
                assert_eq!(m.data(), &[7.0f64.to_bits()]);
                return;
            }
        }
    }
    unreachable!();
}

#[test]
fn an_answer_of_the_wrong_kind_is_a_protocol_error() {
    assert!(matches!(feed_matrix(vec![Event::More(true)]), Err(Error::ProtocolError)));
    assert!(matches!(feed_matrix(vec![Event::Ack, Event::Ack]), Err(Error::ProtocolError)));
    assert!(matches!(
        feed_matrix(vec![Event::Ack, name("d"), Event::Ack, number(1.0)]),
        Err(Error::ProtocolError)
    ));
    assert!(matches!(
        feed_matrix(vec![Event::Ack, name("d"), Event::Ack, Event::More(true), Event::Count(1)]),
        Err(Error::ProtocolError)
    ));
}

#[test]
fn a_failure_of_the_reader_is_passed_on() {
    assert!(matches!(
        feed_matrix(vec![Event::Ack, Event::Failed(Error::BrokenPipe)]),
        Err(Error::BrokenPipe)
    ));
    assert!(matches!(
        feed_matrix(vec![Event::Failed(Error::ProtocolError)]),
        Err(Error::ProtocolError)
    ));
}

#[test]
fn keys_are_compared_whole() {
    assert!(matches!(feed_matrix(vec![Event::Ack, name("D")]), Err(Error::ProtocolError)));
    assert!(matches!(feed_matrix(vec![Event::Ack, name("dd")]), Err(Error::ProtocolError)));
    assert!(matches!(feed_matrix(vec![Event::Ack, name("")]), Err(Error::ProtocolError)));
    assert!(matches!(feed_matrix(vec![Event::Ack, name("n")]), Err(Error::ProtocolError)));
    assert!(matches!(feed_matrix(vec![Event::Ack, name("d")]), Ok(Step::Pending(_))));
}

#[test]
fn the_thirty_seventh_number_is_refused() {
    let mut events = vec![Event::Ack, name("d"), Event::Ack];
    for i in 0..36 {
        events.push(Event::More(true));
        events.push(number(i as f64));
    }
    assert!(matches!(feed_matrix(events), Ok(Step::Pending(_))));

    let mut events = vec![Event::Ack, name("d"), Event::Ack];
    for i in 0..37 {
        events.push(Event::More(true));
        events.push(number(i as f64));
    }
    assert!(matches!(feed_matrix(events), Err(Error::CapacityExceeded)));
}

#[test]
fn operation_decoder_reads_code_then_rhs() {
    let mut progress = OperationProgress::start();
    let mut done = None;
    for event in dot_events(&[1.0, 2.0], 2) {
        match Operation::deserialize(progress, event).unwrap() {
            Step::Pending(p) => progress = p,
            Step::Done(op) => {
                done = Some(op);
                break;
            }
        }
    }
    let Some(Operation::Dot { rhs }) = done else { panic!("no operation") };
    assert_eq!(rhs.data(), &[1.0f64.to_bits(), 2.0f64.to_bits()]);
    assert_eq!(rhs.columns(), 2);
}

#[test]
fn unknown_code_fails_before_the_operand_is_read() {
    let p = OperationProgress::start();
    let Ok(Step::Pending(p)) = Operation::deserialize(p, Event::Ack) else { panic!() };
    let Ok(Step::Pending(p)) = Operation::deserialize(p, name("code")) else { panic!() };
    assert_eq!(p.wants(), Action::NextString);
    assert!(matches!(
        Operation::deserialize(p, Event::Text("sum".to_string())),
        Err(Error::UnknownOperation)
    ));
}

fn piece_events(lhs: &[f64], ops: &[&[f64]]) -> Vec<Event> {
    let mut events = vec![Event::Ack, name("lhs")];
    events.extend(matrix_events(lhs, 1));
    events.extend([name("op"), Event::Ack]);
    for d in ops {
        events.push(Event::More(true));
        events.extend(dot_events(d, 1));
    }
    events.extend([Event::More(false), Event::Ack, Event::Ack]);
    events
}

#[test]
fn driver_passes_through_its_three_states() {
    let mut progress = PieceProgress::start();
    let mut phases = vec![progress.phase()];
    let mut result = None;
    for event in piece_events(&[2.0, 3.0], &[&[4.0, 5.0], &[10.0]]) {
        match PieceOfWork::exec_streamingly(progress, event, &product).unwrap() {
            Step::Pending(p) => {
                progress = p;
                if *phases.last().unwrap() != progress.phase() {
                    phases.push(progress.phase());
                }
            }
            Step::Done(m) => {
                result = Some(m);
                break;
            }
        }
    }
    assert_eq!(
        phases,
        vec![Phase::AwaitingLhs, Phase::AwaitingOpArrayStart, Phase::AwaitingOpElement]
    );
    assert_eq!(result.unwrap().data(), &[230.0f64.to_bits()]);
}

#[test]
fn batch_and_streaming_agree() {
    let lhs = [1.5, 2.0, -3.0];
    let ops: [&[f64]; 3] = [&[2.0, 0.5, 1.0], &[4.0], &[0.25]];

    let mut decoding = PieceDecoding::start();
    let mut piece = None;
    for event in piece_events(&lhs, &ops) {
        match PieceOfWork::deserialize(decoding, event).unwrap() {
            Step::Pending(p) => decoding = p,
            Step::Done(done) => {
                piece = Some(done);
                break;
            }
        }
    }
    let batch = piece.unwrap().exec(&product).unwrap();

    let mut progress = PieceProgress::start();
    let mut streamed = None;
    for event in piece_events(&lhs, &ops) {
        match PieceOfWork::exec_streamingly(progress, event, &product).unwrap() {
            Step::Pending(p) => progress = p,
            Step::Done(m) => {
                streamed = Some(m);
                break;
            }
        }
    }
    let streamed = streamed.unwrap();
    assert_eq!(batch.data(), streamed.data());
    assert_eq!(streamed.data(), &[1.0f64.to_bits()]);
}

#[test]
fn stream_driver_yields_one_result_per_work_item() {
    let mut driver = StrompyJsonReader::new();
    assert_eq!(driver.wants(), Some(Action::BeginArray));
    assert!(!driver.at_boundary());
    assert!(matches!(driver.next(Event::Ack, &product), Ok(Yield::Pending)));

    let mut results = Vec::new();
    for lhs in [3.0, 4.0] {
        assert!(driver.at_boundary());
        assert_eq!(driver.wants(), Some(Action::HasNext));
        assert!(matches!(driver.next(Event::More(true), &product), Ok(Yield::Pending)));
        for event in piece_events(&[lhs], &[&[2.0]]) {
            match driver.next(event, &product).unwrap() {
                Yield::Pending => {}
                Yield::Item(m) => results.push(f64::from_bits(m.data()[0])),
                Yield::End => panic!("ended early"),
            }
        }
    }
    assert_eq!(results, vec![6.0, 8.0]);
    assert!(matches!(driver.next(Event::More(false), &product), Ok(Yield::End)));
    assert_eq!(driver.wants(), None);
    assert!(matches!(driver.next(Event::Ack, &product), Ok(Yield::End)));
}

#[test]
fn broken_pipe_is_the_end_only_between_work_items() {
    // Between two work items: the end of the stream.
    let mut driver = StrompyJsonReader::new();
    driver.next(Event::Ack, &product).unwrap();
    assert!(matches!(
        driver.next(Event::Failed(Error::BrokenPipe), &product),
        Ok(Yield::End)
    ));

    // Before the array has begun: a failure.
    let mut driver = StrompyJsonReader::new();
    assert!(matches!(
        driver.next(Event::Failed(Error::BrokenPipe), &product),
        Err(Error::BrokenPipe)
    ));

    // Within a work item: a failure, which stays.
    let mut driver = StrompyJsonReader::new();
    driver.next(Event::Ack, &product).unwrap();
    driver.next(Event::More(true), &product).unwrap();
    driver.next(Event::Ack, &product).unwrap();
    assert!(matches!(
        driver.next(Event::Failed(Error::BrokenPipe), &product),
        Err(Error::BrokenPipe)
    ));
    assert_eq!(driver.wants(), None);
    assert!(matches!(driver.next(Event::More(false), &product), Err(Error::BrokenPipe)));
}

#[test]
fn other_reader_failures_between_work_items_are_failures() {
    let mut driver = StrompyJsonReader::new();
    driver.next(Event::Ack, &product).unwrap();
    assert!(matches!(
        driver.next(Event::Failed(Error::ProtocolError), &product),
        Err(Error::ProtocolError)
    ));
    let mut driver = StrompyJsonReader::new();
    driver.next(Event::Ack, &product).unwrap();
    assert!(matches!(driver.next(Event::Ack, &product), Err(Error::ProtocolError)));
}

#[test]
fn a_spelled_matrix_is_read_back() {
    let bits: Vec<u64> = [1.5f64, -2.0, 0.0, 7.25, 3.0, 9.0].iter().map(|x| x.to_bits()).collect();
    let m = MatrixBuf::new(&bits, 3).unwrap();
    let events = spell_matrix(&m);
    assert_eq!(events.len(), 2 * 6 + 8);
    let Ok(Step::Done(back)) = feed_matrix(events) else { panic!("not read back") };
    assert_eq!(back.data(), m.data());
    assert_eq!(back.columns(), 3);
}

#[test]
fn a_spelled_operation_is_read_back() {
    let rhs = MatrixBuf::new(&[4.0f64.to_bits(), 5.0f64.to_bits()], 1).unwrap();
    let events = spell_operation(&Operation::with(Code::Dot, rhs));
    assert_eq!(events.len(), 2 * 2 + 8 + 5);
    let mut progress = OperationProgress::start();
    let mut done = None;
    for event in events {
        assert!(done.is_none());
        match Operation::deserialize(progress, event).unwrap() {
            Step::Pending(p) => progress = p,
            Step::Done(op) => {
                done = Some(op);
                progress = OperationProgress::start();
            }
        }
    }
    let Some(Operation::Dot { rhs }) = done else { panic!("not read back") };
    assert_eq!(rhs.data(), &[4.0f64.to_bits(), 5.0f64.to_bits()]);
}

#[test]
fn a_spelled_work_item_is_read_back_and_streams_to_its_fold() {
    let mut piece = PieceOfWork::new(MatrixBuf::new(&[2.0f64.to_bits(), 3.0f64.to_bits()], 2).unwrap());
    piece
        .push(Operation::with(
            Code::Dot,
            MatrixBuf::new(&[4.0f64.to_bits(), 5.0f64.to_bits()], 1).unwrap(),
        ))
        .unwrap();
    piece
        .push(Operation::with(Code::Dot, MatrixBuf::new(&[0.5f64.to_bits()], 1).unwrap()))
        .unwrap();

    let mut decoding = PieceDecoding::start();
    let mut back = None;
    for event in spell_piece(&piece) {
        assert!(back.is_none());
        match PieceOfWork::deserialize(decoding, event).unwrap() {
            Step::Pending(p) => decoding = p,
            Step::Done(done) => {
                back = Some(done);
                decoding = PieceDecoding::start();
            }
        }
    }
    let back = back.unwrap();
    assert_eq!(back.lhs().data(), piece.lhs().data());
    assert_eq!(back.len(), 2);

    let mut progress = PieceProgress::start();
    let mut streamed = None;
    for event in spell_piece(&piece) {
        assert!(streamed.is_none());
        match PieceOfWork::exec_streamingly(progress, event, &product).unwrap() {
            Step::Pending(p) => progress = p,
            Step::Done(m) => {
                streamed = Some(m);
                progress = PieceProgress::start();
            }
        }
    }
    let folded = piece.exec(&product).unwrap();
    assert_eq!(streamed.unwrap().data(), folded.data());
    assert_eq!(folded.data(), &[11.5f64.to_bits()]);
}
