//! Whole documents, read through the JSON reader and a byte channel.

use std::io::Read;

use strompy::batch::PieceDecoding;
use strompy::chan::{channel, Channel};
use strompy::document::spell_document;
use strompy::error::Error;
use strompy::matrix::MatrixBuf;
use strompy::op::PieceOfWork;
use strompy::reader::{StrompyJsonReader, Yield};
use strompy::streaming::PieceProgress;
use strompy::wire::{Action, Event, MatrixProgress, OperationProgress, Step};
use struson::reader::{JsonReader, JsonStreamReader, ReaderError};

const WORK: &str = r#"[
  {
    "lhs": {"d": [1, 2, 3], "n": 3},
    "op": [
      {"code": "dot", "rhs": {"d": [4, 9, 13], "n": 3}},
      {"code": "dot", "rhs": {"d": [26], "n": 1}}
    ]
  }
]"#;

/// The dot product of two vectors of doubles, given and returned as bits.
fn dot(a: &[u64], b: &[u64]) -> u64 {
    let x = nalgebra::DVector::from_iterator(a.len(), a.iter().map(|v| f64::from_bits(*v)));
    let y = nalgebra::DVector::from_iterator(b.len(), b.iter().map(|v| f64::from_bits(*v)));
    x.dot(&y).to_bits()
}

fn floats(bits: &[u64]) -> Vec<f64> {
    bits.iter().map(|v| f64::from_bits(*v)).collect()
}

fn failed(e: ReaderError) -> Event {
    match e {
        ReaderError::IoError { error, .. } if error.kind() == std::io::ErrorKind::BrokenPipe => {
            Event::Failed(Error::BrokenPipe)
        }
        _ => Event::Failed(Error::ProtocolError),
    }
}

fn acked(r: Result<(), ReaderError>) -> Event {
    match r {
        Ok(()) => Event::Ack,
        Err(e) => failed(e),
    }
}

/// Makes the call that the decoder wants and reports what came of it.
fn perform<R: Read>(reader: &mut JsonStreamReader<R>, action: Action) -> Event {
    match action {
        Action::BeginObject => acked(reader.begin_object()),
        Action::EndObject => acked(reader.end_object()),
        Action::BeginArray => acked(reader.begin_array()),
        Action::EndArray => acked(reader.end_array()),
        Action::HasNext => match reader.has_next() {
            Ok(more) => Event::More(more),
            Err(e) => failed(e),
        },
        Action::NextName => match reader.next_name_owned() {
            Ok(name) => Event::Name(name),
            Err(e) => failed(e),
        },
        Action::NextString => match reader.next_string() {
            Ok(text) => Event::Text(text),
            Err(e) => failed(e),
        },
        Action::NextNumber => match reader.next_number::<f64>() {
            Ok(Ok(x)) => Event::Number(x.to_bits()),
            Ok(Err(_)) => Event::Failed(Error::ProtocolError),
            Err(e) => failed(e),
        },
        Action::NextCount => match reader.next_number::<usize>() {
            Ok(Ok(n)) => Event::Count(n),
            Ok(Err(_)) => Event::Failed(Error::ProtocolError),
            Err(e) => failed(e),
        },
    }
}

fn decode_matrix(json: &str) -> Result<MatrixBuf, Error> {
    let mut reader = JsonStreamReader::new(json.as_bytes());
    let mut progress = MatrixProgress::start();
    loop {
        let event = perform(&mut reader, progress.wants());
        match MatrixBuf::deserialize(progress, event)? {
            Step::Pending(p) => progress = p,
            Step::Done(m) => return Ok(m),
        }
    }
}

fn decode_operation(json: &str) -> Result<strompy::op::Operation, Error> {
    let mut reader = JsonStreamReader::new(json.as_bytes());
    let mut progress = OperationProgress::start();
    loop {
        let event = perform(&mut reader, progress.wants());
        match strompy::op::Operation::deserialize(progress, event)? {
            Step::Pending(p) => progress = p,
            Step::Done(op) => return Ok(op),
        }
    }
}

fn decode_piece<R: Read>(reader: &mut JsonStreamReader<R>) -> Result<PieceOfWork, Error> {
    let mut progress = PieceDecoding::start();
    loop {
        let event = perform(reader, progress.wants());
        match PieceOfWork::deserialize(progress, event)? {
            Step::Pending(p) => progress = p,
            Step::Done(piece) => return Ok(piece),
        }
    }
}

fn decode_pieces(json: &str) -> Result<Vec<PieceOfWork>, Error> {
    let mut reader = JsonStreamReader::new(json.as_bytes());
    reader.begin_array().map_err(|_| Error::ProtocolError)?;
    let mut pieces = Vec::new();
    while reader.has_next().map_err(|_| Error::ProtocolError)? {
        pieces.push(decode_piece(&mut reader)?);
    }
    reader.end_array().map_err(|_| Error::ProtocolError)?;
    Ok(pieces)
}

fn stream_piece<R: Read>(reader: &mut JsonStreamReader<R>) -> Result<MatrixBuf, Error> {
    let mut progress = PieceProgress::start();
    loop {
        let event = perform(reader, progress.wants());
        match PieceOfWork::exec_streamingly(progress, event, &dot)? {
            Step::Pending(p) => progress = p,
            Step::Done(m) => return Ok(m),
        }
    }
}

/// Runs the streaming driver to the end of the stream or to its failure.
fn stream_all<R: Read>(source: R) -> (Vec<Vec<f64>>, Option<Error>) {
    let mut reader = JsonStreamReader::new(source);
    let mut driver = StrompyJsonReader::new();
    let mut results = Vec::new();
    while let Some(action) = driver.wants() {
        let event = perform(&mut reader, action);
        match driver.next(event, &dot) {
            Ok(Yield::Pending) => {}
            Ok(Yield::Item(m)) => results.push(floats(m.data())),
            Ok(Yield::End) => return (results, None),
            Err(e) => return (results, Some(e)),
        }
    }
    (results, None)
}

/// The reading end of a channel, as a blocking reader would see it: bytes
/// while there are some, the broken pipe once the channel is drained and
/// closed.
struct Pipe(Channel);

impl Read for Pipe {
    fn read(&mut self, buf: &mut [u8]) -> std::io::Result<usize> {
        match self.0.read(buf.len()) {
            Ok(Some(bytes)) => {
                buf[..bytes.len()].copy_from_slice(&bytes);
                Ok(bytes.len())
            }
            Ok(None) => Err(std::io::Error::from(std::io::ErrorKind::WouldBlock)),
            Err(_) => Err(std::io::Error::from(std::io::ErrorKind::BrokenPipe)),
        }
    }
}

fn piped(chunks: &[&[u8]]) -> Pipe {
    let mut c = channel();
    for chunk in chunks {
        c.write(chunk).unwrap();
    }
    c.close();
    Pipe(c)
}

#[test]
fn lib_it_deserializes() {
    let pieces = decode_pieces(WORK).unwrap();
    assert_eq!(pieces.len(), 1);
    assert_eq!(pieces[0].len(), 2);
}

#[test]
fn lib_it_works() {
    let mut pieces = decode_pieces(WORK).unwrap();
    let work = pieces.pop().unwrap();
    let res = work.exec(&dot).unwrap();
    assert_eq!(res.columns(), 1);
    assert_eq!(floats(res.data()), vec![1586.0]);
}

#[test]
fn lib_it_works_streamingly() {
    let mut json_reader = JsonStreamReader::new(WORK.as_bytes());
    json_reader.begin_array().unwrap();

    let res = stream_piece(&mut json_reader).unwrap();
    assert_eq!(res.columns(), 1);
    assert_eq!(floats(res.data()), vec![1586.0]);

    assert!(!json_reader.has_next().unwrap());

    json_reader.end_array().unwrap();
}

#[test]
fn matrix_round_trips() {
    let m = decode_matrix(r#"{"d":[1,2,3,4],"n":2}"#).unwrap();
    assert_eq!(m.len(), 4);
    assert_eq!(m.columns(), 2);
    assert_eq!(m.row_count(), 2);
    let rows: Vec<Vec<f64>> = m.into_rows().iter().map(|r| floats(r)).collect();
    assert_eq!(rows, vec![vec![1.0, 2.0], vec![3.0, 4.0]]);
}

#[test]
fn matrix_keeps_fractions_and_exponents() {
    let m = decode_matrix(r#"{ "d" : [0.5, -2e3, 1.25E-2], "n" : 1 }"#).unwrap();
    assert_eq!(floats(m.data()), vec![0.5, -2000.0, 0.0125]);
    assert_eq!(m.row_count(), 3);
}

#[test]
fn empty_matrix_is_accepted() {
    let m = decode_matrix(r#"{"d":[],"n":3}"#).unwrap();
    assert_eq!(m.len(), 0);
    assert_eq!(m.row_count(), 0);
}

#[test]
fn dot_of_two_vectors() {
    let (results, error) = stream_all(
        r#"[{"lhs":{"d":[1,2,3],"n":3},"op":[{"code":"dot","rhs":{"d":[4,5,6],"n":3}}]}]"#
            .as_bytes(),
    );
    assert_eq!(error, None);
    assert_eq!(results, vec![vec![32.0]]);
}

#[test]
fn operations_apply_in_array_order() {
    // [2, 3] . [5, 7] = 31, then 31 * 11 = 341. In the other order the first
    // operation would meet a left-hand side of the wrong size.
    let forward = r#"[{"lhs":{"d":[2,3],"n":2},"op":[
        {"code":"dot","rhs":{"d":[5,7],"n":2}},
        {"code":"dot","rhs":{"d":[11],"n":1}}]}]"#;
    let backward = r#"[{"lhs":{"d":[2,3],"n":2},"op":[
        {"code":"dot","rhs":{"d":[11],"n":1}},
        {"code":"dot","rhs":{"d":[5,7],"n":2}}]}]"#;
    assert_eq!(stream_all(forward.as_bytes()), (vec![vec![341.0]], None));
    assert_eq!(stream_all(backward.as_bytes()), (vec![], Some(Error::ShapeMismatch)));

    let mut pieces = decode_pieces(forward).unwrap();
    let res = pieces.pop().unwrap().exec(&dot).unwrap();
    assert_eq!(floats(res.data()), vec![341.0]);
    let mut pieces = decode_pieces(backward).unwrap();
    assert_eq!(pieces.pop().unwrap().exec(&dot).err(), Some(Error::ShapeMismatch));
}

#[test]
fn work_item_without_operations_yields_its_matrix() {
    let (results, error) = stream_all(r#"[{"lhs":{"d":[7,8],"n":1},"op":[]}]"#.as_bytes());
    assert_eq!(error, None);
    assert_eq!(results, vec![vec![7.0, 8.0]]);
}

#[test]
fn results_keep_the_order_of_the_work_items() {
    let json = r#"[
        {"lhs":{"d":[1],"n":1},"op":[{"code":"dot","rhs":{"d":[2],"n":1}}]},
        {"lhs":{"d":[3],"n":1},"op":[]},
        {"lhs":{"d":[1,1],"n":2},"op":[{"code":"dot","rhs":{"d":[4,5],"n":2}}]}
    ]"#;
    assert_eq!(
        stream_all(json.as_bytes()),
        (vec![vec![2.0], vec![3.0], vec![9.0]], None)
    );
}

#[test]
fn empty_document_has_no_results() {
    assert_eq!(stream_all("[]".as_bytes()), (vec![], None));
}

fn matrix_of(count: usize) -> String {
    let d: Vec<String> = (0..count).map(|i| i.to_string()).collect();
    format!(r#"{{"d":[{}],"n":1}}"#, d.join(","))
}

#[test]
fn thirty_six_elements_fit() {
    let m = decode_matrix(&matrix_of(36)).unwrap();
    assert_eq!(m.len(), 36);
    assert_eq!(f64::from_bits(m.data()[35]), 35.0);
}

#[test]
fn thirty_seven_elements_exceed_the_capacity() {
    assert_eq!(decode_matrix(&matrix_of(37)).err(), Some(Error::CapacityExceeded));
}

fn piece_with(count: usize) -> String {
    let ops: Vec<String> =
        (0..count).map(|_| r#"{"code":"dot","rhs":{"d":[2],"n":1}}"#.to_string()).collect();
    format!(r#"[{{"lhs":{{"d":[1],"n":1}},"op":[{}]}}]"#, ops.join(","))
}

#[test]
fn five_operations_fit() {
    assert_eq!(stream_all(piece_with(5).as_bytes()), (vec![vec![32.0]], None));
    assert_eq!(decode_pieces(&piece_with(5)).unwrap()[0].len(), 5);
}

#[test]
fn six_operations_exceed_the_capacity() {
    assert_eq!(stream_all(piece_with(6).as_bytes()), (vec![], Some(Error::CapacityExceeded)));
    assert_eq!(decode_pieces(&piece_with(6)).err(), Some(Error::CapacityExceeded));
}

#[test]
fn n_before_d_is_a_protocol_error() {
    assert_eq!(
        decode_matrix(r#"{"n":2,"d":[1,2,3,4]}"#).err(),
        Some(Error::ProtocolError)
    );
}

#[test]
fn rhs_before_code_is_a_protocol_error() {
    assert_eq!(
        decode_operation(r#"{"rhs":{"d":[1],"n":1},"code":"dot"}"#).err(),
        Some(Error::ProtocolError)
    );
}

#[test]
fn op_before_lhs_is_a_protocol_error() {
    assert_eq!(
        stream_all(r#"[{"op":[],"lhs":{"d":[1],"n":1}}]"#.as_bytes()),
        (vec![], Some(Error::ProtocolError))
    );
}

#[test]
fn extra_and_missing_fields_are_protocol_errors() {
    assert_eq!(
        decode_matrix(r#"{"d":[1],"n":1,"x":0}"#).err(),
        Some(Error::ProtocolError)
    );
    assert_eq!(decode_matrix(r#"{"d":[1]}"#).err(), Some(Error::ProtocolError));
    assert_eq!(decode_matrix(r#"[1]"#).err(), Some(Error::ProtocolError));
    assert_eq!(decode_matrix(r#"{"d":["a"],"n":1}"#).err(), Some(Error::ProtocolError));
}

#[test]
fn column_count_must_be_a_positive_integer() {
    assert_eq!(decode_matrix(r#"{"d":[1,2],"n":0}"#).err(), Some(Error::ProtocolError));
    assert_eq!(decode_matrix(r#"{"d":[1,2],"n":-1}"#).err(), Some(Error::ProtocolError));
    assert_eq!(decode_matrix(r#"{"d":[1,2],"n":1.5}"#).err(), Some(Error::ProtocolError));
}

#[test]
fn last_row_must_be_full() {
    assert_eq!(decode_matrix(r#"{"d":[1,2,3],"n":2}"#).err(), Some(Error::ShapeMismatch));
}

#[test]
fn unknown_code_is_an_unknown_operation() {
    assert_eq!(
        decode_operation(r#"{"code":"cross","rhs":{"d":[1],"n":1}}"#).err(),
        Some(Error::UnknownOperation)
    );
    assert_eq!(
        decode_operation(r#"{"code":"Dot","rhs":{"d":[1],"n":1}}"#).err(),
        Some(Error::UnknownOperation)
    );
}

#[test]
fn operands_of_different_sizes_are_a_shape_mismatch() {
    assert_eq!(
        stream_all(
            r#"[{"lhs":{"d":[1,2,3],"n":3},"op":[{"code":"dot","rhs":{"d":[4,5],"n":2}}]}]"#
                .as_bytes()
        ),
        (vec![], Some(Error::ShapeMismatch))
    );
}

#[test]
fn failure_of_one_work_item_keeps_the_earlier_results() {
    let json = r#"[
        {"lhs":{"d":[1],"n":1},"op":[]},
        {"lhs":{"d":[1],"n":1},"op":[{"code":"nope","rhs":{"d":[1],"n":1}}]},
        {"lhs":{"d":[2],"n":1},"op":[]}
    ]"#;
    assert_eq!(stream_all(json.as_bytes()), (vec![vec![1.0]], Some(Error::UnknownOperation)));
}

#[test]
fn results_do_not_depend_on_the_chunking() {
    let bytes = WORK.as_bytes();
    let whole = stream_all(piped(&[bytes]));
    assert_eq!(whole, (vec![vec![1586.0]], None));

    for cut in 1..bytes.len() {
        let halves = stream_all(piped(&[&bytes[..cut], &bytes[cut..]]));
        assert_eq!(halves, whole);
    }

    let singles: Vec<&[u8]> = bytes.chunks(1).collect();
    assert_eq!(stream_all(piped(&singles)), whole);
    let sevens: Vec<&[u8]> = bytes.chunks(7).collect();
    assert_eq!(stream_all(piped(&sevens)), whole);
}

#[test]
fn closing_after_a_complete_array_ends_the_stream() {
    let mut pipe = piped(&[WORK.as_bytes()]);
    let mut reader = JsonStreamReader::new(&mut pipe);
    let mut driver = StrompyJsonReader::new();
    let mut results = Vec::new();
    let mut ended = false;
    while let Some(action) = driver.wants() {
        let event = perform(&mut reader, action);
        match driver.next(event, &dot).unwrap() {
            Yield::Pending => {}
            Yield::Item(m) => results.push(floats(m.data())),
            Yield::End => ended = true,
        }
    }
    assert!(ended);
    assert_eq!(results, vec![vec![1586.0]]);
    // The stream has ended: the driver wants nothing more and keeps saying so.
    assert_eq!(driver.wants(), None);
    assert!(matches!(
        driver.next(Event::Failed(Error::BrokenPipe), &dot),
        Ok(Yield::End)
    ));
    drop(reader);
    // The next read on the channel finds the broken pipe.
    assert_eq!(pipe.0.read(16), Err(Error::BrokenPipe));
}

#[test]
fn closing_between_two_work_items_ends_the_stream() {
    let open = r#"[{"lhs":{"d":[1,2],"n":2},"op":[{"code":"dot","rhs":{"d":[3,4],"n":2}}]}"#;
    assert_eq!(stream_all(piped(&[open.as_bytes()])), (vec![vec![11.0]], None));
}

#[test]
fn closing_within_a_work_item_is_a_failure() {
    let cut = r#"[{"lhs":{"d":[1,2],"n":2},"op":[{"code":"dot","rhs":{"d":[3,"#;
    assert_eq!(stream_all(piped(&[cut.as_bytes()])), (vec![], Some(Error::BrokenPipe)));
}

#[test]
fn the_reader_gives_the_answers_that_spell_the_document() {
    let json = r#"[
        {"lhs":{"d":[1,2,3,4],"n":2},"op":[{"code":"dot","rhs":{"d":[1,0,0,1],"n":4}}]},
        {"lhs":{"d":[],"n":1},"op":[]},
        {"lhs":{"d":[0.5],"n":1},"op":[
            {"code":"dot","rhs":{"d":[4],"n":1}},
            {"code":"dot","rhs":{"d":[8],"n":1}}]}
    ]"#;

    // What the reader answers while the driver streams the document.
    let mut reader = JsonStreamReader::new(json.as_bytes());
    let mut driver = StrompyJsonReader::new();
    let mut answers = Vec::new();
    let mut results = Vec::new();
    while let Some(action) = driver.wants() {
        let event = perform(&mut reader, action);
        answers.push(format!("{:?}", event));
        match driver.next(event, &dot).unwrap() {
            Yield::Pending => {}
            Yield::Item(m) => results.push(floats(m.data())),
            Yield::End => break,
        }
    }
    assert_eq!(results, vec![vec![5.0], vec![], vec![16.0]]);

    // What the decoded work items are spelled by.
    let pieces = decode_pieces(json).unwrap();
    let spelled: Vec<String> =
        spell_document(&pieces).iter().map(|event| format!("{:?}", event)).collect();
    assert_eq!(answers, spelled);
}
