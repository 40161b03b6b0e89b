use pipeline::processor::{inherit, PASSES};
use pipeline::util::prefixed;
use pipeline::{echo, null, Fault, Io, Process, Processor, Stage, StringOut};

fn source(bytes: &'static [u8]) -> Stage {
    Stage::Source(echo::new(bytes))
}

fn text_of(p: &Processor<Stage>) -> String {
    match p.stages().last() {
        Some(Stage::Text(t)) => t.text().to_string(),
        _ => panic!("the pipeline does not end in a text sink"),
    }
}

#[test]
fn hello_reaches_the_text_sink_with_a_large_buffer() {
    let mut p = Processor::new(512);
    p.add(source(b"hello"));
    p.add(Stage::Text(StringOut::new()));
    assert_eq!(p.complete(), Ok(()));
    assert_eq!(text_of(&p), "hello");
}

#[test]
fn hello_reaches_the_text_sink_with_a_small_buffer() {
    let mut p = Processor::new(2);
    p.add(source(b"hello"));
    p.add(Stage::Text(StringOut::new()));
    assert_eq!(p.complete(), Ok(()));
    assert_eq!(text_of(&p), "hello");
}

#[test]
fn one_byte_buffer_drains_a_source() {
    let mut p = Processor::new(1);
    p.add(source(b"pipeline"));
    p.add(Stage::Text(StringOut::new()));
    let mut passes = 0;
    while !p.done().unwrap() {
        p.step().unwrap();
        passes += 1;
    }
    assert_eq!(passes, 8);
    assert_eq!(text_of(&p), "pipeline");
}

#[test]
fn lone_source_completes_when_drained() {
    let mut p = Processor::new(2);
    p.add(source(b"abc"));
    assert_eq!(p.done(), Ok(false));
    assert_eq!(p.step(), Ok(()));
    assert_eq!(p.done(), Ok(false));
    assert_eq!(p.step(), Ok(()));
    assert_eq!(p.done(), Ok(true));
    assert_eq!(p.complete(), Ok(()));
}

#[test]
fn source_into_null_never_fails() {
    let mut p = Processor::new(3);
    p.add(source(b"0123456789"));
    p.add(Stage::Null(null {}));
    assert_eq!(p.complete(), Ok(()));
    assert_eq!(p.done(), Ok(true));
}

#[test]
fn done_is_repeatable() {
    let mut p = Processor::new(4);
    p.add(source(b"abcdef"));
    p.add(Stage::Null(null {}));
    assert_eq!(p.done(), Ok(false));
    assert_eq!(p.done(), Ok(false));
    p.step().unwrap();
    assert_eq!(p.done(), Ok(false));
    assert_eq!(p.done(), Ok(false));
    p.step().unwrap();
    assert_eq!(p.done(), Ok(true));
    assert_eq!(p.done(), Ok(true));
}

#[test]
fn non_text_bytes_surface_an_encoding_fault() {
    let mut p = Processor::new(8);
    p.add(source(&[0x66, 0x6f, 0xff, 0x6f]));
    p.add(Stage::Text(StringOut::new()));
    assert_eq!(p.complete(), Err(Fault::Encoding));
    assert_eq!(p.done(), Ok(true));
    assert_eq!(text_of(&p), "");
}

#[test]
fn text_before_a_bad_chunk_is_kept() {
    let mut p = Processor::new(2);
    p.add(source(&[0x6f, 0x6b, 0xff, 0x21, 0x21]));
    p.add(Stage::Text(StringOut::new()));
    assert_eq!(p.complete(), Err(Fault::Encoding));
    assert_eq!(text_of(&p), "ok");
    assert_eq!(p.done(), Ok(false));
}

#[test]
fn a_character_split_over_two_chunks_is_refused() {
    let mut p = Processor::new(1);
    p.add(source("é".as_bytes()));
    p.add(Stage::Text(StringOut::new()));
    assert_eq!(p.complete(), Err(Fault::Encoding));
    let mut q = Processor::new(2);
    q.add(source("é".as_bytes()));
    q.add(Stage::Text(StringOut::new()));
    assert_eq!(q.complete(), Ok(()));
    assert_eq!(text_of(&q), "é");
}

#[test]
fn empty_pipeline_is_complete() {
    let mut p: Processor<Stage> = Processor::new(4);
    assert_eq!(p.done(), Ok(true));
    assert_eq!(p.step(), Ok(()));
    assert_eq!(p.complete(), Ok(()));
    assert_eq!(p.capacity(), 4);
    assert!(p.stages().is_empty());
}

#[test]
fn empty_source_completes_without_a_pass() {
    let mut p = Processor::new(4);
    p.add(source(b""));
    p.add(Stage::Text(StringOut::new()));
    assert_eq!(p.done(), Ok(true));
    assert_eq!(p.complete(), Ok(()));
    assert_eq!(text_of(&p), "");
}

#[test]
fn source_writes_what_fits_and_moves_on() {
    let mut e = echo::new(b"hi!");
    let mut buf = [0u8; 2];
    assert_eq!(e.run(Io::First(&mut buf)), Ok(2));
    assert_eq!(buf, [b'h', b'i']);
    assert_eq!(e.done(None), Ok(false));
    assert_eq!(e.run(Io::First(&mut buf)), Ok(1));
    assert_eq!(buf, [b'!', b'i']);
    assert_eq!(e.done(None), Ok(true));
    assert_eq!(e.run(Io::First(&mut buf)), Ok(0));
    assert_eq!(buf, [b'!', b'i']);
}

#[test]
fn source_refuses_other_positions() {
    let mut e = echo::new(b"hi");
    let mut buf = [0u8; 2];
    assert_eq!(e.run(Io::Last(&[1, 2])), Err(Fault::Contract));
    assert_eq!(e.run(Io::Middle(&[1, 2], &mut buf)), Err(Fault::Contract));
    assert_eq!(buf, [0, 0]);
    assert_eq!(e.done(Some(true)), Ok(false));
}

#[test]
fn sinks_refuse_other_positions() {
    let mut buf = [7u8; 2];
    let mut n = null {};
    assert_eq!(n.run(Io::First(&mut buf)), Err(Fault::Contract));
    assert_eq!(n.run(Io::Middle(&[1], &mut buf)), Err(Fault::Contract));
    assert_eq!(n.run(Io::Last(&[1, 2, 3])), Ok(0));
    let mut t = StringOut::new();
    assert_eq!(t.run(Io::First(&mut buf)), Err(Fault::Contract));
    assert_eq!(t.run(Io::Middle(&[1], &mut buf)), Err(Fault::Contract));
    assert_eq!(t.text(), "");
    assert_eq!(buf, [7, 7]);
}

#[test]
fn sinks_inherit_completion() {
    let mut n = null {};
    assert_eq!(n.done(None), Ok(false));
    assert_eq!(n.done(Some(false)), Ok(false));
    assert_eq!(n.done(Some(true)), Ok(true));
    let mut t = StringOut::new();
    assert_eq!(t.done(None), Ok(false));
    assert_eq!(t.done(Some(false)), Ok(false));
    assert_eq!(t.done(Some(true)), Ok(true));
}

#[test]
fn text_sink_decodes_and_appends() {
    let mut t = StringOut::new();
    assert_eq!(t.take("grüß".as_bytes()), Ok(()));
    assert_eq!(t.take(b" dich"), Ok(()));
    assert_eq!(t.text(), "grüß dich");
    assert_eq!(t.take(&[0xc3]), Err(Fault::Encoding));
    assert_eq!(t.text(), "grüß dich");
    assert_eq!(t.run(Io::Last(b"!")), Ok(0));
    assert_eq!(t.into_text(), "grüß dich!");
}

#[test]
fn labels_name_the_stages() {
    assert_eq!(echo::new(b"a\n\"b\"").label(), "echo a\\n\\\"b\\\"");
    assert_eq!(echo::new(&[0x68, 0xff]).label(), "echo h\u{fffd}");
    assert_eq!((null {}).label(), "/dev/null");
    assert_eq!(StringOut::new().label(), "string");
    assert_eq!(source(b"x").label(), "echo x");
    assert_eq!(Stage::Null(null {}).label(), "/dev/null");
    assert_eq!(Stage::Text(StringOut::new()).label(), "string");
    assert_eq!(Fault::Io.label(), "i/o fault");
    assert_eq!(Fault::Os.label(), "os fault");
    assert_eq!(Fault::Encoding.label(), "encoding fault");
    assert_eq!(Fault::Contract.label(), "contract fault");
    assert_eq!(Fault::Stalled.label(), "stalled");
}

#[test]
fn a_sink_in_front_is_a_contract_fault() {
    let mut p = Processor::new(4);
    p.add(Stage::Null(null {}));
    p.add(source(b"abc"));
    assert_eq!(p.step(), Err(Fault::Contract));
}

#[test]
fn stages_come_back_in_order() {
    let mut p = Processor::new(4);
    p.add(source(b"abcdef"));
    p.add(Stage::Text(StringOut::new()));
    p.step().unwrap();
    let stages = p.into_stages();
    assert_eq!(stages.len(), 2);
    match &stages[0] {
        Stage::Source(e) => assert_eq!(e.written(), 4),
        _ => panic!("the first stage is the source"),
    }
    match &stages[1] {
        Stage::Text(t) => assert_eq!(t.text(), "abcd"),
        _ => panic!("the last stage is the sink"),
    }
}

#[test]
fn a_label_is_the_word_echo_and_what_is_shown() {
    assert_eq!(prefixed("a\\n"), "echo a\\n");
    assert_eq!(prefixed(""), "echo ");
}

#[test]
fn inheriting_without_a_neighbour_is_unfinished() {
    assert!(!inherit(None));
    assert!(!inherit(Some(false)));
    assert!(inherit(Some(true)));
}

#[test]
fn a_run_is_allowed_more_passes_than_a_source_has_bytes() {
    assert_eq!(PASSES, u128::MAX);
}

#[test]
fn the_buffer_outlives_a_run_of_many_chunks() {
    let mut p = Processor::new(3);
    p.add(source(b"the quick brown fox jumps over the lazy dog"));
    p.add(Stage::Text(StringOut::new()));
    assert_eq!(p.complete(), Ok(()));
    assert_eq!(text_of(&p), "the quick brown fox jumps over the lazy dog");
    assert_eq!(p.capacity(), 3);
    assert_eq!(p.step(), Ok(()));
    assert_eq!(text_of(&p), "the quick brown fox jumps over the lazy dog");
}
