use pipeline::processor::inherit;
use pipeline::{echo, null, Fault, Io, Process, Processor, Stage, StringOut};

/// A transform that hands on what it gets, and counts its calls.
struct Same {
    calls: usize,
    seen: Vec<u8>,
}

/// A stage that answers every call as it was told to.
struct Fixed {
    run: Result<usize, Fault>,
    done: Result<bool, Fault>,
    calls: usize,
}

enum Link {
    Lib(Stage),
    Same(Same),
    Fixed(Fixed),
}

impl Process for Link {
    fn run(&mut self, on: Io<'_>) -> Result<usize, Fault> {
        match self {
            Link::Lib(s) => s.run(on),
            Link::Same(s) => {
                s.calls += 1;
                match on.parts() {
                    (Some(i), Some(o)) => {
                        s.seen.extend_from_slice(i);
                        o[..i.len()].copy_from_slice(i);
                        Ok(i.len())
                    }
                    _ => Err(Fault::Contract),
                }
            }
            Link::Fixed(s) => {
                s.calls += 1;
                s.run
            }
        }
    }

    fn done(&mut self, before: Option<bool>) -> Result<bool, Fault> {
        match self {
            Link::Lib(s) => s.done(before),
            Link::Same(_) => Ok(inherit(before)),
            Link::Fixed(s) => s.done,
        }
    }

    fn label(&self) -> String {
        match self {
            Link::Lib(s) => s.label(),
            Link::Same(_) => "same".to_string(),
            Link::Fixed(_) => "fixed".to_string(),
        }
    }
}

fn same() -> Link {
    Link::Same(Same { calls: 0, seen: Vec::new() })
}

fn fixed(run: Result<usize, Fault>, done: Result<bool, Fault>) -> Link {
    Link::Fixed(Fixed { run, done, calls: 0 })
}

fn source(bytes: &'static [u8]) -> Link {
    Link::Lib(Stage::Source(echo::new(bytes)))
}

fn sink() -> Link {
    Link::Lib(Stage::Text(StringOut::new()))
}

fn text_of(p: &Processor<Link>) -> String {
    match p.stages().last() {
        Some(Link::Lib(Stage::Text(t))) => t.text().to_string(),
        _ => panic!("the pipeline does not end in a text sink"),
    }
}

fn calls_of(p: &Processor<Link>, i: usize) -> usize {
    match &p.stages()[i] {
        Link::Same(s) => s.calls,
        Link::Fixed(s) => s.calls,
        Link::Lib(_) => panic!("not a counting stage"),
    }
}

#[test]
fn three_stages_take_three_passes() {
    let mut p = Processor::new(2);
    p.add(source(b"abcdef"));
    p.add(same());
    p.add(sink());
    let mut passes = 0;
    while !p.done().unwrap() {
        p.step().unwrap();
        passes += 1;
    }
    assert_eq!(passes, 3);
    assert_eq!(text_of(&p), "abcdef");
    assert_eq!(calls_of(&p, 1), 3);
    match &p.stages()[1] {
        Link::Same(s) => assert_eq!(s.seen, b"abcdef"),
        _ => unreachable!(),
    }
}

#[test]
fn three_stages_run_to_completion() {
    let mut p = Processor::new(2);
    p.add(source(b"abcdef"));
    p.add(same());
    p.add(sink());
    assert_eq!(p.complete(), Ok(()));
    assert_eq!(text_of(&p), "abcdef");
}

#[test]
fn halves_alternate_through_many_middle_stages() {
    for middles in 0..6 {
        let mut p = Processor::new(3);
        p.add(source(b"ping-pong buffer"));
        for _ in 0..middles {
            p.add(same());
        }
        p.add(sink());
        assert_eq!(p.complete(), Ok(()));
        assert_eq!(text_of(&p), "ping-pong buffer");
    }
}

#[test]
fn last_stage_gets_the_count_not_the_half() {
    let mut p = Processor::new(8);
    p.add(source(b"abcdefgh"));
    p.add(sink());
    p.step().unwrap();
    let mut q = Processor::new(8);
    q.add(source(b"xy"));
    q.add(sink());
    q.step().unwrap();
    assert_eq!(text_of(&q), "xy");
    assert_eq!(text_of(&p), "abcdefgh");
}

#[test]
fn a_count_beyond_the_buffer_is_a_contract_fault() {
    let mut p = Processor::new(4);
    p.add(fixed(Ok(5), Ok(false)));
    p.add(same());
    p.add(sink());
    assert_eq!(p.step(), Err(Fault::Contract));
    assert_eq!(calls_of(&p, 0), 1);
    assert_eq!(calls_of(&p, 1), 0);
    assert_eq!(text_of(&p), "");
}

#[test]
fn a_count_that_fills_the_buffer_is_accepted() {
    let mut p = Processor::new(4);
    p.add(fixed(Ok(4), Ok(true)));
    p.add(sink());
    assert_eq!(p.step(), Ok(()));
    assert_eq!(text_of(&p), "\0\0\0\0");
}

#[test]
fn a_middle_count_beyond_the_buffer_is_a_contract_fault() {
    let mut p = Processor::new(4);
    p.add(source(b"abcd"));
    p.add(fixed(Ok(9), Ok(false)));
    p.add(sink());
    assert_eq!(p.step(), Err(Fault::Contract));
    assert_eq!(p.complete(), Err(Fault::Contract));
    assert_eq!(text_of(&p), "");
}

#[test]
fn the_last_count_is_ignored() {
    let mut p = Processor::new(1);
    p.add(source(b"a"));
    p.add(fixed(Ok(1000), Ok(true)));
    assert_eq!(p.step(), Ok(()));
    assert_eq!(calls_of(&p, 1), 1);
}

#[test]
fn a_lone_stage_is_a_first_stage() {
    let mut p = Processor::new(4);
    p.add(same());
    assert_eq!(p.step(), Err(Fault::Contract));
    let mut q = Processor::new(4);
    q.add(source(b"abc"));
    assert_eq!(q.step(), Ok(()));
    let mut r = Processor::new(4);
    r.add(Link::Lib(Stage::Null(null {})));
    assert_eq!(r.step(), Err(Fault::Contract));
}

#[test]
fn a_fault_in_a_pass_stops_the_pass() {
    let mut p = Processor::new(4);
    p.add(source(b"abcdefgh"));
    p.add(fixed(Err(Fault::Io), Ok(false)));
    p.add(same());
    p.add(sink());
    assert_eq!(p.step(), Err(Fault::Io));
    assert_eq!(calls_of(&p, 1), 1);
    assert_eq!(calls_of(&p, 2), 0);
    assert_eq!(p.complete(), Err(Fault::Io));
    assert_eq!(calls_of(&p, 1), 2);
    match &p.stages()[0] {
        Link::Lib(Stage::Source(e)) => assert_eq!(e.written(), 8),
        _ => unreachable!(),
    }
}

#[test]
fn a_fault_in_a_check_stops_the_check() {
    let mut p = Processor::new(4);
    p.add(source(b"ab"));
    p.add(fixed(Ok(0), Err(Fault::Os)));
    p.add(fixed(Ok(0), Ok(true)));
    assert_eq!(p.done(), Err(Fault::Os));
    assert_eq!(p.complete(), Err(Fault::Os));
    assert_eq!(calls_of(&p, 1), 0);
}

#[test]
fn every_stage_is_asked_even_after_an_unfinished_one() {
    let mut p = Processor::new(4);
    p.add(fixed(Ok(0), Ok(false)));
    p.add(fixed(Ok(0), Ok(true)));
    p.add(fixed(Ok(0), Err(Fault::Os)));
    assert_eq!(p.done(), Err(Fault::Os));
    let mut q = Processor::new(4);
    q.add(fixed(Ok(0), Ok(true)));
    q.add(fixed(Ok(0), Ok(false)));
    q.add(fixed(Ok(0), Ok(true)));
    assert_eq!(q.done(), Ok(false));
    let mut r = Processor::new(4);
    r.add(fixed(Ok(0), Ok(true)));
    r.add(fixed(Ok(0), Ok(true)));
    assert_eq!(r.done(), Ok(true));
}

#[test]
fn completion_is_handed_down_the_chain() {
    let mut p = Processor::new(4);
    p.add(source(b""));
    p.add(same());
    p.add(same());
    p.add(sink());
    assert_eq!(p.done(), Ok(true));
    let mut q = Processor::new(4);
    q.add(source(b"x"));
    q.add(same());
    q.add(sink());
    assert_eq!(q.done(), Ok(false));
    let mut r = Processor::new(4);
    r.add(same());
    r.add(sink());
    assert_eq!(r.done(), Ok(false));
}

#[test]
fn an_encoding_fault_ends_the_run_with_the_pipeline_as_it_stands() {
    let mut p = Processor::new(2);
    p.add(source(&[0x61, 0x62, 0x80, 0x63, 0x64, 0x65]));
    p.add(same());
    p.add(sink());
    assert_eq!(p.complete(), Err(Fault::Encoding));
    assert_eq!(text_of(&p), "ab");
    assert_eq!(calls_of(&p, 1), 2);
    assert_eq!(p.done(), Ok(false));
}

#[test]
fn a_zero_capacity_pipeline_moves_nothing() {
    let mut p = Processor::new(0);
    p.add(source(b"abc"));
    p.add(same());
    p.add(sink());
    for _ in 0..5 {
        assert_eq!(p.done(), Ok(false));
        assert_eq!(p.step(), Ok(()));
    }
    assert_eq!(text_of(&p), "");
    assert_eq!(calls_of(&p, 1), 5);
}

#[test]
fn every_stage_has_a_label() {
    let mut p = Processor::new(4);
    p.add(source(b"a\tb"));
    p.add(same());
    p.add(fixed(Ok(0), Ok(true)));
    p.add(sink());
    let labels: Vec<String> = p.stages().iter().map(|s| s.label()).collect();
    assert_eq!(labels, ["echo a\\tb", "same", "fixed", "string"]);
}

#[test]
fn a_position_comes_apart_by_role() {
    let mut buf = [1u8, 2, 3];
    match Io::First(&mut buf).parts() {
        (None, Some(o)) => assert_eq!(o, [1, 2, 3]),
        _ => panic!("a first stage has only a slice to fill"),
    }
    match Io::Last(&[7, 8]).parts() {
        (Some(i), None) => assert_eq!(i, [7, 8]),
        _ => panic!("a last stage has only bytes to take in"),
    }
    match Io::Middle(&[7, 8], &mut buf).parts() {
        (Some(i), Some(o)) => {
            assert_eq!(i, [7, 8]);
            o[0] = 9;
        }
        _ => panic!("a middle stage has both"),
    }
    assert_eq!(buf, [9, 2, 3]);
}
