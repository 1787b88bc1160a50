use std::cell::RefCell;
use std::io::Read;
use std::rc::Rc;

use aho_corasick::AhoCorasick;
use split_by::grow::Grow;
use split_by::should_emit;
use split_by::MatchStep;
use split_by::SplitByIter;

struct GrowWrap<R>(Rc<RefCell<Grow<R>>>);

impl<R: Read> Read for GrowWrap<R> {
    fn read(&mut self, buf: &mut [u8]) -> std::io::Result<usize> {
        let mut g = self.0.borrow_mut();
        let mut dest = vec![0u8; buf.len()];
        let pulled = if g.needs_pull(dest.len()) {
            g.source_mut().read(&mut dest)?
        } else {
            0
        };
        assert!(pulled <= dest.len());
        let n = g.read_step(&mut dest, pulled);
        buf[..n].copy_from_slice(&dest[..n]);
        Ok(n)
    }
}

fn split_all(input: &[u8], patterns: &[&[u8]]) -> Vec<Vec<u8>> {
    let ac = AhoCorasick::new(patterns).unwrap();
    let g = Rc::new(RefCell::new(Grow::new(input)));
    let mut matches = ac.stream_find_iter(GrowWrap(g.clone()));
    let mut iter = SplitByIter::new();
    let mut out: Vec<Vec<u8>> = Vec::new();
    loop {
        let step = match matches.next() {
            None => MatchStep::Done,
            Some(Ok(m)) => {
                let pos = iter.position();
                assert!(pos <= m.start() && m.start() <= m.end());
                assert!(m.end() - pos <= g.borrow().handed_len());
                MatchStep::Found {
                    start: m.start(),
                    end: m.end(),
                }
            }
            Some(Err(e)) => MatchStep::Failed(e),
        };
        let item = {
            let mut gm = g.borrow_mut();
            iter._next(&mut gm, step)
        };
        if should_emit(&item) {
            match item {
                None => break,
                Some(Ok(segment)) => out.push(segment),
                Some(Err(e)) => panic!("unexpected read failure: {}", e),
            }
        }
    }
    assert!(g.borrow().iter().is_empty());
    out
}

fn split_eq(input: &str) -> Vec<Vec<u8>> {
    let patterns: [&[u8]; 1] = [b"=="];
    split_all(input.as_bytes(), &patterns)
}

#[test]
fn scenario_leading_pair() {
    assert_eq!(split_eq("==1==2"), vec![b"1".to_vec(), b"2".to_vec()]);
}

#[test]
fn scenario_trailing_pair() {
    assert_eq!(split_eq("1==2=="), vec![b"1".to_vec(), b"2".to_vec()]);
}

#[test]
fn scenario_adjacent_delimiters() {
    assert_eq!(split_eq("1====2"), vec![b"1".to_vec(), b"2".to_vec()]);
}

#[test]
fn scenario_empty_input() {
    assert_eq!(split_eq(""), Vec::<Vec<u8>>::new());
}

#[test]
fn scenario_only_delimiter() {
    assert_eq!(split_eq("=="), Vec::<Vec<u8>>::new());
}

#[test]
fn scenario_no_delimiter() {
    assert_eq!(split_eq("12345678"), vec![b"12345678".to_vec()]);
}

#[test]
fn several_patterns() {
    let patterns: [&[u8]; 3] = [b"--------", b"********", b"########"];
    let input = b"first\n--------\nsecond\n********########\nthird\n################\nlast";
    let segments = split_all(input, &patterns);
    assert_eq!(
        segments,
        vec![
            b"first\n".to_vec(),
            b"\nsecond\n".to_vec(),
            b"\nthird\n".to_vec(),
            b"\nlast".to_vec(),
        ]
    );
}

#[test]
fn segments_and_delimiters_rejoin_to_input() {
    let input = b"a==bb====c==";
    let segments = split_eq("a==bb====c==");
    let mut rebuilt: Vec<u8> = Vec::new();
    // four delimiter occurrences; the segments are "a", "bb", "c"
    rebuilt.extend_from_slice(&segments[0]);
    rebuilt.extend_from_slice(b"==");
    rebuilt.extend_from_slice(&segments[1]);
    rebuilt.extend_from_slice(b"==");
    rebuilt.extend_from_slice(b"==");
    rebuilt.extend_from_slice(&segments[2]);
    rebuilt.extend_from_slice(b"==");
    assert_eq!(rebuilt, input.to_vec());
    assert!(segments.iter().all(|s| !s.is_empty()));
}

struct FailingReader;

impl Read for FailingReader {
    fn read(&mut self, _buf: &mut [u8]) -> std::io::Result<usize> {
        Err(std::io::Error::new(std::io::ErrorKind::Other, "broken source"))
    }
}

#[test]
fn read_error_surfaces() {
    let patterns: [&[u8]; 1] = [b"=="];
    let ac = AhoCorasick::new(&patterns).unwrap();
    let g = Rc::new(RefCell::new(Grow::new(FailingReader)));
    let mut matches = ac.stream_find_iter(GrowWrap(g.clone()));
    let mut iter = SplitByIter::new();
    let step = match matches.next() {
        Some(Err(e)) => MatchStep::Failed(e),
        _ => panic!("expected the stream to report the read failure"),
    };
    let item = {
        let mut gm = g.borrow_mut();
        iter._next(&mut gm, step)
    };
    assert!(should_emit(&item));
    match item {
        Some(Err(e)) => assert_eq!(e.kind(), std::io::ErrorKind::Other),
        _ => panic!("expected the failure to be handed through"),
    }
    // a failed step leaves the cursor untouched
    assert_eq!(iter.position(), 0);
}
