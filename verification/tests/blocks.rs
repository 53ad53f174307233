use std::cell::Cell;
use std::rc::Rc;

use vmcircbuffer::generic::Circular;
use vmcircbuffer::generic::Metadata;
use vmcircbuffer::generic::NoMetadata;
use vmcircbuffer::generic::Notifier;
use vmcircbuffer::nonblocking;
use vmcircbuffer::pipeline::CopyBlock;
use vmcircbuffer::pipeline::Middle;
use vmcircbuffer::pipeline::Sink;
use vmcircbuffer::pipeline::Source;
use vmcircbuffer::pipeline::VectorSource;

struct TestNotifier {
    armed: bool,
    fired: Rc<Cell<usize>>,
}

impl Notifier for TestNotifier {
    fn arm(&mut self) {
        self.armed = true;
    }
    fn notify(&mut self) {
        if self.armed {
            self.fired.set(self.fired.get() + 1);
            self.armed = false;
        }
    }
}

struct VecMeta {
    tags: Vec<(usize, u64)>,
}

impl Metadata for VecMeta {
    type Item = (usize, u64);

    fn new() -> Self {
        VecMeta { tags: Vec::new() }
    }
    fn add(&mut self, offset: usize, tags: &Vec<(usize, u64)>) {
        for t in tags.iter() {
            self.tags.push((offset + t.0, t.1));
        }
    }
    fn get(&self) -> Vec<(usize, u64)> {
        self.tags.clone()
    }
    fn consume(&mut self, items: usize) {
        let mut kept = Vec::new();
        for t in self.tags.iter() {
            if t.0 >= items {
                kept.push((t.0 - items, t.1));
            }
        }
        self.tags = kept;
    }
}

fn quiet() -> TestNotifier {
    TestNotifier { armed: false, fired: Rc::new(Cell::new(0)) }
}

#[test]
fn notifier_protocol() {
    let fired_r = Rc::new(Cell::new(0));
    let fired_w = Rc::new(Cell::new(0));

    let mut w = Circular::with_capacity::<u32, TestNotifier, NoMetadata>(0).unwrap();
    let r = w.add_reader(
        TestNotifier { armed: false, fired: fired_r.clone() },
        TestNotifier { armed: false, fired: fired_w.clone() },
    );

    // An empty reader window with `arm` set arms the reader notifier; the
    // next produce fires it exactly once.
    assert_eq!(r.slice(&mut w, true).unwrap().0.len(), 0);
    let cap = w.space(false);
    w.produce(1, Vec::new());
    assert_eq!(fired_r.get(), 1);

    // A produce of zero items fires nothing; a produce while the notifier
    // is disarmed fires nothing either.
    w.produce(0, Vec::new());
    assert_eq!(fired_r.get(), 1);
    w.produce(1, Vec::new());
    assert_eq!(fired_r.get(), 1);

    // Fill the buffer; a blocked writer with `arm` set arms the writer
    // notifier of the blocking reader, and that reader's next consume fires
    // it exactly once.
    let k = w.space(false);
    assert_eq!(k, cap - 2);
    w.produce(k, Vec::new());
    assert_eq!(w.space(true), 0);
    let _ = r.slice(&mut w, false);
    r.consume(&mut w, 1);
    assert_eq!(fired_w.get(), 1);

    // Consuming zero items or consuming while disarmed fires nothing.
    r.consume(&mut w, 0);
    assert_eq!(fired_w.get(), 1);
    r.consume(&mut w, 1);
    assert_eq!(fired_w.get(), 1);
}

#[test]
fn close_notifies_armed_reader() {
    let fired_r = Rc::new(Cell::new(0));

    let mut w = Circular::with_capacity::<u8, TestNotifier, NoMetadata>(0).unwrap();
    let r = w.add_reader(
        TestNotifier { armed: false, fired: fired_r.clone() },
        quiet(),
    );

    assert_eq!(r.slice(&mut w, true).unwrap().0.len(), 0);
    w.close();
    assert_eq!(fired_r.get(), 1);
    assert!(r.slice(&mut w, false).is_none());
}

#[test]
fn metadata_follows_reader_offsets() {
    let mut w = Circular::with_capacity::<u32, TestNotifier, VecMeta>(0).unwrap();
    let r = w.add_reader(quiet(), quiet());

    let _ = w.space(false);
    for i in 0..3 {
        w.write_at(i, i as u32);
    }
    // Backlog of the reader is 0, so the tag lands at window offset 0.
    w.produce(3, vec![(0, 7)]);

    let (v, tags) = r.slice(&mut w, false).unwrap();
    assert_eq!(v.len(), 3);
    assert_eq!(tags, vec![(0, 7)]);

    // Consuming one item prunes the tag and shifts the remaining offsets.
    r.consume(&mut w, 1);

    // Backlog is now 2, so a new tag at batch offset 0 lands at window
    // offset 2: right on the first of the new items.
    let _ = w.space(false);
    w.write_at(0, 77);
    w.write_at(1, 88);
    w.produce(2, vec![(0, 9)]);

    let (v, tags) = r.slice(&mut w, false).unwrap();
    assert_eq!(v.len(), 4);
    assert_eq!(v[2], 77);
    assert_eq!(tags, vec![(2, 9)]);
}

#[test]
fn source_in_chunks() {
    let data: Vec<u32> = (1..=10).collect();
    let mut src: Source<u32> = VectorSource::new(data);

    assert_eq!(src.fill(4).unwrap(), vec![1, 2, 3, 4]);
    assert_eq!(src.fill(4).unwrap(), vec![5, 6, 7, 8]);
    assert_eq!(src.fill(4).unwrap(), vec![9, 10]);
    assert!(src.fill(4).is_none());
    assert!(src.fill(0).is_none());
}

#[test]
fn copy_stage_is_identity() {
    let cpy: Middle<u32> = CopyBlock::new();
    let input: Vec<u32> = vec![5, 4, 3, 2, 1];
    assert_eq!(cpy.process(&input), input);
    assert_eq!(cpy.process(&Vec::new()), Vec::<u32>::new());
}

#[test]
fn sink_collects_in_order() {
    let mut snk: Sink<u32> = Sink::new(8);
    snk.accumulate(&vec![1, 2, 3]);
    snk.accumulate(&Vec::new());
    snk.accumulate(&vec![4, 5]);
    assert_eq!(snk.into_items(), vec![1, 2, 3, 4, 5]);
}

#[test]
fn pipeline_roundtrip() {
    let data: Vec<u32> = (0..5000).collect();
    let mut src = VectorSource::new(data.clone());
    let cpy: Middle<u32> = CopyBlock::new();
    let mut snk: Sink<u32> = Sink::new(data.len());

    let mut w1 = nonblocking::Circular::new::<u32>().unwrap();
    let r1 = w1.add_reader();
    let mut w2 = nonblocking::Circular::new::<u32>().unwrap();
    let r2 = w2.add_reader();

    loop {
        let k = w1.try_space();
        match src.fill(k) {
            Some(chunk) => {
                for (i, v) in chunk.iter().enumerate() {
                    w1.write_at(i, *v);
                }
                w1.produce(chunk.len());
            }
            None => w1.close(),
        }

        match w1.try_slice(&r1) {
            Some(s) => {
                let out = cpy.process(&s);
                let k2 = w2.try_space();
                assert!(out.len() <= k2);
                for (i, v) in out.iter().enumerate() {
                    w2.write_at(i, *v);
                }
                w2.produce(out.len());
                w1.consume(&r1, s.len());
            }
            None => w2.close(),
        }

        match w2.try_slice(&r2) {
            Some(s) => {
                snk.accumulate(&s);
                w2.consume(&r2, s.len());
            }
            None => break,
        }
    }

    assert_eq!(snk.into_items(), data);
}
