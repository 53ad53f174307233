use rand::distributions::{Distribution, Uniform};
use std::iter::repeat_with;

use vmcircbuffer::nonblocking::Circular;

#[test]
fn create_many() {
    let mut v = Vec::new();
    for _ in 0..100 {
        v.push(Circular::new::<u8>().unwrap());
    }
}

#[test]
fn zero_size() {
    let mut w = Circular::new::<u8>().unwrap();
    assert!(w.try_space() != 0);
}

#[test]
fn no_reader() {
    let mut w = Circular::new::<u8>().unwrap();
    let l = w.try_space();
    w.produce(l);
    assert!(w.try_space() != 0);
}

#[test]
fn late_reader() {
    let mut w = Circular::new::<u32>().unwrap();
    let l = w.try_space();
    assert!(l >= 200);
    for i in 0..200 {
        w.write_at(i, i as u32);
    }
    w.produce(100);

    let r = w.add_reader();
    assert_eq!(w.try_slice(&r).unwrap().len(), 0);
    w.produce(100);
    assert_eq!(w.try_slice(&r).unwrap().len(), 100);
    for (i, v) in w.try_slice(&r).unwrap().iter().enumerate() {
        assert_eq!(*v, 100 + i as u32);
    }
}

#[test]
fn several_readers() {
    let mut w = Circular::new::<u32>().unwrap();

    let r1 = w.add_reader();
    let r2 = w.add_reader();

    let all = w.try_space();
    for i in 0..all {
        w.write_at(i, i as u32);
    }
    assert_eq!(w.try_slice(&r1).unwrap().len(), 0);
    let l = w.try_space();
    w.produce(l);
    assert_eq!(w.try_slice(&r2).unwrap().len(), all);

    let _ = w.try_slice(&r1);
    w.consume(&r1, 100);

    assert_eq!(w.try_slice(&r1).unwrap().len(), all - 100);
    for (i, v) in w.try_slice(&r1).unwrap().iter().enumerate() {
        assert_eq!(*v, 100 + i as u32);
    }
}

#[test]
fn fuzz_sync() {
    let mut w = Circular::new::<u32>().unwrap();
    let r = w.add_reader();
    let size = w.try_space();

    let input: Vec<u32> = repeat_with(rand::random::<u32>).take(1231233).collect();

    let mut rng = rand::thread_rng();
    let n_writes_dist = Uniform::from(0..4);
    let n_samples_dist = Uniform::from(0..size / 2);

    let mut w_off = 0;
    let mut r_off = 0;

    while r_off < input.len() {
        let n_writes = n_writes_dist.sample(&mut rng);
        for _ in 0..n_writes {
            let s_len = w.try_space();
            let n = std::cmp::min(s_len, input.len() - w_off);
            let n = std::cmp::min(n, n_samples_dist.sample(&mut rng));

            for i in 0..n {
                w.write_at(i, input[w_off + i]);
            }
            w.produce(n);
            w_off += n;
        }

        let s = w.try_slice(&r).unwrap();
        assert_eq!(s.len(), w_off - r_off);

        for (i, v) in s.iter().enumerate() {
            assert_eq!(*v, input[r_off + i]);
        }
        let l = s.len();
        w.consume(&r, l);
        r_off += l;
    }
}

#[test]
fn circular_fuzz_nonblocking() {
    let mut w = Circular::new::<u32>().unwrap();
    let r = w.add_reader();
    let size = w.try_space();

    let input: Vec<u32> = repeat_with(rand::random::<u32>).take(1231233).collect();

    let mut rng = rand::thread_rng();
    let n_writes_dist = Uniform::from(0..4);
    let n_samples_dist = Uniform::from(0..size / 2);

    let mut w_off = 0;
    let mut r_off = 0;

    while r_off < input.len() {
        let n_writes = n_writes_dist.sample(&mut rng);
        for _ in 0..n_writes {
            let s_len = w.try_space();
            let n = std::cmp::min(s_len, input.len() - w_off);
            let n = std::cmp::min(n, n_samples_dist.sample(&mut rng));

            for i in 0..n {
                w.write_at(i, input[w_off + i]);
            }
            w.produce(n);
            w_off += n;
        }

        let s = w.try_slice(&r).unwrap();
        assert_eq!(s.len(), w_off - r_off);

        for (i, v) in s.iter().enumerate() {
            assert_eq!(*v, input[r_off + i]);
        }
        let l = s.len();
        w.consume(&r, l);
        r_off += l;
    }
}

#[test]
fn circular_minimal() {
    let mut w = Circular::new::<u32>().unwrap();
    let r = w.add_reader();

    let l = w.try_space();
    for i in 0..l {
        w.write_at(i, 123);
    }
    w.produce(l);

    for v in w.try_slice(&r).unwrap().iter() {
        assert_eq!(*v, 123);
    }
}

#[test]
fn drop_writer_eos() {
    let mut w = Circular::new::<u8>().unwrap();
    let r = w.add_reader();

    let l = w.try_space();
    assert!(l >= 17);
    for i in 0..17 {
        w.write_at(i, i as u8);
    }
    w.produce(17);
    w.close();

    let s = w.try_slice(&r).unwrap();
    assert_eq!(s.len(), 17);
    for (i, v) in s.iter().enumerate() {
        assert_eq!(*v, i as u8);
    }
    w.consume(&r, 17);
    assert!(w.try_slice(&r).is_none());
}

#[test]
fn wrap_around() {
    let mut w = Circular::new::<u32>().unwrap();
    let r = w.add_reader();

    let cap = w.try_space();
    for i in 0..cap {
        w.write_at(i, i as u32);
    }
    w.produce(cap - 5);
    let s = w.try_slice(&r).unwrap();
    assert_eq!(s.len(), cap - 5);
    w.consume(&r, cap - 5);

    // The writer window now straddles the end of the ring.
    let l = w.try_space();
    assert_eq!(l, cap);
    for i in 0..10 {
        w.write_at(i, 1000 + i as u32);
    }
    w.produce(10);

    // The reader window crosses the wrap boundary but is one contiguous run.
    let s = w.try_slice(&r).unwrap();
    assert_eq!(s.len(), 10);
    for (i, v) in s.iter().enumerate() {
        assert_eq!(*v, 1000 + i as u32);
    }
}

#[test]
fn wakeup_after_consume() {
    let mut w = Circular::new::<u8>().unwrap();
    let r = w.add_reader();

    let cap = w.try_space();
    w.produce(cap);
    assert_eq!(w.try_space(), 0);

    let _ = w.try_slice(&r);
    w.consume(&r, 1);
    assert_eq!(w.try_space(), 1);
}

#[test]
fn detached_reader_frees_space() {
    let mut w = Circular::new::<u8>().unwrap();
    let r1 = w.add_reader();
    let r2 = w.add_reader();

    let cap = w.try_space();
    w.produce(cap);
    assert_eq!(w.try_space(), 0);

    let _ = w.try_slice(&r1);
    w.consume(&r1, 100);
    // The slower reader still gates the writer.
    assert_eq!(w.try_space(), 0);

    w.detach(r2);
    assert_eq!(w.try_space(), 100);
}

#[test]
fn allocation_error() {
    let r = Circular::with_capacity::<u32>(usize::MAX);
    assert!(r.is_err());
}
